//! Push-notification registry of a demand-response server: per-client
//! bounded delivery buffers, single-owner channel binding, the forwarding
//! loop's decisions and the channel admission rules.

pub mod buffer;
pub mod delivery_laws;
pub mod client;
pub mod notification;
pub mod registry;
pub mod registry_laws;
pub mod session;
pub mod admission;
pub mod capability;
