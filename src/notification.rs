//! Server-originated notifications and the text frame each one becomes on
//! the wire: `{"type":<kind as a JSON string>,"payload":<payload JSON>}`.

use vstd::prelude::*;
use vstd::string::StringExecFns;

verus! {

/// The lower-case hexadecimal digit of `n`, which is below 16.
pub open spec fn hex_digit(n: u32) -> char {
    seq!['0', '1', '2', '3', '4', '5', '6', '7', '8', '9', 'a', 'b', 'c', 'd', 'e', 'f'][n as int]
}

/// How one character is written inside a JSON string: quote and backslash
/// are escaped, the control characters with a short form use it, the other
/// control characters are written as `\u00XX`, and every other character
/// stands for itself.
pub open spec fn json_escaped(c: char) -> Seq<char> {
    let n = c as u32;
    if c == '"' {
        seq!['\\', '"']
    } else if c == '\\' {
        seq!['\\', '\\']
    } else if n == 8 {
        seq!['\\', 'b']
    } else if n == 9 {
        seq!['\\', 't']
    } else if n == 10 {
        seq!['\\', 'n']
    } else if n == 12 {
        seq!['\\', 'f']
    } else if n == 13 {
        seq!['\\', 'r']
    } else if n < 32 {
        seq!['\\', 'u', '0', '0', hex_digit(n / 16), hex_digit(n % 16)]
    } else {
        seq![c]
    }
}

/// The characters of `s`, each written as inside a JSON string.
pub open spec fn json_escape_all(s: Seq<char>) -> Seq<char>
    decreases s.len(),
{
    if s.len() == 0 {
        Seq::empty()
    } else {
        json_escape_all(s.drop_last()) + json_escaped(s.last())
    }
}

/// The JSON string literal (quotes and escapes included) that spells `s`.
pub open spec fn json_quoted(s: Seq<char>) -> Seq<char> {
    seq!['"'] + json_escape_all(s) + seq!['"']
}

/// Whether `s` is the text of exactly one JSON value.
pub uninterp spec fn is_json_document(s: Seq<char>) -> bool;

/// Relies on `serde_json::to_string` applied to a `str`: it writes the
/// escaped string into a `Vec`, which cannot fail, and yields the JSON
/// string literal for the text.
#[verifier::external_body]
fn quote_json(s: &str) -> (r: Option<String>)
    ensures
        r is Some,
        r matches Some(q) ==> q@ == json_quoted(s@),
{
    serde_json::to_string(s).ok()
}

/// Relies on `serde_json::from_str::<serde_json::Value>`: it succeeds
/// exactly when the text is one JSON value.
#[verifier::external_body]
fn parses_as_json(s: &str) -> (r: bool)
    ensures
        r == is_json_document(s@),
{
    serde_json::from_str::<serde_json::Value>(s).is_ok()
}

/// The frame for a notification whose kind is spelled `quoted_kind` in JSON
/// and whose payload is the JSON text `payload`.
pub open spec fn frame_text(quoted_kind: Seq<char>, payload: Seq<char>) -> Seq<char> {
    "{\"type\":"@ + quoted_kind + ",\"payload\":"@ + payload + "}"@
}

/// A tagged notification: a kind and a JSON payload, kept as text until the
/// forwarding loop serialises it.
#[derive(Debug)]
pub struct Notification {
    pub kind: String,
    pub payload: String,
}

impl Notification {
    pub fn new(kind: String, payload: String) -> (r: Self)
        ensures
            r.kind@ == kind@,
            r.payload@ == payload@,
    {
        Notification { kind, payload }
    }

    /// An equal notification, for handing one message to several buffers.
    pub fn duplicate(&self) -> (r: Notification)
        ensures
            r == *self,
    {
        Notification { kind: self.kind.clone(), payload: self.payload.clone() }
    }
}

/// Builds the frame from the results of quoting the kind and checking the
/// payload. There is no frame when either of them failed.
pub fn assemble_frame(quoted_kind: &Option<String>, payload: &str, payload_valid: bool) -> (r:
    Option<String>)
    ensures
        r matches Some(f) <==> (payload_valid && quoted_kind is Some),
        r matches Some(f) ==> f@ == frame_text(quoted_kind->Some_0@, payload@),
{
    match quoted_kind {
        Some(q) => {
            if payload_valid {
                let mut f = String::from_str("{\"type\":");
                f.append(q.as_str());
                f.append(",\"payload\":");
                f.append(payload);
                f.append("}");
                Some(f)
            } else {
                None
            }
        },
        None => None,
    }
}

/// Serialises a notification into its text frame. A payload that is not
/// JSON gives no frame; the message is then dropped alone.
pub fn encode_frame(n: &Notification) -> (r: Option<String>)
    ensures
        r is Some <==> is_json_document(n.payload@),
        r matches Some(f) ==> f@ == frame_text(json_quoted(n.kind@), n.payload@),
{
    let quoted = quote_json(n.kind.as_str());
    let valid = parses_as_json(n.payload.as_str());
    assemble_frame(&quoted, n.payload.as_str(), valid)
}

} // verus!
