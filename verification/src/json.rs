//! Reading the fields that the relay rules look at out of a client's JSON
//! message. Parsing is serde_json's; this module names what it yields.

use vstd::prelude::*;
use crate::registry::opt_view;

verus! {

#[verifier::external_type_specification]
#[verifier::external_body]
pub struct ExJsonValue(serde_json::Value);

#[verifier::external_type_specification]
#[verifier::external_body]
pub struct ExJsonError(serde_json::Error);

/// Whether serde_json accepts the text as one JSON document.
pub uninterp spec fn json_accepts(text: Seq<char>) -> bool;

/// The document serde_json parses from a text it accepts.
pub uninterp spec fn json_doc(text: Seq<char>) -> serde_json::Value;

/// The error serde_json reports for a text it does not accept.
pub uninterp spec fn json_parse_error(text: Seq<char>) -> serde_json::Error;

/// The text of a serde_json error (its `Display`: the description, then
/// the line and column where it was found).
pub uninterp spec fn json_error_display(err: serde_json::Error) -> Seq<char>;

/// What serde_json says of a text it does not accept.
pub open spec fn json_error_message(text: Seq<char>) -> Seq<char> {
    json_error_display(json_parse_error(text))
}

/// The members of a JSON document that hold a number representable as a
/// `u64`, by key; empty unless the document is an object.
pub uninterp spec fn json_u64_members(doc: serde_json::Value) -> Map<Seq<char>, u64>;

/// The members of a JSON document that hold a string, by key; empty unless
/// the document is an object.
pub uninterp spec fn json_str_members(doc: serde_json::Value) -> Map<Seq<char>, Seq<char>>;

/// The entry of a map under a key.
pub open spec fn entry<V>(m: Map<Seq<char>, V>, key: Seq<char>) -> Option<V> {
    if m.dom().contains(key) {
        Some(m[key])
    } else {
        None
    }
}

/// Calls `serde_json::from_str::<serde_json::Value>`. Claimed: it succeeds
/// exactly on the texts serde_json accepts (`json_accepts`); the document
/// and the error are functions of the text (`json_doc`,
/// `json_parse_error`).
#[verifier::external_body]
fn parse_json(raw: &str) -> (res: Result<serde_json::Value, serde_json::Error>)
    ensures
        res is Ok <==> json_accepts(raw@),
        res matches Ok(doc) ==> doc == json_doc(raw@),
        res matches Err(err) ==> err == json_parse_error(raw@),
{
    serde_json::from_str::<serde_json::Value>(raw)
}

/// Calls `serde_json::Value::get` with a key and `Value::as_u64` on the
/// member. Claimed: the result is the document's `u64` member under the key.
#[verifier::external_body]
fn json_u64_member(doc: &serde_json::Value, key: &str) -> (res: Option<u64>)
    ensures
        res == entry(json_u64_members(*doc), key@),
{
    match doc.get(key) {
        Some(member) => member.as_u64(),
        None => None,
    }
}

/// Calls `serde_json::Value::get` with a key and `Value::as_str` on the
/// member. Claimed: the result is the document's string member under the
/// key.
#[verifier::external_body]
fn json_str_member(doc: &serde_json::Value, key: &str) -> (res: Option<String>)
    ensures
        opt_view(res) == entry(json_str_members(*doc), key@),
{
    match doc.get(key) {
        Some(member) => member.as_str().map(String::from),
        None => None,
    }
}

/// Calls `ToString::to_string` on a serde_json error (its `Display`).
/// Claimed: the result is `json_error_display` of the error.
#[verifier::external_body]
fn json_error_text(err: &serde_json::Error) -> (res: String)
    ensures
        res@ == json_error_display(*err),
{
    err.to_string()
}

/// The fields of an incoming message that the relay rules read.
#[derive(Debug)]
pub struct Envelope {
    /// `type`, when it is a non-negative integer.
    pub msg_type: Option<u64>,
    /// `platform`, when it is a string.
    pub platform: Option<String>,
    /// `gpu`, when it is a string.
    pub gpu: Option<String>,
    /// `ws1Id`, the sender a receiver addresses, when it is a string.
    pub ws1_id: Option<String>,
    /// `ws2Id`, the receiver a sender addresses, when it is a string.
    pub ws2_id: Option<String>,
}

pub struct EnvelopeView {
    pub msg_type: Option<u64>,
    pub platform: Option<Seq<char>>,
    pub gpu: Option<Seq<char>>,
    pub ws1_id: Option<Seq<char>>,
    pub ws2_id: Option<Seq<char>>,
}

impl View for Envelope {
    type V = EnvelopeView;

    open spec fn view(&self) -> EnvelopeView {
        EnvelopeView {
            msg_type: self.msg_type,
            platform: opt_view(self.platform),
            gpu: opt_view(self.gpu),
            ws1_id: opt_view(self.ws1_id),
            ws2_id: opt_view(self.ws2_id),
        }
    }
}

pub open spec fn type_key() -> Seq<char> {
    seq!['t', 'y', 'p', 'e']
}

pub open spec fn platform_key() -> Seq<char> {
    seq!['p', 'l', 'a', 't', 'f', 'o', 'r', 'm']
}

pub open spec fn gpu_key() -> Seq<char> {
    seq!['g', 'p', 'u']
}

pub open spec fn ws1_key() -> Seq<char> {
    seq!['w', 's', '1', 'I', 'd']
}

pub open spec fn ws2_key() -> Seq<char> {
    seq!['w', 's', '2', 'I', 'd']
}

/// The envelope of a parsed JSON document.
pub open spec fn envelope_of(doc: serde_json::Value) -> EnvelopeView {
    EnvelopeView {
        msg_type: entry(json_u64_members(doc), type_key()),
        platform: entry(json_str_members(doc), platform_key()),
        gpu: entry(json_str_members(doc), gpu_key()),
        ws1_id: entry(json_str_members(doc), ws1_key()),
        ws2_id: entry(json_str_members(doc), ws2_key()),
    }
}

/// Reads the envelope fields of a parsed document.
pub fn read_envelope(doc: &serde_json::Value) -> (res: Envelope)
    ensures
        res@ == envelope_of(*doc),
{
    proof {
        reveal_strlit("type");
        reveal_strlit("platform");
        reveal_strlit("gpu");
        reveal_strlit("ws1Id");
        reveal_strlit("ws2Id");
    }
    let k_type = "type";
    let k_platform = "platform";
    let k_gpu = "gpu";
    let k_ws1 = "ws1Id";
    let k_ws2 = "ws2Id";
    assert(k_type@ =~= type_key());
    assert(k_platform@ =~= platform_key());
    assert(k_gpu@ =~= gpu_key());
    assert(k_ws1@ =~= ws1_key());
    assert(k_ws2@ =~= ws2_key());
    Envelope {
        msg_type: json_u64_member(doc, k_type),
        platform: json_str_member(doc, k_platform),
        gpu: json_str_member(doc, k_gpu),
        ws1_id: json_str_member(doc, k_ws1),
        ws2_id: json_str_member(doc, k_ws2),
    }
}

/// What reading a message text yields: the envelope of its document, or
/// serde_json's description of why the text is not JSON.
pub open spec fn parsed_message(raw: Seq<char>) -> Result<EnvelopeView, Seq<char>> {
    if json_accepts(raw) {
        Ok(envelope_of(json_doc(raw)))
    } else {
        Err(json_error_message(raw))
    }
}

/// Parses a client's message: its envelope, or serde_json's description of
/// why the text is not JSON.
pub fn parse_envelope(raw: &str) -> (res: Result<Envelope, String>)
    ensures
        res is Ok <==> json_accepts(raw@),
        res matches Ok(env) ==> env@ == envelope_of(json_doc(raw@)),
        res matches Err(message) ==> message@ == json_error_message(raw@),
{
    match parse_json(raw) {
        Ok(doc) => Ok(read_envelope(&doc)),
        Err(err) => Err(json_error_text(&err)),
    }
}

} // verus!
