//! The JSON boundary of the router: an inbound frame is parsed with
//! serde_json and reduced to the [`Envelope`]s the router reads — for an
//! array frame its elements in order, for any other frame the single
//! value — each carrying the three field-presence bits that validation
//! reads and the re-serialized text that a broadcast forwards.

use vstd::prelude::*;
use crate::envelope::Envelope;

verus! {

/// Whether a text is well-formed JSON: what `serde_json::from_str` accepts.
pub uninterp spec fn json_wellformed(s: Seq<char>) -> bool;

/// The envelopes of a well-formed frame: for each element (of the array,
/// or the single value), whether its `"#"`, `"get"` and `"put"` fields are
/// present and non-null, and its re-serialized text. A function of the
/// frame text alone.
pub uninterp spec fn frame_envelopes(s: Seq<char>) -> Seq<crate::envelope::EnvelopeModel>;

/// Relies on serde_json: `from_str` accepts exactly the well-formed
/// texts and is deterministic in the text alone; `Value::as_array` gives
/// an array's elements in order; `Value::get` gives an object's member
/// under a key, `None` for any other value or an absent key (so a member
/// counts as present only when `Value::is_null` denies it, as the
/// router's validation reads it); `Value`'s `Display` impl re-serializes
/// the element. The reduction of each element to its presence bits and
/// text is what `frame_envelopes` names.
#[verifier::external_body]
fn parse_frame(s: &str) -> (r: Option<Vec<Envelope>>)
    ensures
        r is Some <==> json_wellformed(s@),
        r matches Some(v) ==> v.deep_view() == frame_envelopes(s@),
{
    let parsed: serde_json::Value = serde_json::from_str(s).ok()?;
    let elems = match parsed.as_array() {
        Some(a) => a.clone(),
        None => vec![parsed],
    };
    let mut out: Vec<Envelope> = Vec::new();
    for e in elems.iter() {
        out.push(Envelope {
            has_correlation: e.get("#").map_or(false, |m| !m.is_null()),
            has_read: e.get("get").map_or(false, |m| !m.is_null()),
            has_write: e.get("put").map_or(false, |m| !m.is_null()),
            text: e.to_string(),
        });
    }
    Some(out)
}

/// Decodes one inbound text frame: `None` when the text is not
/// well-formed JSON, otherwise exactly the frame's envelopes.
pub fn decode_frame(raw: &str) -> (r: Option<Vec<Envelope>>)
    ensures
        r is Some <==> json_wellformed(raw@),
        r matches Some(v) ==> v.deep_view() == frame_envelopes(raw@),
{
    parse_frame(raw)
}

} // verus!
