//! The envelope model: what the router reads of one inbound update unit.
//!
//! An envelope's internal structure is opaque to this component; only the
//! presence of its correlation-id field (`"#"`) and of its read (`"get"`) /
//! write (`"put"`) payload fields is load-bearing, together with the
//! re-serialized text that a broadcast forwards.

use vstd::prelude::*;

verus! {

/// Mathematical model of an envelope: the three presence bits and the
/// serialized text that is rebroadcast.
#[verifier::ext_equal]
pub struct EnvelopeModel {
    pub has_correlation: bool,
    pub has_read: bool,
    pub has_write: bool,
    pub text: Seq<char>,
}

/// One decoded inbound update unit, reduced to what routing reads of it.
#[derive(Clone)]
pub struct Envelope {
    /// The correlation-id field (`"#"`) is present and non-null.
    pub has_correlation: bool,
    /// The read field (`"get"`) is present and non-null.
    pub has_read: bool,
    /// The write field (`"put"`) is present and non-null.
    pub has_write: bool,
    /// The envelope re-serialized, as a broadcast forwards it.
    pub text: String,
}

impl View for Envelope {
    type V = EnvelopeModel;

    open spec fn view(&self) -> EnvelopeModel {
        EnvelopeModel {
            has_correlation: self.has_correlation,
            has_read: self.has_read,
            has_write: self.has_write,
            text: self.text@,
        }
    }
}

impl DeepView for Envelope {
    type V = EnvelopeModel;

    open spec fn deep_view(&self) -> EnvelopeModel {
        self.view()
    }
}

/// An envelope is valid when it carries a correlation id and at least one
/// of a read or a write payload.
pub open spec fn envelope_valid(e: EnvelopeModel) -> bool {
    e.has_correlation && (e.has_read || e.has_write)
}

impl Envelope {
    /// Validity as routing tests it: correlation id present, and at least
    /// one of the read or write fields present.
    pub fn is_valid(&self) -> (r: bool)
        ensures
            r == envelope_valid(self@),
    {
        self.has_correlation && (self.has_read || self.has_write)
    }
}

} // verus!
