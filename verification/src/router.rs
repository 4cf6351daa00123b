//! The message router: decodes an inbound text frame, validates each
//! envelope, and dispatches the valid ones — each is returned for
//! ingestion, in frame order, and offered to every registered peer other
//! than the origin by a best-effort enqueue.

use vstd::prelude::*;
use crate::envelope::{Envelope, EnvelopeModel, envelope_valid};
use crate::json::{decode_frame, frame_envelopes, json_wellformed};
use crate::registry::{offer, offer_all, reg_wf, lemma_deep_view_push, PeerRegistry};

verus! {

/// The texts of the valid envelopes of a batch, in batch order.
pub open spec fn valid_texts(envs: Seq<EnvelopeModel>) -> Seq<Seq<char>>
    decreases envs.len(),
{
    if envs.len() == 0 {
        Seq::empty()
    } else {
        valid_texts(envs.drop_last()) + if envelope_valid(envs.last()) {
            seq![envs.last().text]
        } else {
            Seq::empty()
        }
    }
}

/// Validates and dispatches a decoded batch in order: the texts of the
/// valid envelopes come back for ingestion, and each of them is offered
/// to every registered peer other than the origin; invalid envelopes are
/// dropped with no effect.
pub fn route_batch(reg: &mut PeerRegistry, origin: &String, envelopes: &Vec<Envelope>) -> (to_ingest:
    Vec<String>)
    requires
        reg_wf(old(reg)@),
    ensures
        reg_wf(final(reg)@),
        final(reg)@.len() == old(reg)@.len(),
        to_ingest.deep_view() == valid_texts(envelopes.deep_view()),
        forall|k: int|
            0 <= k < old(reg)@.len() ==> #[trigger] final(reg)@[k] == offer_all(
                old(reg)@[k],
                origin@,
                valid_texts(envelopes.deep_view()),
            ),
{
    let mut to_ingest: Vec<String> = Vec::new();
    let n = envelopes.len();
    let mut i: usize = 0;
    proof {
        assert(envelopes.deep_view().take(0) =~= Seq::<EnvelopeModel>::empty());
        assert(to_ingest.deep_view() =~= Seq::<Seq<char>>::empty());
    }
    while i < n
        invariant
            reg_wf(reg@),
            n == envelopes@.len(),
            i <= n,
            reg@.len() == old(reg)@.len(),
            to_ingest.deep_view() == valid_texts(envelopes.deep_view().take(i as int)),
            forall|k: int|
                0 <= k < old(reg)@.len() ==> #[trigger] reg@[k] == offer_all(
                    old(reg)@[k],
                    origin@,
                    valid_texts(envelopes.deep_view().take(i as int)),
                ),
        decreases n - i,
    {
        let ghost texts0 = valid_texts(envelopes.deep_view().take(i as int));
        let e = &envelopes[i];
        proof {
            assert(envelopes.deep_view().take(i + 1).drop_last() =~= envelopes.deep_view().take(
                i as int,
            ));
            assert(envelopes.deep_view().take(i + 1).last() == e.deep_view());
        }
        let ghost texts1 = valid_texts(envelopes.deep_view().take(i + 1));
        if e.is_valid() {
            proof {
                assert(texts1 =~= texts0.push(e@.text));
            }
            let ghost ti0 = to_ingest;
            let text = e.text.clone();
            to_ingest.push(text);
            proof {
                lemma_deep_view_push(ti0, to_ingest, e.text);
            }
            let ghost regpre = reg@;
            reg.fan_out(origin, &e.text);
            proof {
                assert(texts1.drop_last() =~= texts0);
                assert forall|k: int| 0 <= k < old(reg)@.len() implies #[trigger] reg@[k]
                    == offer_all(old(reg)@[k], origin@, texts1) by {
                    assert(reg@[k] == offer(regpre[k], origin@, e@.text));
                    assert(regpre[k] == offer_all(old(reg)@[k], origin@, texts0));
                    assert(offer_all(old(reg)@[k], origin@, texts1) == offer(
                        offer_all(old(reg)@[k], origin@, texts1.drop_last()),
                        origin@,
                        texts1.last(),
                    ));
                }
            }
        } else {
            proof {
                assert(texts1 =~= texts0);
            }
        }
        i += 1;
    }
    proof {
        assert(envelopes.deep_view().take(n as int) =~= envelopes.deep_view());
    }
    to_ingest
}

/// Routes one inbound text frame: a frame that is not well-formed JSON
/// is dropped with no effect; otherwise the returned texts are exactly
/// the texts of the frame's valid envelopes, in frame order, and every
/// registered peer other than the origin has been offered exactly those
/// texts in that order.
pub fn route(reg: &mut PeerRegistry, origin: &String, raw: &str) -> (to_ingest: Vec<String>)
    requires
        reg_wf(old(reg)@),
    ensures
        reg_wf(final(reg)@),
        final(reg)@.len() == old(reg)@.len(),
        forall|k: int|
            0 <= k < old(reg)@.len() ==> #[trigger] final(reg)@[k] == offer_all(
                old(reg)@[k],
                origin@,
                to_ingest.deep_view(),
            ),
        json_wellformed(raw@) ==> to_ingest.deep_view() == valid_texts(frame_envelopes(raw@)),
        !json_wellformed(raw@) ==> final(reg)@ == old(reg)@ && to_ingest@.len() == 0,
{
    match decode_frame(raw) {
        Option::None => {
            let out: Vec<String> = Vec::new();
            proof {
                assert(out.deep_view() =~= Seq::<Seq<char>>::empty());
                assert(out.deep_view().len() == 0);
            }
            out
        },
        Option::Some(envs) => route_batch(reg, origin, &envs),
    }
}

} // verus!
