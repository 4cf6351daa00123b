//! The guarantees of the router and registry that relate several
//! operations, stated over the models that their contracts use.

use vstd::prelude::*;
use crate::envelope::{envelope_valid, EnvelopeModel};
use crate::registry::{offer, offer_all, reg_contains, PeerModel};
use crate::router::valid_texts;

verus! {

/// A frame holding one valid envelope is ingested exactly once, and one
/// broadcast enqueue of its text is attempted: routing it has exactly the
/// effect of a single offer of that text.
pub proof fn lemma_single_valid_envelope(p: PeerModel, origin: Seq<char>, e: EnvelopeModel)
    requires
        envelope_valid(e),
    ensures
        valid_texts(seq![e]) == seq![e.text],
        offer_all(p, origin, valid_texts(seq![e])) == offer(p, origin, e.text),
{
    assert(valid_texts(Seq::<EnvelopeModel>::empty()) == Seq::<Seq<char>>::empty());
    assert(seq![e].drop_last() =~= Seq::<EnvelopeModel>::empty());
    assert(valid_texts(seq![e]) =~= seq![e.text]);
    assert(seq![e.text].drop_last() =~= Seq::<Seq<char>>::empty());
    assert(offer_all(p, origin, Seq::<Seq<char>>::empty()) == p);
    assert(seq![e.text].last() == e.text);
    assert(offer_all(p, origin, seq![e.text]) == offer(p, origin, e.text));
}

/// What one offer of a valid envelope's text does to each registered
/// peer: the origin is never enqueued to; every other peer receives the
/// text at the back of its queue exactly once when the queue has room;
/// a peer whose queue is at capacity drops it, leaving its queue — and
/// every other peer's — unchanged.
pub proof fn lemma_valid_envelope_fanout(
    r0: Seq<PeerModel>,
    r1: Seq<PeerModel>,
    origin: Seq<char>,
    e: EnvelopeModel,
    i: int,
)
    requires
        envelope_valid(e),
        r1.len() == r0.len(),
        forall|k: int| 0 <= k < r0.len() ==> #[trigger] r1[k] == offer(r0[k], origin, e.text),
        0 <= i < r0.len(),
    ensures
        r0[i].id == origin ==> r1[i].queue == r0[i].queue,
        r0[i].id != origin && r0[i].queue.len() < r0[i].capacity ==> r1[i].queue
            == r0[i].queue.push(e.text),
        r0[i].id != origin && r0[i].queue.len() >= r0[i].capacity ==> r1[i].queue == r0[i].queue,
{
}

/// An envelope missing its correlation id, or missing both the read and
/// the write field, is dropped: nothing is ingested and no enqueue
/// occurs anywhere.
pub proof fn lemma_invalid_envelope_dropped(p: PeerModel, origin: Seq<char>, e: EnvelopeModel)
    requires
        !envelope_valid(e),
    ensures
        valid_texts(seq![e]) == Seq::<Seq<char>>::empty(),
        offer_all(p, origin, valid_texts(seq![e])) == p,
{
    assert(valid_texts(Seq::<EnvelopeModel>::empty()) == Seq::<Seq<char>>::empty());
    assert(seq![e].drop_last() =~= Seq::<EnvelopeModel>::empty());
    assert(valid_texts(seq![e]) =~= Seq::<Seq<char>>::empty());
    assert(offer_all(p, origin, Seq::<Seq<char>>::empty()) == p);
}

/// A batch of a valid envelope followed by an invalid one has exactly the
/// effect of the valid envelope alone: the first is ingested and offered
/// once, the second is dropped, and nothing else changes order.
pub proof fn lemma_batch_drops_invalid(
    p: PeerModel,
    origin: Seq<char>,
    e1: EnvelopeModel,
    e2: EnvelopeModel,
)
    requires
        envelope_valid(e1),
        !envelope_valid(e2),
    ensures
        valid_texts(seq![e1, e2]) == seq![e1.text],
        offer_all(p, origin, valid_texts(seq![e1, e2])) == offer(p, origin, e1.text),
{
    assert(seq![e1, e2].drop_last() =~= seq![e1]);
    lemma_single_valid_envelope(p, origin, e1);
    assert(valid_texts(seq![e1, e2]) =~= seq![e1.text]);
}

/// Offering texts to a peer never changes its identity or its capacity:
/// broadcast touches queues only.
pub proof fn lemma_offer_all_preserves_identity(
    p: PeerModel,
    origin: Seq<char>,
    texts: Seq<Seq<char>>,
)
    ensures
        offer_all(p, origin, texts).id == p.id,
        offer_all(p, origin, texts).capacity == p.capacity,
    decreases texts.len(),
{
    if texts.len() > 0 {
        lemma_offer_all_preserves_identity(p, origin, texts.drop_last());
    }
}

/// A peer absent from the registry is targeted by no broadcast: after any
/// routing step it is still absent, so no enqueue for it can ever occur.
pub proof fn lemma_absent_peer_never_targeted(
    r0: Seq<PeerModel>,
    r1: Seq<PeerModel>,
    origin: Seq<char>,
    texts: Seq<Seq<char>>,
    id: Seq<char>,
)
    requires
        !reg_contains(r0, id),
        r1.len() == r0.len(),
        forall|k: int| 0 <= k < r0.len() ==> #[trigger] r1[k] == offer_all(r0[k], origin, texts),
    ensures
        !reg_contains(r1, id),
{
    assert forall|k: int| 0 <= k < r1.len() implies (#[trigger] r1[k]).id != id by {
        lemma_offer_all_preserves_identity(r0[k], origin, texts);
        assert(r0[k].id != id);
    }
}

} // verus!
