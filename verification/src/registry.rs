//! The peer registry: a mapping from peer identifier to that peer's bounded
//! outbound queue. Identifiers are unique; a queue never exceeds its
//! capacity; enqueueing past capacity is a silent drop. The registry's size
//! is the connection count that is republished after every membership change.
//!
//! Design note: the shared map of bounded channels that this component
//! amounts to is represented directly — peers in a `Vec` whose invariant
//! keeps identifiers unique, each outbound queue a bounded `Vec` drained
//! front-first — so the membership and queue semantics the router relies
//! on are stated and proved here rather than assumed of an outside
//! collection. The locking and the tasks that share and drain this
//! structure stand outside the library.

use vstd::prelude::*;

verus! {

/// Mathematical model of one registered peer.
#[verifier::ext_equal]
pub struct PeerModel {
    pub id: Seq<char>,
    pub capacity: nat,
    pub queue: Seq<Seq<char>>,
}

/// One registered peer: a string identifier and a bounded outbound queue,
/// drained front-first by the peer's forwarder.
pub struct Peer {
    pub id: String,
    pub capacity: usize,
    pub queue: Vec<String>,
}

impl View for Peer {
    type V = PeerModel;

    open spec fn view(&self) -> PeerModel {
        PeerModel {
            id: self.id@,
            capacity: self.capacity as nat,
            queue: self.queue.deep_view(),
        }
    }
}

/// The registry of currently connected peers.
pub struct PeerRegistry {
    pub peers: Vec<Peer>,
}

impl View for PeerRegistry {
    type V = Seq<PeerModel>;

    open spec fn view(&self) -> Seq<PeerModel> {
        Seq::new(self.peers@.len(), |i: int| self.peers@[i]@)
    }
}

/// Registry well-formedness: identifiers are unique and every queue is
/// within its capacity.
pub open spec fn reg_wf(r: Seq<PeerModel>) -> bool {
    &&& forall|i: int, j: int|
        0 <= i < r.len() && 0 <= j < r.len() && i != j ==> (#[trigger] r[i]).id != (
        #[trigger] r[j]).id
    &&& forall|i: int| 0 <= i < r.len() ==> (#[trigger] r[i]).queue.len() <= r[i].capacity
}

/// Whether an identifier is registered.
pub open spec fn reg_contains(r: Seq<PeerModel>, id: Seq<char>) -> bool {
    exists|i: int| 0 <= i < r.len() && (#[trigger] r[i]).id == id
}

/// The index of a registered identifier (unique under `reg_wf`).
pub open spec fn reg_index_of(r: Seq<PeerModel>, id: Seq<char>) -> int {
    choose|i: int| 0 <= i < r.len() && (#[trigger] r[i]).id == id
}

/// One best-effort enqueue: the peer keeps its queue unchanged when it is
/// the origin or its queue is full, and receives the text at the back
/// otherwise.
pub open spec fn offer(p: PeerModel, origin: Seq<char>, text: Seq<char>) -> PeerModel {
    if p.id == origin || p.queue.len() >= p.capacity {
        p
    } else {
        PeerModel { queue: p.queue.push(text), ..p }
    }
}

/// Best-effort enqueues of a sequence of texts, in order.
pub open spec fn offer_all(p: PeerModel, origin: Seq<char>, texts: Seq<Seq<char>>) -> PeerModel
    decreases texts.len(),
{
    if texts.len() == 0 {
        p
    } else {
        offer(offer_all(p, origin, texts.drop_last()), origin, texts.last())
    }
}

/// Pushing a string onto a `Vec<String>` pushes its view onto the deep view.
pub proof fn lemma_deep_view_push(v0: Vec<String>, v1: Vec<String>, s: String)
    requires
        v1@ == v0@.push(s),
    ensures
        v1.deep_view() == v0.deep_view().push(s@),
{
    assert(v1.deep_view() =~= v0.deep_view().push(s@)) by {
        assert forall|i: int| 0 <= i < v1@.len() implies v1.deep_view()[i] == v0.deep_view().push(
            s@,
        )[i] by {
            if i < v0@.len() {
                assert(v1@[i] == v0@[i]);
            } else {
                assert(v1@[i] == s);
            }
        }
    }
}

/// Removing the front of a `Vec<String>` drops the front of the deep view.
pub proof fn lemma_deep_view_drop_first(v0: Vec<String>, v1: Vec<String>)
    requires
        v0@.len() > 0,
        v1@ == v0@.remove(0),
    ensures
        v1.deep_view() == v0.deep_view().drop_first(),
{
    assert(v1.deep_view() =~= v0.deep_view().drop_first()) by {
        assert forall|i: int| 0 <= i < v1@.len() implies v1.deep_view()[i]
            == v0.deep_view().drop_first()[i] by {
            assert(v1@[i] == v0@[i + 1]);
        }
    }
}

impl PeerRegistry {
    /// An empty registry.
    pub fn new() -> (r: Self)
        ensures
            r@ == Seq::<PeerModel>::empty(),
            reg_wf(r@),
    {
        let r = PeerRegistry { peers: Vec::new() };
        proof {
            assert(r@ =~= Seq::<PeerModel>::empty());
        }
        r
    }

    /// The connection count: the number of registered peers.
    pub fn count(&self) -> (n: usize)
        ensures
            n == self@.len(),
    {
        self.peers.len()
    }

    /// The index of a registered identifier, if present.
    fn find(&self, id: &String) -> (r: Option<usize>)
        ensures
            match r {
                Option::Some(i) => i < self@.len() && self@[i as int].id == id@,
                Option::None => !reg_contains(self@, id@),
            },
    {
        let n = self.peers.len();
        let mut i: usize = 0;
        while i < n
            invariant
                n == self.peers@.len(),
                i <= n,
                forall|j: int| 0 <= j < i ==> (#[trigger] self@[j]).id != id@,
            decreases n - i,
        {
            if self.peers[i].id == *id {
                return Option::Some(i);
            }
            i += 1;
        }
        Option::None
    }

    /// Registers a peer under `id` with a fresh empty queue of the given
    /// capacity, replacing any entry already held under that identifier,
    /// and returns the connection count read immediately afterwards.
    pub fn register(&mut self, id: String, capacity: usize) -> (count: usize)
        requires
            reg_wf(old(self)@),
        ensures
            reg_wf(final(self)@),
            count == final(self)@.len(),
            reg_contains(final(self)@, id@),
            reg_contains(old(self)@, id@) ==> final(self)@ == old(self)@.update(
                reg_index_of(old(self)@, id@),
                PeerModel { id: id@, capacity: capacity as nat, queue: Seq::empty() },
            ),
            !reg_contains(old(self)@, id@) ==> final(self)@ == old(self)@.push(
                PeerModel { id: id@, capacity: capacity as nat, queue: Seq::empty() },
            ),
    {
        let ghost fresh = PeerModel { id: id@, capacity: capacity as nat, queue: Seq::empty() };
        let found = self.find(&id);
        let p = Peer { id, capacity, queue: Vec::new() };
        proof {
            assert(p@.queue =~= Seq::<Seq<char>>::empty());
            assert(p@ =~= fresh);
        }
        match found {
            Option::Some(i) => {
                let ghost r0 = self@;
                let ghost k = reg_index_of(r0, p@.id);
                proof {
                    assert(reg_contains(r0, p@.id));
                    assert(0 <= k < r0.len() && r0[k].id == p@.id);
                    assert(k == i as int);
                }
                let _removed = self.peers.remove(i);
                self.peers.insert(i, p);
                proof {
                    assert(self@ =~= r0.update(i as int, fresh));
                    assert(reg_contains(self@, fresh.id)) by {
                        assert(self@[i as int].id == fresh.id);
                    }
                }
            },
            Option::None => {
                let ghost r0 = self@;
                self.peers.push(p);
                proof {
                    assert(self@ =~= r0.push(fresh));
                    assert(reg_contains(self@, fresh.id)) by {
                        assert(self@[r0.len() as int].id == fresh.id);
                    }
                }
            },
        }
        self.peers.len()
    }

    /// Removes the peer held under `id`, if any (removing an absent
    /// identifier is a no-op), and returns the connection count read
    /// immediately afterwards.
    pub fn unregister(&mut self, id: &String) -> (count: usize)
        requires
            reg_wf(old(self)@),
        ensures
            reg_wf(final(self)@),
            count == final(self)@.len(),
            !reg_contains(final(self)@, id@),
            reg_contains(old(self)@, id@) ==> final(self)@ == old(self)@.remove(
                reg_index_of(old(self)@, id@),
            ) && old(self)@.len() == final(self)@.len() + 1,
            !reg_contains(old(self)@, id@) ==> final(self)@ == old(self)@,
    {
        let found = self.find(id);
        match found {
            Option::Some(i) => {
                let ghost r0 = self@;
                let ghost k = reg_index_of(r0, id@);
                proof {
                    assert(reg_contains(r0, id@));
                    assert(0 <= k < r0.len() && r0[k].id == id@);
                    assert(k == i as int);
                }
                let _removed = self.peers.remove(i);
                proof {
                    assert(self@ =~= r0.remove(i as int));
                    assert forall|j: int| 0 <= j < self@.len() implies (#[trigger] self@[j]).id
                        != id@ by {
                        if j < i as int {
                            assert(self@[j] == r0[j]);
                        } else {
                            assert(self@[j] == r0[j + 1]);
                        }
                    }
                }
            },
            Option::None => {},
        }
        self.peers.len()
    }

    /// Best-effort broadcast of one text: every registered peer other than
    /// the origin whose queue has room receives it at the back of its
    /// queue; the origin's queue and full queues are left unchanged.
    pub fn fan_out(&mut self, origin: &String, text: &String)
        requires
            reg_wf(old(self)@),
        ensures
            reg_wf(final(self)@),
            final(self)@.len() == old(self)@.len(),
            forall|i: int|
                0 <= i < old(self)@.len() ==> #[trigger] final(self)@[i] == offer(
                    old(self)@[i],
                    origin@,
                    text@,
                ),
    {
        let n = self.peers.len();
        let mut idx: usize = 0;
        while idx < n
            invariant
                reg_wf(old(self)@),
                n == self.peers@.len(),
                n == old(self)@.len(),
                idx <= n,
                forall|j: int|
                    0 <= j < idx ==> #[trigger] self@[j] == offer(old(self)@[j], origin@, text@),
                forall|j: int| idx <= j < n ==> #[trigger] self@[j] == old(self)@[j],
            decreases n - idx,
        {
            let ghost r0 = self@;
            let mut p = self.peers.remove(idx);
            let is_origin = p.id == *origin;
            if !is_origin && p.queue.len() < p.capacity {
                let ghost q0 = p.queue;
                p.queue.push(text.clone());
                proof {
                    lemma_deep_view_push(q0, p.queue, *text);
                }
            }
            proof {
                assert(p@ =~= offer(r0[idx as int], origin@, text@));
            }
            self.peers.insert(idx, p);
            proof {
                assert(self@ =~= r0.update(idx as int, offer(r0[idx as int], origin@, text@)));
            }
            idx += 1;
        }
        proof {
            assert forall|i: int| 0 <= i < self@.len() implies (#[trigger] self@[i]).queue.len()
                <= self@[i].capacity by {
                assert(self@[i] == offer(old(self)@[i], origin@, text@));
            }
            assert forall|i: int, j: int|
                0 <= i < self@.len() && 0 <= j < self@.len() && i != j implies (
            #[trigger] self@[i]).id != (#[trigger] self@[j]).id by {
                assert(self@[i] == offer(old(self)@[i], origin@, text@));
                assert(self@[j] == offer(old(self)@[j], origin@, text@));
            }
        }
    }

    /// Hands the forwarder for `id` its next outbound text: the front of
    /// that peer's queue, in enqueue order; `None` when the peer is absent
    /// or its queue is empty.
    pub fn take_outbound(&mut self, id: &String) -> (r: Option<String>)
        requires
            reg_wf(old(self)@),
        ensures
            reg_wf(final(self)@),
            match r {
                Option::Some(text) => reg_contains(old(self)@, id@) && {
                    let k = reg_index_of(old(self)@, id@);
                    &&& old(self)@[k].queue.len() > 0
                    &&& text@ == old(self)@[k].queue[0]
                    &&& final(self)@ == old(self)@.update(
                        k,
                        PeerModel { queue: old(self)@[k].queue.drop_first(), ..old(self)@[k] },
                    )
                },
                Option::None => final(self)@ == old(self)@ && (reg_contains(old(self)@, id@)
                    ==> old(self)@[reg_index_of(old(self)@, id@)].queue.len() == 0),
            },
    {
        let found = self.find(id);
        match found {
            Option::Some(i) => {
                let ghost r0 = self@;
                let ghost k = reg_index_of(r0, id@);
                proof {
                    assert(reg_contains(r0, id@));
                    assert(0 <= k < r0.len() && r0[k].id == id@);
                    assert(k == i as int);
                }
                let mut p = self.peers.remove(i);
                if p.queue.len() == 0 {
                    self.peers.insert(i, p);
                    proof {
                        assert(self@ =~= r0);
                    }
                    Option::None
                } else {
                    let ghost q0 = p.queue;
                    let text = p.queue.remove(0);
                    proof {
                        lemma_deep_view_drop_first(q0, p.queue);
                        assert(text@ == q0.deep_view()[0]);
                    }
                    self.peers.insert(i, p);
                    proof {
                        assert(self@ =~= r0.update(
                            i as int,
                            PeerModel { queue: r0[i as int].queue.drop_first(), ..r0[i as int] },
                        ));
                    }
                    Option::Some(text)
                }
            },
            Option::None => Option::None,
        }
    }
}

} // verus!
