use vstd::prelude::*;

verus! {

use crate::loader::Id;

/// Answer to a caller registering intent to load an identifier: the first
/// caller for an identifier is `New` and must perform the load itself; every
/// later caller, while that load is in flight, is `Pending` and only awaits
/// the broadcast outcome.
#[derive(Debug, Clone, Copy, PartialEq, Eq, Structural)]
pub enum RequestKind {
    New,
    Pending,
}

/// No identifier occurs twice.
pub open spec fn no_dup(s: Seq<Id>) -> bool {
    forall|i: int, j: int| 0 <= i < j < s.len() ==> s[i] != s[j]
}

/// What `Coordinator::enqueue` does, at the specification level: an
/// identifier already in flight stays as it is and the caller is `Pending`;
/// otherwise the identifier enters the in-flight set and the caller is `New`.
pub open spec fn enqueue_spec(s: Seq<Id>, id: Id) -> (Seq<Id>, RequestKind) {
    if s.contains(id) {
        (s, RequestKind::Pending)
    } else {
        (s.push(id), RequestKind::New)
    }
}

/// The single-flight coordinator: the set of identifiers whose load is
/// currently in flight.  At most one load per identifier is ever handed out,
/// because only the caller that is told `New` runs one.
pub struct Coordinator {
    pub inflight: Vec<Id>,
}

impl Coordinator {
    pub open spec fn wf(&self) -> bool {
        no_dup(self.inflight@)
    }

    pub fn new() -> (c: Coordinator)
        ensures
            c.inflight@ == Seq::<Id>::empty(),
            c.wf(),
    {
        Coordinator { inflight: Vec::new() }
    }

    pub fn is_inflight(&self, id: Id) -> (r: bool)
        ensures
            r == self.inflight@.contains(id),
    {
        let mut i: usize = 0;
        while i < self.inflight.len()
            invariant
                i <= self.inflight.len(),
                forall|j: int| 0 <= j < i ==> self.inflight@[j] != id,
            decreases self.inflight.len() - i,
        {
            if self.inflight[i] == id {
                return true;
            }
            i += 1;
        }
        false
    }

    /// Register intent to load `id`.
    pub fn enqueue(&mut self, id: Id) -> (r: RequestKind)
        requires
            old(self).wf(),
        ensures
            final(self).wf(),
            (final(self).inflight@, r) == enqueue_spec(old(self).inflight@, id),
            r is Pending <==> old(self).inflight@.contains(id),
            final(self).inflight@.contains(id),
    {
        if self.is_inflight(id) {
            RequestKind::Pending
        } else {
            self.inflight.push(id);
            proof {
                assert(self.inflight@[self.inflight@.len() - 1] == id);
            }
            RequestKind::New
        }
    }

    /// Deliver the terminal result for `id`: the load is no longer in flight.
    pub fn complete(&mut self, id: Id)
        requires
            old(self).wf(),
            old(self).inflight@.contains(id),
        ensures
            final(self).wf(),
            !final(self).inflight@.contains(id),
            forall|x: Id| x != id ==> (final(self).inflight@.contains(x) <==> old(
                self,
            ).inflight@.contains(x)),
            final(self).inflight@.len() == old(self).inflight@.len() - 1,
    {
        let ghost s0 = self.inflight@;
        let mut i: usize = 0;
        while i < self.inflight.len()
            invariant
                self.inflight@ == s0,
                s0 == old(self).inflight@,
                no_dup(s0),
                s0.contains(id),
                i <= s0.len(),
                forall|j: int| 0 <= j < i ==> s0[j] != id,
            decreases self.inflight.len() - i,
        {
            if self.inflight[i] == id {
                self.inflight.remove(i);
                proof {
                    lemma_remove_effect(s0, i as int, id);
                }
                return;
            }
            i += 1;
        }
        proof {
            let k = choose|k: int| 0 <= k < s0.len() && s0[k] == id;
            assert(false);
        }
    }
}

/// Removing the one index that holds `id` from a duplicate-free sequence
/// removes exactly `id` and keeps every other identifier's membership.
proof fn lemma_remove_effect(s: Seq<Id>, i: int, id: Id)
    requires
        no_dup(s),
        0 <= i < s.len(),
        s[i] == id,
    ensures
        no_dup(s.remove(i)),
        !s.remove(i).contains(id),
        forall|x: Id| x != id ==> (s.remove(i).contains(x) <==> s.contains(x)),
{
    let r = s.remove(i);
    assert forall|x: Id| x != id && s.contains(x) implies r.contains(x) by {
        let k = choose|k: int| 0 <= k < s.len() && s[k] == x;
        if k < i {
            assert(r[k] == x);
        } else {
            assert(r[k - 1] == x);
        }
    }
    assert forall|x: Id| r.contains(x) implies x != id && s.contains(x) by {
        let k = choose|k: int| 0 <= k < r.len() && r[k] == x;
        if k < i {
            assert(s[k] == x);
        } else {
            assert(s[k + 1] == x);
        }
    }
    assert(!r.contains(id));
}

/// At-most-once load: once some caller's enqueue for `id` answered `New`,
/// every further enqueue for `id`, until the load completes, answers
/// `Pending` and leaves the in-flight set unchanged — so at most one caller
/// ever executes the load for `id`, and all others only await its outcome.
pub proof fn lemma_at_most_once(s: Seq<Id>, id: Id)
    ensures
        enqueue_spec(s, id).1 is New ==> enqueue_spec(enqueue_spec(s, id).0, id).1 is Pending,
        enqueue_spec(enqueue_spec(s, id).0, id).0 == enqueue_spec(s, id).0,
{
    if !s.contains(id) {
        assert(s.push(id)[s.len() as int] == id);
        assert(s.push(id).contains(id));
    }
}

} // verus!
