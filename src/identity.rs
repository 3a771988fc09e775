//! Client identities: the acceptor numbers each accepted connection from one
//! counter, so no number is handed out twice.
use vstd::prelude::*;

verus! {

/// The identity given to the first client.
pub const FIRST_ID: u64 = 1;

/// The counter of client identities: the next number to hand out.
pub struct IdentityCounter {
    next: u64,
}

impl View for IdentityCounter {
    type V = nat;

    closed spec fn view(&self) -> nat {
        self.next as nat
    }
}

/// One assignment from a counter at `next`: the identity handed out, if any,
/// and the counter after it. Once every `u64` was handed out there is none.
pub open spec fn assign_step(next: nat) -> (Option<nat>, nat) {
    if next < u64::MAX {
        (Some(next), next + 1)
    } else {
        (None, next)
    }
}

/// The identities handed out by `k` assignments in a row from a counter at
/// `next`, and the counter after them.
pub open spec fn assign_run(next: nat, k: nat) -> (Seq<Option<nat>>, nat)
    decreases k,
{
    if k == 0 {
        (Seq::empty(), next)
    } else {
        let (ids, n) = assign_run(next, (k - 1) as nat);
        let (id, n2) = assign_step(n);
        (ids.push(id), n2)
    }
}

impl IdentityCounter {
    /// A counter whose first identity is `FIRST_ID`.
    pub fn new() -> (r: IdentityCounter)
        ensures
            r@ == FIRST_ID as nat,
    {
        IdentityCounter { next: FIRST_ID }
    }

    /// Hands out the next identity, or `None` once every `u64` was handed out.
    pub fn assign(&mut self) -> (r: Option<u64>)
        ensures
            (match r {
                Some(id) => Some(id as nat),
                None => None,
            }, final(self)@) == assign_step(old(self)@),
    {
        if self.next < u64::MAX {
            let id = self.next;
            self.next = self.next + 1;
            Some(id)
        } else {
            None
        }
    }
}

/// The identities handed out by any run of assignments are strictly
/// increasing, so none is handed out twice.
pub proof fn lemma_ids_increase(next: nat, k: nat)
    ensures
        forall|i: int, j: int|
            0 <= i < j < k && (#[trigger] assign_run(next, k).0[i]) is Some && (
            #[trigger] assign_run(next, k).0[j]) is Some ==> assign_run(next, k).0[i]->Some_0
                < assign_run(next, k).0[j]->Some_0,
    decreases k,
{
    if k > 0 {
        lemma_ids_increase(next, (k - 1) as nat);
        lemma_ids_below(next, (k - 1) as nat);
        let (ids1, n1) = assign_run(next, (k - 1) as nat);
        let ids = assign_run(next, k).0;
        assert forall|i: int| 0 <= i < ids1.len() implies ids[i] == ids1[i] by {}
    }
}

/// Every identity handed out so far is below the counter, and there is one
/// entry per assignment.
pub proof fn lemma_ids_below(next: nat, k: nat)
    ensures
        assign_run(next, k).0.len() == k,
        assign_run(next, k).1 >= next,
        forall|i: int|
            0 <= i < k && (#[trigger] assign_run(next, k).0[i]) is Some ==> assign_run(
                next,
                k,
            ).0[i]->Some_0 < assign_run(next, k).1,
    decreases k,
{
    if k > 0 {
        lemma_ids_below(next, (k - 1) as nat);
        let (ids1, n1) = assign_run(next, (k - 1) as nat);
        let ids = assign_run(next, k).0;
        assert forall|i: int| 0 <= i < ids1.len() implies ids[i] == ids1[i] by {}
    }
}

} // verus!
