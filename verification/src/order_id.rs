//! Issues order identifiers: each one larger than all issued before it.

use vstd::prelude::*;

verus! {

/// A counter that hands out order identifiers in increasing order.
/// It never issues the placeholder identifier `0`, and it stops issuing
/// rather than wrap around.
pub struct OrderIdAllocator {
    next: u64,
}

/// The identifiers that `count` successive issues yield from a counter
/// whose next identifier is `next`.
pub open spec fn issued_ids(next: nat, count: nat) -> Seq<nat> {
    Seq::new(count, |k: int| (next + k) as nat)
}

impl OrderIdAllocator {
    /// The identifier that the next successful issue returns.
    pub closed spec fn next_id(&self) -> nat {
        self.next as nat
    }

    /// Holds of every allocator that this module hands out.
    pub closed spec fn wf(&self) -> bool {
        self.next >= 1
    }

    /// An allocator whose first identifier is 1.
    pub fn new() -> (allocator: Self)
        ensures
            allocator.wf(),
            allocator.next_id() == 1,
    {
        OrderIdAllocator { next: 1 }
    }

    /// An allocator whose first identifier is `first`; none for the
    /// placeholder identifier `0`.
    pub fn starting_at(first: u64) -> (allocator: Option<Self>)
        ensures
            first == 0 ==> allocator is None,
            first != 0 ==> allocator is Some && allocator->0.wf() && allocator->0.next_id()
                == first,
    {
        if first == 0 {
            None
        } else {
            Some(OrderIdAllocator { next: first })
        }
    }

    /// Issues the next identifier. Returns `None`, and leaves the allocator
    /// as it was, once the identifiers are used up.
    pub fn allocate(&mut self) -> (id: Option<u64>)
        requires
            old(self).wf(),
        ensures
            final(self).wf(),
            old(self).next_id() < u64::MAX ==> id == Some(old(self).next_id() as u64)
                && final(self).next_id() == old(self).next_id() + 1,
            old(self).next_id() >= u64::MAX ==> id is None && final(self).next_id() == old(
                self,
            ).next_id(),
    {
        if self.next == u64::MAX {
            None
        } else {
            let id: u64 = self.next;
            self.next = id + 1;
            Some(id)
        }
    }

    /// Every identifier issued is at least 1, so none equals the placeholder.
    pub proof fn lemma_never_placeholder(&self)
        requires
            self.wf(),
        ensures
            self.next_id() >= 1,
    {
    }
}

/// Identifiers come out strictly increasing: of any two issues, the later
/// one yields the larger identifier.
pub proof fn lemma_ids_strictly_increasing(next: nat, count: nat, i: int, j: int)
    requires
        0 <= i < j < count,
    ensures
        issued_ids(next, count)[i] < issued_ids(next, count)[j],
{
}

/// No identifier is issued twice.
pub proof fn lemma_ids_never_repeat(next: nat, count: nat, i: int, j: int)
    requires
        0 <= i < count,
        0 <= j < count,
        i != j,
    ensures
        issued_ids(next, count)[i] != issued_ids(next, count)[j],
{
}

/// Issuing `count` identifiers and then `more` yields the same identifiers
/// as issuing `count + more` at once: the sequence depends only on where
/// the counter started.
pub proof fn lemma_issue_in_two_runs(next: nat, count: nat, more: nat)
    ensures
        issued_ids(next, count) + issued_ids(next + count, more) =~= issued_ids(
            next,
            count + more,
        ),
{
}

} // verus!
