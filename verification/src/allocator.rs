//! The identifier allocator: a counter that hands out asset ids in
//! increasing order.
use vstd::prelude::*;
use crate::AssetId;

verus! {

/// The allocator has handed out every identifier it can.
#[derive(Clone, Copy, Debug, PartialEq, Eq)]
pub struct Overflow;

/// The counter after one saturating allocation: it stays at the largest
/// value once it got there.
pub open spec fn saturating_successor(nonce: AssetId) -> AssetId {
    if nonce == u128::MAX {
        nonce
    } else {
        (nonce + 1) as u128
    }
}

/// The counter after `n` saturating allocations from a fresh allocator.
pub open spec fn nonce_after(n: nat) -> AssetId
    decreases n,
{
    if n == 0 {
        0
    } else {
        saturating_successor(nonce_after((n - 1) as nat))
    }
}

/// A fresh allocator counts up from zero: after `n` allocations the next
/// identifier is `n`, so the n-th allocation returned `n - 1`. The checked
/// allocator takes the same steps until it fails.
pub proof fn lemma_fresh_ids_count_up(n: nat)
    requires
        n <= u128::MAX,
    ensures
        nonce_after(n) == n,
    decreases n,
{
    if n > 0 {
        lemma_fresh_ids_count_up((n - 1) as nat);
    }
}

/// Below the largest value, the identifier handed out next is larger than the
/// one handed out before: consecutive allocations never repeat.
pub proof fn lemma_ids_strictly_increase(nonce: AssetId)
    requires
        nonce < u128::MAX,
    ensures
        saturating_successor(nonce) > nonce,
        saturating_successor(nonce) == nonce + 1,
{
}

/// A counter of identifiers. It starts at zero, advances by one on every
/// successful allocation and never goes back.
pub struct IdAllocator {
    nonce: AssetId,
}

impl View for IdAllocator {
    type V = AssetId;

    closed spec fn view(&self) -> AssetId {
        self.nonce
    }
}

impl IdAllocator {
    /// A fresh allocator: the first identifier will be zero.
    pub fn new() -> (allocator: IdAllocator)
        ensures
            allocator@ == 0,
    {
        IdAllocator { nonce: 0 }
    }

    /// An allocator that resumes at `nonce`.
    pub fn starting_at(nonce: AssetId) -> (allocator: IdAllocator)
        ensures
            allocator@ == nonce,
    {
        IdAllocator { nonce }
    }

    /// The identifier that the next allocation returns.
    pub fn peek(&self) -> (nonce: AssetId)
        ensures
            nonce == self@,
    {
        self.nonce
    }

    /// Returns the current identifier and advances with saturation. Never
    /// fails: at the largest value it returns that value again and again.
    pub fn next_id_saturating(&mut self) -> (id: AssetId)
        ensures
            id == old(self)@,
            final(self)@ == saturating_successor(old(self)@),
    {
        let id = self.nonce;
        self.nonce = id.saturating_add(1);
        id
    }

    /// Returns the current identifier and advances, or fails at the largest
    /// value and leaves the counter as it was.
    pub fn next_id_checked(&mut self) -> (outcome: Result<AssetId, Overflow>)
        ensures
            old(self)@ < u128::MAX ==> outcome == Ok::<AssetId, Overflow>(old(self)@),
            old(self)@ < u128::MAX ==> final(self)@ == old(self)@ + 1,
            old(self)@ == u128::MAX ==> outcome == Err::<AssetId, Overflow>(Overflow),
            old(self)@ == u128::MAX ==> final(self)@ == old(self)@,
    {
        let id = self.nonce;
        match id.checked_add(1) {
            Some(next) => {
                self.nonce = next;
                Ok(id)
            },
            None => Err(Overflow),
        }
    }
}

} // verus!
