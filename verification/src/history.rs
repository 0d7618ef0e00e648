//! Bounded recency window of previously shown card positions.
//!
//! The window is a FIFO queue whose capacity is `round(log2(n))`, where `n`
//! is the current number of cards; it is recomputed on every push.

use vstd::prelude::*;

verus! {

/// `round(log2(n))`, written over the square of `n`: dividing `n * n` by 4
/// takes one whole step off `log2(n)`, so counting divisions until the
/// square falls under 2 rounds `log2(n)` to the nearest integer (a square
/// can never land exactly on an odd power of two, so there are no ties).
pub open spec fn cap_from_square(m: nat) -> nat
    decreases m,
{
    if m < 2 {
        0
    } else {
        1 + cap_from_square(m / 4)
    }
}

/// The nearest integer to `log2(n)`, with 0 for `n <= 1`.
pub open spec fn spec_capacity(n: nat) -> nat {
    cap_from_square(n * n)
}

/// Powers of four.
pub open spec fn pow4(k: nat) -> nat
    decreases k,
{
    if k == 0 {
        1
    } else {
        4 * pow4((k - 1) as nat)
    }
}

/// A power of four is the power of two with twice the exponent.
proof fn lemma_pow4_pow2(k: nat)
    ensures
        pow4(k) == vstd::arithmetic::power2::pow2(2 * k),
    decreases k,
{
    vstd::arithmetic::power2::lemma2_to64();
    if k > 0 {
        lemma_pow4_pow2((k - 1) as nat);
        vstd::arithmetic::power2::lemma_pow2_adds(2 * ((k - 1) as nat), 2);
    }
}

/// `cap_from_square` of a value below `4^j` is at most `j`; it bounds the
/// loop counter of `history_capacity`.
proof fn lemma_cap_bound(m: nat, j: nat)
    requires
        m < pow4(j),
    ensures
        cap_from_square(m) <= j,
    decreases j,
{
    if j == 0 || m < 2 {
    } else {
        lemma_cap_bound(m / 4, (j - 1) as nat);
    }
}

/// The window capacity for a collection of `n` cards: `round(log2(n))`.
pub fn history_capacity(n: usize) -> (k: usize)
    requires
        n <= 0x4000_0000,
    ensures
        k == spec_capacity(n as nat),
{
    assert((n as int) * (n as int) <= 0x1000_0000_0000_0000) by (nonlinear_arith)
        requires
            n <= 0x4000_0000,
    ;
    proof {
        lemma_pow4_pow2(31);
        vstd::arithmetic::power2::lemma2_to64_rest();
        lemma_cap_bound(((n as nat) * (n as nat)) as nat, 31);
    }
    let mut m: u64 = (n as u64) * (n as u64);
    let mut k: usize = 0;
    while m >= 2
        invariant
            spec_capacity(n as nat) == k + cap_from_square(m as nat),
            spec_capacity(n as nat) <= 31,
        decreases m,
    {
        assert(cap_from_square(m as nat) == 1 + cap_from_square((m as nat) / 4));
        m = m / 4;
        k = k + 1;
    }
    k
}

/// A collection of two or more cards always gets a window that can hold at
/// least the card shown last, so the selector can exclude it.
pub proof fn lemma_capacity_at_least_one(n: nat)
    requires
        n >= 2,
    ensures
        spec_capacity(n) >= 1,
{
    assert(n * n >= 2) by (nonlinear_arith)
        requires
            n >= 2,
    ;
}

/// A bounded FIFO queue of card positions, newest at the back.
pub struct HistoryWindow {
    entries: Vec<usize>,
}

impl View for HistoryWindow {
    type V = Seq<usize>;

    closed spec fn view(&self) -> Seq<usize> {
        self.entries@
    }
}

/// What a push leaves in the window: the pushed position is appended, then
/// the oldest entries are evicted until the capacity for `n` cards is met.
pub open spec fn spec_push(entries: Seq<usize>, pos: usize, n: nat) -> Seq<usize> {
    let appended = entries.push(pos);
    if appended.len() <= spec_capacity(n) {
        appended
    } else {
        appended.skip(appended.len() - spec_capacity(n))
    }
}

impl HistoryWindow {
    /// An empty window.
    pub fn new() -> (w: HistoryWindow)
        ensures
            w@ == Seq::<usize>::empty(),
    {
        HistoryWindow { entries: Vec::new() }
    }

    pub fn len(&self) -> (l: usize)
        ensures
            l == self@.len(),
    {
        self.entries.len()
    }

    /// Appends `pos` and evicts the oldest entries until the window fits the
    /// capacity for a collection of `n` cards, recomputed on this push.
    pub fn push(&mut self, pos: usize, n: usize)
        requires
            n <= 0x4000_0000,
        ensures
            final(self)@ == spec_push(old(self)@, pos, n as nat),
    {
        let cap = history_capacity(n);
        self.entries.push(pos);
        let ghost appended = self.entries@;
        while self.entries.len() > cap
            invariant
                appended.len() >= self.entries@.len(),
                self.entries@.len() >= cap || self.entries@.len() == appended.len(),
                self.entries@ == appended.skip(appended.len() - self.entries@.len()),
                cap == spec_capacity(n as nat),
            decreases self.entries@.len(),
        {
            self.entries.remove(0);
            proof {
                assert(self.entries@ =~= appended.skip(appended.len() - self.entries@.len()));
            }
        }
        proof {
            if appended.len() <= cap {
                assert(self.entries@ =~= appended);
            }
        }
    }

    /// Removes and returns the most recently pushed position, if any.
    pub fn pop_last(&mut self) -> (r: Option<usize>)
        ensures
            old(self)@.len() == 0 ==> r is None && final(self)@ == old(self)@,
            old(self)@.len() > 0 ==> r == Some(old(self)@.last()) && final(self)@ == old(
                self,
            )@.drop_last(),
    {
        self.entries.pop()
    }

    /// Empties the window; required whenever collection addressing changes.
    pub fn clear(&mut self)
        ensures
            final(self)@ == Seq::<usize>::empty(),
    {
        self.entries.clear();
    }

    /// Whether `pos` is currently in the window.
    pub fn contains(&self, pos: usize) -> (r: bool)
        ensures
            r == self@.contains(pos),
    {
        let mut i: usize = 0;
        while i < self.entries.len()
            invariant
                i <= self.entries@.len(),
                forall|j: int| 0 <= j < i ==> self.entries@[j] != pos,
            decreases self.entries@.len() - i,
        {
            if self.entries[i] == pos {
                return true;
            }
            i = i + 1;
        }
        false
    }
}

} // verus!
