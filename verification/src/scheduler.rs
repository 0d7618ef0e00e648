//! The adaptive card selector.
//!
//! At each step every card position gets a non-negative fixed-point weight:
//! positions in the recency window are excluded with weight zero; otherwise
//! the weight is a Beta draw over the card's miss/hit history when missed
//! cards are preferred, a constant otherwise, plus an inverse-visits bonus
//! when neglected cards are preferred. A weighted draw picks the next card;
//! if every weight is zero the selector falls back to a uniform draw.

use vstd::prelude::*;

use crate::card::{Card, ModeFlags, MAX_CARDS};
use crate::history::{
    lemma_capacity_at_least_one, spec_capacity, spec_push, HistoryWindow,
};
use crate::random::{RandomSource, FP_ONE};

verus! {

/// The scheduler's whole mutable state: the recency window and the card
/// position currently shown, if any.
pub struct SchedulerState {
    pub history: HistoryWindow,
    pub current: Option<usize>,
}

impl SchedulerState {
    /// A scheduler that has shown nothing yet.
    pub fn new() -> (s: SchedulerState)
        ensures
            s.history@.len() == 0,
            s.current is None,
    {
        SchedulerState { history: HistoryWindow::new(), current: None }
    }
}

/// An operation addressed a position that a prior deletion invalidated.
#[derive(Clone, Copy, PartialEq, Eq, Debug, Structural)]
pub enum SchedulerError {
    StaleReference,
}

/// The inverse-visits bonus of a card, in fixed point: `1/visits`, or a
/// whole unit for a never-visited card; zero when the preference is off.
pub open spec fn neglect_term(c: Card, flags: ModeFlags) -> int {
    if !flags.prefer_neglected {
        0
    } else {
        let visits = c.hits + c.misses;
        if visits == 0 {
            FP_ONE as int
        } else {
            FP_ONE as int / visits
        }
    }
}

/// The deterministic baseline weight when missed cards are not preferred:
/// one unit, or zero when the neglect bonus is the sole active strategy.
pub open spec fn base_weight_fixed(flags: ModeFlags) -> int {
    if flags.prefer_neglected {
        0
    } else {
        FP_ONE as int
    }
}

/// What the weight of position `i` must be: zero inside the recency window;
/// otherwise pinned exactly when no Beta draw is involved, and bracketed by
/// the draw's range `[0, FP_ONE]` plus the neglect bonus when one is.
pub open spec fn weight_ok(
    cards: Seq<Card>,
    hist: Seq<usize>,
    flags: ModeFlags,
    wi: u64,
    i: int,
) -> bool {
    if hist.contains(i as usize) {
        wi == 0
    } else if flags.prefer_missed {
        neglect_term(cards[i], flags) <= wi as int <= FP_ONE + neglect_term(cards[i], flags)
    } else {
        wi as int == base_weight_fixed(flags) + neglect_term(cards[i], flags)
    }
}

/// A full weight vector consistent with the cards, window and flags.
pub open spec fn valid_weights(
    cards: Seq<Card>,
    hist: Seq<usize>,
    flags: ModeFlags,
    w: Seq<u64>,
) -> bool {
    &&& w.len() == cards.len()
    &&& forall|i: int| 0 <= i < w.len() ==> weight_ok(cards, hist, flags, #[trigger] w[i], i)
}

/// The sum of a weight vector.
pub open spec fn sum_weights(w: Seq<u64>) -> int
    decreases w.len(),
{
    if w.len() == 0 {
        0
    } else {
        sum_weights(w.drop_last()) + w.last()
    }
}

/// The sum of the first `k` weights.
pub open spec fn sum_prefix(w: Seq<u64>, k: int) -> int {
    sum_weights(w.take(k))
}

proof fn lemma_sum_take_step(w: Seq<u64>, k: int)
    requires
        0 <= k < w.len(),
    ensures
        sum_prefix(w, k + 1) == sum_prefix(w, k) + w[k],
{
    assert(w.take(k + 1).drop_last() =~= w.take(k));
    assert(w.take(k + 1).last() == w[k]);
}

proof fn lemma_sum_bounded(w: Seq<u64>, b: int)
    requires
        forall|i: int| 0 <= i < w.len() ==> #[trigger] w[i] <= b,
    ensures
        sum_weights(w) <= w.len() * b,
    decreases w.len(),
{
    if w.len() > 0 {
        lemma_sum_bounded(w.drop_last(), b);
        assert((w.len() - 1) * b + b == w.len() * b) by (nonlinear_arith);
    }
}

proof fn lemma_prefix_le_total(w: Seq<u64>, k: int)
    requires
        0 <= k <= w.len(),
    ensures
        sum_prefix(w, k) <= sum_weights(w),
    decreases w.len() - k,
{
    if k == w.len() {
        assert(w.take(k) =~= w);
    } else {
        lemma_sum_take_step(w, k);
        lemma_prefix_le_total(w, k + 1);
    }
}

/// Computes the weight of every card position under the given window and
/// flags. Where missed cards are preferred, the baseline is a Beta draw
/// from `source` with shape parameters `(misses + 1, hits + 1)`, the counts
/// read in the study direction: a history of misses pulls the draw toward a
/// whole unit, a history of hits toward zero, and the randomness keeps
/// well-known cards from being starved outright.
pub fn compute_weights<R: RandomSource>(
    cards: &Vec<Card>,
    hist: &HistoryWindow,
    flags: &ModeFlags,
    source: &mut R,
) -> (w: Vec<u64>)
    ensures
        valid_weights(cards@, hist@, *flags, w@),
        forall|i: int| 0 <= i < w@.len() ==> #[trigger] w@[i] <= 2 * FP_ONE,
{
    let mut w: Vec<u64> = Vec::new();
    let mut i: usize = 0;
    while i < cards.len()
        invariant
            i <= cards@.len(),
            w@.len() == i,
            forall|j: int| 0 <= j < i ==> weight_ok(cards@, hist@, *flags, #[trigger] w@[j], j),
            forall|j: int| 0 <= j < i ==> #[trigger] w@[j] <= 2 * FP_ONE,
        decreases cards@.len() - i,
    {
        let c = &cards[i];
        let mut wi: u64 = 0;
        if !hist.contains(i) {
            if flags.prefer_missed {
                let h: u32 = if flags.reverse_mode {
                    c.reverse_hits
                } else {
                    c.hits
                };
                let m: u32 = if flags.reverse_mode {
                    c.reverse_misses
                } else {
                    c.misses
                };
                wi = source.beta_fp(m as u64 + 1, h as u64 + 1);
            } else if !flags.prefer_neglected {
                wi = FP_ONE;
            }
            if flags.prefer_neglected {
                let visits: u64 = c.hits as u64 + c.misses as u64;
                let term: u64 = if visits == 0 {
                    FP_ONE
                } else {
                    FP_ONE / visits
                };
                assert(term <= FP_ONE);
                wi = wi + term;
            }
        }
        w.push(wi);
        i = i + 1;
    }
    w
}

/// The total of a weight vector; each weight is at most two units, so the
/// sum of a bounded collection fits comfortably in a word.
pub fn total_weight(w: &Vec<u64>) -> (t: u64)
    requires
        w@.len() <= MAX_CARDS,
        forall|i: int| 0 <= i < w@.len() ==> #[trigger] w@[i] <= 2 * FP_ONE,
    ensures
        t == sum_weights(w@),
{
    let mut acc: u64 = 0;
    let mut i: usize = 0;
    while i < w.len()
        invariant
            i <= w@.len(),
            w@.len() <= MAX_CARDS,
            acc == sum_prefix(w@, i as int),
            forall|j: int| 0 <= j < w@.len() ==> #[trigger] w@[j] <= 2 * FP_ONE,
        decreases w@.len() - i,
    {
        proof {
            lemma_sum_take_step(w@, i as int);
            lemma_sum_bounded(w@.take(i as int + 1), 2 * FP_ONE as int);
            vstd::arithmetic::mul::lemma_mul_inequality(
                i as int + 1,
                MAX_CARDS as int,
                2 * FP_ONE as int,
            );
        }
        acc = acc + w[i];
        i = i + 1;
    }
    proof {
        assert(w@.take(w@.len() as int) =~= w@);
    }
    acc
}

/// The weighted pick: the unique position whose prefix-sum window contains
/// the draw `r`; its weight is necessarily positive.
pub fn pick_index(w: &Vec<u64>, r: u64) -> (i: usize)
    requires
        sum_weights(w@) <= u64::MAX,
        r < sum_weights(w@),
    ensures
        i < w@.len(),
        w@[i as int] > 0,
        sum_prefix(w@, i as int) <= r < sum_prefix(w@, i as int + 1),
{
    let mut acc: u64 = 0;
    let mut i: usize = 0;
    while i < w.len()
        invariant
            i <= w@.len(),
            acc == sum_prefix(w@, i as int),
            acc <= r,
            sum_weights(w@) <= u64::MAX,
            r < sum_weights(w@),
        decreases w@.len() - i,
    {
        proof {
            lemma_sum_take_step(w@, i as int);
            lemma_prefix_le_total(w@, i as int + 1);
        }
        if r < acc + w[i] {
            return i;
        }
        acc = acc + w[i];
        i = i + 1;
    }
    proof {
        assert(w@.take(w@.len() as int) =~= w@);
        assert(false);
    }
    0
}

/// The recency window that `select_next` leaves behind: the previously
/// current position pushed, if there was one.
pub open spec fn spec_push_current(cur: Option<usize>, hist: Seq<usize>, n: nat) -> Seq<usize> {
    match cur {
        Some(c) => spec_push(hist, c, n),
        None => hist,
    }
}

/// Picks the next card to show. Returns `None` on an empty collection (and
/// changes nothing); otherwise pushes the previously current position onto
/// the window, draws a position whose weight is positive — or any position
/// at all when every weight is zero — and makes it current.
pub fn select_next<R: RandomSource>(
    cards: &Vec<Card>,
    state: &mut SchedulerState,
    flags: &ModeFlags,
    source: &mut R,
) -> (r: Option<usize>)
    requires
        cards@.len() <= MAX_CARDS,
    ensures
        r is Some <==> cards@.len() > 0,
        r is None ==> *final(state) == *old(state),
        r matches Some(i) ==> {
            &&& i < cards@.len()
            &&& final(state).current == Some(i)
            &&& final(state).history@ == spec_push_current(
                old(state).current,
                old(state).history@,
                cards@.len() as nat,
            )
            &&& exists|w: Seq<u64>|
                valid_weights(cards@, final(state).history@, *flags, w) && (w[i as int] > 0
                    || sum_weights(w) == 0)
        },
{
    let n = cards.len();
    if n == 0 {
        return None;
    }
    if let Some(cur) = state.current {
        state.history.push(cur, n);
    }
    let w = compute_weights(cards, &state.history, flags, source);
    let total = total_weight(&w);
    let pos: usize;
    if total == 0 {
        pos = source.next_below(n as u64) as usize;
    } else {
        let draw = source.next_below(total);
        pos = pick_index(&w, draw);
    }
    proof {
        assert(valid_weights(cards@, state.history@, *flags, w@) && (w@[pos as int] > 0
            || sum_weights(w@) == 0));
    }
    state.current = Some(pos);
    Some(pos)
}

/// Any position with a positive weight lies outside the recency window.
pub proof fn lemma_selection_avoids_window(
    cards: Seq<Card>,
    hist: Seq<usize>,
    flags: ModeFlags,
    w: Seq<u64>,
    i: int,
)
    requires
        valid_weights(cards, hist, flags, w),
        0 <= i < w.len(),
        w[i] > 0,
    ensures
        !hist.contains(i as usize),
{
}

/// With at least two cards the window's capacity is at least one, so a push
/// always retains the position just pushed.
pub proof fn lemma_push_retains_last(hist: Seq<usize>, pos: usize, n: nat)
    requires
        n >= 2,
    ensures
        spec_push(hist, pos, n).contains(pos),
{
    lemma_capacity_at_least_one(n);
    let appended = hist.push(pos);
    let result = spec_push(hist, pos, n);
    assert(result.last() == pos);
    assert(result.contains(pos)) by {
        assert(result[result.len() - 1] == pos);
    }
}

/// No immediate repeats except through the all-weights-zero fallback: when a
/// collection of at least two cards had a current position and the new draw
/// carries a positive weight, the drawn position differs from the previous
/// one — indeed from every position in the window.
pub proof fn lemma_no_immediate_repeat(
    cards: Seq<Card>,
    hist: Seq<usize>,
    flags: ModeFlags,
    w: Seq<u64>,
    prev: usize,
    i: int,
)
    requires
        cards.len() >= 2,
        valid_weights(cards, spec_push(hist, prev, cards.len()), flags, w),
        0 <= i < w.len(),
        w[i] > 0,
    ensures
        i != prev,
        !spec_push(hist, prev, cards.len()).contains(i as usize),
{
    lemma_push_retains_last(hist, prev, cards.len());
    lemma_selection_avoids_window(cards, spec_push(hist, prev, cards.len()), flags, w, i);
}

/// The card at the current position when it surely has one: a saturating
/// bump of the direction-specific hit or miss count, all else untouched.
pub open spec fn spec_record(c: Card, is_hit: bool, reverse: bool) -> Card {
    Card {
        prompt: c.prompt,
        response: c.response,
        hits: if is_hit && !reverse {
            sat_inc(c.hits)
        } else {
            c.hits
        },
        misses: if !is_hit && !reverse {
            sat_inc(c.misses)
        } else {
            c.misses
        },
        reverse_hits: if is_hit && reverse {
            sat_inc(c.reverse_hits)
        } else {
            c.reverse_hits
        },
        reverse_misses: if !is_hit && reverse {
            sat_inc(c.reverse_misses)
        } else {
            c.reverse_misses
        },
    }
}

/// A count one higher, pinned at the type's ceiling (a machine limit;
/// counts never decrease).
pub open spec fn sat_inc(x: u32) -> u32 {
    if x == u32::MAX {
        x
    } else {
        (x + 1) as u32
    }
}

/// Records a hit or a miss on the card at `position`, touching exactly one
/// count of exactly that card; a stale position is rejected unchanged.
pub fn record_outcome(
    cards: &mut Vec<Card>,
    position: usize,
    is_hit: bool,
    reverse: bool,
) -> (r: Result<(), SchedulerError>)
    ensures
        position < old(cards)@.len() ==> r is Ok && final(cards)@ == old(cards)@.update(
            position as int,
            spec_record(old(cards)@[position as int], is_hit, reverse),
        ),
        position >= old(cards)@.len() ==> r == Err::<(), SchedulerError>(
            SchedulerError::StaleReference,
        ) && final(cards)@ == old(cards)@,
{
    if position >= cards.len() {
        return Err(SchedulerError::StaleReference);
    }
    if is_hit {
        if reverse {
            if cards[position].reverse_hits < u32::MAX {
                cards[position].reverse_hits = cards[position].reverse_hits + 1;
            }
        } else {
            if cards[position].hits < u32::MAX {
                cards[position].hits = cards[position].hits + 1;
            }
        }
    } else {
        if reverse {
            if cards[position].reverse_misses < u32::MAX {
                cards[position].reverse_misses = cards[position].reverse_misses + 1;
            }
        } else {
            if cards[position].misses < u32::MAX {
                cards[position].misses = cards[position].misses + 1;
            }
        }
    }
    proof {
        assert(final(cards)@ =~= old(cards)@.update(
            position as int,
            spec_record(old(cards)@[position as int], is_hit, reverse),
        ));
    }
    Ok(())
}

/// Where the current position points after deleting the card at `pos`:
/// unchanged below the deletion, shifted down above it, gone at it.
pub open spec fn spec_remap_current(cur: Option<usize>, pos: usize) -> Option<usize> {
    match cur {
        None => None,
        Some(c) => if c == pos {
            None
        } else if c > pos {
            Some((c - 1) as usize)
        } else {
            Some(c)
        },
    }
}

/// Deletes the card at `position`: the collection closes the gap, the
/// recency window is cleared (its positions are no longer trustworthy), and
/// the current position is remapped. A stale position is rejected unchanged.
pub fn on_delete(
    cards: &mut Vec<Card>,
    state: &mut SchedulerState,
    position: usize,
) -> (r: Result<(), SchedulerError>)
    ensures
        position < old(cards)@.len() ==> {
            &&& r is Ok
            &&& final(cards)@ == old(cards)@.remove(position as int)
            &&& final(state).history@.len() == 0
            &&& final(state).current == spec_remap_current(old(state).current, position)
        },
        position >= old(cards)@.len() ==> r == Err::<(), SchedulerError>(
            SchedulerError::StaleReference,
        ) && final(cards)@ == old(cards)@ && *final(state) == *old(state),
{
    if position >= cards.len() {
        return Err(SchedulerError::StaleReference);
    }
    if let Some(cur) = state.current {
        state.current = if cur == position {
            None
        } else if cur > position {
            Some(cur - 1)
        } else {
            Some(cur)
        };
    }
    state.history.clear();
    cards.remove(position);
    Ok(())
}

/// Replaces the whole collection (an import): the window is cleared and no
/// card is current until a fresh selection is made.
pub fn on_replace_all(
    cards: &mut Vec<Card>,
    state: &mut SchedulerState,
    new_cards: Vec<Card>,
)
    ensures
        final(cards)@ == new_cards@,
        final(state).history@.len() == 0,
        final(state).current is None,
{
    *cards = new_cards;
    state.history.clear();
    state.current = None;
}

/// Returns to the most recently shown position, popping it off the window;
/// an empty window is a no-op and the current position is kept.
pub fn go_back(state: &mut SchedulerState) -> (r: Option<usize>)
    ensures
        old(state).history@.len() == 0 ==> r is None && final(state).history@ == old(
            state,
        ).history@ && final(state).current == old(state).current,
        old(state).history@.len() > 0 ==> {
            &&& r == Some(old(state).history@.last())
            &&& final(state).current == Some(old(state).history@.last())
            &&& final(state).history@ == old(state).history@.drop_last()
        },
{
    match state.history.pop_last() {
        Some(p) => {
            state.current = Some(p);
            Some(p)
        },
        None => None,
    }
}

} // verus!
