//! The statistics engine: per-card quality metrics and aggregates over the
//! whole collection, recomputed on demand and never persisted.
//!
//! Ratios are exact rationals of the hit/miss counts; they are reported in
//! fixed point (permille for per-card metrics, centi-percent for
//! aggregates), always truncated toward zero, and compared exactly — by
//! cross-multiplication — where an order or a threshold is involved.

use vstd::prelude::*;

use crate::card::{spec_eff_hits, spec_eff_misses, Card, MAX_CARDS};

verus! {

/// Truncating division, the rounding a display of a ratio uses: toward
/// zero, as the `/` of the implementation language rounds.
pub open spec fn trunc_div(a: int, b: int) -> int
    recommends
        b >= 1,
{
    if a >= 0 {
        a / b
    } else {
        -((-a) / b)
    }
}

/// `hits/(hits+misses)` in permille, 0 for a never-visited card.
pub open spec fn spec_ratio_pm(h: nat, m: nat) -> int {
    if h + m == 0 {
        0
    } else {
        1000 * (h as int) / (h as int + m as int)
    }
}

/// `(hits-misses)/(hits+misses)` in permille, truncated toward zero, 0 for
/// a never-visited card.
pub open spec fn spec_goodness_pm(h: nat, m: nat) -> int {
    if h + m == 0 {
        0
    } else if h >= m {
        1000 * (h as int - m as int) / (h as int + m as int)
    } else {
        -(1000 * (m as int - h as int) / (h as int + m as int))
    }
}

/// A quotient of a value by something at least as large stays under one
/// unit: the common step behind both range bounds below.
proof fn lemma_scaled_ratio_bounded(a: int, b: int)
    requires
        0 <= a <= b,
        1 <= b,
    ensures
        0 <= 1000 * a / b <= 1000,
{
    vstd::arithmetic::div_mod::lemma_div_is_ordered(1000 * a, 1000 * b, b);
    vstd::arithmetic::div_mod::lemma_div_multiples_vanish(1000, b);
    vstd::arithmetic::div_mod::lemma_div_pos_is_pos(1000 * a, b);
}

/// The hit ratio always lies in `[0, 1]` and the goodness in `[-1, 1]`, for
/// every combination of counts.
pub proof fn lemma_metric_ranges(h: nat, m: nat)
    ensures
        0 <= spec_ratio_pm(h, m) <= 1000,
        -1000 <= spec_goodness_pm(h, m) <= 1000,
{
    if h + m > 0 {
        lemma_scaled_ratio_bounded(h as int, (h + m) as int);
        if h >= m {
            lemma_scaled_ratio_bounded(h - m, (h + m) as int);
        } else {
            lemma_scaled_ratio_bounded(m - h, (h + m) as int);
        }
    }
}

/// The hit ratio of a count pair, in permille.
pub fn hit_ratio_permille(h: u32, m: u32) -> (r: u32)
    ensures
        r == spec_ratio_pm(h as nat, m as nat),
{
    let t: u64 = h as u64 + m as u64;
    if t == 0 {
        0
    } else {
        proof {
            lemma_scaled_ratio_bounded(h as int, t as int);
        }
        ((1000 * (h as u64)) / t) as u32
    }
}

/// The goodness of a count pair, in permille, truncated toward zero.
pub fn goodness_permille(h: u32, m: u32) -> (r: i32)
    ensures
        r == spec_goodness_pm(h as nat, m as nat),
{
    let t: u64 = h as u64 + m as u64;
    if t == 0 {
        0
    } else if h >= m {
        proof {
            lemma_scaled_ratio_bounded(h as int - m as int, t as int);
        }
        ((1000 * (h as u64 - m as u64)) / t) as i32
    } else {
        proof {
            lemma_scaled_ratio_bounded(m as int - h as int, t as int);
        }
        -(((1000 * (m as u64 - h as u64)) / t) as i32)
    }
}

/// The sum of a sequence of fixed-point values.
pub open spec fn sum_i64(x: Seq<i64>) -> int
    decreases x.len(),
{
    if x.len() == 0 {
        0
    } else {
        sum_i64(x.drop_last()) + x.last()
    }
}

proof fn lemma_sum_i64_bounded(x: Seq<i64>, b: int)
    requires
        forall|i: int| 0 <= i < x.len() ==> -b <= #[trigger] x[i] <= b,
        b >= 0,
    ensures
        -(x.len() * b) <= sum_i64(x) <= x.len() * b,
    decreases x.len(),
{
    if x.len() > 0 {
        lemma_sum_i64_bounded(x.drop_last(), b);
        assert((x.len() - 1) * b + b == x.len() * b) by (nonlinear_arith);
    }
}

/// The truncated mean of fixed-point values, 0 for an empty sequence.
pub open spec fn spec_mean(x: Seq<i64>) -> int {
    if x.len() == 0 {
        0
    } else {
        trunc_div(sum_i64(x), x.len() as int)
    }
}

/// The mean of a sequence of fixed-point values, truncated toward zero;
/// an empty sequence has mean 0.
pub fn mean(x: &Vec<i64>) -> (r: i64)
    requires
        x@.len() <= MAX_CARDS,
        forall|i: int| 0 <= i < x@.len() ==> -100_000 <= #[trigger] x@[i] <= 100_000,
    ensures
        r == spec_mean(x@),
{
    if x.len() == 0 {
        return 0;
    }
    let mut acc: i64 = 0;
    let mut i: usize = 0;
    while i < x.len()
        invariant
            i <= x@.len(),
            x@.len() <= MAX_CARDS,
            acc == sum_i64(x@.take(i as int)),
            -(i * 100_000) <= acc <= i * 100_000,
            forall|j: int| 0 <= j < x@.len() ==> -100_000 <= #[trigger] x@[j] <= 100_000,
        decreases x@.len() - i,
    {
        proof {
            assert(x@.take(i as int + 1).drop_last() =~= x@.take(i as int));
            vstd::arithmetic::mul::lemma_mul_inequality(
                i as int + 1,
                MAX_CARDS as int,
                100_000,
            );
        }
        acc = acc + x[i];
        i = i + 1;
    }
    proof {
        assert(x@.take(x@.len() as int) =~= x@);
    }
    let n: u64 = x.len() as u64;
    if acc >= 0 {
        ((acc as u64) / n) as i64
    } else {
        let q: u64 = ((-acc) as u64) / n;
        proof {
            vstd::arithmetic::div_mod::lemma_div_is_ordered((-acc) as int, i64::MAX as int, n as int);
            vstd::arithmetic::div_mod::lemma_div_pos_is_pos((-acc) as int, n as int);
        }
        -(q as i64)
    }
}

/// One line of the statistics display: the original position of a card and
/// its direction-resolved counts and fixed-point metrics.
#[derive(Clone, Copy, PartialEq, Eq, Structural)]
pub struct StatRow {
    pub index: usize,
    pub hits: u32,
    pub misses: u32,
    pub hit_ratio_permille: u32,
    pub goodness_permille: i32,
}

/// The row belonging to the card at position `i`, read in the given
/// direction.
pub open spec fn spec_row(cards: Seq<Card>, i: int, reverse: bool) -> StatRow {
    let h = spec_eff_hits(cards[i], reverse);
    let m = spec_eff_misses(cards[i], reverse);
    StatRow {
        index: i as usize,
        hits: h,
        misses: m,
        hit_ratio_permille: spec_ratio_pm(h as nat, m as nat) as u32,
        goodness_permille: spec_goodness_pm(h as nat, m as nat) as i32,
    }
}

/// The numerator of a row's exact goodness, `hits - misses`.
pub open spec fn g_num(r: StatRow) -> int {
    r.hits - r.misses
}

/// The denominator of a row's exact goodness: the visits, or 1 for a
/// never-visited card so that its goodness is exactly 0.
pub open spec fn g_den(r: StatRow) -> int {
    if r.hits + r.misses == 0 {
        1
    } else {
        r.hits + r.misses
    }
}

/// Whether `a`'s exact goodness exceeds `b`'s, by cross-multiplication.
pub open spec fn goodness_gt(a: StatRow, b: StatRow) -> bool {
    g_num(a) * g_den(b) > g_num(b) * g_den(a)
}

/// The display order: strictly better goodness first; ties keep the
/// original collection order, so the output is deterministic.
pub open spec fn row_before(a: StatRow, b: StatRow) -> bool {
    ||| goodness_gt(a, b)
    ||| (!goodness_gt(a, b) && !goodness_gt(b, a) && a.index < b.index)
}

/// Transitivity of the exact fraction comparison, with strictness carried
/// through when either premise is strict.
proof fn lemma_frac_trans(na: int, da: int, nb: int, db: int, nc: int, dc: int)
    requires
        da >= 1,
        db >= 1,
        dc >= 1,
        na * db >= nb * da,
        nb * dc >= nc * db,
    ensures
        na * dc >= nc * da,
        na * db > nb * da || nb * dc > nc * db ==> na * dc > nc * da,
{
    assert(na * db * dc >= nb * da * dc) by (nonlinear_arith)
        requires
            na * db >= nb * da,
            dc >= 1,
    ;
    assert(nb * dc * da >= nc * db * da) by (nonlinear_arith)
        requires
            nb * dc >= nc * db,
            da >= 1,
    ;
    assert(nb * da * dc == nb * dc * da && nc * db * da == nc * da * db && na * db * dc == na * dc
        * db) by (nonlinear_arith);
    assert(na * dc >= nc * da) by (nonlinear_arith)
        requires
            na * dc * db >= nc * da * db,
            db >= 1,
    ;
    if na * db > nb * da || nb * dc > nc * db {
        if na * db > nb * da {
            assert(na * db * dc > nb * da * dc) by (nonlinear_arith)
                requires
                    na * db > nb * da,
                    dc >= 1,
            ;
        } else {
            assert(nb * dc * da > nc * db * da) by (nonlinear_arith)
                requires
                    nb * dc > nc * db,
                    da >= 1,
            ;
        }
        assert(na * dc > nc * da) by (nonlinear_arith)
            requires
                na * dc * db > nc * da * db,
                db >= 1,
        ;
    }
}

/// The display order is transitive.
pub proof fn lemma_row_before_trans(a: StatRow, b: StatRow, c: StatRow)
    requires
        row_before(a, b),
        row_before(b, c),
    ensures
        row_before(a, c),
{
    lemma_frac_trans(g_num(a), g_den(a), g_num(b), g_den(b), g_num(c), g_den(c));
    if !goodness_gt(a, b) && !goodness_gt(b, c) {
        lemma_frac_trans(g_num(c), g_den(c), g_num(b), g_den(b), g_num(a), g_den(a));
    }
}

/// Two rows for different positions are always ordered one way or the
/// other: the order is total.
pub proof fn lemma_row_before_total(a: StatRow, b: StatRow)
    requires
        a.index != b.index,
    ensures
        row_before(a, b) || row_before(b, a),
{
}

/// The exact comparison behind the display order.
pub fn row_before_exec(a: &StatRow, b: &StatRow) -> (r: bool)
    ensures
        r == row_before(*a, *b),
{
    let na: i64 = a.hits as i64 - a.misses as i64;
    let nb: i64 = b.hits as i64 - b.misses as i64;
    let da: i64 = if a.hits == 0 && a.misses == 0 {
        1
    } else {
        a.hits as i64 + a.misses as i64
    };
    let db: i64 = if b.hits == 0 && b.misses == 0 {
        1
    } else {
        b.hits as i64 + b.misses as i64
    };
    assert((na as int) * (db as int) <= 0x2_0000_0000_0000_0000 && (na as int) * (db as int)
        >= -0x2_0000_0000_0000_0000) by (nonlinear_arith)
        requires
            -0x1_0000_0000 <= na <= 0x1_0000_0000,
            1 <= db <= 0x2_0000_0000,
    ;
    assert((nb as int) * (da as int) <= 0x2_0000_0000_0000_0000 && (nb as int) * (da as int)
        >= -0x2_0000_0000_0000_0000) by (nonlinear_arith)
        requires
            -0x1_0000_0000 <= nb <= 0x1_0000_0000,
            1 <= da <= 0x2_0000_0000,
    ;
    let lhs: i128 = (na as i128) * (db as i128);
    let rhs: i128 = (nb as i128) * (da as i128);
    if lhs > rhs {
        true
    } else if rhs > lhs {
        false
    } else {
        a.index < b.index
    }
}

/// The row of the card at position `i`.
pub fn make_row(cards: &Vec<Card>, i: usize, reverse: bool) -> (r: StatRow)
    requires
        i < cards@.len(),
    ensures
        r == spec_row(cards@, i as int, reverse),
{
    let (h, m) = crate::card::effective_counts(&cards[i], reverse);
    proof {
        lemma_metric_ranges(h as nat, m as nat);
    }
    StatRow {
        index: i,
        hits: h,
        misses: m,
        hit_ratio_permille: hit_ratio_permille(h, m),
        goodness_permille: goodness_permille(h, m),
    }
}

/// Whether `rows` is the statistics display of `cards` read in the given
/// direction: one row per card, each row the true row of its position, and
/// the whole strictly ordered by descending goodness with ties kept in
/// collection order. These clauses pin the sequence down uniquely.
pub open spec fn is_sorted_rows(cards: Seq<Card>, reverse: bool, rows: Seq<StatRow>) -> bool {
    &&& rows.len() == cards.len()
    &&& forall|k: int|
        0 <= k < rows.len() ==> (#[trigger] rows[k]).index < cards.len() && rows[k] == spec_row(
            cards,
            rows[k].index as int,
            reverse,
        )
    &&& forall|k: int, l: int| 0 <= k < l < rows.len() ==> row_before(#[trigger] rows[k], #[trigger] rows[l])
}

/// The cards' statistics rows, sorted for display: descending goodness,
/// ties in collection order.
pub fn sorted_rows(cards: &Vec<Card>, reverse: bool) -> (rows: Vec<StatRow>)
    ensures
        is_sorted_rows(cards@, reverse, rows@),
{
    let mut out: Vec<StatRow> = Vec::new();
    let mut i: usize = 0;
    while i < cards.len()
        invariant
            i <= cards@.len(),
            out@.len() == i,
            forall|k: int|
                0 <= k < out@.len() ==> (#[trigger] out@[k]).index < i && out@[k] == spec_row(
                    cards@,
                    out@[k].index as int,
                    reverse,
                ),
            forall|k: int, l: int|
                0 <= k < l < out@.len() ==> row_before(#[trigger] out@[k], #[trigger] out@[l]),
        decreases cards@.len() - i,
    {
        let row = make_row(cards, i, reverse);
        let mut k: usize = 0;
        while k < out.len() && !row_before_exec(&row, &out[k])
            invariant
                k <= out@.len(),
                forall|j: int| 0 <= j < k ==> !row_before(row, #[trigger] out@[j]),
            decreases out@.len() - k,
        {
            k = k + 1;
        }
        let ghost prev = out@;
        out.insert(k, row);
        proof {
            assert forall|p: int, q: int|
                0 <= p < q < out@.len() implies row_before(#[trigger] out@[p], #[trigger] out@[q]) by {
                if q < k {
                    assert(out@[p] == prev[p] && out@[q] == prev[q]);
                } else if p < k && q == k {
                    assert(out@[p] == prev[p]);
                    assert(!row_before(row, prev[p]));
                    lemma_row_before_total(row, prev[p]);
                } else if p < k && q > k {
                    assert(out@[p] == prev[p] && out@[q] == prev[q - 1]);
                } else if p == k {
                    assert(out@[q] == prev[q - 1]);
                    assert(row_before(row, prev[k as int]));
                    if q - 1 > k {
                        lemma_row_before_trans(row, prev[k as int], prev[q - 1]);
                    }
                } else {
                    assert(out@[p] == prev[p - 1] && out@[q] == prev[q - 1]);
                }
            }
        }
        i = i + 1;
    }
    out
}

/// The visits of a card in the given direction: its hits plus misses.
pub open spec fn spec_visits(c: Card, reverse: bool) -> int {
    spec_eff_hits(c, reverse) + spec_eff_misses(c, reverse)
}

/// The total responses recorded over the whole collection.
pub open spec fn sum_visits(cards: Seq<Card>, reverse: bool) -> int
    decreases cards.len(),
{
    if cards.len() == 0 {
        0
    } else {
        sum_visits(cards.drop_last(), reverse) + spec_visits(cards.last(), reverse)
    }
}

/// How many cards have been visited at least once.
pub open spec fn count_visited(cards: Seq<Card>, reverse: bool) -> int
    decreases cards.len(),
{
    if cards.len() == 0 {
        0
    } else {
        count_visited(cards.drop_last(), reverse) + if spec_visits(cards.last(), reverse) > 0 {
            1int
        } else {
            0int
        }
    }
}

/// Whether a card is known well: visited more than once, with exact
/// goodness at least the threshold — compared by cross-multiplication, so
/// no precision is lost.
pub open spec fn is_known_well(c: Card, reverse: bool, threshold_permille: int) -> bool {
    let h = spec_eff_hits(c, reverse) as int;
    let m = spec_eff_misses(c, reverse) as int;
    h + m > 1 && 1000 * (h - m) >= threshold_permille * (h + m)
}

/// How many cards are known well under the given threshold.
pub open spec fn count_known_well(cards: Seq<Card>, reverse: bool, threshold_permille: int) -> int
    decreases cards.len(),
{
    if cards.len() == 0 {
        0
    } else {
        count_known_well(cards.drop_last(), reverse, threshold_permille) + if is_known_well(
            cards.last(),
            reverse,
            threshold_permille,
        ) {
            1int
        } else {
            0int
        }
    }
}

/// The sum of the cards' permille goodness values.
pub open spec fn sum_goodness_pm(cards: Seq<Card>, reverse: bool) -> int
    decreases cards.len(),
{
    if cards.len() == 0 {
        0
    } else {
        sum_goodness_pm(cards.drop_last(), reverse) + spec_goodness_pm(
            spec_eff_hits(cards.last(), reverse) as nat,
            spec_eff_misses(cards.last(), reverse) as nat,
        )
    }
}

/// One hundred times the mean goodness, in centi units, truncated toward
/// zero; 0 for an empty collection.
pub open spec fn spec_overall_centi(cards: Seq<Card>, reverse: bool) -> int {
    if cards.len() == 0 {
        0
    } else {
        trunc_div(10 * sum_goodness_pm(cards, reverse), cards.len() as int)
    }
}

/// `100 * count / total` in centi-percent, truncated; 0 over an empty
/// collection.
pub open spec fn percent_centi(count: int, total: int) -> int {
    if total == 0 {
        0
    } else {
        10000 * count / total
    }
}

/// The input of the statistics display: the collection, how many rows the
/// display shows, and the study direction.
pub struct StatsProps {
    pub cards: Vec<Card>,
    pub n_rows_displayed: usize,
    pub reverse_mode: bool,
}

/// The recomputed-on-demand statistics view.
pub struct StatsSnapshot {
    /// The leading rows of the display order, at most `n_rows_displayed`.
    pub rows: Vec<StatRow>,
    /// One hundred times the mean goodness, in centi units.
    pub overall_score_centi: i64,
    /// The share of cards known well, in centi-percent.
    pub percent_known_well_centi: u64,
    /// The share of cards visited at least once, in centi-percent.
    pub percent_visited_centi: u64,
    /// All responses ever recorded, in the chosen direction.
    pub total_responses: u64,
    pub total_cards: usize,
}

/// Whether a card meets the known-well threshold, compared exactly.
fn known_well_exec(c: &Card, reverse: bool, threshold_permille: i64) -> (r: bool)
    ensures
        r == is_known_well(*c, reverse, threshold_permille as int),
{
    let (h, m) = crate::card::effective_counts(c, reverse);
    let visits: u64 = h as u64 + m as u64;
    if visits <= 1 {
        return false;
    }
    let lhs: i128 = 1000 * (h as i128 - m as i128);
    assert((threshold_permille as int) * (visits as int) <= 0x2_0000_0000_0000_0000_0000_0000
        && (threshold_permille as int) * (visits as int) >= -0x2_0000_0000_0000_0000_0000_0000)
        by (nonlinear_arith)
        requires
            -0x8000_0000_0000_0000 <= threshold_permille <= 0x8000_0000_0000_0000,
            0 <= visits <= 0x2_0000_0000,
    ;
    let rhs: i128 = (threshold_permille as i128) * (visits as i128);
    lhs >= rhs
}

/// Computes the statistics snapshot of the collection: the display rows in
/// descending-goodness order (truncated to the requested row count) and the
/// exact aggregates; an empty collection yields all-zero aggregates.
pub fn stats(props: &StatsProps, goodness_threshold_permille: i64) -> (s: StatsSnapshot)
    requires
        props.cards@.len() <= MAX_CARDS,
    ensures
        s.total_cards == props.cards@.len(),
        s.total_responses == sum_visits(props.cards@, props.reverse_mode),
        s.percent_visited_centi == percent_centi(
            count_visited(props.cards@, props.reverse_mode),
            props.cards@.len() as int,
        ),
        s.percent_known_well_centi == percent_centi(
            count_known_well(
                props.cards@,
                props.reverse_mode,
                goodness_threshold_permille as int,
            ),
            props.cards@.len() as int,
        ),
        s.overall_score_centi == spec_overall_centi(props.cards@, props.reverse_mode),
        exists|full: Seq<StatRow>|
            #[trigger] is_sorted_rows(props.cards@, props.reverse_mode, full) && s.rows@
                == full.take(
                if props.n_rows_displayed as int <= props.cards@.len() as int {
                    props.n_rows_displayed as int
                } else {
                    props.cards@.len() as int
                },
            ),
{
    let cards = &props.cards;
    let reverse = props.reverse_mode;
    let n = cards.len();
    let mut responses: u64 = 0;
    let mut visited: usize = 0;
    let mut known: usize = 0;
    let mut scaled: Vec<i64> = Vec::new();
    let mut i: usize = 0;
    while i < n
        invariant
            i <= n,
            n == cards@.len() <= MAX_CARDS,
            responses == sum_visits(cards@.take(i as int), reverse),
            responses <= i * 0x2_0000_0000,
            visited == count_visited(cards@.take(i as int), reverse),
            visited <= i,
            known == count_known_well(
                cards@.take(i as int),
                reverse,
                goodness_threshold_permille as int,
            ),
            known <= i,
            scaled@.len() == i,
            sum_i64(scaled@) == 10 * sum_goodness_pm(cards@.take(i as int), reverse),
            forall|j: int| 0 <= j < scaled@.len() ==> -100_000 <= #[trigger] scaled@[j] <= 100_000,
        decreases n - i,
    {
        proof {
            assert(cards@.take(i as int + 1).drop_last() =~= cards@.take(i as int));
            vstd::arithmetic::mul::lemma_mul_inequality(
                i as int + 1,
                MAX_CARDS as int,
                0x2_0000_0000,
            );
        }
        let (h, m) = crate::card::effective_counts(&cards[i], reverse);
        responses = responses + (h as u64 + m as u64);
        if h as u64 + m as u64 > 0 {
            visited = visited + 1;
        }
        if known_well_exec(&cards[i], reverse, goodness_threshold_permille) {
            known = known + 1;
        }
        proof {
            lemma_metric_ranges(h as nat, m as nat);
        }
        let g: i32 = goodness_permille(h, m);
        let ghost prev_scaled = scaled@;
        scaled.push(10 * (g as i64));
        proof {
            assert(scaled@.drop_last() =~= prev_scaled);
        }
        i = i + 1;
    }
    proof {
        assert(cards@.take(n as int) =~= cards@);
        assert(scaled@.take(scaled@.len() as int) =~= scaled@);
    }
    let overall: i64 = mean(&scaled);
    let percent_visited: u64 = if n == 0 {
        0
    } else {
        proof {
            vstd::arithmetic::div_mod::lemma_div_basics_4(10000 * visited as int, n as int);
            vstd::arithmetic::div_mod::lemma_div_is_ordered(
                10000 * visited as int,
                10000 * n as int,
                n as int,
            );
            vstd::arithmetic::div_mod::lemma_div_multiples_vanish(10000, n as int);
        }
        (10000 * visited as u64) / (n as u64)
    };
    let percent_known: u64 = if n == 0 {
        0
    } else {
        proof {
            vstd::arithmetic::div_mod::lemma_div_basics_4(10000 * known as int, n as int);
            vstd::arithmetic::div_mod::lemma_div_is_ordered(
                10000 * known as int,
                10000 * n as int,
                n as int,
            );
            vstd::arithmetic::div_mod::lemma_div_multiples_vanish(10000, n as int);
        }
        (10000 * known as u64) / (n as u64)
    };
    let mut rows = sorted_rows(cards, reverse);
    let ghost full = rows@;
    rows.truncate(props.n_rows_displayed);
    proof {
        if props.n_rows_displayed <= full.len() {
            assert(rows@ =~= full.take(props.n_rows_displayed as int));
        } else {
            assert(rows@ =~= full.take(full.len() as int));
        }
    }
    StatsSnapshot {
        rows,
        overall_score_centi: overall,
        percent_known_well_centi: percent_known,
        percent_visited_centi: percent_visited,
        total_responses: responses,
        total_cards: n,
    }
}

/// The sum of permille goodness over an all-unvisited collection is zero.
proof fn lemma_sum_goodness_unvisited(cards: Seq<Card>, reverse: bool)
    requires
        forall|i: int|
            0 <= i < cards.len() ==> spec_eff_hits(#[trigger] cards[i], reverse) == 0
                && spec_eff_misses(cards[i], reverse) == 0,
    ensures
        sum_goodness_pm(cards, reverse) == 0,
    decreases cards.len(),
{
    if cards.len() > 0 {
        lemma_sum_goodness_unvisited(cards.drop_last(), reverse);
    }
}

/// An all-unvisited collection of any size scores exactly zero overall.
pub proof fn lemma_unvisited_overall_zero(cards: Seq<Card>, reverse: bool)
    requires
        cards.len() >= 1,
        forall|i: int|
            0 <= i < cards.len() ==> spec_eff_hits(#[trigger] cards[i], reverse) == 0
                && spec_eff_misses(cards[i], reverse) == 0,
    ensures
        spec_overall_centi(cards, reverse) == 0,
{
    lemma_sum_goodness_unvisited(cards, reverse);
    vstd::arithmetic::div_mod::lemma_div_basics(cards.len() as int);
}

} // verus!
