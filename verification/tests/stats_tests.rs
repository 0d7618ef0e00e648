use memoradical::card::Card;
use memoradical::scheduler::record_outcome;
use memoradical::stats::{
    goodness_permille, hit_ratio_permille, mean, stats, StatsProps,
};

fn card_with(hits: u32, misses: u32) -> Card {
    let mut c = Card::new("f", "b");
    c.hits = hits;
    c.misses = misses;
    c
}

#[test]
fn metric_ranges_hold_for_extreme_counts() {
    // goodness in [-1, 1] and hit ratio in [0, 1] for every combination.
    let samples = [
        (0u32, 0u32),
        (1, 0),
        (0, 1),
        (1, 1),
        (7, 3),
        (3, 7),
        (u32::MAX, 0),
        (0, u32::MAX),
        (u32::MAX, u32::MAX),
        (u32::MAX, 1),
    ];
    for (h, m) in samples {
        let g = goodness_permille(h, m);
        let r = hit_ratio_permille(h, m);
        assert!(-1000 <= g && g <= 1000, "goodness of ({}, {})", h, m);
        assert!(r <= 1000, "ratio of ({}, {})", h, m);
    }
}

#[test]
fn metric_formulas_are_exact() {
    assert_eq!(hit_ratio_permille(0, 0), 0);
    assert_eq!(goodness_permille(0, 0), 0);
    assert_eq!(hit_ratio_permille(1, 2), 333);
    assert_eq!(goodness_permille(1, 2), -333);
    assert_eq!(goodness_permille(2, 1), 333);
    assert_eq!(hit_ratio_permille(3, 0), 1000);
    assert_eq!(goodness_permille(3, 0), 1000);
    assert_eq!(goodness_permille(0, 3), -1000);
    assert_eq!(hit_ratio_permille(1, 1), 500);
    assert_eq!(goodness_permille(1, 1), 0);
}

#[test]
fn unvisited_deck_scores_exactly_zero() {
    // For an all-unvisited deck of any size, the overall score is exactly 0.
    for n in 1usize..=20 {
        let mut cards = Vec::new();
        for i in 0..n {
            cards.push(card_with(0, 0));
            let _ = i;
        }
        let props = StatsProps { cards, n_rows_displayed: 50, reverse_mode: false };
        let snapshot = stats(&props, 950);
        assert_eq!(snapshot.overall_score_centi, 0, "deck of {}", n);
    }
}

#[test]
fn one_hit_one_miss_gives_goodness_zero() {
    // Recording one hit then one miss on a fresh card yields (1, 1) and
    // goodness exactly 0.
    let mut cards = vec![card_with(0, 0)];
    assert!(record_outcome(&mut cards, 0, true, false).is_ok());
    assert!(record_outcome(&mut cards, 0, false, false).is_ok());
    assert_eq!(cards[0].hits, 1);
    assert_eq!(cards[0].misses, 1);
    assert_eq!(goodness_permille(cards[0].hits, cards[0].misses), 0);
}

#[test]
fn aggregates_on_a_known_deck() {
    let cards = vec![card_with(2, 0), card_with(1, 1), card_with(0, 0)];
    let props = StatsProps { cards, n_rows_displayed: 50, reverse_mode: false };
    let snapshot = stats(&props, 950);
    assert_eq!(snapshot.total_cards, 3);
    assert_eq!(snapshot.total_responses, 4);
    // Two of three cards visited: 66.66%.
    assert_eq!(snapshot.percent_visited_centi, 6666);
    // One card visited more than once with goodness at least 0.95: 33.33%.
    assert_eq!(snapshot.percent_known_well_centi, 3333);
    // Mean goodness (1.0 + 0.0 + 0.0) / 3, scored over 100: 33.33.
    assert_eq!(snapshot.overall_score_centi, 3333);
    // Display order: best goodness first, ties in collection order.
    let order: Vec<usize> = snapshot.rows.iter().map(|r| r.index).collect();
    assert_eq!(order, vec![0, 1, 2]);
    assert_eq!(snapshot.rows[0].goodness_permille, 1000);
    assert_eq!(snapshot.rows[0].hit_ratio_permille, 1000);
    assert_eq!(snapshot.rows[1].goodness_permille, 0);
    assert_eq!(snapshot.rows[1].hit_ratio_permille, 500);
}

#[test]
fn sort_is_exact_and_stable() {
    // 1/3 versus 333/1000 permille would tie if compared in fixed point;
    // the exact rational comparison keeps them apart.
    let cards = vec![card_with(333, 667), card_with(1, 2), card_with(5, 5), card_with(3, 3)];
    let props = StatsProps { cards, n_rows_displayed: 50, reverse_mode: false };
    let snapshot = stats(&props, 950);
    let order: Vec<usize> = snapshot.rows.iter().map(|r| r.index).collect();
    // goodness: card0 = -334/1000, card1 = -1/3, card2 = card3 = 0.
    // -1/3 > -334/1000; the two zeros tie and keep collection order.
    assert_eq!(order, vec![2, 3, 1, 0]);
}

#[test]
fn reverse_mode_reads_reverse_counts() {
    let mut c = card_with(9, 9);
    c.reverse_hits = 3;
    c.reverse_misses = 0;
    let props = StatsProps { cards: vec![c], n_rows_displayed: 50, reverse_mode: true };
    let snapshot = stats(&props, 950);
    assert_eq!(snapshot.rows[0].hits, 3);
    assert_eq!(snapshot.rows[0].misses, 0);
    assert_eq!(snapshot.rows[0].goodness_permille, 1000);
    assert_eq!(snapshot.total_responses, 3);
}

#[test]
fn empty_collection_yields_zero_aggregates() {
    let props = StatsProps { cards: Vec::new(), n_rows_displayed: 50, reverse_mode: false };
    let snapshot = stats(&props, 950);
    assert_eq!(snapshot.total_cards, 0);
    assert_eq!(snapshot.total_responses, 0);
    assert_eq!(snapshot.percent_visited_centi, 0);
    assert_eq!(snapshot.percent_known_well_centi, 0);
    assert_eq!(snapshot.overall_score_centi, 0);
    assert_eq!(snapshot.rows.len(), 0);
}

#[test]
fn rows_truncate_to_requested_count() {
    let cards = vec![card_with(1, 0), card_with(2, 0), card_with(3, 0)];
    let props = StatsProps { cards, n_rows_displayed: 2, reverse_mode: false };
    let snapshot = stats(&props, 950);
    assert_eq!(snapshot.rows.len(), 2);
    assert_eq!(snapshot.total_cards, 3);
}

#[test]
fn mean_truncates_toward_zero() {
    assert_eq!(mean(&Vec::new()), 0);
    assert_eq!(mean(&vec![3, 4]), 3);
    assert_eq!(mean(&vec![-3, -4]), -3);
    assert_eq!(mean(&vec![10, 20, 30]), 20);
    assert_eq!(mean(&vec![-1, 1]), 0);
}

#[test]
fn known_well_threshold_is_inclusive_and_exact() {
    // goodness 38/40 is exactly 0.95 and meets the threshold; 18/20 is 0.90
    // and does not; a single response never counts however good.
    let cards = vec![card_with(39, 1), card_with(19, 1), card_with(1, 0)];
    let props = StatsProps { cards, n_rows_displayed: 50, reverse_mode: false };
    let snapshot = stats(&props, 950);
    assert_eq!(snapshot.percent_known_well_centi, 3333);
}

