use memoradical::card::{default_cards, Card, ModeFlags};
use memoradical::random::SplitMixSource;
use memoradical::scheduler::{
    go_back, on_delete, on_replace_all, record_outcome, select_next, SchedulerError,
    SchedulerState,
};

fn deck(n: usize) -> Vec<Card> {
    let mut v = Vec::new();
    for i in 0..n {
        v.push(Card::new(&format!("front {}", i), &format!("back {}", i)));
    }
    v
}

fn all_flag_combos() -> Vec<ModeFlags> {
    let mut v = Vec::new();
    for a in [false, true] {
        for b in [false, true] {
            for c in [false, true] {
                v.push(ModeFlags { reverse_mode: a, prefer_missed: b, prefer_neglected: c });
            }
        }
    }
    v
}

#[test]
fn select_next_returns_in_range() {
    // For all non-empty collections, the selected position lies in [0, N).
    for n in [1usize, 2, 3, 5, 17] {
        for flags in all_flag_combos() {
            let cards = deck(n);
            let mut state = SchedulerState::new();
            let mut source = SplitMixSource::new(42 + n as u64);
            for _ in 0..50 {
                let pos = select_next(&cards, &mut state, &flags, &mut source);
                let pos = pos.expect("non-empty collection must select");
                assert!(pos < n);
            }
        }
    }
}

#[test]
fn select_next_on_empty_is_none() {
    let cards: Vec<Card> = Vec::new();
    let mut state = SchedulerState::new();
    let mut source = SplitMixSource::new(7);
    let flags = ModeFlags::default_flags();
    assert_eq!(select_next(&cards, &mut state, &flags, &mut source), None);
}

#[test]
fn no_immediate_repeats_without_fallback() {
    // With the Beta preference off, every weight outside the window is a
    // whole unit, so the all-weights-zero fallback can never fire and an
    // immediate repeat is impossible.
    let flags = ModeFlags { reverse_mode: false, prefer_missed: false, prefer_neglected: false };
    for n in [2usize, 3, 4, 10, 33] {
        let cards = deck(n);
        let mut state = SchedulerState::new();
        let mut source = SplitMixSource::new(99);
        let mut last = select_next(&cards, &mut state, &flags, &mut source).unwrap();
        for _ in 0..200 {
            let next = select_next(&cards, &mut state, &flags, &mut source).unwrap();
            assert_ne!(next, last, "immediate repeat with {} cards", n);
            last = next;
        }
    }
}

#[test]
fn single_card_is_always_selected() {
    // With one card the window capacity is 0, so the same card repeats.
    let cards = deck(1);
    let flags = ModeFlags::default_flags();
    let mut state = SchedulerState::new();
    let mut source = SplitMixSource::new(5);
    for _ in 0..10 {
        assert_eq!(select_next(&cards, &mut state, &flags, &mut source), Some(0));
    }
}

#[test]
fn go_back_pops_most_recent() {
    let cards = deck(8);
    let flags = ModeFlags { reverse_mode: false, prefer_missed: false, prefer_neglected: false };
    let mut state = SchedulerState::new();
    let mut source = SplitMixSource::new(3);
    let first = select_next(&cards, &mut state, &flags, &mut source).unwrap();
    let _second = select_next(&cards, &mut state, &flags, &mut source).unwrap();
    // The first selection was pushed when the second was drawn.
    assert_eq!(go_back(&mut state), Some(first));
    assert_eq!(state.current, Some(first));
    // The window is empty again; going back further is a no-op.
    assert_eq!(go_back(&mut state), None);
    assert_eq!(state.current, Some(first));
}

#[test]
fn record_outcome_touches_exactly_one_count() {
    let mut cards = deck(3);
    assert!(record_outcome(&mut cards, 1, true, false).is_ok());
    assert_eq!(cards[1].hits, 1);
    assert_eq!(cards[1].misses, 0);
    assert_eq!(cards[0].hits, 0);
    assert_eq!(cards[2].hits, 0);
    assert!(record_outcome(&mut cards, 1, false, false).is_ok());
    assert_eq!(cards[1].misses, 1);
    assert!(record_outcome(&mut cards, 1, true, true).is_ok());
    assert_eq!(cards[1].reverse_hits, 1);
    assert_eq!(cards[1].reverse_misses, 0);
    assert!(record_outcome(&mut cards, 1, false, true).is_ok());
    assert_eq!(cards[1].reverse_misses, 1);
    // Forward counts were not touched by the reverse updates.
    assert_eq!(cards[1].hits, 1);
    assert_eq!(cards[1].misses, 1);
}

#[test]
fn record_outcome_rejects_stale_position() {
    let mut cards = deck(2);
    assert_eq!(
        record_outcome(&mut cards, 2, true, false),
        Err(SchedulerError::StaleReference)
    );
    assert_eq!(cards[0].hits, 0);
    assert_eq!(cards[1].hits, 0);
}

#[test]
fn delete_remaps_current_above_position() {
    let mut cards = deck(5);
    let mut state = SchedulerState::new();
    state.current = Some(4);
    state.history.push(1, 5);
    assert!(on_delete(&mut cards, &mut state, 2).is_ok());
    assert_eq!(cards.len(), 4);
    assert_eq!(state.current, Some(3));
    assert_eq!(state.history.len(), 0);
}

#[test]
fn delete_keeps_current_below_position() {
    let mut cards = deck(5);
    let mut state = SchedulerState::new();
    state.current = Some(1);
    state.history.push(3, 5);
    assert!(on_delete(&mut cards, &mut state, 2).is_ok());
    assert_eq!(state.current, Some(1));
    assert_eq!(state.history.len(), 0);
}

#[test]
fn delete_clears_current_at_position() {
    let mut cards = deck(5);
    let mut state = SchedulerState::new();
    state.current = Some(2);
    state.history.push(0, 5);
    assert!(on_delete(&mut cards, &mut state, 2).is_ok());
    assert_eq!(state.current, None);
    assert_eq!(state.history.len(), 0);
}

#[test]
fn delete_rejects_stale_position() {
    let mut cards = deck(2);
    let mut state = SchedulerState::new();
    state.current = Some(0);
    assert_eq!(on_delete(&mut cards, &mut state, 5), Err(SchedulerError::StaleReference));
    assert_eq!(cards.len(), 2);
    assert_eq!(state.current, Some(0));
}

#[test]
fn replace_all_clears_scheduler() {
    let mut cards = deck(3);
    let mut state = SchedulerState::new();
    state.current = Some(1);
    state.history.push(0, 3);
    on_replace_all(&mut cards, &mut state, default_cards());
    assert_eq!(cards.len(), 6);
    assert_eq!(state.current, None);
    assert_eq!(state.history.len(), 0);
}

#[test]
fn neglect_preference_favors_rarely_visited_cards() {
    // With only the neglect bonus active, weights are deterministic:
    // a whole unit for the unvisited card against 1/100 of a unit for the
    // heavily visited one, so the unvisited card dominates the draws.
    let mut visited = Card::new("old", "old");
    visited.hits = 50;
    visited.misses = 50;
    let cards = vec![Card::new("new", "new"), visited];
    let flags = ModeFlags { reverse_mode: false, prefer_missed: false, prefer_neglected: true };
    let mut source = SplitMixSource::new(2024);
    let draws = 2000usize;
    let mut fresh = 0usize;
    for _ in 0..draws {
        let mut state = SchedulerState::new();
        if select_next(&cards, &mut state, &flags, &mut source) == Some(0) {
            fresh += 1;
        }
    }
    assert!(fresh as f64 / draws as f64 > 0.95, "fresh card share {}", fresh);
}

