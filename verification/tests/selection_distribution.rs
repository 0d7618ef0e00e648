use rand::rngs::StdRng;
use rand::{Rng, SeedableRng};
use rand_distr::{Beta, Distribution};

use memoradical::card::{Card, ModeFlags};
use memoradical::random::{RandomSource, FP_ONE};
use memoradical::scheduler::{select_next, SchedulerState};

/// A real random source: uniform integers from a seeded generator and
/// fixed-point Beta draws from the reference distribution implementation.
struct BetaSource {
    rng: StdRng,
}

impl RandomSource for BetaSource {
    fn next_below(&mut self, n: u64) -> u64 {
        self.rng.gen_range(0..n)
    }

    fn beta_fp(&mut self, alpha: u64, beta: u64) -> u64 {
        let dist = Beta::new(alpha as f64, beta as f64).expect("positive shapes");
        let x: f64 = dist.sample(&mut self.rng);
        let scaled = (x * FP_ONE as f64) as u64;
        if scaled > FP_ONE {
            FP_ONE
        } else {
            scaled
        }
    }
}

fn card_with(hits: u32, misses: u32) -> Card {
    let mut c = Card::new("f", "b");
    c.hits = hits;
    c.misses = misses;
    c
}

#[test]
fn beta_preference_favors_missed_cards() {
    // Deck: never-visited, heavily hit, heavily missed. With the Beta
    // preference and an empty window, the heavily missed card dominates —
    // its Beta(6, 1) weight draws high — and the well-known card, whose
    // Beta(1, 6) weight draws low, rarely comes up. Under the proportional
    // weighted draw the dominant share settles around 0.6 and the
    // well-known share around 0.1.
    let cards = vec![card_with(0, 0), card_with(5, 0), card_with(0, 5)];
    let flags = ModeFlags { reverse_mode: false, prefer_missed: true, prefer_neglected: false };
    let mut source = BetaSource { rng: StdRng::seed_from_u64(20240131) };
    let draws = 10_000usize;
    let mut counts = [0usize; 3];
    for _ in 0..draws {
        // A fresh scheduler each draw: no current card, empty window.
        let mut state = SchedulerState::new();
        let pos = select_next(&cards, &mut state, &flags, &mut source).unwrap();
        counts[pos] += 1;
    }
    let missed_share = counts[2] as f64 / draws as f64;
    let hit_share = counts[1] as f64 / draws as f64;
    assert!(missed_share > 0.5, "missed card share {}", missed_share);
    assert!(hit_share < 0.15, "well-known card share {}", hit_share);
    assert!(missed_share > 4.0 * hit_share, "skew {} vs {}", missed_share, hit_share);
}
