//! The card data model shared by the scheduler and the statistics engine.

use vstd::prelude::*;
use vstd::string::StringExecFns;

verus! {

/// The largest collection size the library accepts; it keeps every weight
/// and count sum within `u64` and every square within the word size.
pub const MAX_CARDS: usize = 0x4000_0000;

/// One flashcard with its cumulative study history. Counts only grow,
/// except through deletion of the whole card; `reverse_hits` and
/// `reverse_misses` belong to reverse-mode study (response shown first).
pub struct Card {
    pub prompt: String,
    pub response: String,
    pub hits: u32,
    pub misses: u32,
    pub reverse_hits: u32,
    pub reverse_misses: u32,
}

/// The mathematical value of a card: its two texts and four counts.
pub ghost struct CardView {
    pub prompt: Seq<char>,
    pub response: Seq<char>,
    pub hits: u32,
    pub misses: u32,
    pub reverse_hits: u32,
    pub reverse_misses: u32,
}

impl View for Card {
    type V = CardView;

    open spec fn view(&self) -> CardView {
        CardView {
            prompt: self.prompt@,
            response: self.response@,
            hits: self.hits,
            misses: self.misses,
            reverse_hits: self.reverse_hits,
            reverse_misses: self.reverse_misses,
        }
    }
}

impl Card {
    /// A fresh, never-studied card.
    pub fn new(front: &str, back: &str) -> (c: Card)
        ensures
            c.prompt@ == front@,
            c.response@ == back@,
            c.hits == 0 && c.misses == 0 && c.reverse_hits == 0 && c.reverse_misses == 0,
    {
        Card {
            prompt: String::from_str(front),
            response: String::from_str(back),
            hits: 0,
            misses: 0,
            reverse_hits: 0,
            reverse_misses: 0,
        }
    }
}

/// The hit count read in the given study direction.
pub open spec fn spec_eff_hits(c: Card, reverse: bool) -> u32 {
    if reverse {
        c.reverse_hits
    } else {
        c.hits
    }
}

/// The miss count read in the given study direction.
pub open spec fn spec_eff_misses(c: Card, reverse: bool) -> u32 {
    if reverse {
        c.reverse_misses
    } else {
        c.misses
    }
}

/// The direction-specific `(hits, misses)` pair of a card.
pub fn effective_counts(c: &Card, reverse: bool) -> (r: (u32, u32))
    ensures
        r.0 == spec_eff_hits(*c, reverse),
        r.1 == spec_eff_misses(*c, reverse),
{
    if reverse {
        (c.reverse_hits, c.reverse_misses)
    } else {
        (c.hits, c.misses)
    }
}

/// The built-in starter deck, used when the backing store holds nothing:
/// a handful of never-studied cards that teach the study keys.
pub fn default_cards() -> (v: Vec<Card>)
    ensures
        v@.len() == 6,
        forall|i: int|
            0 <= i < v@.len() ==> (#[trigger] v@[i]).hits == 0 && v@[i].misses == 0
                && v@[i].reverse_hits == 0 && v@[i].reverse_misses == 0,
{
    let mut v: Vec<Card> = Vec::new();
    v.push(Card::new("What is the key for flipping a card?", "\"f\""));
    v.push(Card::new("What is the key for registering a \"hit\"?", "\"h\""));
    v.push(Card::new("What is the key for registering a \"miss\"?", "\"m\""));
    v.push(Card::new("What key shows the previous card?", "\"p\""));
    v.push(Card::new("What key shows the next card without registering hit or miss?", "\"n\""));
    v.push(Card::new("What is the key for editing the current card?", "\"e\""));
    v
}

/// The external, caller-owned study toggles consumed by the scheduler and
/// the statistics engine.
#[derive(Clone, Copy, PartialEq, Eq, Structural)]
pub struct ModeFlags {
    /// Swap which face is the prompt and which hit/miss pair is updated.
    pub reverse_mode: bool,
    /// Weight selection by a Beta draw over the miss/hit history.
    pub prefer_missed: bool,
    /// Add weight inversely proportional to how often a card was visited.
    pub prefer_neglected: bool,
}

impl ModeFlags {
    /// The startup configuration: prefer missed cards, forward direction.
    pub fn default_flags() -> (f: ModeFlags)
        ensures
            f.reverse_mode == false,
            f.prefer_missed == true,
            f.prefer_neglected == false,
    {
        ModeFlags { reverse_mode: false, prefer_missed: true, prefer_neglected: false }
    }
}

/// Which face of the current card is shown.
#[derive(Clone, PartialEq, Eq, Structural)]
pub enum Face {
    Prompt,
    Response,
}

impl Face {
    /// The face opposite the given one.
    pub fn other_side(one: &Face) -> (r: Face)
        ensures
            *one is Prompt <==> r is Response,
    {
        match one {
            Face::Prompt => Face::Response,
            Face::Response => Face::Prompt,
        }
    }
}

} // verus!
