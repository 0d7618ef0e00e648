//! Core of an adaptive flashcard study tool.
//!
//! The library holds the verified logic: the card data model, the bounded
//! recency window that suppresses immediate repeats, the stochastic card
//! selector, the statistics engine, the JSON card format, and the
//! checksum-guarded local store.

pub mod card;
pub mod history;
pub mod json;
pub mod random;
pub mod render;
pub mod scheduler;
pub mod session;
pub mod stats;
pub mod store;
pub mod text;
