//! A simulator of the three-door Monty Hall game: rounds played under a
//! fixed host strategy, tallied by outcome, and laid out as tables.

pub mod chance;
pub mod driver;
pub mod game;
pub mod stats;

pub use chance::{choose_one, pick_one};
pub use driver::{play_and_record, render_due, RENDER_EVERY};
pub use game::{play_round, play_round_with, Game, Play};
pub use stats::{
    classify, label_name, labels_of, percent, Row, StatsAggregator, LABELS, SLOTS,
};
