//! A water-sort puzzle engine: colored portions stacked in tubes, poured
//! between tubes until every tube is empty or full of a single color.
//!
//! The engine is a deterministic state machine driven one tick at a time;
//! its transition function, the pour algorithm and the win check are all
//! stated over sequence models and proved against them.

pub mod board;
pub mod laws;
pub mod layout;
pub mod model;
pub mod random;
pub mod tube;
