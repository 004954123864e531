//! Key-access resolution, layout modelling and search support for small split keyboards.
//!
//! A layout says what each slot of a board does: which character it produces when
//! tapped, on each layer, and what it does while held on the base layer. Together
//! with the geometry of a board, which says which finger presses which key, the
//! layout is resolved into every way of typing each required character. The resolved
//! layout is what a cost of typing is computed from, and what a search by annealing
//! tries to improve.

pub mod alphabet;
pub mod cost;
pub mod counter;
pub mod evaluate;
pub mod ferris;
pub mod iter;
pub mod keyboard;
pub mod laws;
pub mod layout;
pub mod optimization;
pub mod qmk;
mod resolve;
pub mod text;
pub mod usage;

pub use alphabet::in_alphabet;
pub use alphabet::ALPHABET;
