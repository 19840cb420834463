//! Text handling over sequences of characters.

pub mod bytes;
pub mod compose;
pub mod scan;
pub mod order;
pub mod number;
