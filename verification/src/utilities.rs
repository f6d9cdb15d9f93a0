//! What the other modules share: axes, and flags that are counted.

pub mod flags;
pub mod mathematics;
