//! Font catalog and glyph-range planning.

pub mod bitset;
pub mod coverage;
pub mod name;
pub mod range;
pub mod sources;
pub mod stack;
