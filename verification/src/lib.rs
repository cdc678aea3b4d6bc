//! The core of a vector-tile server, with its rules stated as contracts and proved.
//!
//! - [`srv`]: which sources answer a request, how their tiles merge, in which encoding the
//!   answer goes out, what is cached, and what the catalog tells.
//! - [`fonts`]: the font catalog, and which font renders which codepoint of a glyph range.
//! - [`pg`]: tables with a geometry column, and the queries that make their tiles.
//! - [`statics`] and [`files`]: static files by name.
//! - [`tile`], [`text`] and [`order`]: what the others build on.

pub mod files;
pub mod fonts;
pub mod order;
pub mod pg;
pub mod srv;
pub mod statics;
pub mod text;
pub mod tile;
