//! PostGIS table sources: SRID resolution, table metadata and tile queries.

pub mod bounds;
pub mod catalog;
pub mod escape;
pub mod srid;
pub mod table;
pub mod table_source;
