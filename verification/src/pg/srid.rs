//! Resolution of the spatial reference identifier of a table source.

use vstd::prelude::*;

verus! {

/// The SRID that a table source ends up with, or `None` where the source has to be skipped.
///
/// A zero stands for "not set". When neither side is set the default decides; when one side
/// is set it wins; when both are set they have to agree.
pub open spec fn resolved_srid(db_srid: i32, cfg_srid: i32, default_srid: Option<i32>) -> Option<
    i32,
> {
    if db_srid == 0 && cfg_srid == 0 {
        default_srid
    } else if db_srid == 0 {
        Some(cfg_srid)
    } else if cfg_srid == 0 {
        Some(db_srid)
    } else if db_srid == cfg_srid {
        Some(cfg_srid)
    } else {
        None
    }
}

/// Resolves the SRID of the table `table_id` as used by the source `new_id`.
///
/// `db_srid` is what the database reports, `cfg_srid` what the configuration asks for.
pub fn calc_srid(
    table_id: &str,
    new_id: &str,
    db_srid: i32,
    cfg_srid: i32,
    default_srid: Option<i32>,
) -> (srid: Option<i32>)
    ensures
        srid == resolved_srid(db_srid, cfg_srid, default_srid),
{
    if db_srid == 0 && cfg_srid == 0 {
        default_srid
    } else if db_srid == 0 {
        Some(cfg_srid)
    } else if cfg_srid == 0 {
        Some(db_srid)
    } else if db_srid != cfg_srid {
        None
    } else {
        Some(cfg_srid)
    }
}

} // verus!
