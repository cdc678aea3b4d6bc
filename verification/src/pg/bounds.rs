//! The geographic bounds of a table: when to compute them, and by which query.

use crate::pg::escape::escape_identifier;
use crate::pg::escape::escaped_identifier;
use crate::pg::table::GeoBBox;
use crate::pg::table::TableInfo;
use crate::pg::table::TableModel;
use crate::text::signed_decimal;
use crate::text::signed_decimal_string;
use vstd::prelude::*;
use vstd::string::*;

verus! {

/// How the bounds of a table are found where the configuration sets none.
#[derive(Clone, Copy, Debug, PartialEq, Eq, Structural)]
pub enum BoundsCalcType {
    /// Not at all.
    Skip,
    /// By a query that is given up after a while.
    Quick,
    /// By a query that is waited for.
    Calc,
}

/// The seconds after which a quick computation of bounds is given up.
pub const DEFAULT_BOUNDS_TIMEOUT: u64 = 5;

/// What to do about the bounds of a table.
#[derive(Clone, Copy, Debug, PartialEq, Eq, Structural)]
pub enum BoundsPlan {
    /// Nothing: the bounds stay as they are.
    Keep,
    /// Run the query for the bounds and wait for its answer.
    Compute,
    /// Run the query for the bounds and wait for its answer for so many seconds.
    ComputeWithin(u64),
}

/// How a computation of bounds ended.
#[derive(Clone, Copy, Debug, PartialEq, Eq, Structural)]
pub enum BoundsOutcome {
    /// The query answered: with bounds, or with none for a table without geometries.
    Computed(Option<GeoBBox>),
    /// The query was given up.
    TimedOut,
}

/// What to do about the bounds of `info` under the mode `bounds_type`: they are computed
/// only where the table has none and the mode is not to skip.
pub fn plan_bounds(info: &TableInfo, bounds_type: BoundsCalcType) -> (plan: BoundsPlan)
    ensures
        plan == if info.bounds is Some || bounds_type is Skip {
            BoundsPlan::Keep
        } else if bounds_type is Calc {
            BoundsPlan::Compute
        } else {
            BoundsPlan::ComputeWithin(DEFAULT_BOUNDS_TIMEOUT)
        },
{
    if info.bounds.is_none() {
        match bounds_type {
            BoundsCalcType::Skip => BoundsPlan::Keep,
            BoundsCalcType::Calc => BoundsPlan::Compute,
            BoundsCalcType::Quick => BoundsPlan::ComputeWithin(DEFAULT_BOUNDS_TIMEOUT),
        }
    } else {
        BoundsPlan::Keep
    }
}

/// Takes note of how the computation of the bounds of `info` ended. A computation that
/// was given up leaves the table as it is, and is worth a warning: the answer says so.
pub fn apply_bounds(info: &mut TableInfo, outcome: BoundsOutcome) -> (timed_out: bool)
    ensures
        timed_out == outcome is TimedOut,
        final(info)@ == (TableModel {
            bounds: match outcome {
                BoundsOutcome::Computed(bounds) => bounds,
                BoundsOutcome::TimedOut => old(info)@.bounds,
            },
            ..old(info)@
        }),
{
    match outcome {
        BoundsOutcome::Computed(bounds) => {
            info.bounds = bounds;
            false
        },
        BoundsOutcome::TimedOut => true,
    }
}

/// The query for the bounds of a geometry column: the extent of its geometries in
/// longitude and latitude, widened by one unit where the extent is a single point.
pub open spec fn bounds_query_text(
    schema: Seq<char>,
    table: Seq<char>,
    geometry_column: Seq<char>,
    srid: i32,
) -> Seq<char> {
    let schema = escaped_identifier(schema);
    let table = escaped_identifier(table);
    let geometry = escaped_identifier(geometry_column);
    let srid = signed_decimal(srid as int);
    "\nWITH real_bounds AS (SELECT ST_SetSRID(ST_Extent("@ + geometry + "), "@ + srid
        + ") AS rb FROM "@ + schema + "."@ + table
        + ")\nSELECT ST_Transform(\n            CASE\n                WHEN (SELECT ST_GeometryType(rb) FROM real_bounds LIMIT 1) = 'ST_Point'\n                THEN ST_SetSRID(ST_Extent(ST_Expand("@
        + geometry + ", 1)), "@ + srid
        + ")\n                ELSE (SELECT * FROM real_bounds)\n            END,\n            4326\n        ) AS bounds\nFROM "@
        + schema + "."@ + table + ";\n                "@
}

/// Builds the query for the bounds of the geometry column of `info`.
pub fn bounds_query(info: &TableInfo) -> (query: String)
    ensures
        query@ == bounds_query_text(info.schema@, info.table@, info.geometry_column@, info.srid),
{
    let schema = escape_identifier(info.schema.as_str());
    let table = escape_identifier(info.table.as_str());
    let geometry_column = escape_identifier(info.geometry_column.as_str());
    let srid = signed_decimal_string(info.srid);
    let mut query = String::from_str("\nWITH real_bounds AS (SELECT ST_SetSRID(ST_Extent(");
    query.append(geometry_column.as_str());
    query.append("), ");
    query.append(srid.as_str());
    query.append(") AS rb FROM ");
    query.append(schema.as_str());
    query.append(".");
    query.append(table.as_str());
    query.append(
        ")\nSELECT ST_Transform(\n            CASE\n                WHEN (SELECT ST_GeometryType(rb) FROM real_bounds LIMIT 1) = 'ST_Point'\n                THEN ST_SetSRID(ST_Extent(ST_Expand(",
    );
    query.append(geometry_column.as_str());
    query.append(", 1)), ");
    query.append(srid.as_str());
    query.append(
        ")\n                ELSE (SELECT * FROM real_bounds)\n            END,\n            4326\n        ) AS bounds\nFROM ",
    );
    query.append(schema.as_str());
    query.append(".");
    query.append(table.as_str());
    query.append(";\n                ");
    query
}

} // verus!
