//! Table sources: what the configuration says of a table merged with what the database
//! reports, and the query that makes its tiles.

use crate::pg::escape::escape_identifier;
use crate::pg::escape::escape_literal;
use crate::pg::escape::escaped_identifier;
use crate::pg::escape::escaped_literal;
use crate::pg::srid::calc_srid;
use crate::pg::srid::resolved_srid;
use crate::pg::table::clone_pairs;
use crate::pg::table::clone_text;
use crate::pg::table::find_key;
use crate::pg::table::has_key;
use crate::pg::table::keys_distinct;
use crate::pg::table::lookup;
use crate::pg::table::lookup_key;
use crate::pg::table::normalize_key;
use crate::pg::table::normalized_key;
use crate::pg::table::pairs_view;
use crate::pg::table::table_id;
use crate::pg::table::text_view;
use crate::pg::table::TableInfo;
use crate::pg::table::TableModel;
use crate::text::decimal;
use crate::text::decimal_string;
use crate::text::signed_decimal;
use crate::text::signed_decimal_string;
use vstd::prelude::*;
use vstd::string::*;

verus! {

/// The width and height of a tile, where a table sets none.
pub const DEFAULT_EXTENT: u32 = 4096;

/// The margin around a tile, where a table sets none.
pub const DEFAULT_BUFFER: u32 = 64;

/// Whether geometries are cut at the margin, where a table does not say.
pub const DEFAULT_CLIP_GEOM: bool = true;

/// The first texts of `pairs`.
pub open spec fn keys_of(pairs: Seq<(Seq<char>, Seq<char>)>) -> Seq<Seq<char>> {
    Seq::new(pairs.len(), |i: int| pairs[i].0)
}

/// The configured column names that need a column of the database: the identifier column,
/// where one is set, and then the properties, where they are set.
pub open spec fn mapped_keys(cfg: TableModel) -> Seq<Seq<char>> {
    let id = match cfg.id_column {
        Some(column) => seq![column],
        None => Seq::<Seq<char>>::empty(),
    };
    let properties = match cfg.properties {
        Some(properties) => keys_of(properties),
        None => Seq::<Seq<char>>::empty(),
    };
    id + properties
}

/// For each of the first `n` of `keys`, once and in order, the name with the column of the
/// database that it stands for.
pub open spec fn mapping_of(props: Seq<(Seq<char>, Seq<char>)>, keys: Seq<Seq<char>>, n: int) -> Seq<
    (Seq<char>, Seq<char>),
>
    decreases n,
{
    if n <= 0 {
        Seq::<(Seq<char>, Seq<char>)>::empty()
    } else {
        let before = mapping_of(props, keys, n - 1);
        if has_key(before, keys[n - 1]) {
            before
        } else {
            before.push((keys[n - 1], normalized_key(props, keys[n - 1]).unwrap()))
        }
    }
}

/// The columns that the database reports for a table; none where it reports nothing.
pub open spec fn columns_of(db: TableModel) -> Seq<(Seq<char>, Seq<char>)> {
    match db.properties {
        Some(properties) => properties,
        None => Seq::<(Seq<char>, Seq<char>)>::empty(),
    }
}

/// The table source that the configuration `cfg` and the report `db` of the database merge
/// into, or `None` where the source has to be skipped.
///
/// The names of the table and what the database knows of its index and kind come from the
/// database. The SRID is resolved between the two. Every configured column name has to
/// stand for a column of the database. All the rest comes from the configuration.
pub open spec fn merged_table(default_srid: Option<i32>, cfg: TableModel, db: TableModel) -> Option<
    TableModel,
> {
    let keys = mapped_keys(cfg);
    match resolved_srid(db.srid, cfg.srid, default_srid) {
        None => None,
        Some(srid) => if exists|k: int|
            0 <= k < keys.len() && normalized_key(columns_of(db), #[trigger] keys[k]) is None {
            None
        } else {
            Some(
                TableModel {
                    schema: db.schema,
                    table: db.table,
                    geometry_column: db.geometry_column,
                    geometry_index: db.geometry_index,
                    is_view: db.is_view,
                    srid,
                    prop_mapping: mapping_of(columns_of(db), keys, keys.len() as int),
                    ..cfg
                },
            )
        },
    }
}

/// Whether the configuration and the database both name a kind of geometry for the
/// table, and not the same.
pub open spec fn geometry_types_differ(cfg: TableModel, db: TableModel) -> bool {
    match (db.geometry_type, cfg.geometry_type) {
        (Some(src), Some(configured)) => src != configured,
        _ => false,
    }
}

/// Whether the configuration `cfg_inf` and the report `db_inf` of the database both name
/// a kind of geometry for the table, and not the same. The merged table has the kind of
/// the configuration; the difference is worth a warning.
pub fn geometry_type_mismatch(cfg_inf: &TableInfo, db_inf: &TableInfo) -> (mismatch: bool)
    ensures
        mismatch == geometry_types_differ(cfg_inf@, db_inf@),
{
    match (&db_inf.geometry_type, &cfg_inf.geometry_type) {
        (Some(src), Some(cfg)) => !(*src == *cfg),
        _ => false,
    }
}

/// No configured name is mapped twice.
pub proof fn lemma_mapping_of_distinct(
    props: Seq<(Seq<char>, Seq<char>)>,
    keys: Seq<Seq<char>>,
    n: int,
)
    ensures
        keys_distinct(mapping_of(props, keys, n)),
    decreases n,
{
    if n > 0 {
        lemma_mapping_of_distinct(props, keys, n - 1);
        let before = mapping_of(props, keys, n - 1);
        let now = mapping_of(props, keys, n);
        if !has_key(before, keys[n - 1]) {
            assert forall|i: int, j: int| 0 <= i < j < now.len() implies (#[trigger] now[i]).0 != (
            #[trigger] now[j]).0 by {
                assert(now[i] == before[i]);
                if j < before.len() {
                    assert(now[j] == before[j]);
                }
            }
        }
    }
}

/// A merged table maps no configured name twice, and its columns are an ordered map
/// where those of the configuration are.
pub proof fn lemma_merged_table_wf(default_srid: Option<i32>, cfg: TableModel, db: TableModel)
    ensures
        merged_table(default_srid, cfg, db) matches Some(table) ==> keys_distinct(
            table.prop_mapping,
        ) && (cfg.properties_ordered() ==> table.wf()),
{
    let keys = mapped_keys(cfg);
    lemma_mapping_of_distinct(columns_of(db), keys, keys.len() as int);
}

/// Notes for `key` the column of the database that it stands for.
fn map_key(mapping: &mut Vec<(String, String)>, props: &Vec<(String, String)>, key: &String) -> (mapped:
    bool)
    ensures
        mapped == normalized_key(pairs_view(props@), key@) is Some,
        mapped ==> pairs_view(final(mapping)@) == if has_key(pairs_view(old(mapping)@), key@) {
            pairs_view(old(mapping)@)
        } else {
            pairs_view(old(mapping)@).push(
                (key@, normalized_key(pairs_view(props@), key@).unwrap()),
            )
        },
{
    let prop = match normalize_key(props, key.as_str()) {
        Some(prop) => prop,
        None => {
            return false;
        },
    };
    if find_key(mapping, key.as_str()).is_none() {
        let ghost before = pairs_view(mapping@);
        mapping.push((key.clone(), prop));
        assert(pairs_view(mapping@) =~= before.push(
            (key@, normalized_key(pairs_view(props@), key@).unwrap()),
        ));
    }
    true
}

/// Merges what the configuration says of the table source `new_id` with what the database
/// reports of its table.
///
/// `cfg_inf` and `db_inf` speak of the same table. `default_srid` is the SRID to use where
/// neither of them sets one.
pub fn merge_table_info(
    default_srid: Option<i32>,
    new_id: &String,
    cfg_inf: &TableInfo,
    db_inf: &TableInfo,
) -> (merged: Option<TableInfo>)
    ensures
        match merged_table(default_srid, cfg_inf@, db_inf@) {
            Some(table) => merged matches Some(inf) && inf@ == table,
            None => merged is None,
        },
        merged matches Some(inf) ==> keys_distinct(inf@.prop_mapping) && (
        cfg_inf@.properties_ordered() ==> inf.wf()),
{
    proof {
        lemma_merged_table_wf(default_srid, cfg_inf@, db_inf@);
    }
    let table_id = db_inf.format_id();
    let srid = match calc_srid(
        table_id.as_str(),
        new_id.as_str(),
        db_inf.srid,
        cfg_inf.srid,
        default_srid,
    ) {
        Some(srid) => srid,
        None => {
            return None;
        },
    };
    let empty: Vec<(String, String)> = Vec::new();
    let props = match &db_inf.properties {
        Some(props) => props,
        None => &empty,
    };
    assert(pairs_view(props@) =~= columns_of(db_inf@));
    let ghost columns = columns_of(db_inf@);
    let ghost keys = mapped_keys(cfg_inf@);
    let mut prop_mapping: Vec<(String, String)> = Vec::new();
    let ghost id_keys: Seq<Seq<char>> = match cfg_inf@.id_column {
        Some(column) => seq![column],
        None => Seq::<Seq<char>>::empty(),
    };
    assert(pairs_view(prop_mapping@) =~= mapping_of(columns, keys, 0));
    if let Some(id_column) = &cfg_inf.id_column {
        assert(keys[0] == id_column@);
        if !map_key(&mut prop_mapping, props, id_column) {
            return None;
        }
        assert(mapping_of(columns, keys, 1) == mapping_of(columns, keys, 0).push(
            (keys[0], normalized_key(columns, keys[0]).unwrap()),
        )) by {
            assert(!has_key(mapping_of(columns, keys, 0), keys[0]));
        }
    }
    assert(pairs_view(prop_mapping@) == mapping_of(columns, keys, id_keys.len() as int));
    if let Some(p) = &cfg_inf.properties {
        let ghost names = keys_of(pairs_view(p@));
        assert(keys =~= id_keys + names);
        let mut i: usize = 0;
        while i < p.len()
            invariant
                i <= p@.len(),
                names == keys_of(pairs_view(p@)),
                keys == id_keys + names,
                keys == mapped_keys(cfg_inf@),
                columns == columns_of(db_inf@),
                id_keys.len() <= 1,
                pairs_view(props@) == columns,
                pairs_view(prop_mapping@) == mapping_of(columns, keys, id_keys.len() + i),
                forall|k: int|
                    0 <= k < id_keys.len() + i ==> normalized_key(columns, #[trigger] keys[k])
                        is Some,
            decreases p.len() - i,
        {
            assert(keys[id_keys.len() + i] == p@[i as int].0@);
            if !map_key(&mut prop_mapping, props, &p[i].0) {
                assert(normalized_key(columns, keys[id_keys.len() + i]) is None);
                return None;
            }
            i = i + 1;
        }
    }
    let properties = match &cfg_inf.properties {
        Some(properties) => Some(clone_pairs(properties)),
        None => None,
    };
    let inf = TableInfo {
        schema: db_inf.schema.clone(),
        table: db_inf.table.clone(),
        geometry_column: db_inf.geometry_column.clone(),
        geometry_index: db_inf.geometry_index,
        is_view: db_inf.is_view,
        srid,
        prop_mapping,
        layer_id: clone_text(&cfg_inf.layer_id),
        id_column: clone_text(&cfg_inf.id_column),
        bounds: cfg_inf.bounds,
        extent: cfg_inf.extent,
        buffer: cfg_inf.buffer,
        clip_geom: cfg_inf.clip_geom,
        geometry_type: clone_text(&cfg_inf.geometry_type),
        properties,
        tilejson: clone_text(&cfg_inf.tilejson),
    };
    Some(inf)
}

/// The query that makes the tiles of a table source, with what is to know of it.
#[derive(Debug)]
pub struct PgSqlInfo {
    /// The text of the query. Its parameters are the zoom level, the column and the row.
    pub sql: String,
    /// Whether the query takes the query string of the request as a further parameter.
    pub use_url_query_params: bool,
    /// The name by which messages speak of the table.
    pub diagnostic_id: String,
}

impl PgSqlInfo {
    /// Puts the three together.
    pub fn new(query: String, has_query_params: bool, diagnostic_id: String) -> (info: PgSqlInfo)
        ensures
            info.sql == query,
            info.use_url_query_params == has_query_params,
            info.diagnostic_id == diagnostic_id,
    {
        PgSqlInfo { sql: query, use_url_query_params: has_query_params, diagnostic_id }
    }
}

/// The text that selects the column for `field`: a comma, a space and the quoted name of
/// the column of the database, followed by `AS` and the quoted `field` where the two
/// differ.
pub open spec fn aliased(mapping: Seq<(Seq<char>, Seq<char>)>, field: Seq<char>) -> Seq<char> {
    let column = match lookup(mapping, field) {
        Some(column) => column,
        None => field,
    };
    if field == column {
        ", "@ + escaped_identifier(column)
    } else {
        ", "@ + escaped_identifier(column) + " AS "@ + escaped_identifier(field)
    }
}

/// The text that selects the first `n` of `fields`, in order.
pub open spec fn columns_text(
    mapping: Seq<(Seq<char>, Seq<char>)>,
    fields: Seq<Seq<char>>,
    n: int,
) -> Seq<char>
    decreases n,
{
    if n <= 0 {
        Seq::<char>::empty()
    } else {
        columns_text(mapping, fields, n - 1) + aliased(mapping, fields[n - 1])
    }
}

/// The width and height of the tiles of a table.
pub open spec fn extent_of(info: TableModel) -> u32 {
    match info.extent {
        Some(extent) => extent,
        None => DEFAULT_EXTENT,
    }
}

/// The margin around the tiles of a table.
pub open spec fn buffer_of(info: TableModel) -> u32 {
    match info.buffer {
        Some(buffer) => buffer,
        None => DEFAULT_BUFFER,
    }
}

/// Whether the query widens the envelope of the tile by a margin: it does where the tiles
/// have a margin and the database knows how to widen an envelope.
pub open spec fn uses_margin(buffer: u32, supports_tile_margin: bool) -> bool {
    buffer != 0 && supports_tile_margin
}

/// The envelope of the tile without a margin.
pub open spec fn plain_envelope() -> Seq<char> {
    "ST_TileEnvelope($1::integer, $2::integer, $3::integer)"@
}

/// The envelope in which the query looks for geometries. `margin` is the text of the
/// margin as a share of the tile.
pub open spec fn bbox_search_text(buffer: u32, supports_tile_margin: bool, margin: Seq<char>) -> Seq<
    char,
> {
    if uses_margin(buffer, supports_tile_margin) {
        "ST_TileEnvelope($1::integer, $2::integer, $3::integer, margin => "@ + margin + ")"@
    } else {
        plain_envelope()
    }
}

/// The text that names the identifier of the features: nothing without an identifier
/// column, and else a comma, a space and the column as a literal.
pub open spec fn id_name_text(info: TableModel) -> Seq<char> {
    match info.id_column {
        Some(column) => ", "@ + escaped_literal(column),
        None => Seq::<char>::empty(),
    }
}

/// The text that selects the identifier column, if there is one.
pub open spec fn id_field_text(info: TableModel) -> Seq<char> {
    match info.id_column {
        Some(column) => aliased(info.prop_mapping, column),
        None => Seq::<char>::empty(),
    }
}

/// The text that selects the properties, if there are any.
pub open spec fn properties_text(info: TableModel) -> Seq<char> {
    match info.properties {
        Some(properties) => columns_text(
            info.prop_mapping,
            keys_of(properties),
            properties.len() as int,
        ),
        None => Seq::<char>::empty(),
    }
}

/// The text that limits the number of features, if there is a limit.
pub open spec fn limit_text(max_feature_count: Option<usize>) -> Seq<char> {
    match max_feature_count {
        Some(count) => "LIMIT "@ + decimal(count as nat),
        None => Seq::<char>::empty(),
    }
}

/// The name of the layer: that of the table where it has one, and else the name of the
/// source.
pub open spec fn layer_text(id: Seq<char>, info: TableModel) -> Seq<char> {
    escaped_literal(
        match info.layer_id {
            Some(layer) => layer,
            None => id,
        },
    )
}

/// The text of a truth value.
pub open spec fn bool_text(value: bool) -> Seq<char> {
    if value {
        "true"@
    } else {
        "false"@
    }
}

/// Whether geometries of a table are cut at the margin.
pub open spec fn clip_of(info: TableModel) -> bool {
    match info.clip_geom {
        Some(clip) => clip,
        None => DEFAULT_CLIP_GEOM,
    }
}

/// The query that makes the tiles of the table `info` for the source `id`.
pub open spec fn query_text(
    id: Seq<char>,
    info: TableModel,
    supports_tile_margin: bool,
    margin: Seq<char>,
    max_feature_count: Option<usize>,
) -> Seq<char> {
    let geometry = escaped_identifier(info.geometry_column);
    let extent = decimal(extent_of(info) as nat);
    "SELECT\n  ST_AsMVT(tile, "@ + layer_text(id, info) + ", "@ + extent + ", 'geom'"@
        + id_name_text(info)
        + ")\nFROM (\n  SELECT\n    ST_AsMVTGeom(\n        ST_Transform(ST_CurveToLine("@
        + geometry
        + "), 3857),\n        ST_TileEnvelope($1::integer, $2::integer, $3::integer),\n        "@
        + extent + ", "@ + decimal(buffer_of(info) as nat) + ", "@ + bool_text(clip_of(info))
        + "\n    ) AS geom\n    "@ + id_field_text(info) + properties_text(info)
        + "\n  FROM\n    "@ + escaped_identifier(info.schema) + "."@ + escaped_identifier(
        info.table,
    ) + "\n  WHERE\n    "@ + geometry + " && ST_Transform("@ + bbox_search_text(
        buffer_of(info),
        supports_tile_margin,
        margin,
    ) + ", "@ + signed_decimal(info.srid as int) + ")\n  "@ + limit_text(max_feature_count)
        + "\n) AS tile;"@
}

/// The text that selects the column for `field`.
fn escape_with_alias(mapping: &Vec<(String, String)>, field: &str) -> (text: String)
    ensures
        text@ == aliased(pairs_view(mapping@), field@),
{
    let mut text = String::from_str(", ");
    match lookup_key(mapping, field) {
        Some(column) => {
            let wanted = String::from_str(field);
            if *column == wanted {
                let quoted = escape_identifier(field);
                text.append(quoted.as_str());
            } else {
                let quoted = escape_identifier(column.as_str());
                text.append(quoted.as_str());
                text.append(" AS ");
                let alias = escape_identifier(field);
                text.append(alias.as_str());
            }
        },
        None => {
            let quoted = escape_identifier(field);
            text.append(quoted.as_str());
        },
    }
    text
}

/// The width and height of the tiles of `info`.
pub fn effective_extent(info: &TableInfo) -> (extent: u32)
    ensures
        extent == extent_of(info@),
{
    match info.extent {
        Some(extent) => extent,
        None => DEFAULT_EXTENT,
    }
}

/// The margin around the tiles of `info`.
pub fn effective_buffer(info: &TableInfo) -> (buffer: u32)
    ensures
        buffer == buffer_of(info@),
{
    match info.buffer {
        Some(buffer) => buffer,
        None => DEFAULT_BUFFER,
    }
}

/// Builds the query that makes the tiles of the table `info` for the source `id`.
///
/// `supports_tile_margin` tells whether the database can widen the envelope of a tile by a
/// margin, and `margin` is the text to write for that margin: the margin of the table as a
/// share of its extent. `max_feature_count` limits the features of a tile.
///
/// The answer holds the name of the source, the query, and the table.
pub fn table_to_query(
    id: String,
    info: TableInfo,
    supports_tile_margin: bool,
    margin: &str,
    max_feature_count: Option<usize>,
) -> (built: (String, PgSqlInfo, TableInfo))
    requires
        info.wf(),
    ensures
        built.0 == id,
        built.2 == info,
        built.1.sql@ == query_text(id@, info@, supports_tile_margin, margin@, max_feature_count),
        !built.1.use_url_query_params,
        built.1.diagnostic_id@ == table_id(info.schema@, info.table@, info.geometry_column@),
{
    let schema = escape_identifier(info.schema.as_str());
    let table = escape_identifier(info.table.as_str());
    let geometry_column = escape_identifier(info.geometry_column.as_str());

    let mut properties = String::new();
    if let Some(props) = &info.properties {
        let ghost fields = keys_of(pairs_view(props@));
        let mut i: usize = 0;
        while i < props.len()
            invariant
                i <= props@.len(),
                fields == keys_of(pairs_view(props@)),
                properties@ == columns_text(pairs_view(info.prop_mapping@), fields, i as int),
            decreases props.len() - i,
        {
            let column = escape_with_alias(&info.prop_mapping, props[i].0.as_str());
            properties.append(column.as_str());
            i = i + 1;
        }
    }
    assert(properties@ == properties_text(info@));

    let mut id_name = String::new();
    let mut id_field = String::new();
    if let Some(id_column) = &info.id_column {
        id_name = String::from_str(", ");
        let literal = escape_literal(id_column.as_str());
        id_name.append(literal.as_str());
        id_field = escape_with_alias(&info.prop_mapping, id_column.as_str());
    }
    assert(id_name@ == id_name_text(info@));
    assert(id_field@ == id_field_text(info@));

    let extent = decimal_string(effective_extent(&info) as u64);
    let buffer = effective_buffer(&info);
    let buffer_text = decimal_string(buffer as u64);

    let bbox_search = if buffer == 0 {
        String::from_str("ST_TileEnvelope($1::integer, $2::integer, $3::integer)")
    } else if supports_tile_margin {
        let mut text = String::from_str(
            "ST_TileEnvelope($1::integer, $2::integer, $3::integer, margin => ",
        );
        text.append(margin);
        text.append(")");
        text
    } else {
        String::from_str("ST_TileEnvelope($1::integer, $2::integer, $3::integer)")
    };
    assert(bbox_search@ == bbox_search_text(buffer, supports_tile_margin, margin@));

    let limit_clause = match max_feature_count {
        Some(v) => {
            let mut text = String::from_str("LIMIT ");
            let count = decimal_string(v as u64);
            text.append(count.as_str());
            text
        },
        None => String::new(),
    };
    assert(limit_clause@ == limit_text(max_feature_count));

    let layer_id = match &info.layer_id {
        Some(layer) => escape_literal(layer.as_str()),
        None => escape_literal(id.as_str()),
    };
    let clip_geom = match info.clip_geom {
        Some(clip) => clip,
        None => DEFAULT_CLIP_GEOM,
    };
    let clip_text = if clip_geom {
        "true"
    } else {
        "false"
    };
    let srid = signed_decimal_string(info.srid);

    let mut query = String::from_str("SELECT\n  ST_AsMVT(tile, ");
    query.append(layer_id.as_str());
    query.append(", ");
    query.append(extent.as_str());
    query.append(", 'geom'");
    query.append(id_name.as_str());
    query.append(
        ")\nFROM (\n  SELECT\n    ST_AsMVTGeom(\n        ST_Transform(ST_CurveToLine(",
    );
    query.append(geometry_column.as_str());
    query.append(
        "), 3857),\n        ST_TileEnvelope($1::integer, $2::integer, $3::integer),\n        ",
    );
    query.append(extent.as_str());
    query.append(", ");
    query.append(buffer_text.as_str());
    query.append(", ");
    query.append(clip_text);
    query.append("\n    ) AS geom\n    ");
    query.append(id_field.as_str());
    query.append(properties.as_str());
    query.append("\n  FROM\n    ");
    query.append(schema.as_str());
    query.append(".");
    query.append(table.as_str());
    query.append("\n  WHERE\n    ");
    query.append(geometry_column.as_str());
    query.append(" && ST_Transform(");
    query.append(bbox_search.as_str());
    query.append(", ");
    query.append(srid.as_str());
    query.append(")\n  ");
    query.append(limit_clause.as_str());
    query.append("\n) AS tile;");

    let diagnostic_id = info.format_id();
    (id, PgSqlInfo::new(query, false, diagnostic_id), info)
}

/// The query widens the envelope of the tile by a margin exactly where the tiles have a
/// margin and the database can widen an envelope; otherwise it looks in the plain
/// envelope of the tile.
pub proof fn lemma_margin_form(buffer: u32, supports_tile_margin: bool, margin: Seq<char>)
    ensures
        bbox_search_text(buffer, supports_tile_margin, margin) != plain_envelope() <==> (buffer
            != 0 && supports_tile_margin),
        bbox_search_text(buffer, supports_tile_margin, margin) == plain_envelope() || bbox_search_text(
            buffer,
            supports_tile_margin,
            margin,
        ) == "ST_TileEnvelope($1::integer, $2::integer, $3::integer, margin => "@ + margin + ")"@,
{
    reveal_strlit("ST_TileEnvelope($1::integer, $2::integer, $3::integer)");
    reveal_strlit("ST_TileEnvelope($1::integer, $2::integer, $3::integer, margin => ");
    let with_margin = "ST_TileEnvelope($1::integer, $2::integer, $3::integer, margin => "@ + margin
        + ")"@;
    assert(with_margin.len() > plain_envelope().len());
}

} // verus!
