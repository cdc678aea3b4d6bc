use martin::pg::bounds::{
    apply_bounds, bounds_query, plan_bounds, BoundsCalcType, BoundsOutcome, BoundsPlan,
    DEFAULT_BOUNDS_TIMEOUT,
};
use martin::pg::catalog::{query_available_tables, table_from_row, TableRow, TableWarning};
use martin::pg::srid::calc_srid;
use martin::pg::table::{
    are_keys_distinct, are_keys_rising, lookup_key, normalize_key, ordered, GeoBBox, TableInfo,
};
use martin::pg::table_source::{
    effective_buffer, effective_extent, geometry_type_mismatch, merge_table_info, table_to_query,
};

fn pairs(items: &[(&str, &str)]) -> Vec<(String, String)> {
    items.iter().map(|(a, b)| (a.to_string(), b.to_string())).collect()
}

fn table(schema: &str, name: &str, geom: &str, srid: i32) -> TableInfo {
    TableInfo {
        layer_id: None,
        schema: schema.to_string(),
        table: name.to_string(),
        srid,
        geometry_column: geom.to_string(),
        geometry_index: None,
        is_view: None,
        id_column: None,
        bounds: None,
        extent: None,
        buffer: None,
        clip_geom: None,
        geometry_type: None,
        properties: None,
        prop_mapping: Vec::new(),
        tilejson: None,
    }
}

fn count(haystack: &str, needle: &str) -> usize {
    haystack.matches(needle).count()
}

#[test]
fn srid_table_for_all_combinations() {
    let values = [0, 4326, 3857];
    let defaults = [None, Some(4326)];
    for db in values {
        for cfg in values {
            for default in defaults {
                let expected = if db == 0 && cfg == 0 {
                    default
                } else if db == 0 {
                    Some(cfg)
                } else if cfg == 0 {
                    Some(db)
                } else if db == cfg {
                    Some(cfg)
                } else {
                    None
                };
                assert_eq!(calc_srid("public.t.geom", "t", db, cfg, default), expected);
            }
        }
    }
}

#[test]
fn srid_rows_of_the_table() {
    assert_eq!(calc_srid("s.t.g", "id", 0, 0, Some(4326)), Some(4326));
    assert_eq!(calc_srid("s.t.g", "id", 0, 0, None), None);
    assert_eq!(calc_srid("s.t.g", "id", 0, 3857, Some(4326)), Some(3857));
    assert_eq!(calc_srid("s.t.g", "id", 4326, 0, None), Some(4326));
    assert_eq!(calc_srid("s.t.g", "id", 4326, 4326, None), Some(4326));
    assert_eq!(calc_srid("s.t.g", "id", 4326, 3857, Some(4326)), None);
}

#[test]
fn format_id_joins_with_dots() {
    assert_eq!(table("public", "roads", "geom", 4326).format_id(), "public.roads.geom");
}

#[test]
fn normalize_key_prefers_exact_match() {
    let props = pairs(&[("Name", "text"), ("name", "text"), ("Size", "int4")]);
    assert_eq!(normalize_key(&props, "name"), Some("name".to_string()));
    assert_eq!(normalize_key(&props, "Name"), Some("Name".to_string()));
}

#[test]
fn normalize_key_folds_case_when_unique() {
    let props = pairs(&[("Name", "text"), ("Size", "int4")]);
    assert_eq!(normalize_key(&props, "name"), Some("Name".to_string()));
    assert_eq!(normalize_key(&props, "SIZE"), Some("Size".to_string()));
}

#[test]
fn normalize_key_rejects_ambiguous_and_missing() {
    let props = pairs(&[("Name", "text"), ("NAME", "text")]);
    assert_eq!(normalize_key(&props, "name"), None);
    assert_eq!(normalize_key(&props, "other"), None);
    assert_eq!(normalize_key(&Vec::new(), "name"), None);
}

#[test]
fn lookup_key_finds_first() {
    let mapping = pairs(&[("a", "1"), ("b", "2"), ("a", "3")]);
    assert_eq!(lookup_key(&mapping, "a"), Some(&"1".to_string()));
    assert_eq!(lookup_key(&mapping, "b"), Some(&"2".to_string()));
    assert_eq!(lookup_key(&mapping, "c"), None);
}

#[test]
fn merge_takes_names_from_database_and_rest_from_config() {
    let mut cfg = table("PUBLIC", "Roads", "Geom", 0);
    cfg.layer_id = Some("layer".to_string());
    cfg.id_column = Some("ID".to_string());
    cfg.extent = Some(2048);
    cfg.buffer = Some(10);
    cfg.clip_geom = Some(false);
    cfg.geometry_type = Some("POINT".to_string());
    cfg.properties = Some(pairs(&[("NAME", "text"), ("id", "int4")]));
    cfg.bounds = Some(GeoBBox { left: 1, bottom: 2, right: 3, top: 4 });
    cfg.geometry_index = Some(false);
    cfg.prop_mapping = pairs(&[("stale", "entry")]);
    let mut db = table("public", "roads", "geom", 4326);
    db.geometry_index = Some(true);
    db.is_view = Some(false);
    db.geometry_type = Some("LINESTRING".to_string());
    db.properties = Some(pairs(&[("id", "int4"), ("name", "text")]));

    let merged = merge_table_info(None, &"src".to_string(), &cfg, &db).unwrap();
    assert_eq!(merged.schema, "public");
    assert_eq!(merged.table, "roads");
    assert_eq!(merged.geometry_column, "geom");
    assert_eq!(merged.geometry_index, Some(true));
    assert_eq!(merged.is_view, Some(false));
    assert_eq!(merged.srid, 4326);
    assert_eq!(merged.layer_id, Some("layer".to_string()));
    assert_eq!(merged.id_column, Some("ID".to_string()));
    assert_eq!(merged.extent, Some(2048));
    assert_eq!(merged.buffer, Some(10));
    assert_eq!(merged.clip_geom, Some(false));
    assert_eq!(merged.geometry_type, Some("POINT".to_string()));
    assert_eq!(merged.properties, Some(pairs(&[("NAME", "text"), ("id", "int4")])));
    assert_eq!(merged.bounds, Some(GeoBBox { left: 1, bottom: 2, right: 3, top: 4 }));
    assert_eq!(
        merged.prop_mapping,
        pairs(&[("ID", "id"), ("NAME", "name"), ("id", "id")])
    );
}

#[test]
fn merge_skips_on_srid_mismatch() {
    let cfg = table("public", "roads", "geom", 3857);
    let db = table("public", "roads", "geom", 4326);
    assert!(merge_table_info(Some(4326), &"src".to_string(), &cfg, &db).is_none());
}

#[test]
fn merge_skips_on_unset_srid_without_default() {
    let cfg = table("public", "roads", "geom", 0);
    let db = table("public", "roads", "geom", 0);
    assert!(merge_table_info(None, &"src".to_string(), &cfg, &db).is_none());
    let merged = merge_table_info(Some(900913), &"src".to_string(), &cfg, &db).unwrap();
    assert_eq!(merged.srid, 900913);
}

#[test]
fn merge_skips_on_missing_column() {
    let mut cfg = table("public", "roads", "geom", 4326);
    cfg.properties = Some(pairs(&[("name", "text"), ("missing", "text")]));
    let mut db = table("public", "roads", "geom", 4326);
    db.properties = Some(pairs(&[("name", "text")]));
    assert!(merge_table_info(None, &"src".to_string(), &cfg, &db).is_none());

    let mut cfg = table("public", "roads", "geom", 4326);
    cfg.id_column = Some("gid".to_string());
    assert!(merge_table_info(None, &"src".to_string(), &cfg, &db).is_none());

    let mut cfg = table("public", "roads", "geom", 4326);
    cfg.id_column = Some("gid".to_string());
    let db = table("public", "roads", "geom", 4326);
    assert!(merge_table_info(None, &"src".to_string(), &cfg, &db).is_none());
}

#[test]
fn merge_maps_a_repeated_key_once() {
    let mut cfg = table("public", "roads", "geom", 4326);
    cfg.id_column = Some("id".to_string());
    cfg.properties = Some(pairs(&[("id", "int4"), ("Name", "text")]));
    let mut db = table("public", "roads", "geom", 4326);
    db.properties = Some(pairs(&[("id", "int4"), ("name", "text")]));
    let merged = merge_table_info(None, &"src".to_string(), &cfg, &db).unwrap();
    assert_eq!(merged.prop_mapping, pairs(&[("id", "id"), ("Name", "name")]));
}

#[test]
fn default_extent_and_buffer() {
    let mut info = table("public", "roads", "geom", 4326);
    assert_eq!(effective_extent(&info), 4096);
    assert_eq!(effective_buffer(&info), 64);
    info.extent = Some(512);
    info.buffer = Some(0);
    assert_eq!(effective_extent(&info), 512);
    assert_eq!(effective_buffer(&info), 0);
}

#[test]
fn query_with_defaults_and_margin() {
    let info = table("public", "roads", "geom", 4326);
    let (id, sql, info) = table_to_query("roads".to_string(), info, true, "0.015625", None);
    assert_eq!(id, "roads");
    assert_eq!(info.table, "roads");
    assert!(!sql.use_url_query_params);
    assert_eq!(sql.diagnostic_id, "public.roads.geom");
    let expected = "SELECT\n  ST_AsMVT(tile, 'roads', 4096, 'geom')\nFROM (\n  SELECT\n    ST_AsMVTGeom(\n        ST_Transform(ST_CurveToLine(\"geom\"), 3857),\n        ST_TileEnvelope($1::integer, $2::integer, $3::integer),\n        4096, 64, true\n    ) AS geom\n    \n  FROM\n    \"public\".\"roads\"\n  WHERE\n    \"geom\" && ST_Transform(ST_TileEnvelope($1::integer, $2::integer, $3::integer, margin => 0.015625), 4326)\n  \n) AS tile;";
    assert_eq!(sql.sql, expected);
}

#[test]
fn query_with_everything_set() {
    let mut info = table("my schema", "my\"table", "the geom", -1);
    info.layer_id = Some("it's".to_string());
    info.id_column = Some("ID".to_string());
    info.extent = Some(512);
    info.buffer = Some(0);
    info.clip_geom = Some(false);
    info.properties = Some(pairs(&[("Kind", "text"), ("name", "text")]));
    info.prop_mapping = pairs(&[("ID", "id"), ("Kind", "kind"), ("name", "name")]);
    assert!(info.is_wf());
    let (_, sql, _) = table_to_query("src".to_string(), info, true, "0", Some(1000));
    let expected = "SELECT\n  ST_AsMVT(tile, 'it''s', 512, 'geom', 'ID')\nFROM (\n  SELECT\n    ST_AsMVTGeom(\n        ST_Transform(ST_CurveToLine(\"the geom\"), 3857),\n        ST_TileEnvelope($1::integer, $2::integer, $3::integer),\n        512, 0, false\n    ) AS geom\n    , \"id\" AS \"ID\", \"kind\" AS \"Kind\", \"name\"\n  FROM\n    \"my schema\".\"my\"\"table\"\n  WHERE\n    \"the geom\" && ST_Transform(ST_TileEnvelope($1::integer, $2::integer, $3::integer), -1)\n  LIMIT 1000\n) AS tile;";
    assert_eq!(sql.sql, expected);
}

#[test]
fn query_escapes_backslash_in_layer_id() {
    let mut info = table("public", "roads", "geom", 4326);
    info.layer_id = Some("a\\b".to_string());
    let (_, sql, _) = table_to_query("src".to_string(), info, false, "0.015625", None);
    assert!(sql.sql.starts_with("SELECT\n  ST_AsMVT(tile,  E'a\\\\b', 4096, 'geom')\n"));
}

#[test]
fn query_shape() {
    for (buffer, supports, expect_margin) in [
        (Some(64), true, true),
        (None, true, true),
        (Some(0), true, false),
        (Some(64), false, false),
        (Some(0), false, false),
    ] {
        let mut info = table("public", "roads", "geom", 4326);
        info.buffer = buffer;
        info.id_column = Some("id".to_string());
        info.properties = Some(pairs(&[("name", "text")]));
        let (_, sql, _) = table_to_query("roads".to_string(), info, supports, "0.015625", Some(5));
        let sql = sql.sql;
        assert_eq!(count(&sql, "ST_AsMVT("), 1);
        assert_eq!(count(&sql, "ST_AsMVTGeom("), 1);
        assert_eq!(count(&sql, "margin =>"), usize::from(expect_margin));
        let envelope = "ST_TileEnvelope($1::integer, $2::integer, $3::integer";
        assert_eq!(count(&sql, envelope), 2);
        assert_eq!(count(&sql, "$1"), 2);
        assert_eq!(count(&sql, "$2"), 2);
        assert_eq!(count(&sql, "$3"), 2);
        for part in sql.split("ST_TileEnvelope(").skip(1) {
            let call = &part[..part.find(')').unwrap()];
            assert_eq!(count(call, "$1"), 1);
            assert_eq!(count(call, "$2"), 1);
            assert_eq!(count(call, "$3"), 1);
        }
        assert!(sql.starts_with("SELECT"));
        assert!(sql.ends_with(") AS tile;"));
    }
}

#[test]
fn bounds_are_planned_by_mode() {
    let mut info = table("public", "roads", "geom", 4326);
    assert_eq!(plan_bounds(&info, BoundsCalcType::Skip), BoundsPlan::Keep);
    assert_eq!(plan_bounds(&info, BoundsCalcType::Calc), BoundsPlan::Compute);
    assert_eq!(plan_bounds(&info, BoundsCalcType::Quick), BoundsPlan::ComputeWithin(5));
    assert_eq!(DEFAULT_BOUNDS_TIMEOUT, 5);
    info.bounds = Some(GeoBBox { left: 0, bottom: 0, right: 0, top: 0 });
    assert_eq!(plan_bounds(&info, BoundsCalcType::Skip), BoundsPlan::Keep);
    assert_eq!(plan_bounds(&info, BoundsCalcType::Calc), BoundsPlan::Keep);
    assert_eq!(plan_bounds(&info, BoundsCalcType::Quick), BoundsPlan::Keep);
}

#[test]
fn bounds_outcome_is_applied() {
    let bbox = GeoBBox { left: 1, bottom: 2, right: 3, top: 4 };
    let mut info = table("public", "roads", "geom", 4326);
    assert!(!apply_bounds(&mut info, BoundsOutcome::Computed(Some(bbox))));
    assert_eq!(info.bounds, Some(bbox));
    assert!(apply_bounds(&mut info, BoundsOutcome::TimedOut));
    assert_eq!(info.bounds, Some(bbox));
    assert!(!apply_bounds(&mut info, BoundsOutcome::Computed(None)));
    assert_eq!(info.bounds, None);
    assert_eq!(info.table, "roads");
}

#[test]
fn bounds_query_text() {
    let info = table("public", "ro\"ads", "geom", 3857);
    let expected = "\nWITH real_bounds AS (SELECT ST_SetSRID(ST_Extent(\"geom\"), 3857) AS rb FROM \"public\".\"ro\"\"ads\")\nSELECT ST_Transform(\n            CASE\n                WHEN (SELECT ST_GeometryType(rb) FROM real_bounds LIMIT 1) = 'ST_Point'\n                THEN ST_SetSRID(ST_Extent(ST_Expand(\"geom\", 1)), 3857)\n                ELSE (SELECT * FROM real_bounds)\n            END,\n            4326\n        ) AS bounds\nFROM \"public\".\"ro\"\"ads\";\n                ";
    assert_eq!(bounds_query(&info), expected);
}

fn row(schema: &str, name: &str, geom: &str) -> TableRow {
    TableRow {
        schema: schema.to_string(),
        name: name.to_string(),
        description: None,
        geom: geom.to_string(),
        geom_idx: Some(true),
        is_view: Some(false),
        srid: 4326,
        geometry_type: Some("POINT".to_string()),
        properties: pairs(&[("id", "int4")]),
    }
}

#[test]
fn row_becomes_table() {
    let mut r = row("public", "roads", "geom");
    r.description = Some("{\"name\": \"x\"}".to_string());
    let info = table_from_row(&r);
    assert_eq!(info.schema, "public");
    assert_eq!(info.table, "roads");
    assert_eq!(info.geometry_column, "geom");
    assert_eq!(info.geometry_index, Some(true));
    assert_eq!(info.is_view, Some(false));
    assert_eq!(info.srid, 4326);
    assert_eq!(info.geometry_type, Some("POINT".to_string()));
    assert_eq!(info.properties, Some(pairs(&[("id", "int4")])));
    assert_eq!(info.tilejson, Some("{\"name\": \"x\"}".to_string()));
    assert_eq!(info.layer_id, None);
    assert_eq!(info.id_column, None);
    assert_eq!(info.bounds, None);
    assert!(info.prop_mapping.is_empty());

    r.description = Some("not json".to_string());
    assert_eq!(table_from_row(&r).tilejson, None);
}

#[test]
fn tables_are_collected_with_warnings() {
    let mut a = row("public", "roads", "geom");
    a.description = Some("plain words".to_string());
    a.geom_idx = Some(false);
    let mut view = row("public", "v", "geom");
    view.geom_idx = Some(false);
    view.is_view = Some(true);
    let b = row("public", "roads", "geom2");
    let mut again = row("public", "roads", "geom");
    again.srid = 3857;
    let (catalog, warnings) = query_available_tables(&vec![a, view, b, again]);
    assert_eq!(catalog.len(), 3);
    assert_eq!(catalog.table(0).geometry_column, "geom");
    assert_eq!(catalog.table(0).srid, 3857);
    assert_eq!(catalog.table(1).table, "v");
    assert_eq!(catalog.table(2).geometry_column, "geom2");
    assert_eq!(warnings.len(), 3);
    assert!(matches!(&warnings[0], TableWarning::UnparsableComment(s, t) if s == "public" && t == "roads"));
    assert!(matches!(&warnings[1], TableWarning::MissingIndex(s, t, g) if s == "public" && t == "roads" && g == "geom"));
    assert!(matches!(&warnings[2], TableWarning::Duplicate(id) if id == "public.roads.geom"));
    assert_eq!(
        catalog.position(&"public".to_string(), &"roads".to_string(), &"geom2".to_string()),
        Some(2)
    );
    assert_eq!(
        catalog.position(&"public".to_string(), &"roads".to_string(), &"nope".to_string()),
        None
    );
}

#[test]
fn table_is_duplicated_field_by_field() {
    let mut info = table("public", "roads", "geom", 4326);
    info.layer_id = Some("layer".to_string());
    info.id_column = Some("id".to_string());
    info.extent = Some(1);
    info.buffer = Some(2);
    info.clip_geom = Some(true);
    info.geometry_index = Some(true);
    info.is_view = Some(false);
    info.geometry_type = Some("POINT".to_string());
    info.properties = Some(pairs(&[("a", "b")]));
    info.prop_mapping = pairs(&[("c", "d")]);
    info.tilejson = Some("{}".to_string());
    info.bounds = Some(GeoBBox { left: 1, bottom: 2, right: 3, top: 4 });
    let copy = info.duplicate();
    assert_eq!(format!("{copy:?}"), format!("{info:?}"));
}

#[test]
fn pairs_become_an_ordered_map() {
    assert_eq!(
        ordered(&pairs(&[("b", "1"), ("a", "2"), ("c", "3"), ("a", "4"), ("B", "5"), ("", "6")])),
        pairs(&[("", "6"), ("B", "5"), ("a", "4"), ("b", "1"), ("c", "3")])
    );
    assert!(ordered(&Vec::new()).is_empty());
    assert_eq!(ordered(&pairs(&[("x", "1"), ("x", "2")])), pairs(&[("x", "2")]));
}

#[test]
fn tables_are_checked_for_ordered_columns() {
    assert!(are_keys_rising(&pairs(&[("a", ""), ("b", ""), ("ba", "")])));
    assert!(!are_keys_rising(&pairs(&[("a", ""), ("a", "")])));
    assert!(!are_keys_rising(&pairs(&[("b", ""), ("a", "")])));
    assert!(!are_keys_rising(&pairs(&[("a", ""), ("c", ""), ("b", "")])));
    assert!(are_keys_rising(&Vec::new()));
    assert!(are_keys_distinct(&pairs(&[("b", ""), ("a", "")])));
    assert!(!are_keys_distinct(&pairs(&[("b", ""), ("a", ""), ("b", "x")])));
    let mut info = table("public", "roads", "geom", 4326);
    assert!(info.is_wf());
    info.properties = Some(pairs(&[("b", "text"), ("a", "text")]));
    assert!(!info.is_wf());
    info.properties = Some(pairs(&[("a", "text"), ("b", "text")]));
    info.prop_mapping = pairs(&[("x", "a"), ("x", "b")]);
    assert!(!info.is_wf());
}

#[test]
fn rows_give_ordered_columns() {
    let mut r = row("public", "roads", "geom");
    r.properties = pairs(&[("name", "text"), ("id", "int4"), ("name", "varchar")]);
    let info = table_from_row(&r);
    assert_eq!(info.properties, Some(pairs(&[("id", "int4"), ("name", "varchar")])));
    assert!(info.is_wf());
}

#[test]
fn geometry_types_are_compared() {
    let mut cfg = table("public", "roads", "geom", 4326);
    let mut db = table("public", "roads", "geom", 4326);
    assert!(!geometry_type_mismatch(&cfg, &db));
    db.geometry_type = Some("POINT".to_string());
    assert!(!geometry_type_mismatch(&cfg, &db));
    cfg.geometry_type = Some("POINT".to_string());
    assert!(!geometry_type_mismatch(&cfg, &db));
    cfg.geometry_type = Some("LINESTRING".to_string());
    assert!(geometry_type_mismatch(&cfg, &db));
    db.geometry_type = None;
    assert!(!geometry_type_mismatch(&cfg, &db));
}
