use std::io::Read;
use std::io::Write;

use martin::srv::accept::{
    AcceptEncoding, ContentEncoding, HeaderEnc, PreferredEncoding, Preference, QualityItem,
};
use martin::srv::source::{check_zoom, SourceInfo, TileError, TileSources};
use martin::srv::cache::CacheKey;
use martin::srv::tiles::{
    concat_all, decode, encode, http_reply, recompress, DynTileSource, TileRequest,
};
use martin::tile::{Encoding, Format, Tile, TileCoord, TileInfo};

const MVT: TileInfo = TileInfo { format: Format::Mvt, encoding: Encoding::Uncompressed };
const MVT_GZIP: TileInfo = TileInfo { format: Format::Mvt, encoding: Encoding::Gzip };
const MVT_BROTLI: TileInfo = TileInfo { format: Format::Mvt, encoding: Encoding::Brotli };
const PNG: TileInfo = TileInfo { format: Format::Png, encoding: Encoding::Internal };

fn source(id: &str, info: TileInfo) -> SourceInfo {
    SourceInfo {
        id: id.to_string(),
        info,
        supports_url_query: false,
        minzoom: None,
        maxzoom: None,
    }
}

fn sources(list: Vec<SourceInfo>) -> TileSources {
    let mut sources = TileSources::new();
    for s in list {
        assert!(sources.insert(s).is_none());
    }
    sources
}

fn known(enc: ContentEncoding, quality: u16) -> QualityItem {
    QualityItem { item: Preference::Specific(HeaderEnc::Known(enc)), quality }
}

fn parse(text: &str) -> QualityItem {
    let (name, quality) = match text.split_once(";q=") {
        Some((name, "1")) => (name, 1000),
        Some((name, "0.5")) => (name, 500),
        Some((name, "0")) => (name, 0),
        Some((_, q)) => panic!("quality {q}"),
        None => (text, 1000),
    };
    match name {
        "*" => QualityItem { item: Preference::Any, quality },
        "gzip" => known(ContentEncoding::Gzip, quality),
        "br" => known(ContentEncoding::Brotli, quality),
        "deflate" => known(ContentEncoding::Deflate, quality),
        "zstd" => known(ContentEncoding::Zstd, quality),
        "identity" => known(ContentEncoding::Identity, quality),
        other => QualityItem {
            item: Preference::Specific(HeaderEnc::Unknown(other.to_string())),
            quality,
        },
    }
}

fn accept(items: &[&str]) -> Option<AcceptEncoding> {
    Some(AcceptEncoding(items.iter().map(|s| parse(s)).collect()))
}

fn gzip(data: &[u8]) -> Vec<u8> {
    let mut encoder = flate2::write::GzEncoder::new(Vec::new(), flate2::Compression::default());
    encoder.write_all(data).unwrap();
    encoder.finish().unwrap()
}

fn gunzip(data: &[u8]) -> Vec<u8> {
    let mut out = Vec::new();
    flate2::read::GzDecoder::new(data).read_to_end(&mut out).unwrap();
    out
}

fn brotli_encode(data: &[u8]) -> Vec<u8> {
    let mut encoder = brotli::CompressorWriter::new(Vec::new(), 4096, 11, 22);
    encoder.write_all(data).unwrap();
    encoder.into_inner()
}

fn brotli_decode(data: &[u8]) -> Vec<u8> {
    let mut out = Vec::new();
    brotli::Decompressor::new(data, 4096).read_to_end(&mut out).unwrap();
    out
}

const XYZ: TileCoord = TileCoord { z: 0, x: 0, y: 0 };

fn test_sources() -> TileSources {
    sources(vec![source("non-empty", MVT), source("empty", MVT)])
}

fn tiles_for(ids: &str) -> Vec<Vec<u8>> {
    ids.split(',')
        .map(|id| if id == "non-empty" { vec![1_u8, 2, 3] } else { Vec::new() })
        .collect()
}

fn enc_preference(accept_enc: &[&str], preferred_enc: Option<PreferredEncoding>, expected_enc: Encoding) {
    let sources = sources(vec![source("test_source", MVT)]);
    let src = DynTileSource::new(&sources, "test_source", None, "", accept(accept_enc), preferred_enc)
        .unwrap();
    let tile = src.get_tile_content(XYZ, vec![vec![1_u8, 2, 3]]).unwrap();
    assert_eq!(tile.info.encoding, expected_enc);
}

#[test]
fn test_enc_preference() {
    enc_preference(&["*"], None, Encoding::Gzip);
    enc_preference(&["*"], Some(PreferredEncoding::Brotli), Encoding::Brotli);
    enc_preference(&["*"], Some(PreferredEncoding::Gzip), Encoding::Gzip);
    enc_preference(&["gzip", "deflate", "br", "zstd"], None, Encoding::Gzip);
    enc_preference(
        &["gzip", "deflate", "br", "zstd"],
        Some(PreferredEncoding::Brotli),
        Encoding::Brotli,
    );
    enc_preference(&["gzip", "deflate", "br", "zstd"], Some(PreferredEncoding::Gzip), Encoding::Gzip);
    enc_preference(&["br;q=1", "gzip;q=1"], Some(PreferredEncoding::Gzip), Encoding::Gzip);
    enc_preference(&["gzip;q=1", "br;q=1"], Some(PreferredEncoding::Brotli), Encoding::Brotli);
    enc_preference(&["gzip;q=1", "br;q=0.5"], Some(PreferredEncoding::Brotli), Encoding::Gzip);
}

#[test]
fn test_tile_content() {
    let sources = test_sources();
    for (source_id, expected) in &[
        ("non-empty", vec![1_u8, 2, 3]),
        ("empty", Vec::<u8>::new()),
        ("empty,empty", Vec::<u8>::new()),
        ("non-empty,non-empty", vec![1_u8, 2, 3, 1_u8, 2, 3]),
        ("non-empty,empty", vec![1_u8, 2, 3]),
        ("non-empty,empty,non-empty", vec![1_u8, 2, 3, 1_u8, 2, 3]),
        ("empty,non-empty", vec![1_u8, 2, 3]),
        ("empty,non-empty,empty", vec![1_u8, 2, 3]),
    ] {
        let src = DynTileSource::new(&sources, source_id, None, "", None, None).unwrap();
        assert_eq!(src.sources.len(), source_id.split(',').count());
        assert_eq!(expected, &src.get_tile_content(XYZ, tiles_for(source_id)).unwrap().data);
    }
}

#[test]
fn single_source_is_gzipped_for_a_client_that_accepts_gzip() {
    let sources = sources(vec![source("test", MVT)]);
    let src = DynTileSource::new(
        &sources,
        "test",
        Some(0),
        "",
        accept(&["gzip"]),
        Some(PreferredEncoding::Gzip),
    )
    .unwrap();
    let reply = src.get_http_response(XYZ, vec![vec![1, 2, 3]]).unwrap();
    assert_eq!(reply.status, 200);
    assert_eq!(reply.content_type, Some("application/x-protobuf"));
    assert_eq!(reply.content_encoding, Some("gzip"));
    assert_eq!(reply.body, gzip(&[1, 2, 3]));
    assert_eq!(gunzip(&reply.body), vec![1, 2, 3]);
}

#[test]
fn two_sources_are_concatenated_without_accept_encoding() {
    let sources = sources(vec![source("ne", MVT)]);
    let src = DynTileSource::new(&sources, "ne,ne", Some(0), "", None, None).unwrap();
    let reply = src.get_http_response(XYZ, vec![vec![1, 2, 3], vec![1, 2, 3]]).unwrap();
    assert_eq!(reply.status, 200);
    assert_eq!(reply.body, vec![1, 2, 3, 1, 2, 3]);
    assert_eq!(reply.content_encoding, None);
    assert_eq!(reply.content_type, Some("application/x-protobuf"));
}

#[test]
fn empty_source_adds_nothing() {
    let sources = sources(vec![source("ne", MVT), source("empty", MVT)]);
    let src = DynTileSource::new(&sources, "ne,empty", Some(0), "", None, None).unwrap();
    let reply = src.get_http_response(XYZ, vec![vec![1, 2, 3], vec![]]).unwrap();
    assert_eq!(reply.status, 200);
    assert_eq!(reply.body, vec![1, 2, 3]);
}

#[test]
fn empty_tile_is_no_content() {
    let sources = sources(vec![source("empty", MVT_GZIP)]);
    let src = DynTileSource::new(&sources, "empty", Some(0), "", accept(&["gzip"]), None).unwrap();
    let reply = src.get_http_response(XYZ, vec![vec![]]).unwrap();
    assert_eq!(reply.status, 204);
    assert_eq!(reply.content_type, None);
    assert_eq!(reply.content_encoding, None);
    assert!(reply.body.is_empty());
    let tile = src.get_tile_content(XYZ, vec![vec![]]).unwrap();
    assert!(tile.data.is_empty());
    assert_eq!(tile.info, MVT);
}

#[test]
fn gzip_tiles_are_concatenated_and_brotli_tiles_are_not() {
    let a = gzip(&[1, 2, 3]);
    let b = gzip(&[4, 5]);
    let sources = sources(vec![source("a", MVT_GZIP), source("b", MVT_GZIP)]);
    let src = DynTileSource::new(&sources, "a,b", None, "", accept(&["gzip"]), None).unwrap();
    let tile = src.get_tile_content(XYZ, vec![a.clone(), b.clone()]).unwrap();
    let mut both = a.clone();
    both.extend(&b);
    assert_eq!(tile.data, both);
    assert_eq!(tile.info, MVT_GZIP);
    let reply = http_reply(tile);
    assert_eq!(reply.content_encoding, Some("gzip"));
    assert_eq!(reply.body, both);

    let sources = sources_brotli();
    let src = DynTileSource::new(&sources, "a,b", None, "", accept(&["br"]), None).unwrap();
    let result = src.get_tile_content(
        TileCoord { z: 7, x: 1, y: 2 },
        vec![brotli_encode(&[1, 2, 3]), brotli_encode(&[4, 5])],
    );
    match result {
        Err(e) => {
            assert!(matches!(&e, TileError::CannotMerge(info, 7) if *info == MVT_BROTLI));
            assert_eq!(e.status_code(), 400);
        }
        Ok(_) => panic!("brotli tiles were merged"),
    }
    let one = brotli_encode(&[1, 2, 3]);
    let tile = src.get_tile_content(XYZ, vec![Vec::new(), one.clone()]).unwrap();
    assert_eq!(tile.data, one);
    assert_eq!(tile.info, MVT_BROTLI);
}

fn sources_brotli() -> TileSources {
    sources(vec![source("a", MVT_BROTLI), source("b", MVT_BROTLI)])
}

#[test]
fn images_are_not_merged() {
    let sources = sources(vec![source("a", PNG), source("b", PNG)]);
    let src = DynTileSource::new(&sources, "a,b", None, "", None, None).unwrap();
    assert!(matches!(
        src.get_tile_content(XYZ, vec![vec![1], vec![2]]),
        Err(TileError::CannotMerge(_, 0))
    ));
    let tile = src.get_tile_content(XYZ, vec![vec![1], vec![]]).unwrap();
    assert_eq!(tile.data, vec![1]);
    assert_eq!(tile.info, PNG);
    let reply = http_reply(tile);
    assert_eq!(reply.content_type, Some("image/png"));
    assert_eq!(reply.content_encoding, None);
}

#[test]
fn recompress_decodes_without_header() {
    let tile = recompress(gzip(&[1, 2, 3]), MVT_GZIP, &None, None).unwrap();
    assert_eq!(tile.data, vec![1, 2, 3]);
    assert_eq!(tile.info, MVT);
    let tile = recompress(brotli_encode(&[9; 100]), MVT_BROTLI, &None, None).unwrap();
    assert_eq!(tile.data, vec![9; 100]);
    assert_eq!(tile.info, MVT);
    let tile = recompress(vec![1, 2, 3], MVT, &None, None).unwrap();
    assert_eq!(tile.data, vec![1, 2, 3]);
    assert_eq!(tile.info, MVT);
    let tile = recompress(vec![1, 2, 3], PNG, &None, None).unwrap();
    assert_eq!(tile.info, PNG);
}

#[test]
fn recompress_keeps_what_the_client_names() {
    let data = gzip(&[1, 2, 3]);
    let tile = recompress(data.clone(), MVT_GZIP, &accept(&["br", "gzip;q=0.5"]), None).unwrap();
    assert_eq!(tile.data, data);
    assert_eq!(tile.info, MVT_GZIP);
    let data = brotli_encode(&[1, 2, 3]);
    let tile = recompress(data.clone(), MVT_BROTLI, &accept(&["br"]), None).unwrap();
    assert_eq!(tile.data, data);
    assert_eq!(tile.info, MVT_BROTLI);
}

#[test]
fn recompress_decodes_and_encodes_anew() {
    let tile = recompress(gzip(&[1, 2, 3]), MVT_GZIP, &accept(&["br"]), None).unwrap();
    assert_eq!(tile.info, MVT_BROTLI);
    assert_eq!(brotli_decode(&tile.data), vec![1, 2, 3]);
    assert_eq!(tile.data, brotli_encode(&[1, 2, 3]));

    let tile = recompress(gzip(&[1, 2, 3]), MVT_GZIP, &accept(&["gzip;q=0", "br"]), None).unwrap();
    assert_eq!(tile.info, MVT_BROTLI);

    let tile = recompress(brotli_encode(&[1, 2, 3]), MVT_BROTLI, &accept(&["gzip"]), None).unwrap();
    assert_eq!(tile.info, MVT_GZIP);
    assert_eq!(gunzip(&tile.data), vec![1, 2, 3]);

    let tile =
        recompress(brotli_encode(&[1, 2, 3]), MVT_BROTLI, &accept(&["identity"]), None).unwrap();
    assert_eq!(tile.info, MVT);
    assert_eq!(tile.data, vec![1, 2, 3]);

    let tile = recompress(gzip(&[1, 2, 3]), MVT_GZIP, &accept(&["zstd", "*;q=0"]), None).unwrap();
    assert_eq!(tile.info, MVT);
    assert_eq!(tile.data, vec![1, 2, 3]);
}

#[test]
fn recompress_fails_on_bad_data_and_unknown_encodings() {
    let result = recompress(vec![1, 2, 3], MVT_GZIP, &None, None);
    match result {
        Err(e) => {
            assert!(matches!(e, TileError::Codec(_)));
            assert_eq!(e.status_code(), 500);
        }
        Ok(_) => panic!("decoded what is no gzip"),
    }
    assert!(matches!(
        recompress(vec![1, 2, 3], MVT_BROTLI, &accept(&["gzip"]), None),
        Err(TileError::Codec(_))
    ));
    let zstd = TileInfo { format: Format::Mvt, encoding: Encoding::Zstd };
    let result = recompress(vec![1, 2, 3], zstd, &None, None);
    match result {
        Err(e) => {
            assert!(matches!(&e, TileError::UndecodableEncoding(info) if *info == zstd));
            assert_eq!(e.status_code(), 400);
        }
        Ok(_) => panic!("decoded zstd"),
    }
    let zlib = TileInfo { format: Format::Mvt, encoding: Encoding::Zlib };
    assert!(matches!(
        recompress(vec![1, 2, 3], zlib, &accept(&["gzip"]), None),
        Err(TileError::UndecodableEncoding(_))
    ));
    let tile = recompress(vec![1, 2, 3], zstd, &accept(&["zstd"]), None);
    assert!(tile.is_err());
}

#[test]
fn encoding_round_trips() {
    for data in [vec![1_u8, 2, 3], vec![0; 5000], (0..=255).collect::<Vec<u8>>(), vec![7]] {
        for (coding, encoded) in [("gzip", MVT_GZIP), ("br", MVT_BROTLI)] {
            let tile = recompress(data.clone(), MVT, &accept(&[coding]), None).unwrap();
            assert_eq!(tile.info, encoded);
            assert!(!tile.data.is_empty());
            let back = recompress(tile.data, tile.info, &None, None).unwrap();
            assert_eq!(back.data, data);
            assert_eq!(back.info, MVT);
        }
    }
}

#[test]
fn recompress_leaves_no_content_alone() {
    let tile = recompress(Vec::new(), MVT_GZIP, &accept(&["gzip"]), None).unwrap();
    assert!(tile.data.is_empty());
    assert_eq!(tile.info, MVT);
}

#[test]
fn sources_are_resolved_in_request_order() {
    let mut b = source("b", MVT);
    b.supports_url_query = true;
    b.minzoom = Some(2);
    b.maxzoom = Some(5);
    let sources = sources(vec![source("a", MVT), b, source("png", PNG)]);

    let (found, query, info) = sources.get_sources("b,a", None).unwrap();
    assert_eq!(found.iter().map(|s| s.id.as_str()).collect::<Vec<_>>(), vec!["b", "a"]);
    assert!(query);
    assert_eq!(info, MVT);

    let (found, query, _) = sources.get_sources("a", Some(3)).unwrap();
    assert_eq!(found.len(), 1);
    assert!(!query);

    let (found, query, _) = sources.get_sources("a,b,a", Some(1)).unwrap();
    assert_eq!(found.iter().map(|s| s.id.as_str()).collect::<Vec<_>>(), vec!["a", "a"]);
    assert!(query);

    let (found, _, _) = sources.get_sources("b", Some(6)).unwrap();
    assert!(found.is_empty());
    let (found, _, _) = sources.get_sources("b", Some(5)).unwrap();
    assert_eq!(found.len(), 1);
    let (found, _, _) = sources.get_sources("b", Some(2)).unwrap();
    assert_eq!(found.len(), 1);
}

#[test]
fn resolution_errors() {
    let sources = sources(vec![source("a", MVT), source("png", PNG), source("gz", MVT_GZIP)]);
    let error = sources.get_sources("a,missing,png", None).unwrap_err();
    assert!(matches!(&error, TileError::SourceNotFound(id) if id == "missing"));
    assert_eq!(error.status_code(), 404);
    let error = sources.get_sources("a,png,missing", None).unwrap_err();
    assert!(matches!(&error, TileError::FormatMismatch(first, other) if *first == MVT && *other == PNG));
    assert_eq!(error.status_code(), 404);
    let error = sources.get_sources("gz,a", Some(3)).unwrap_err();
    assert!(matches!(&error, TileError::FormatMismatch(first, other) if *first == MVT_GZIP && *other == MVT));
    assert!(matches!(sources.get_sources("", None), Err(TileError::SourceNotFound(id)) if id.is_empty()));
    assert!(matches!(sources.get_sources("a,", None), Err(TileError::SourceNotFound(id)) if id.is_empty()));
    assert!(matches!(sources.get_source("nope"), Err(TileError::SourceNotFound(id)) if id == "nope"));
    assert_eq!(sources.get_source("png").unwrap().info, PNG);
}

#[test]
fn request_without_valid_sources_fails() {
    let mut a = source("a", MVT);
    a.maxzoom = Some(3);
    let sources = sources(vec![a]);
    let result = DynTileSource::new(&sources, "a", Some(4), "", None, None);
    match result {
        Err(e) => {
            assert!(matches!(e, TileError::NoValidSources));
            assert_eq!(e.status_code(), 404);
        }
        Ok(_) => panic!("resolved a source outside its zoom levels"),
    }
    assert!(DynTileSource::new(&sources, "a", Some(3), "", None, None).is_ok());
    assert!(matches!(
        DynTileSource::new(&sources, "b", Some(3), "", None, None),
        Err(TileError::SourceNotFound(_))
    ));
}

#[test]
fn query_string_is_kept_where_a_source_uses_it() {
    let mut q = source("q", MVT);
    q.supports_url_query = true;
    let sources = sources(vec![source("a", MVT), q]);
    let src = DynTileSource::new(&sources, "a,q", None, "x=1", None, None).unwrap();
    assert_eq!(src.query_str, Some("x=1"));
    assert!(matches!(src.cache_key(0, XYZ), CacheKey::TileWithQuery(id, xyz, q) if id == "a" && xyz == XYZ && q == "x=1"));
    assert!(matches!(src.cache_key(1, XYZ), CacheKey::TileWithQuery(id, _, _) if id == "q"));
    let src = DynTileSource::new(&sources, "a,q", None, "", None, None).unwrap();
    assert_eq!(src.query_str, None);
    let src = DynTileSource::new(&sources, "a", None, "x=1", None, Some(PreferredEncoding::Brotli))
        .unwrap();
    assert_eq!(src.query_str, None);
    assert_eq!(src.preferred_enc, Some(PreferredEncoding::Brotli));
    let place = TileCoord { z: 3, x: 1, y: 2 };
    assert!(matches!(src.cache_key(0, place), CacheKey::Tile(id, xyz) if id == "a" && xyz == place));
}

#[test]
fn inserting_a_source_again_replaces_it() {
    let mut sources = sources(vec![source("a", MVT), source("b", MVT)]);
    let old = sources.insert(source("a", PNG)).unwrap();
    assert_eq!(old.info, MVT);
    assert_eq!(sources.len(), 2);
    assert_eq!(sources.get(0).info, PNG);
    assert_eq!(sources.get(0).id, "a");
    assert_eq!(sources.get(1).id, "b");
    assert_eq!(sources.position(&"b".to_string()), Some(1));
    assert_eq!(sources.position(&"c".to_string()), None);
}

#[test]
fn zoom_levels_are_checked() {
    let mut s = source("s", MVT);
    assert!(check_zoom(&s, "s", 0));
    assert!(check_zoom(&s, "s", 255));
    s.minzoom = Some(3);
    assert!(!check_zoom(&s, "s", 2));
    assert!(check_zoom(&s, "s", 3));
    s.maxzoom = Some(4);
    assert!(s.is_valid_zoom(4));
    assert!(!s.is_valid_zoom(5));
}

#[test]
fn tiles_are_concatenated_in_order() {
    assert_eq!(concat_all(&vec![vec![1], vec![], vec![2, 3], vec![4]]), vec![1, 2, 3, 4]);
    assert!(concat_all(&Vec::new()).is_empty());
}

#[test]
fn replies_carry_type_and_coding() {
    let reply = http_reply(Tile::new(vec![1], TileInfo::new(Format::Json, Encoding::Zstd)));
    assert_eq!(reply.status, 200);
    assert_eq!(reply.content_type, Some("application/json"));
    assert_eq!(reply.content_encoding, Some("zstd"));
    let reply = http_reply(Tile::new(vec![1], TileInfo::new(Format::Webp, Encoding::Zlib)));
    assert_eq!(reply.content_type, Some("image/webp"));
    assert_eq!(reply.content_encoding, Some("deflate"));
    let reply = http_reply(Tile::new(vec![1], TileInfo::new(Format::Gif, Encoding::Brotli)));
    assert_eq!(reply.content_type, Some("image/gif"));
    assert_eq!(reply.content_encoding, Some("br"));
    let reply = http_reply(Tile::new(vec![1], TileInfo::new(Format::Jpeg, Encoding::Internal)));
    assert_eq!(reply.content_type, Some("image/jpeg"));
    assert_eq!(reply.content_encoding, None);
    let reply = http_reply(Tile::new(Vec::new(), TileInfo::new(Format::Jpeg, Encoding::Gzip)));
    assert_eq!(reply.status, 204);
}

#[test]
fn tiles_without_content_count_as_plain() {
    let tile = Tile::new(Vec::new(), MVT_GZIP);
    assert!(tile.is_empty());
    assert_eq!(tile.info, MVT);
    let tile = Tile::new(vec![1], MVT_GZIP);
    assert!(!tile.is_empty());
    assert_eq!(tile.info, MVT_GZIP);
    assert_eq!(MVT.encoding(Encoding::Brotli), MVT_BROTLI);
    assert!(Encoding::Gzip.is_encoded());
    assert!(Encoding::Zlib.is_encoded());
    assert!(Encoding::Brotli.is_encoded());
    assert!(Encoding::Zstd.is_encoded());
    assert!(!Encoding::Uncompressed.is_encoded());
    assert!(!Encoding::Internal.is_encoded());
}

#[test]
fn coordinates_are_valid_within_the_zoom_level() {
    assert!(TileCoord { z: 0, x: 0, y: 0 }.is_valid());
    assert!(!TileCoord { z: 0, x: 1, y: 0 }.is_valid());
    assert!(!TileCoord { z: 0, x: 0, y: 1 }.is_valid());
    assert!(TileCoord { z: 3, x: 7, y: 7 }.is_valid());
    assert!(!TileCoord { z: 3, x: 8, y: 7 }.is_valid());
    assert!(TileCoord { z: 31, x: (1 << 31) - 1, y: 0 }.is_valid());
    assert!(!TileCoord { z: 31, x: 1 << 31, y: 0 }.is_valid());
    assert!(TileCoord { z: 32, x: u32::MAX, y: u32::MAX }.is_valid());
    assert!(TileCoord { z: 200, x: u32::MAX, y: 5 }.is_valid());
}

#[test]
fn request_gives_its_place() {
    let request = TileRequest { source_ids: "a,b".to_string(), z: 4, x: 5, y: 6 };
    assert_eq!(request.xyz(), TileCoord { z: 4, x: 5, y: 6 });
}

#[test]
fn encode_and_decode_are_inverse() {
    for data in [Vec::new(), vec![1_u8, 2, 3], vec![0; 5000], vec![255]] {
        for format in [Format::Mvt, Format::Json] {
            let plain = TileInfo { format, encoding: Encoding::Uncompressed };
            for (enc, encoding) in
                [(ContentEncoding::Gzip, Encoding::Gzip), (ContentEncoding::Brotli, Encoding::Brotli)]
            {
                let encoded = encode(Tile { data: data.clone(), info: plain }, enc).unwrap();
                assert_eq!(encoded.info, TileInfo { format, encoding });
                assert!(!encoded.data.is_empty());
                let expected =
                    if encoding == Encoding::Gzip { gzip(&data) } else { brotli_encode(&data) };
                assert_eq!(encoded.data, expected);
                let decoded = decode(encoded).unwrap();
                assert_eq!(decoded.data, data);
                assert_eq!(decoded.info, plain);
            }
        }
    }
}

#[test]
fn other_codings_leave_the_tile() {
    for enc in [ContentEncoding::Identity, ContentEncoding::Deflate, ContentEncoding::Zstd] {
        let tile = encode(Tile { data: vec![1, 2], info: MVT }, enc).unwrap();
        assert_eq!(tile.data, vec![1, 2]);
        assert_eq!(tile.info, MVT);
    }
    let tile = decode(Tile { data: vec![1, 2], info: PNG }).unwrap();
    assert_eq!(tile.data, vec![1, 2]);
    assert_eq!(tile.info, PNG);
    let zstd = TileInfo { format: Format::Mvt, encoding: Encoding::Zstd };
    assert!(matches!(
        decode(Tile { data: vec![1, 2], info: zstd }),
        Err(TileError::UndecodableEncoding(info)) if info == zstd
    ));
    assert!(matches!(decode(Tile { data: vec![1, 2], info: MVT_GZIP }), Err(TileError::Codec(_))));
}
