use martin::srv::accept::{
    encoding_rank, is_identity_acceptable, negotiate, ranked_accept_items, to_encoding,
    AcceptEncoding, ContentEncoding, HeaderEnc, PreferredEncoding, Preference, QualityItem,
};
use martin::tile::Encoding;

fn item(text: &str) -> QualityItem {
    let (name, quality) = match text.split_once(";q=") {
        Some((name, q)) => {
            let quality = match q {
                "1" | "1.0" => 1000,
                "0.9" => 900,
                "0.8" => 800,
                "0.5" => 500,
                "0.1" => 100,
                "0.001" => 1,
                "0" | "0.0" => 0,
                _ => panic!("quality {q}"),
            };
            (name, quality)
        }
        None => (text, 1000),
    };
    let item = match name {
        "*" => Preference::Any,
        "identity" => Preference::Specific(HeaderEnc::Known(ContentEncoding::Identity)),
        "gzip" => Preference::Specific(HeaderEnc::Known(ContentEncoding::Gzip)),
        "br" => Preference::Specific(HeaderEnc::Known(ContentEncoding::Brotli)),
        "deflate" => Preference::Specific(HeaderEnc::Known(ContentEncoding::Deflate)),
        "zstd" => Preference::Specific(HeaderEnc::Known(ContentEncoding::Zstd)),
        other => Preference::Specific(HeaderEnc::Unknown(other.to_string())),
    };
    QualityItem { item, quality }
}

fn accept(items: &[&str]) -> AcceptEncoding {
    AcceptEncoding(items.iter().map(|s| item(s)).collect())
}

fn chosen(items: &[&str], prefer: PreferredEncoding) -> Option<ContentEncoding> {
    match negotiate(&accept(items), prefer) {
        Some(HeaderEnc::Known(enc)) => Some(enc),
        Some(HeaderEnc::Unknown(token)) => panic!("unknown coding {token}"),
        None => None,
    }
}

fn names(items: &[QualityItem]) -> Vec<String> {
    items
        .iter()
        .map(|q| {
            let name = match &q.item {
                Preference::Any => "*".to_string(),
                Preference::Specific(HeaderEnc::Known(enc)) => format!("{enc:?}"),
                Preference::Specific(HeaderEnc::Unknown(token)) => token.clone(),
            };
            format!("{name}:{}", q.quality)
        })
        .collect()
}

#[test]
fn ranks_follow_the_preference() {
    let gzip = PreferredEncoding::Gzip;
    let brotli = PreferredEncoding::Brotli;
    assert_eq!(encoding_rank(&item("gzip"), gzip), 5);
    assert_eq!(encoding_rank(&item("br"), gzip), 4);
    assert_eq!(encoding_rank(&item("zstd"), gzip), 3);
    assert_eq!(encoding_rank(&item("deflate"), gzip), 2);
    assert_eq!(encoding_rank(&item("compress"), gzip), 1);
    assert_eq!(encoding_rank(&item("identity"), gzip), 0);
    assert_eq!(encoding_rank(&item("*"), gzip), 0);
    assert_eq!(encoding_rank(&item("gzip;q=0"), gzip), 0);
    assert_eq!(encoding_rank(&item("gzip;q=0.001"), gzip), 5);
    assert_eq!(encoding_rank(&item("gzip"), brotli), 4);
    assert_eq!(encoding_rank(&item("br"), brotli), 5);
    assert_eq!(encoding_rank(&item("zstd"), brotli), 3);
    assert_eq!(encoding_rank(&item("deflate"), brotli), 2);
    assert_eq!(encoding_rank(&item("compress"), brotli), 1);
    assert_eq!(encoding_rank(&item("identity"), brotli), 0);
    assert_eq!(encoding_rank(&item("*"), brotli), 0);
    assert_eq!(encoding_rank(&item("br;q=0"), brotli), 0);
}

#[test]
fn items_are_ranked_by_quality_then_weight_then_position() {
    let ranked = ranked_accept_items(
        &accept(&["deflate", "gzip;q=0.5", "br;q=0.5", "x", "y", "*", "identity", "zstd;q=0.9", "gzip"]),
        PreferredEncoding::Brotli,
    );
    assert_eq!(
        names(&ranked),
        vec![
            "Gzip:1000",
            "Deflate:1000",
            "x:1000",
            "y:1000",
            "*:1000",
            "Identity:1000",
            "Zstd:900",
            "Brotli:500",
            "Gzip:500",
        ]
    );
    assert!(ranked_accept_items(&accept(&[]), PreferredEncoding::Gzip).is_empty());
}

#[test]
fn identity_is_acceptable_unless_refused() {
    assert!(is_identity_acceptable(&Vec::new()));
    assert!(is_identity_acceptable(&vec![item("gzip"), item("br")]));
    assert!(is_identity_acceptable(&vec![item("gzip"), item("identity;q=0.5")]));
    assert!(!is_identity_acceptable(&vec![item("gzip"), item("identity;q=0")]));
    assert!(!is_identity_acceptable(&vec![item("gzip"), item("*;q=0")]));
    assert!(is_identity_acceptable(&vec![item("*;q=0.1"), item("identity;q=0")]));
    assert!(!is_identity_acceptable(&vec![item("identity;q=0"), item("*")]));
}

#[test]
fn empty_and_wildcard_give_the_preferred_coding() {
    assert_eq!(chosen(&[], PreferredEncoding::Gzip), Some(ContentEncoding::Gzip));
    assert_eq!(chosen(&[], PreferredEncoding::Brotli), Some(ContentEncoding::Brotli));
    assert_eq!(chosen(&["*"], PreferredEncoding::Gzip), Some(ContentEncoding::Gzip));
    assert_eq!(chosen(&["*"], PreferredEncoding::Brotli), Some(ContentEncoding::Brotli));
    assert_eq!(chosen(&["*;q=0"], PreferredEncoding::Brotli), Some(ContentEncoding::Brotli));
}

#[test]
fn preference_breaks_ties_and_quality_wins() {
    let gzip = PreferredEncoding::Gzip;
    let brotli = PreferredEncoding::Brotli;
    assert_eq!(chosen(&["br;q=1", "gzip;q=1"], gzip), Some(ContentEncoding::Gzip));
    assert_eq!(chosen(&["br;q=1", "gzip;q=1"], brotli), Some(ContentEncoding::Brotli));
    assert_eq!(chosen(&["gzip;q=1", "br;q=1"], brotli), Some(ContentEncoding::Brotli));
    assert_eq!(chosen(&["gzip;q=1", "br;q=0.5"], brotli), Some(ContentEncoding::Gzip));
    assert_eq!(chosen(&["gzip;q=0.5", "br;q=1"], gzip), Some(ContentEncoding::Brotli));
    assert_eq!(chosen(&["gzip", "deflate", "br", "zstd"], gzip), Some(ContentEncoding::Gzip));
    assert_eq!(chosen(&["gzip", "deflate", "br", "zstd"], brotli), Some(ContentEncoding::Brotli));
}

#[test]
fn unsupported_codings_are_passed_over() {
    let gzip = PreferredEncoding::Gzip;
    assert_eq!(chosen(&["zstd", "deflate"], gzip), Some(ContentEncoding::Identity));
    assert_eq!(chosen(&["zstd", "gzip;q=0.1"], gzip), Some(ContentEncoding::Gzip));
    assert_eq!(chosen(&["zstd", "identity;q=0"], gzip), None);
    assert_eq!(chosen(&["zstd", "*;q=0"], gzip), None);
    assert_eq!(chosen(&["gzip;q=0", "br;q=0"], gzip), Some(ContentEncoding::Identity));
    assert_eq!(chosen(&["gzip;q=0", "identity;q=0"], gzip), None);
    assert_eq!(chosen(&["identity", "gzip;q=0.5"], gzip), Some(ContentEncoding::Identity));
    assert_eq!(chosen(&["identity;q=0.5", "gzip;q=0.5"], gzip), Some(ContentEncoding::Gzip));
    assert_eq!(chosen(&["*", "gzip;q=0.5"], gzip), Some(ContentEncoding::Gzip));
    assert_eq!(chosen(&["*", "zstd"], gzip), Some(ContentEncoding::Identity));
    assert_eq!(chosen(&["x-custom"], gzip), Some(ContentEncoding::Identity));
}

#[test]
fn negotiation_is_a_function_of_its_inputs() {
    let headers: [&[&str]; 6] = [
        &[],
        &["*"],
        &["gzip", "br"],
        &["br;q=0.5", "gzip;q=0.5", "identity;q=0"],
        &["zstd", "*;q=0"],
        &["deflate", "identity"],
    ];
    for header in headers {
        for prefer in [PreferredEncoding::Gzip, PreferredEncoding::Brotli] {
            assert_eq!(chosen(header, prefer), chosen(header, prefer));
        }
    }
}

#[test]
fn content_codings_map_to_tile_encodings() {
    assert_eq!(to_encoding(ContentEncoding::Identity), Some(Encoding::Uncompressed));
    assert_eq!(to_encoding(ContentEncoding::Gzip), Some(Encoding::Gzip));
    assert_eq!(to_encoding(ContentEncoding::Brotli), Some(Encoding::Brotli));
    assert_eq!(to_encoding(ContentEncoding::Deflate), None);
    assert_eq!(to_encoding(ContentEncoding::Zstd), None);
}

#[test]
fn duplicate_keeps_the_item() {
    let first = item("x-custom;q=0.5");
    let copy = first.duplicate();
    assert_eq!(names(&[copy]), names(&[first]));
}
