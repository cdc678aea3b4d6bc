use martin::fonts::coverage::get_available_codepoints;
use martin::fonts::name::{canonical_font_name, replace_separators};
use martin::fonts::range::{build_range_masks, validate_font_range, FontError};
use martin::fonts::sources::{
    is_font_extension, resolve_fonts, FaceInfo, FaceOutcome, FontSources,
};

fn glyphs(covered: &[std::ops::RangeInclusive<usize>]) -> Vec<u32> {
    let mut glyphs = vec![0u32; 0x10000];
    for range in covered {
        for cp in range.clone() {
            glyphs[cp] = 1 + cp as u32;
        }
    }
    glyphs
}

fn face(path: &str, family: Option<&str>, style: Option<&str>, covered: &[std::ops::RangeInclusive<usize>]) -> FaceInfo {
    FaceInfo {
        path: path.to_string(),
        face_index: 0,
        family: family.map(|s| s.to_string()),
        style: style.map(|s| s.to_string()),
        glyphs: glyphs(covered),
    }
}

#[test]
fn range_masks_hold_256_codepoints_each() {
    let masks = build_range_masks();
    assert_eq!(masks.len(), 256);
    for (i, mask) in masks.iter().enumerate() {
        assert_eq!(mask.len(), 256);
        assert!(mask.contains(i * 256));
        assert!(mask.contains(i * 256 + 255));
        assert_eq!(mask.iter().next(), Some(i * 256));
        assert_eq!(mask.iter().last(), Some(i * 256 + 255));
    }
    for i in 0..256 {
        for j in [0, 1, 100, 255] {
            if i != j {
                assert!(masks[i].is_disjoint(&masks[j]));
            }
        }
    }
}

#[test]
fn font_range_is_validated_in_order() {
    assert!(matches!(validate_font_range(0, 255), Ok(0)));
    assert!(matches!(validate_font_range(256, 511), Ok(1)));
    assert!(matches!(validate_font_range(65280, 65535), Ok(255)));
    assert!(matches!(
        validate_font_range(512, 255),
        Err(FontError::InvalidFontRangeStartEnd(512, 255))
    ));
    assert!(matches!(validate_font_range(1, 255), Err(FontError::InvalidFontRangeStart(1))));
    assert!(matches!(validate_font_range(0, 256), Err(FontError::InvalidFontRangeEnd(256))));
    assert!(matches!(validate_font_range(0, 511), Err(FontError::InvalidFontRange(0, 511))));
    assert!(matches!(validate_font_range(1, 0), Err(FontError::InvalidFontRangeStartEnd(1, 0))));
    assert!(matches!(validate_font_range(1, 256), Err(FontError::InvalidFontRangeStart(1))));
}

#[test]
fn canonical_names() {
    let name = |family: &str, style: Option<&str>| {
        canonical_font_name(&family.to_string(), &style.map(|s| s.to_string()))
    };
    assert_eq!(name("Noto", Some("Regular")), "Noto Regular");
    assert_eq!(name("Noto Sans", None), "Noto Sans");
    assert_eq!(name("A/B,C", Some("Bold/Italic")), "A B C Bold Italic");
    assert_eq!(name("A  B", Some(" Bold")), "A B Bold");
    assert_eq!(name("A,/ B", None), "A B");
    assert_eq!(name(" A\t\n B ", None), " A B ");
    assert_eq!(name("A\u{a0}\u{3000}B", Some("")), "A B ");
    assert_eq!(name("", None), "");
    assert_eq!(replace_separators("a/b,c d"), "a b c d");
}

#[test]
fn canonical_names_have_no_separators_and_no_double_spaces() {
    for family in ["Noto", "A/B", "A,,B", " A  B ", "A / , B", "/", ",", "  ", "x\t\ty"] {
        for style in [None, Some("Regular"), Some(" Bold "), Some("a/b"), Some("")] {
            let name = canonical_font_name(&family.to_string(), &style.map(|s| s.to_string()));
            assert!(!name.contains('/'));
            assert!(!name.contains(','));
            assert!(!name.contains("  "));
            assert!(name.chars().all(|c| !c.is_whitespace() || c == ' '));
        }
    }
}

#[test]
fn available_codepoints_and_spans() {
    assert!(get_available_codepoints(&vec![0u32; 0x10000]).is_none());
    assert!(get_available_codepoints(&Vec::new()).is_none());

    let (set, count, spans) = get_available_codepoints(&glyphs(&[0x30..=0x39])).unwrap();
    assert_eq!(count, 10);
    assert_eq!(spans, vec![(0x30, 0x39)]);
    assert_eq!(set.iter().collect::<Vec<_>>(), (0x30..=0x39).collect::<Vec<_>>());

    let (set, count, spans) =
        get_available_codepoints(&glyphs(&[0..=0, 5..=7, 9..=9, 0xFFFE..=0xFFFF])).unwrap();
    assert_eq!(count, 7);
    assert_eq!(spans, vec![(0, 0), (5, 7), (9, 9), (0xFFFE, 0xFFFF)]);
    assert_eq!(set.len(), 7);
    assert!(set.contains(0xFFFF));

    let (_, count, spans) = get_available_codepoints(&vec![3, 0, 4]).unwrap();
    assert_eq!(count, 2);
    assert_eq!(spans, vec![(0, 0), (2, 2)]);

    let mut long = vec![0u32; 0x10010];
    long[0x10005] = 9;
    assert!(get_available_codepoints(&long).is_none());
    long[0xFFFF] = 9;
    let (_, count, spans) = get_available_codepoints(&long).unwrap();
    assert_eq!(count, 1);
    assert_eq!(spans, vec![(0xFFFF, 0xFFFF)]);
}

#[test]
fn faces_are_registered_once_per_name() {
    let faces = vec![
        face("a.ttf", Some("Noto"), Some("Regular"), &[0x30..=0x39]),
        face("b.ttf", Some("Noto"), Some("Regular"), &[0x41..=0x5a]),
        face("c.ttf", Some("Empty"), None, &[]),
        face("d.otf", Some("Noto/Sans"), Some("Bold"), &[0x100..=0x1ff, 0x300..=0x300]),
        face("e.ttc", Some("Noto,Sans"), Some("Bold"), &[0..=5]),
    ];
    let (sources, outcomes) = resolve_fonts(&faces).unwrap();
    assert_eq!(outcomes.len(), 5);
    assert!(matches!(&outcomes[0], FaceOutcome::Registered { name, spans } if name == "Noto Regular" && spans == &vec![(0x30, 0x39)]));
    assert!(matches!(&outcomes[1], FaceOutcome::Duplicate { name, configured_path } if name == "Noto Regular" && configured_path == "a.ttf"));
    assert!(matches!(&outcomes[2], FaceOutcome::NoGlyphs { name } if name == "Empty"));
    assert!(matches!(&outcomes[3], FaceOutcome::Registered { name, spans } if name == "Noto Sans Bold" && spans == &vec![(0x100, 0x1ff), (0x300, 0x300)]));
    assert!(matches!(&outcomes[4], FaceOutcome::Duplicate { name, configured_path } if name == "Noto Sans Bold" && configured_path == "d.otf"));

    let catalog = sources.get_catalog();
    assert_eq!(catalog.len(), 2);
    assert_eq!(catalog.name(0), "Noto Regular");
    assert_eq!(catalog.name(1), "Noto Sans Bold");
    let entry = catalog.entry(0);
    assert_eq!(entry.family, "Noto");
    assert_eq!(entry.style, Some("Regular".to_string()));
    assert_eq!(entry.total_glyphs, 10);
    assert_eq!(entry.start, 0x30);
    assert_eq!(entry.end, 0x39);
    let entry = catalog.entry(1);
    assert_eq!(entry.family, "Noto/Sans");
    assert_eq!(entry.total_glyphs, 257);
    assert_eq!(entry.start, 0x100);
    assert_eq!(entry.end, 0x300);

    assert_eq!(sources.position(&"Noto Regular".to_string()), Some(0));
    assert_eq!(sources.position(&"Noto Sans Bold".to_string()), Some(1));
    assert_eq!(sources.position(&"Empty".to_string()), None);
}

#[test]
fn face_without_family_name_ends_the_build() {
    let faces = vec![
        face("a.ttf", Some("Noto"), None, &[1..=2]),
        face("b.ttf", None, Some("Regular"), &[1..=2]),
        face("c.ttf", None, None, &[1..=2]),
    ];
    match resolve_fonts(&faces) {
        Err(FontError::MissingFamilyName(path)) => assert_eq!(path, "b.ttf"),
        _ => panic!("expected a missing family name"),
    }
}

#[test]
fn register_face_step_by_step() {
    let mut sources = FontSources::new();
    let outcome = sources.register_face(&face("x.ttf", Some("X"), None, &[7..=7])).unwrap();
    assert!(matches!(outcome, FaceOutcome::Registered { .. }));
    let outcome = sources.register_face(&face("y.ttf", Some("X"), None, &[8..=8])).unwrap();
    assert!(matches!(outcome, FaceOutcome::Duplicate { .. }));
    assert!(sources.register_face(&face("z.ttf", None, None, &[8..=8])).is_err());
    assert_eq!(sources.get_catalog().len(), 1);
}

#[test]
fn glyph_range_of_a_single_font() {
    let faces = vec![face("noto.ttf", Some("Noto"), Some("Regular"), &[0x30..=0x39])];
    let (sources, _) = resolve_fonts(&faces).unwrap();
    let range = sources.get_font_range("Noto Regular", 0, 255).unwrap().unwrap();
    assert_eq!(range.name, "Noto Regular");
    assert_eq!(range.range, "0-255");
    assert_eq!(range.fonts.len(), 1);
    assert_eq!(range.fonts[0].id, "Noto Regular");
    assert_eq!(range.fonts[0].path, "noto.ttf");
    assert_eq!(range.fonts[0].face_index, 0);
    assert_eq!(range.fonts[0].codepoints, (0x30..=0x39).collect::<Vec<u32>>());
    assert_eq!(range.fonts[0].codepoints.len(), 10);

    assert!(sources.get_font_range("Noto Regular", 256, 511).unwrap().is_none());
    assert!(sources.get_font_range("Noto Regular", 65536, 65791).unwrap().is_none());
}

#[test]
fn glyph_range_falls_back_through_the_fonts() {
    let faces = vec![
        face("a.ttf", Some("A"), None, &[0x30..=0x39, 0x200..=0x210]),
        face("b.ttf", Some("B"), None, &[0x35..=0x45]),
        face("c.ttf", Some("C"), None, &[0x30..=0x32]),
        face("d.ttf", Some("D"), None, &[0x00..=0xff]),
    ];
    let (sources, _) = resolve_fonts(&faces).unwrap();

    let range = sources.get_font_range("A,B,C,D", 0, 255).unwrap().unwrap();
    assert_eq!(range.name, "A, B, D");
    assert_eq!(range.range, "0-255");
    assert_eq!(range.fonts.len(), 3);
    assert_eq!(range.fonts[0].id, "A");
    assert_eq!(range.fonts[0].codepoints, (0x30..=0x39).collect::<Vec<u32>>());
    assert_eq!(range.fonts[1].id, "B");
    assert_eq!(range.fonts[1].path, "b.ttf");
    assert_eq!(range.fonts[1].codepoints, (0x3a..=0x45).collect::<Vec<u32>>());
    assert_eq!(range.fonts[2].id, "D");
    let mut rest: Vec<u32> = (0x00..=0x2f).collect();
    rest.extend(0x46..=0xff);
    assert_eq!(range.fonts[2].codepoints, rest);
    let total: usize = range.fonts.iter().map(|f| f.codepoints.len()).sum();
    assert_eq!(total, 256);

    let range = sources.get_font_range("B,A", 0, 255).unwrap().unwrap();
    assert_eq!(range.name, "B, A");
    assert_eq!(range.fonts[0].codepoints, (0x35..=0x45).collect::<Vec<u32>>());
    assert_eq!(range.fonts[1].codepoints, (0x30..=0x34).collect::<Vec<u32>>());

    let range = sources.get_font_range("A,A", 0, 255).unwrap().unwrap();
    assert_eq!(range.name, "A");
    assert_eq!(range.fonts.len(), 1);

    let range = sources.get_font_range("C,A", 512, 767).unwrap().unwrap();
    assert_eq!(range.name, "A");
    assert_eq!(range.range, "512-767");
    assert_eq!(range.fonts[0].codepoints, (0x200..=0x210).collect::<Vec<u32>>());

    assert!(sources.get_font_range("B,C", 512, 767).unwrap().is_none());
}

#[test]
fn glyph_range_errors() {
    let faces = vec![face("a.ttf", Some("A"), None, &[0x30..=0x39])];
    let (sources, _) = resolve_fonts(&faces).unwrap();
    assert!(matches!(sources.get_font_range("A,B", 0, 255), Err(FontError::FontNotFound(id)) if id == "B"));
    assert!(matches!(sources.get_font_range("X,B", 0, 255), Err(FontError::FontNotFound(id)) if id == "X"));
    assert!(matches!(sources.get_font_range("", 0, 255), Err(FontError::FontNotFound(id)) if id.is_empty()));
    assert!(matches!(sources.get_font_range("A,", 0, 255), Err(FontError::FontNotFound(id)) if id.is_empty()));
    assert!(matches!(sources.get_font_range("A,B", 256, 511), Err(FontError::FontNotFound(id)) if id == "B"));
    assert!(matches!(
        sources.get_font_range("B", 300, 200),
        Err(FontError::InvalidFontRangeStartEnd(300, 200))
    ));
    assert!(matches!(sources.get_font_range("B", 3, 258), Err(FontError::InvalidFontRangeStart(3))));
    assert!(matches!(sources.get_font_range("A", 0, 254), Err(FontError::InvalidFontRangeEnd(254))));
    assert!(matches!(sources.get_font_range("A", 0, 767), Err(FontError::InvalidFontRange(0, 767))));
    let empty = FontSources::new();
    assert!(matches!(empty.get_font_range("A", 0, 255), Err(FontError::FontNotFound(id)) if id == "A"));
}

#[test]
fn font_files_are_known_by_their_extension() {
    assert!(is_font_extension("otf"));
    assert!(is_font_extension("ttf"));
    assert!(is_font_extension("ttc"));
    assert!(!is_font_extension("OTF"));
    assert!(!is_font_extension("woff"));
    assert!(!is_font_extension(""));
    assert!(!is_font_extension("ttf "));
}

#[test]
fn coverage_of_a_registered_font() {
    let faces = vec![face("a.ttf", Some("A"), None, &[0x30..=0x39, 0xFFFF..=0xFFFF])];
    let (sources, _) = resolve_fonts(&faces).unwrap();
    assert!(sources.covers(0, 0x30));
    assert!(sources.covers(0, 0x39));
    assert!(sources.covers(0, 0xFFFF));
    assert!(!sources.covers(0, 0x2f));
    assert!(!sources.covers(0, 0x3a));
    assert!(!sources.covers(0, 0x10000));
    let entry = sources.get_catalog().entry(0);
    assert_eq!((entry.total_glyphs, entry.start, entry.end), (11, 0x30, 0xFFFF));
}

#[test]
fn font_errors_have_a_status() {
    assert_eq!(FontError::FontNotFound("x".to_string()).status_code(), 404);
    assert_eq!(FontError::InvalidFontRangeStartEnd(2, 1).status_code(), 400);
    assert_eq!(FontError::InvalidFontRangeStart(1).status_code(), 400);
    assert_eq!(FontError::InvalidFontRangeEnd(1).status_code(), 400);
    assert_eq!(FontError::InvalidFontRange(0, 511).status_code(), 400);
    assert_eq!(FontError::MissingFamilyName("a.ttf".to_string()).status_code(), 500);
}
