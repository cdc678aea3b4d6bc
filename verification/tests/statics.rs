use martin::files::{parse_named_source, FilesConfig};
use martin::statics::{
    merge_files, same_source, sources_of_paths, sources_of_stems, StaticsArgs, StaticsConfig,
    StaticsError, StaticsSource, StaticsSourceEnum,
};

fn simple(id: &str, path: &str) -> (String, StaticsSourceEnum) {
    (id.to_string(), StaticsSourceEnum::Simple(path.to_string()))
}

fn complex(id: &str, path: &str, settings: &[(&str, &str)]) -> (String, StaticsSourceEnum) {
    (
        id.to_string(),
        StaticsSourceEnum::Complex(StaticsSource {
            path: path.to_string(),
            index_file: Some("index.html".to_string()),
            unrecognized: settings.iter().map(|(k, v)| (k.to_string(), v.to_string())).collect(),
        }),
    )
}

fn ids(entries: &[(String, StaticsSourceEnum)]) -> Vec<(String, String)> {
    entries
        .iter()
        .map(|(id, source)| {
            let path = match source {
                StaticsSourceEnum::Simple(path) => path.clone(),
                StaticsSourceEnum::Complex(source) => format!("complex {}", source.path),
            };
            (id.clone(), path)
        })
        .collect()
}

fn pair(a: &str, b: &str) -> (String, String) {
    (a.to_string(), b.to_string())
}

#[test]
fn paths_become_sources_named_by_their_stem() {
    let entries = sources_of_paths(vec![
        "static/site".to_string(),
        "maps/style.json".to_string(),
        "other/site".to_string(),
        "..".to_string(),
    ]);
    assert_eq!(
        ids(&entries),
        vec![pair("site", "other/site"), pair("style", "maps/style.json")]
    );
}

#[test]
fn arguments_merge_into_an_empty_configuration() {
    let mut config = StaticsConfig { files: None };
    let args = StaticsArgs { files: Some(vec!["a/foo".to_string(), "b/bar.txt".to_string()]) };
    args.merge_into_config(&mut config).unwrap();
    assert_eq!(ids(&config.files.unwrap()), vec![pair("foo", "a/foo"), pair("bar", "b/bar.txt")]);
}

#[test]
fn no_arguments_leave_the_configuration() {
    let mut config = StaticsConfig { files: Some(vec![simple("foo", "x")]) };
    StaticsArgs { files: None }.merge_into_config(&mut config).unwrap();
    assert_eq!(ids(&config.files.unwrap()), vec![pair("foo", "x")]);
    let mut config = StaticsConfig { files: None };
    StaticsArgs { files: None }.merge_into_config(&mut config).unwrap();
    assert!(config.files.is_none());
}

#[test]
fn arguments_add_to_the_configuration() {
    let mut config = StaticsConfig {
        files: Some(vec![simple("foo", "a/foo"), complex("site", "www", &[])]),
    };
    let args = StaticsArgs { files: Some(vec!["a/foo".to_string(), "b/bar".to_string()]) };
    args.merge_into_config(&mut config).unwrap();
    assert_eq!(
        ids(&config.files.unwrap()),
        vec![pair("foo", "a/foo"), pair("site", "complex www"), pair("bar", "b/bar")]
    );
}

#[test]
fn conflicting_names_are_an_error() {
    let mut config = StaticsConfig { files: Some(vec![simple("foo", "a/foo")]) };
    let args = StaticsArgs { files: Some(vec!["x/new".to_string(), "b/foo".to_string()]) };
    match args.merge_into_config(&mut config) {
        Err(StaticsError::DuplicateSourceId(id)) => assert_eq!(id, "foo"),
        Ok(()) => panic!("merged a conflict"),
    }
    assert!(config.files.is_none());

    let mut config = StaticsConfig { files: Some(vec![complex("foo", "a/foo", &[])]) };
    let result = merge_files(Some(vec![simple("foo", "a/foo")]), &mut config);
    assert!(matches!(result, Err(StaticsError::DuplicateSourceId(id)) if id == "foo"));
}

#[test]
fn sources_are_compared_by_content() {
    assert!(same_source(&simple("a", "p").1, &simple("b", "p").1));
    assert!(!same_source(&simple("a", "p").1, &simple("a", "q").1));
    assert!(!same_source(&simple("a", "p").1, &complex("a", "p", &[]).1));
    assert!(same_source(&complex("a", "p", &[("k", "v")]).1, &complex("a", "p", &[("k", "v")]).1));
    assert!(!same_source(&complex("a", "p", &[("k", "v")]).1, &complex("a", "p", &[("k", "w")]).1));
    assert!(!same_source(&complex("a", "p", &[("k", "v")]).1, &complex("a", "p", &[]).1));
    assert!(!same_source(&complex("a", "p", &[]).1, &complex("a", "q", &[]).1));
}

#[test]
fn unknown_settings_are_reported_with_their_path() {
    let config = StaticsConfig {
        files: Some(vec![
            simple("plain", "p"),
            complex("site", "www", &[("cache", "1h"), ("gzip", "true")]),
            complex("docs", "doc", &[]),
            complex("x", "y", &[("k", "v")]),
        ]),
    };
    assert_eq!(
        config.finalize().unwrap(),
        vec![
            pair("files.site.cache", "1h"),
            pair("files.site.gzip", "true"),
            pair("files.x.k", "v"),
        ]
    );
    assert!(StaticsConfig { files: None }.finalize().unwrap().is_empty());
}

#[test]
fn named_sources_are_parsed() {
    assert_eq!(parse_named_source("site:www/root"), Some(pair("site", "www/root")));
    assert_eq!(parse_named_source("a.b-c_1:x:y"), Some(pair("a.b-c_1", "x:y")));
    assert_eq!(parse_named_source(":www"), Some(pair("", "www")));
    assert_eq!(parse_named_source("site:"), Some(pair("site", "")));
    assert_eq!(parse_named_source("site:/www"), Some(pair("site", "/www")));
    assert_eq!(parse_named_source("http://example.org"), None);
    assert_eq!(parse_named_source("site://"), None);
    assert_eq!(parse_named_source("my site:www"), None);
    assert_eq!(parse_named_source("a/b:www"), None);
    assert_eq!(parse_named_source("www/root"), None);
    assert_eq!(parse_named_source(""), None);
}

#[test]
fn files_configuration_from_arguments() {
    let config = FilesConfig::from_args(martin::files::StaticsArgs {
        files: Some(vec![
            "site:www/root".to_string(),
            "maps/style.json".to_string(),
            "site:other".to_string(),
            "http://example.org/page.html".to_string(),
        ]),
    });
    assert_eq!(
        ids(config.entries().as_ref().unwrap()),
        vec![
            pair("site", "other"),
            pair("style", "maps/style.json"),
            pair("page", "http://example.org/page.html"),
        ]
    );
    assert!(FilesConfig::from_args(martin::files::StaticsArgs { files: None }).entries().is_none());
    assert!(FilesConfig::new().entries().is_none());
}

#[test]
fn files_configurations_merge() {
    let args = |files: &[&str]| martin::files::StaticsArgs {
        files: Some(files.iter().map(|s| s.to_string()).collect()),
    };
    let mut first = FilesConfig::from_args(args(&["a:1", "b:2"]));
    first.merge(FilesConfig::from_args(args(&["b:3", "c:4"])));
    assert_eq!(
        ids(first.entries().as_ref().unwrap()),
        vec![pair("a", "1"), pair("b", "3"), pair("c", "4")]
    );
    first.merge(FilesConfig::new());
    assert_eq!(first.entries().as_ref().unwrap().len(), 3);
    let mut none = FilesConfig::new();
    none.merge(FilesConfig::from_args(args(&["x:y"])));
    assert_eq!(ids(none.entries().as_ref().unwrap()), vec![pair("x", "y")]);
    let done = none.finalize();
    assert_eq!(ids(done.entries().as_ref().unwrap()), vec![pair("x", "y")]);
    let mut empty = FilesConfig::new();
    empty.merge(FilesConfig::new());
    assert!(empty.entries().is_none());
}

#[test]
fn named_paths_become_sources() {
    let named = |stem: Option<&str>, path: &str| (stem.map(|s| s.to_string()), path.to_string());
    let entries = sources_of_stems(vec![
        named(Some("site"), "static/site"),
        named(None, ".."),
        named(Some("style"), "maps/style.json"),
        named(Some("site"), "other/site"),
        named(Some(""), "odd"),
    ]);
    assert_eq!(
        ids(&entries),
        vec![pair("site", "other/site"), pair("style", "maps/style.json"), pair("", "odd")]
    );
    assert!(sources_of_stems(Vec::new()).is_empty());
    assert!(sources_of_stems(vec![named(None, "a"), named(None, "b")]).is_empty());
    assert!(sources_of_paths(Vec::new()).is_empty());
}

#[test]
fn files_configuration_from_named_values() {
    let named = |stem: Option<&str>, value: &str| (stem.map(|s| s.to_string()), value.to_string());
    let config = FilesConfig::from_named(vec![
        named(Some("ignored"), "site:www/root"),
        named(Some("style"), "maps/style.json"),
        named(None, ".."),
        named(Some("page"), "http://example.org/page.html"),
        named(None, "site:other"),
    ]);
    assert_eq!(
        ids(config.entries().as_ref().unwrap()),
        vec![
            pair("site", "other"),
            pair("style", "maps/style.json"),
            pair("page", "http://example.org/page.html"),
        ]
    );
    assert!(FilesConfig::from_named(Vec::new()).entries().as_ref().unwrap().is_empty());
}
