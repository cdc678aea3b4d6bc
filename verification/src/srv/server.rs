//! What the server tells about its sources: the catalog, the zoom levels of merged
//! sources, and the address of their tiles.

use crate::order::is_ranking;
use crate::order::is_sorted_by;
use crate::order::lemma_insert_at;
use crate::order::lemma_sorted_by_permutes;
use crate::order::lemma_sorted_by_sorts;
use crate::order::sorted_by;
use crate::srv::source::resolution;
use crate::srv::source::reports;
use crate::srv::source::source_at;
use crate::srv::source::has_source;
use crate::srv::source::source_index;
use crate::srv::source::Resolution;
use crate::srv::source::SourceInfo;
use crate::srv::source::TileError;
use crate::srv::source::TileSources;
use crate::text::chars_of;
use crate::text::lemma_lex_lt_total;
use crate::text::lex_lt;
use crate::text::split;
use crate::text::text_lt;
use crate::tile::TileInfo;
use actix_web::http::Uri;
use vstd::prelude::*;
use vstd::string::*;

verus! {

/// Whether `c` may stand in the name of a source: a letter or a digit of ASCII, an
/// underscore, a hyphen or a dot.
pub open spec fn valid_id_char(c: char) -> bool {
    ('a' <= c <= 'z') || ('A' <= c <= 'Z') || ('0' <= c <= '9') || c == '_' || c == '-' || c == '.'
}

/// Whether `c` may stand in the name of a source.
pub fn is_valid_id_char(c: char) -> (valid: bool)
    ensures
        valid == valid_id_char(c),
{
    ('a' <= c && c <= 'z') || ('A' <= c && c <= 'Z') || ('0' <= c && c <= '9') || c == '_' || c
        == '-' || c == '.'
}

/// Whether `id` is a word that no source may have as its name, because the server uses it
/// or may come to use it for a route of its own.
pub open spec fn reserved(id: Seq<char>) -> bool {
    ||| id == "catalog"@
    ||| id == "config"@
    ||| id == "health"@
    ||| id == "index"@
    ||| id == "manifest"@
    ||| id == "refresh"@
    ||| id == "reload"@
    ||| id == "status"@
}

/// Whether `id` is a word that no source may have as its name.
pub fn is_reserved_keyword(id: &str) -> (is_reserved: bool)
    ensures
        is_reserved == reserved(id@),
{
    let id = String::from_str(id);
    id == String::from_str("catalog") || id == String::from_str("config") || id
        == String::from_str("health") || id == String::from_str("index") || id
        == String::from_str("manifest") || id == String::from_str("refresh") || id
        == String::from_str("reload") || id == String::from_str("status")
}

/// Whether `id` can be the name of a source: it is not empty, every character of it may
/// stand in a name, and it is no reserved word.
pub open spec fn valid_source_id(id: Seq<char>) -> bool {
    &&& id.len() > 0
    &&& forall|i: int| 0 <= i < id.len() ==> valid_id_char(#[trigger] id[i])
    &&& !reserved(id)
}

/// Whether `id` can be the name of a source.
pub fn is_valid_source_id(id: &str) -> (valid: bool)
    ensures
        valid == valid_source_id(id@),
{
    let chars = chars_of(id);
    if chars.len() == 0 {
        return false;
    }
    let mut i: usize = 0;
    while i < chars.len()
        invariant
            i <= chars@.len(),
            chars@ == id@,
            forall|k: int| 0 <= k < i ==> valid_id_char(#[trigger] id@[k]),
        decreases chars.len() - i,
    {
        if !is_valid_id_char(chars[i]) {
            return false;
        }
        i = i + 1;
    }
    !is_reserved_keyword(id)
}

/// The sources that a server offers.
#[derive(Debug)]
pub struct AppState {
    pub sources: TileSources,
}

impl AppState {
    /// The source named `id`.
    pub fn get_source(&self, id: &str) -> (found: Result<&SourceInfo, TileError>)
        ensures
            match found {
                Ok(source) => has_source(self.sources@, id@) && source.model().id == id@ && (
                self.sources.wf() ==> source.model() == self.sources@[source_index(
                    self.sources@,
                    id@,
                )]),
                Err(e) => {
                    &&& !has_source(self.sources@, id@)
                    &&& e matches TileError::SourceNotFound(name)
                    &&& name@ == id@
                },
            },
    {
        self.sources.get_source(id)
    }

    /// Resolves a request for the sources that `source_ids` names, with commas between
    /// the names, at the zoom level `zoom` if one is given.
    pub fn get_sources(&self, source_ids: &str, zoom: Option<u8>) -> (resolved: Result<
        (Vec<&SourceInfo>, bool, TileInfo),
        TileError,
    >)
        requires
            self.sources.wf(),
        ensures
            match resolution(self.sources@, split(source_ids@, ','), zoom) {
                Resolution::Found { positions, use_url_query, info } => {
                    &&& resolved matches Ok((sources, query, shared))
                    &&& query == use_url_query
                    &&& shared == info
                    &&& sources@.len() == positions.len()
                    &&& forall|j: int|
                        0 <= j < positions.len() ==> (#[trigger] sources@[j]).model() == source_at(
                            self.sources@,
                            split(source_ids@, ','),
                            positions[j],
                        )
                },
                failure => resolved matches Err(e) && reports(e, failure),
            },
    {
        self.sources.get_sources(source_ids, zoom)
    }
}

/// What the catalog tells about a source.
#[derive(Debug)]
pub struct IndexEntry {
    pub id: String,
    pub content_type: String,
    pub content_encoding: Option<String>,
    pub name: Option<String>,
    pub description: Option<String>,
    pub attribution: Option<String>,
}

/// An [`IndexEntry`] as plain mathematics.
pub struct IndexModel {
    pub id: Seq<char>,
    pub content_type: Seq<char>,
    pub content_encoding: Option<Seq<char>>,
    pub name: Option<Seq<char>>,
    pub description: Option<Seq<char>>,
    pub attribution: Option<Seq<char>>,
}

/// The view of an optional text.
pub open spec fn opt_text(text: Option<String>) -> Option<Seq<char>> {
    match text {
        Some(text) => Some(text@),
        None => None,
    }
}

/// Whether the optional text `a` comes before `b`: no text comes before any text, and
/// texts come in their own order.
pub open spec fn opt_lt(a: Option<Seq<char>>, b: Option<Seq<char>>) -> bool {
    match (a, b) {
        (None, Some(_)) => true,
        (Some(x), Some(y)) => lex_lt(x, y),
        _ => false,
    }
}

/// Whether the entry `a` comes before `b` in the catalog: by its identifier, and by its
/// name where the identifiers are the same.
pub open spec fn entry_before(a: IndexModel, b: IndexModel) -> bool {
    lex_lt(a.id, b.id) || (a.id == b.id && opt_lt(a.name, b.name))
}

/// [`entry_before`] as a relation.
pub open spec fn entry_order() -> spec_fn(IndexModel, IndexModel) -> bool {
    |a: IndexModel, b: IndexModel| entry_before(a, b)
}

impl IndexEntry {
    /// The entry as plain mathematics.
    pub open spec fn view(&self) -> IndexModel {
        IndexModel {
            id: self.id@,
            content_type: self.content_type@,
            content_encoding: opt_text(self.content_encoding),
            name: opt_text(self.name),
            description: opt_text(self.description),
            attribution: opt_text(self.attribution),
        }
    }

    /// Whether this entry comes before `other` in the catalog.
    pub fn precedes(&self, other: &IndexEntry) -> (before: bool)
        ensures
            before == entry_before(self@, other@),
    {
        if text_lt(self.id.as_str(), other.id.as_str()) {
            return true;
        }
        if !(self.id == other.id) {
            return false;
        }
        match (&self.name, &other.name) {
            (None, Some(_)) => true,
            (Some(x), Some(y)) => text_lt(x.as_str(), y.as_str()),
            _ => false,
        }
    }
}

/// What a source tells about itself.
#[derive(Debug)]
pub struct SourceSummary {
    pub id: String,
    pub info: TileInfo,
    pub name: Option<String>,
    pub description: Option<String>,
    pub attribution: Option<String>,
}

/// The catalog entry of a source: its media type and its coding as HTTP names them, and
/// its name where that is not its identifier.
pub open spec fn entry_of(source: SourceSummary) -> IndexModel {
    IndexModel {
        id: source.id@,
        content_type: source.info.format.content_type_text(),
        content_encoding: source.info.encoding.content_encoding_text(),
        name: match source.name {
            Some(name) => if name@ == source.id@ {
                None
            } else {
                Some(name@)
            },
            None => None,
        },
        description: opt_text(source.description),
        attribution: opt_text(source.attribution),
    }
}

/// The catalog entries of `sources`, in their order.
pub open spec fn entries_of(sources: Seq<SourceSummary>) -> Seq<IndexModel> {
    Seq::new(sources.len(), |i: int| entry_of(sources[i]))
}

/// The entries of `entries` as plain mathematics.
pub open spec fn entries_view(entries: Seq<IndexEntry>) -> Seq<IndexModel> {
    Seq::new(entries.len(), |i: int| entries[i]@)
}

/// The catalog entry of `source`.
pub fn catalog_entry(source: SourceSummary) -> (entry: IndexEntry)
    ensures
        entry@ == entry_of(source),
{
    let content_type = String::from_str(source.info.format.content_type());
    let content_encoding = match source.info.encoding.content_encoding() {
        Some(text) => Some(String::from_str(text)),
        None => None,
    };
    let name = match source.name {
        Some(name) => if name == source.id {
            None
        } else {
            Some(name)
        },
        None => None,
    };
    IndexEntry {
        id: source.id,
        content_type,
        content_encoding,
        name,
        description: source.description,
        attribution: source.attribution,
    }
}

/// The catalog of `sources`: the entry of each, ordered by identifier and name.
pub fn get_catalog(sources: Vec<SourceSummary>) -> (catalog: Vec<IndexEntry>)
    ensures
        entries_view(catalog@) == sorted_by(entries_of(sources@), entry_order()),
{
    let ghost all = entries_of(sources@);
    let mut rest = sources;
    let mut catalog: Vec<IndexEntry> = Vec::new();
    let ghost mut done: int = 0;
    assert(all.take(0) =~= Seq::<IndexModel>::empty());
    assert(entries_view(catalog@) =~= Seq::<IndexModel>::empty());
    assert(entries_of(rest@) =~= all.skip(0));
    while rest.len() > 0
        invariant
            0 <= done <= all.len(),
            entries_of(rest@) == all.skip(done),
            rest@.len() == all.len() - done,
            entries_view(catalog@) == sorted_by(all.take(done), entry_order()),
        decreases rest.len(),
    {
        let ghost before_rest = rest@;
        let source = rest.remove(0);
        let entry = catalog_entry(source);
        proof {
            assert(entry@ == all[done]) by {
                assert(entries_of(before_rest)[0] == entry_of(before_rest[0]));
                assert(all.skip(done)[0] == all[done]);
            }
            assert(entries_of(rest@) =~= all.skip(done + 1)) by {
                assert forall|i: int| 0 <= i < rest@.len() implies entries_of(rest@)[i]
                    == all.skip(done + 1)[i] by {
                    assert(rest@[i] == before_rest[i + 1]);
                    assert(entries_of(before_rest)[i + 1] == entry_of(before_rest[i + 1]));
                    assert(all.skip(done)[i + 1] == all[done + i + 1]);
                }
            }
        }
        let mut pos: usize = catalog.len();
        while pos > 0 && entry.precedes(&catalog[pos - 1])
            invariant
                pos <= catalog@.len(),
                forall|k: int|
                    pos <= k < catalog@.len() ==> entry_before(
                        entry@,
                        #[trigger] entries_view(catalog@)[k],
                    ),
            decreases pos,
        {
            assert(entries_view(catalog@)[pos - 1] == catalog@[pos - 1]@);
            pos = pos - 1;
        }
        proof {
            let sorted = entries_view(catalog@);
            if pos > 0 {
                assert(sorted[pos - 1] == catalog@[pos - 1]@);
            }
            assert forall|k: int| pos <= k < sorted.len() implies entry_order()(
                entry@,
                #[trigger] sorted[k],
            ) by {}
            lemma_insert_at(sorted, entry@, entry_order(), pos as int);
            assert(all.take(done + 1).drop_last() =~= all.take(done));
            assert(all.take(done + 1).last() == all[done]);
        }
        let ghost sorted = entries_view(catalog@);
        let ghost model = entry@;
        catalog.insert(pos, entry);
        proof {
            assert(entries_view(catalog@) =~= sorted.insert(pos as int, model));
            done = done + 1;
        }
    }
    assert(all.take(done) =~= all);
    catalog
}

/// The order of the catalog orders by rank.
pub proof fn lemma_entry_order_ranks()
    ensures
        is_ranking(entry_order()),
{
    assert forall|a: IndexModel| !#[trigger] entry_order()(a, a) by {
        lemma_lex_lt_total(a.id, a.id, a.id);
        if a.name is Some {
            lemma_lex_lt_total(a.name.unwrap(), a.name.unwrap(), a.name.unwrap());
        }
    }
    assert forall|a: IndexModel, b: IndexModel, c: IndexModel|
        #![trigger entry_order()(a, b), entry_order()(b, c)]
        entry_order()(a, b) && entry_order()(b, c) implies entry_order()(a, c) by {
        lemma_lex_lt_total(a.id, b.id, c.id);
        if a.name is Some && b.name is Some && c.name is Some {
            lemma_lex_lt_total(a.name.unwrap(), b.name.unwrap(), c.name.unwrap());
        }
    }
    assert forall|a: IndexModel, b: IndexModel, c: IndexModel|
        #![trigger entry_order()(a, b), entry_order()(b, c)]
        !entry_order()(a, b) && !entry_order()(b, c) implies !entry_order()(a, c) by {
        lemma_lex_lt_total(a.id, b.id, c.id);
        lemma_lex_lt_total(b.id, a.id, c.id);
        lemma_lex_lt_total(c.id, b.id, a.id);
        lemma_lex_lt_total(b.id, c.id, a.id);
        lemma_lex_lt_total(c.id, a.id, b.id);
        if a.name is Some && b.name is Some && c.name is Some {
            let (x, y, z) = (a.name.unwrap(), b.name.unwrap(), c.name.unwrap());
            lemma_lex_lt_total(x, y, z);
            lemma_lex_lt_total(y, x, z);
            lemma_lex_lt_total(z, y, x);
            lemma_lex_lt_total(y, z, x);
            lemma_lex_lt_total(z, x, y);
        }
    }
}

/// The catalog holds the entry of every source, each as often as the source is there, and
/// no entry of it comes before an earlier one.
pub proof fn lemma_catalog_sorted(entries: Seq<IndexModel>)
    ensures
        sorted_by(entries, entry_order()).to_multiset() == entries.to_multiset(),
        is_sorted_by(sorted_by(entries, entry_order()), entry_order()),
{
    lemma_entry_order_ranks();
    lemma_sorted_by_permutes(entries, entry_order());
    lemma_sorted_by_sorts(entries, entry_order());
}

/// The zoom levels for which a source has tiles: the lowest and the highest, each where
/// the source sets it.
#[derive(Clone, Copy, Debug, PartialEq, Eq, Structural)]
pub struct ZoomRange {
    pub minzoom: Option<u8>,
    pub maxzoom: Option<u8>,
}

/// The lower of two lowest zoom levels, where `None` stands for "not set".
pub open spec fn min_zoom(a: Option<u8>, b: Option<u8>) -> Option<u8> {
    match (a, b) {
        (Some(x), Some(y)) => if x > y {
            Some(y)
        } else {
            Some(x)
        },
        (None, y) => y,
        (x, None) => x,
    }
}

/// The higher of two highest zoom levels, where `None` stands for "not set".
pub open spec fn max_zoom(a: Option<u8>, b: Option<u8>) -> Option<u8> {
    match (a, b) {
        (Some(x), Some(y)) => if x < y {
            Some(y)
        } else {
            Some(x)
        },
        (None, y) => y,
        (x, None) => x,
    }
}

/// The zoom levels of the first `n` of `ranges` merged: the lowest of the lowest levels
/// that are set, and the highest of the highest.
pub open spec fn merged_zooms(ranges: Seq<ZoomRange>, n: int) -> ZoomRange
    decreases n,
{
    if n <= 0 {
        ZoomRange { minzoom: None, maxzoom: None }
    } else {
        let before = merged_zooms(ranges, n - 1);
        ZoomRange {
            minzoom: min_zoom(before.minzoom, ranges[n - 1].minzoom),
            maxzoom: max_zoom(before.maxzoom, ranges[n - 1].maxzoom),
        }
    }
}

/// What the merge of the TileJSON of several sources reads and writes: the zoom levels
/// and the addresses of the tiles.
#[derive(Debug)]
pub struct TileJsonParts {
    pub minzoom: Option<u8>,
    pub maxzoom: Option<u8>,
    pub tiles: Vec<String>,
}

/// The zoom levels of `sources`, in their order.
pub open spec fn zooms_of(sources: Seq<TileJsonParts>) -> Seq<ZoomRange> {
    Seq::new(
        sources.len(),
        |i: int| ZoomRange { minzoom: sources[i].minzoom, maxzoom: sources[i].maxzoom },
    )
}

/// Merges the TileJSON of the sources of one request into the TileJSON of the request.
///
/// The answer names the source from which every other field is to be taken, which is the
/// first, and holds what the merge sets: the lowest of the lowest zoom levels that are
/// set, the highest of the highest, and `tiles_url` as the one address of the tiles.
pub fn merge_tilejson(sources: &Vec<TileJsonParts>, tiles_url: String) -> (merged: (
    usize,
    TileJsonParts,
))
    requires
        sources@.len() > 0,
    ensures
        merged.0 == 0,
        merged.1.minzoom == merged_zooms(zooms_of(sources@), sources@.len() as int).minzoom,
        merged.1.maxzoom == merged_zooms(zooms_of(sources@), sources@.len() as int).maxzoom,
        merged.1.tiles.deep_view() == seq![tiles_url@],
{
    let mut accum = ZoomRange { minzoom: None, maxzoom: None };
    let mut i: usize = 0;
    while i < sources.len()
        invariant
            i <= sources@.len(),
            accum == merged_zooms(zooms_of(sources@), i as int),
        decreases sources.len() - i,
    {
        let tj = &sources[i];
        if let Some(minzoom) = tj.minzoom {
            if let Some(a) = accum.minzoom {
                if a > minzoom {
                    accum.minzoom = tj.minzoom;
                }
            } else {
                accum.minzoom = tj.minzoom;
            }
        }
        if let Some(maxzoom) = tj.maxzoom {
            if let Some(a) = accum.maxzoom {
                if a < maxzoom {
                    accum.maxzoom = tj.maxzoom;
                }
            } else {
                accum.maxzoom = tj.maxzoom;
            }
        }
        i = i + 1;
    }
    let mut tiles: Vec<String> = Vec::new();
    tiles.push(tiles_url);
    assert(tiles.deep_view() =~= seq![tiles_url@]);
    (0, TileJsonParts { minzoom: accum.minzoom, maxzoom: accum.maxzoom, tiles })
}

/// The merged lowest zoom level is the lowest that any of the sources sets, and the
/// merged highest the highest; each is unset exactly where no source sets it.
pub proof fn lemma_merged_zooms(ranges: Seq<ZoomRange>, n: int)
    requires
        0 <= n <= ranges.len(),
    ensures
        match merged_zooms(ranges, n).minzoom {
            Some(low) => (exists|i: int| 0 <= i < n && (#[trigger] ranges[i]).minzoom == Some(low))
                && forall|i: int|
                0 <= i < n && (#[trigger] ranges[i]).minzoom is Some ==> low
                    <= ranges[i].minzoom.unwrap(),
            None => forall|i: int| 0 <= i < n ==> (#[trigger] ranges[i]).minzoom is None,
        },
        match merged_zooms(ranges, n).maxzoom {
            Some(high) => (exists|i: int|
                0 <= i < n && (#[trigger] ranges[i]).maxzoom == Some(high)) && forall|i: int|
                0 <= i < n && (#[trigger] ranges[i]).maxzoom is Some ==> high
                    >= ranges[i].maxzoom.unwrap(),
            None => forall|i: int| 0 <= i < n ==> (#[trigger] ranges[i]).maxzoom is None,
        },
    decreases n,
{
    if n > 0 {
        lemma_merged_zooms(ranges, n - 1);
        let before = merged_zooms(ranges, n - 1);
        let now = merged_zooms(ranges, n);
        if now.minzoom is Some {
            if now.minzoom == ranges[n - 1].minzoom {
                assert(ranges[n - 1].minzoom == Some(now.minzoom.unwrap()));
            } else {
                let i = choose|i: int|
                    0 <= i < n - 1 && (#[trigger] ranges[i]).minzoom == before.minzoom;
                assert(ranges[i].minzoom == Some(now.minzoom.unwrap()));
            }
        }
        if now.maxzoom is Some {
            if now.maxzoom == ranges[n - 1].maxzoom {
                assert(ranges[n - 1].maxzoom == Some(now.maxzoom.unwrap()));
            } else {
                let i = choose|i: int|
                    0 <= i < n - 1 && (#[trigger] ranges[i]).maxzoom == before.maxzoom;
                assert(ranges[i].maxzoom == Some(now.maxzoom.unwrap()));
            }
        }
    }
}

/// The text of the URI that `http` builds from a scheme, an authority and a path with
/// query, or `None` where it builds none.
pub uninterp spec fn uri_text(scheme: Seq<char>, authority: Seq<char>, path_and_query: Seq<char>) -> Option<
    Seq<char>,
>;

/// The path of the URI that `http` reads out of `text`, or `None` where it reads none.
pub uninterp spec fn uri_path(text: Seq<char>) -> Option<Seq<char>>;

/// `Uri::builder`, given a scheme, an authority and a path with query, then `build`: the
/// text of the URI, or nothing where the parts do not make one.
#[verifier::external_body]
fn build_uri(scheme: &str, authority: &str, path_and_query: &str) -> (text: Option<String>)
    ensures
        opt_text(text) == uri_text(scheme@, authority@, path_and_query@),
{
    let uri = Uri::builder().scheme(scheme).authority(authority).path_and_query(
        path_and_query,
    ).build();
    uri.ok().map(|uri| uri.to_string())
}

/// `str::parse` to a `Uri`, then `Uri::path`: the path of the URI that `text` is, or
/// nothing where it is none.
#[verifier::external_body]
fn parse_uri_path(text: &str) -> (path: Option<String>)
    ensures
        opt_text(path) == uri_path(text@),
{
    text.parse::<Uri>().ok().map(|uri| uri.path().to_owned())
}

/// The path under which the tiles of a request are found: the path of the URI in the
/// header `X-Rewrite-Url`, where the request has that header and it is a URI, and the path
/// of the request otherwise.
pub open spec fn tiles_path_of(rewrite_url: Option<Seq<char>>, request_path: Seq<char>) -> Seq<
    char,
> {
    match rewrite_url {
        Some(header) => match uri_path(header) {
            Some(path) => path,
            None => request_path,
        },
        None => request_path,
    }
}

/// The view of an optional text.
pub open spec fn opt_str(text: Option<&str>) -> Option<Seq<char>> {
    match text {
        Some(text) => Some(text@),
        None => None,
    }
}

/// The path under which the tiles of a request are found. `rewrite_url` is the value of
/// the header `X-Rewrite-Url` of the request, if it has one.
pub fn tiles_path(rewrite_url: Option<&str>, request_path: &str) -> (path: String)
    ensures
        path@ == tiles_path_of(opt_str(rewrite_url), request_path@),
{
    match rewrite_url {
        Some(header) => match parse_uri_path(header) {
            Some(path) => path,
            None => String::from_str(request_path),
        },
        None => String::from_str(request_path),
    }
}

/// The path and the query of the address of the tiles: the path of the tiles, the
/// placeholders for zoom level, column and row, and the query string of the request
/// where it is not empty.
pub open spec fn tiles_path_and_query(query_string: Seq<char>, tiles_path: Seq<char>) -> Seq<
    char,
> {
    if query_string.len() == 0 {
        tiles_path + "/{z}/{x}/{y}"@
    } else {
        tiles_path + "/{z}/{x}/{y}"@ + "?"@ + query_string
    }
}

/// The address of the tiles cannot be built from the parts of the request.
#[derive(Debug)]
pub struct TilesUrlError {
    /// The path and query that did not make an address.
    pub path_and_query: String,
}

/// The address under which the tiles of a request are found.
pub fn get_tiles_url(scheme: &str, host: &str, query_string: &str, tiles_path: &str) -> (url: Result<
    String,
    TilesUrlError,
>)
    ensures
        match uri_text(scheme@, host@, tiles_path_and_query(query_string@, tiles_path@)) {
            Some(text) => url matches Ok(address) && address@ == text,
            None => url matches Err(e) && e.path_and_query@ == tiles_path_and_query(
                query_string@,
                tiles_path@,
            ),
        },
{
    let mut path_and_query = String::from_str(tiles_path);
    path_and_query.append("/{z}/{x}/{y}");
    if !query_string.is_empty() {
        path_and_query.append("?");
        path_and_query.append(query_string);
    }
    match build_uri(scheme, host, path_and_query.as_str()) {
        Some(address) => Ok(address),
        None => Err(TilesUrlError { path_and_query }),
    }
}

} // verus!
