//! The tile sources that a server offers, and the resolution of a request to them.

use crate::text::split;
use crate::text::split_on;
use crate::tile::TileInfo;
use crate::text::lemma_split_nonempty;
use vstd::prelude::*;
use vstd::string::*;

verus! {

/// What the composer has to know of a tile source.
#[derive(Debug)]
pub struct SourceInfo {
    /// The name by which requests ask for the source.
    pub id: String,
    /// The format and the encoding of its tiles.
    pub info: TileInfo,
    /// Whether the query string of a request changes what the source answers.
    pub supports_url_query: bool,
    /// The lowest zoom level that the source has tiles for, if it has a limit.
    pub minzoom: Option<u8>,
    /// The highest zoom level that the source has tiles for, if it has a limit.
    pub maxzoom: Option<u8>,
}

/// A tile source as plain mathematics.
pub struct SourceModel {
    pub id: Seq<char>,
    pub info: TileInfo,
    pub supports_url_query: bool,
    pub minzoom: Option<u8>,
    pub maxzoom: Option<u8>,
}

impl SourceModel {
    /// Whether the source has tiles at the zoom level `zoom`.
    pub open spec fn valid_zoom(self, zoom: u8) -> bool {
        (self.minzoom matches Some(min) ==> zoom >= min) && (self.maxzoom matches Some(max)
            ==> zoom <= max)
    }
}

impl SourceInfo {
    /// The source as plain mathematics.
    pub open spec fn model(&self) -> SourceModel {
        SourceModel {
            id: self.id@,
            info: self.info,
            supports_url_query: self.supports_url_query,
            minzoom: self.minzoom,
            maxzoom: self.maxzoom,
        }
    }

    /// Whether the source has tiles at the zoom level `zoom`.
    pub fn is_valid_zoom(&self, zoom: u8) -> (valid: bool)
        ensures
            valid == self.model().valid_zoom(zoom),
    {
        let above = match self.minzoom {
            Some(minzoom) => zoom >= minzoom,
            None => true,
        };
        let below = match self.maxzoom {
            Some(maxzoom) => zoom <= maxzoom,
            None => true,
        };
        above && below
    }
}

/// Whether the source `src`, known to requests as `id`, has tiles at the zoom level `zoom`.
pub fn check_zoom(src: &SourceInfo, id: &str, zoom: u8) -> (is_valid: bool)
    ensures
        is_valid == src.model().valid_zoom(zoom),
{
    src.is_valid_zoom(zoom)
}

/// Why a request for tiles fails.
#[derive(Debug)]
pub enum TileError {
    /// No source has this name.
    SourceNotFound(String),
    /// The sources of one request differ in format or encoding: the first source has the
    /// first of the two, a later one the second.
    FormatMismatch(TileInfo, TileInfo),
    /// None of the sources has tiles at the zoom level of the request.
    NoValidSources,
    /// More than one source has content, and tiles of this kind cannot be joined. The
    /// number is the zoom level of the request.
    CannotMerge(TileInfo, u8),
    /// The tile is stored in an encoding that the client does not accept and that the
    /// server cannot undo.
    UndecodableEncoding(TileInfo),
    /// A codec failed.
    Codec(std::io::Error),
}

impl TileError {
    /// The HTTP status that answers a request which failed in this way.
    pub open spec fn status(self) -> u16 {
        match self {
            TileError::SourceNotFound(_) => 404,
            TileError::FormatMismatch(_, _) => 404,
            TileError::NoValidSources => 404,
            TileError::CannotMerge(_, _) => 400,
            TileError::UndecodableEncoding(_) => 400,
            TileError::Codec(_) => 500,
        }
    }

    /// The HTTP status that answers a request which failed in this way.
    pub fn status_code(&self) -> (code: u16)
        ensures
            code == self.status(),
    {
        match self {
            TileError::SourceNotFound(_) => 404,
            TileError::FormatMismatch(_, _) => 404,
            TileError::NoValidSources => 404,
            TileError::CannotMerge(_, _) => 400,
            TileError::UndecodableEncoding(_) => 400,
            TileError::Codec(_) => 500,
        }
    }
}

/// Whether a source named `id` is among `sources`.
pub open spec fn has_source(sources: Seq<SourceModel>, id: Seq<char>) -> bool {
    exists|i: int| 0 <= i < sources.len() && (#[trigger] sources[i]).id == id
}

/// The position among `sources` of a source named `id`.
pub open spec fn source_index(sources: Seq<SourceModel>, id: Seq<char>) -> int {
    choose|i: int| 0 <= i < sources.len() && (#[trigger] sources[i]).id == id
}

/// Whether no two of `sources` share a name.
pub open spec fn ids_unique(sources: Seq<SourceModel>) -> bool {
    forall|i: int, j: int|
        0 <= i < j < sources.len() ==> (#[trigger] sources[i]).id != (#[trigger] sources[j]).id
}

/// The source that a request names at position `k`.
pub open spec fn source_at(sources: Seq<SourceModel>, ids: Seq<Seq<char>>, k: int) -> SourceModel {
    sources[source_index(sources, ids[k])]
}

/// Whether the name at position `k` of a request makes the request fail: no source has
/// it, or its source differs in format or encoding from the first source of the request.
pub open spec fn fails_at(sources: Seq<SourceModel>, ids: Seq<Seq<char>>, k: int) -> bool {
    !has_source(sources, ids[k]) || source_at(sources, ids, k).info != source_at(
        sources,
        ids,
        0,
    ).info
}

/// The first position below `n` at which the request fails, if there is one.
pub open spec fn first_failure(sources: Seq<SourceModel>, ids: Seq<Seq<char>>, n: int) -> Option<
    int,
>
    decreases n,
{
    if n <= 0 {
        None
    } else {
        match first_failure(sources, ids, n - 1) {
            Some(k) => Some(k),
            None => if fails_at(sources, ids, n - 1) {
                Some(n - 1)
            } else {
                None
            },
        }
    }
}

/// The positions below `n` in the request of the sources that have tiles at `zoom`, rising.
/// Without a zoom level these are all positions.
pub open spec fn selected(
    sources: Seq<SourceModel>,
    ids: Seq<Seq<char>>,
    zoom: Option<u8>,
    n: int,
) -> Seq<int>
    decreases n,
{
    if n <= 0 {
        Seq::<int>::empty()
    } else if zoom matches Some(z) && !source_at(sources, ids, n - 1).valid_zoom(z) {
        selected(sources, ids, zoom, n - 1)
    } else {
        selected(sources, ids, zoom, n - 1).push(n - 1)
    }
}

/// Whether one of the sources that the request names below position `n` takes the query
/// string into account.
pub open spec fn any_url_query(sources: Seq<SourceModel>, ids: Seq<Seq<char>>, n: int) -> bool
    decreases n,
{
    if n <= 0 {
        false
    } else {
        any_url_query(sources, ids, n - 1) || source_at(sources, ids, n - 1).supports_url_query
    }
}

/// What a request for the sources `ids` resolves to.
pub enum Resolution {
    /// No source has this name.
    NotFound(Seq<char>),
    /// The first source of the request has the first format and encoding, a later one the
    /// second.
    Mismatch(TileInfo, TileInfo),
    /// The request can be served by the sources at `positions` of the request.
    Found { positions: Seq<int>, use_url_query: bool, info: TileInfo },
}

/// What a request for the sources `ids`, at the zoom level `zoom` if one is given,
/// resolves to.
pub open spec fn resolution(sources: Seq<SourceModel>, ids: Seq<Seq<char>>, zoom: Option<u8>) -> Resolution {
    match first_failure(sources, ids, ids.len() as int) {
        Some(k) => if !has_source(sources, ids[k]) {
            Resolution::NotFound(ids[k])
        } else {
            Resolution::Mismatch(source_at(sources, ids, 0).info, source_at(sources, ids, k).info)
        },
        None => Resolution::Found {
            positions: selected(sources, ids, zoom, ids.len() as int),
            use_url_query: any_url_query(sources, ids, ids.len() as int),
            info: source_at(sources, ids, 0).info,
        },
    }
}

/// Whether `error` reports the failure that `resolution` is.
pub open spec fn reports(error: TileError, resolution: Resolution) -> bool {
    match resolution {
        Resolution::NotFound(id) => error matches TileError::SourceNotFound(name) && name@ == id,
        Resolution::Mismatch(first, other) => error == TileError::FormatMismatch(first, other),
        Resolution::Found { .. } => false,
    }
}

/// The tile sources of a server, each under its own name.
#[derive(Debug)]
pub struct TileSources {
    sources: Vec<SourceInfo>,
}

impl TileSources {
    /// The sources, in the order in which their names came in.
    pub closed spec fn view(&self) -> Seq<SourceModel> {
        Seq::new(self.sources@.len(), |i: int| self.sources@[i].model())
    }

    /// What holds of every value of this type that the library hands out: no two sources
    /// share a name.
    pub open spec fn wf(&self) -> bool {
        ids_unique(self@)
    }

    /// No sources.
    pub fn new() -> (sources: TileSources)
        ensures
            sources.wf(),
            sources@ == Seq::<SourceModel>::empty(),
    {
        let sources = TileSources { sources: Vec::new() };
        assert(sources@ =~= Seq::<SourceModel>::empty());
        sources
    }

    /// The number of sources.
    pub fn len(&self) -> (n: usize)
        ensures
            n == self@.len(),
    {
        self.sources.len()
    }

    /// The position of the source named `id`, if there is one.
    pub fn position(&self, id: &String) -> (found: Option<usize>)
        ensures
            found is Some <==> has_source(self@, id@),
            found matches Some(i) ==> i < self@.len() && self@[i as int].id == id@,
            found matches Some(i) ==> (ids_unique(self@) ==> i == source_index(self@, id@)),
    {
        let mut i: usize = 0;
        while i < self.sources.len()
            invariant
                i <= self.sources@.len(),
                self@.len() == self.sources@.len(),
                forall|k: int| 0 <= k < i ==> (#[trigger] self@[k]).id != id@,
            decreases self.sources.len() - i,
        {
            if self.sources[i].id == *id {
                assert(self@[i as int].id == id@);
                return Some(i);
            }
            i = i + 1;
        }
        None
    }

    /// Puts `source` among the sources. A source of the same name is replaced, and the
    /// source that was there before is handed back.
    pub fn insert(&mut self, source: SourceInfo) -> (replaced: Option<SourceInfo>)
        requires
            old(self).wf(),
        ensures
            final(self).wf(),
            match replaced {
                Some(previous) => {
                    let i = source_index(old(self)@, source.id@);
                    &&& has_source(old(self)@, source.id@)
                    &&& previous.model() == old(self)@[i]
                    &&& final(self)@ == old(self)@.update(i, source.model())
                },
                None => {
                    &&& !has_source(old(self)@, source.id@)
                    &&& final(self)@ == old(self)@.push(source.model())
                },
            },
    {
        let ghost before = self@;
        match self.position(&source.id) {
            Some(i) => {
                let ghost model = source.model();
                self.sources.push(source);
                let previous = self.sources.swap_remove(i);
                proof {
                    assert(self@ =~= before.update(i as int, model));
                    assert forall|a: int, b: int| 0 <= a < b < self@.len() implies (
                    #[trigger] self@[a]).id != (#[trigger] self@[b]).id by {
                        assert(self@[a].id == before[a].id && self@[b].id == before[b].id);
                    }
                }
                Some(previous)
            },
            None => {
                self.sources.push(source);
                assert(self@ =~= before.push(source.model()));
                None
            },
        }
    }
}

impl TileSources {
    /// The source at `index`.
    pub fn get(&self, index: usize) -> (source: &SourceInfo)
        requires
            index < self@.len(),
        ensures
            source.model() == self@[index as int],
    {
        &self.sources[index]
    }

    /// The source named `id`.
    pub fn get_source(&self, id: &str) -> (found: Result<&SourceInfo, TileError>)
        ensures
            match found {
                Ok(source) => has_source(self@, id@) && source.model().id == id@ && (self.wf()
                    ==> source.model() == self@[source_index(self@, id@)]),
                Err(e) => {
                    &&& !has_source(self@, id@)
                    &&& e matches TileError::SourceNotFound(name)
                    &&& name@ == id@
                },
            },
    {
        let name = String::from_str(id);
        match self.position(&name) {
            Some(i) => Ok(&self.sources[i]),
            None => Err(TileError::SourceNotFound(name)),
        }
    }

    /// Resolves a request for the sources that `source_ids` names, with commas between
    /// the names, at the zoom level `zoom` if one is given.
    ///
    /// Every name has to be that of a source, and all of them have to agree in format and
    /// encoding. The answer holds, in the order of the request, the sources that have
    /// tiles at the zoom level; whether any of the named sources takes the query string
    /// into account; and the format and encoding that they share.
    pub fn get_sources(&self, source_ids: &str, zoom: Option<u8>) -> (resolved: Result<
        (Vec<&SourceInfo>, bool, TileInfo),
        TileError,
    >)
        requires
            self.wf(),
        ensures
            match resolution(self@, split(source_ids@, ','), zoom) {
                Resolution::Found { positions, use_url_query, info } => {
                    &&& resolved matches Ok((sources, query, shared))
                    &&& query == use_url_query
                    &&& shared == info
                    &&& sources@.len() == positions.len()
                    &&& forall|j: int|
                        0 <= j < positions.len() ==> (#[trigger] sources@[j]).model() == source_at(
                            self@,
                            split(source_ids@, ','),
                            positions[j],
                        )
                },
                failure => resolved matches Err(e) && reports(e, failure),
            },
    {
        let pieces = split_on(source_ids, ',');
        let ghost ids = split(source_ids@, ',');
        proof {
            lemma_split_nonempty(source_ids@, ',');
        }
        let mut sources: Vec<&SourceInfo> = Vec::new();
        let mut info: Option<TileInfo> = None;
        let mut use_url_query = false;
        let mut k: usize = 0;
        while k < pieces.len()
            invariant
                k <= pieces.len(),
                pieces.deep_view() == ids,
                pieces@.len() == ids.len(),
                ids == split(source_ids@, ','),
                self.wf(),
                first_failure(self@, ids, k as int) is None,
                k == 0 ==> info is None,
                k > 0 ==> info == Some(source_at(self@, ids, 0).info),
                use_url_query == any_url_query(self@, ids, k as int),
                sources@.len() == selected(self@, ids, zoom, k as int).len(),
                forall|j: int|
                    0 <= j < sources@.len() ==> (#[trigger] sources@[j]).model() == source_at(
                        self@,
                        ids,
                        selected(self@, ids, zoom, k as int)[j],
                    ),
            decreases pieces.len() - k,
        {
            let id = &pieces[k];
            assert(id@ == ids[k as int]) by {
                assert(pieces.deep_view()[k as int] == pieces@[k as int].deep_view());
            }
            let ghost before = selected(self@, ids, zoom, k as int);
            let src = match self.position(id) {
                Some(i) => &self.sources[i],
                None => {
                    let missing = id.clone();
                    proof {
                        lemma_failure_stays(self@, ids, k as int + 1, ids.len() as int);
                    }
                    return Err(TileError::SourceNotFound(missing));
                },
            };
            assert(src.model() == source_at(self@, ids, k as int));
            let src_inf = src.info;
            use_url_query = use_url_query || src.supports_url_query;
            match info {
                Some(inf) => {
                    if !(inf == src_inf) {
                        proof {
                            lemma_failure_stays(self@, ids, k as int + 1, ids.len() as int);
                        }
                        return Err(TileError::FormatMismatch(inf, src_inf));
                    }
                },
                None => {
                    info = Some(src_inf);
                },
            }
            let wanted = match zoom {
                Some(zoom) => check_zoom(src, id.as_str(), zoom),
                None => true,
            };
            if wanted {
                sources.push(src);
                proof {
                    let after = selected(self@, ids, zoom, k as int + 1);
                    assert(after == before.push(k as int));
                    assert forall|j: int| 0 <= j < sources@.len() implies (
                    #[trigger] sources@[j]).model() == source_at(self@, ids, after[j]) by {
                        if j < before.len() {
                            assert(after[j] == before[j]);
                        }
                    }
                }
            }
            k = k + 1;
        }
        match info {
            Some(shared) => Ok((sources, use_url_query, shared)),
            None => Err(TileError::NoValidSources),
        }
    }
}

/// A failure found below `n` is still the first failure below any later bound.
proof fn lemma_failure_stays(sources: Seq<SourceModel>, ids: Seq<Seq<char>>, n: int, m: int)
    requires
        n <= m,
        first_failure(sources, ids, n) is Some,
    ensures
        first_failure(sources, ids, m) == first_failure(sources, ids, n),
    decreases m - n,
{
    if n < m {
        lemma_failure_stays(sources, ids, n, m - 1);
    }
}

/// The first failure of a request is a position of the request at which it fails, and it
/// fails at no position before that one. Where there is none, it fails nowhere.
pub proof fn lemma_first_failure(sources: Seq<SourceModel>, ids: Seq<Seq<char>>, n: int)
    ensures
        match first_failure(sources, ids, n) {
            Some(k) => 0 <= k < n && fails_at(sources, ids, k) && forall|j: int|
                0 <= j < k ==> !fails_at(sources, ids, j),
            None => forall|j: int| 0 <= j < n ==> !fails_at(sources, ids, j),
        },
    decreases n,
{
    if n > 0 {
        lemma_first_failure(sources, ids, n - 1);
    }
}

} // verus!
