//! The answer to a request for a tile: the tiles of the sources merged into one, and
//! sent in an encoding that the client accepts.

use crate::srv::accept::negotiate;
use crate::srv::accept::negotiated;
use crate::srv::accept::tile_encoding;
use crate::srv::accept::to_encoding;
use crate::srv::accept::AcceptEncoding;
use crate::srv::accept::ContentEncoding;
use crate::srv::accept::HeaderEnc;
use crate::srv::accept::Preference;
use crate::srv::accept::PreferredEncoding;
use crate::srv::accept::QualityItem;
use crate::srv::cache::CacheKey;
use crate::srv::codec::brotli_decoded;
use crate::srv::codec::brotli_encoded;
use crate::srv::codec::decode_brotli;
use crate::srv::codec::decode_gzip;
use crate::srv::codec::encode_brotli;
use crate::srv::codec::encode_gzip;
use crate::srv::codec::gzip_decoded;
use crate::srv::codec::gzip_encoded;
use crate::srv::codec::BROTLI_BUFFER_SIZE;
use crate::srv::codec::BROTLI_QUALITY;
use crate::srv::codec::BROTLI_WINDOW;
use crate::srv::source::resolution;
use crate::srv::source::reports;
use crate::srv::source::source_at;
use crate::srv::source::Resolution;
use crate::srv::source::SourceInfo;
use crate::srv::source::TileError;
use crate::srv::source::TileSources;
use crate::text::split;
use crate::tile::Encoding;
use crate::tile::Format;
use crate::tile::Tile;
use crate::tile::TileCoord;
use crate::tile::TileInfo;
use vstd::prelude::*;
use vstd::string::*;

verus! {

/// How many of `tiles` have content.
pub open spec fn non_empty_count(tiles: Seq<Seq<u8>>) -> nat
    decreases tiles.len(),
{
    if tiles.len() == 0 {
        0
    } else if tiles.last().len() == 0 {
        non_empty_count(tiles.drop_last())
    } else {
        non_empty_count(tiles.drop_last()) + 1
    }
}

/// The contents of `tiles`, one after the other.
pub open spec fn concat(tiles: Seq<Seq<u8>>) -> Seq<u8>
    decreases tiles.len(),
{
    if tiles.len() == 0 {
        Seq::<u8>::empty()
    } else {
        concat(tiles.drop_last()) + tiles.last()
    }
}

/// Whether tiles of this kind can be joined by writing one after the other: vector tiles
/// can, as plain data and under gzip.
pub open spec fn can_join(info: TileInfo) -> bool {
    info.format == Format::Mvt && (info.encoding == Encoding::Uncompressed || info.encoding
        == Encoding::Gzip)
}

/// The content that the tiles of the sources merge into, or `None` where more than one has
/// content and tiles of this kind cannot be joined.
pub open spec fn merged(tiles: Seq<Seq<u8>>, info: TileInfo) -> Option<Seq<u8>> {
    if non_empty_count(tiles) >= 2 && !can_join(info) {
        None
    } else {
        Some(concat(tiles))
    }
}

/// Tiles without content add nothing: where none of `tiles` has content the whole is
/// empty, and where it is the tile at `index` alone that has content, the whole is that
/// tile.
pub proof fn lemma_concat_of_few(tiles: Seq<Seq<u8>>, index: int)
    ensures
        non_empty_count(tiles) == 0 <==> forall|i: int|
            0 <= i < tiles.len() ==> (#[trigger] tiles[i]).len() == 0,
        non_empty_count(tiles) == 0 ==> concat(tiles) == Seq::<u8>::empty(),
        non_empty_count(tiles) > 0 ==> concat(tiles).len() > 0,
        non_empty_count(tiles) == 1 && 0 <= index < tiles.len() && tiles[index].len() > 0
            ==> concat(tiles) == tiles[index],
    decreases tiles.len(),
{
    if tiles.len() > 0 {
        let front = tiles.drop_last();
        lemma_concat_of_few(front, index);
        if non_empty_count(tiles) == 0 {
            assert forall|i: int| 0 <= i < tiles.len() implies (#[trigger] tiles[i]).len()
                == 0 by {
                if i < front.len() {
                    assert(front[i] == tiles[i]);
                }
            }
            assert(concat(tiles) =~= Seq::<u8>::empty());
        } else if tiles.last().len() == 0 {
            assert(concat(tiles) =~= concat(front));
            if 0 <= index < front.len() {
                assert(front[index] == tiles[index]);
            }
        } else {
            if non_empty_count(tiles) == 1 && 0 <= index < tiles.len() && tiles[index].len() > 0 {
                if index < front.len() {
                    assert(front[index] == tiles[index]);
                }
                assert(concat(tiles) =~= tiles[index]);
            }
        }
        if forall|i: int| 0 <= i < tiles.len() ==> (#[trigger] tiles[i]).len() == 0 {
            assert(tiles.last() == tiles[tiles.len() - 1]);
            assert forall|i: int| 0 <= i < front.len() implies (#[trigger] front[i]).len() == 0 by {
                assert(front[i] == tiles[i]);
            }
        }
    }
}

/// The contents of `tiles` as plain mathematics.
pub open spec fn contents(tiles: Seq<Vec<u8>>) -> Seq<Seq<u8>> {
    Seq::new(tiles.len(), |i: int| tiles[i]@)
}

/// What decoding makes of `data` in the encoding `encoding`, or `None` where the server
/// cannot decode it.
pub open spec fn decoded(data: Seq<u8>, encoding: Encoding) -> Option<Seq<u8>> {
    match encoding {
        Encoding::Uncompressed | Encoding::Internal => Some(data),
        Encoding::Gzip => gzip_decoded(data),
        Encoding::Brotli => brotli_decoded(data),
        Encoding::Zlib | Encoding::Zstd => None,
    }
}

/// Whether `result` is what decoding the content `data`, described by `info`, gives.
///
/// Plain data and data compressed by its format stay as they are. Gzip and brotli are
/// decoded; where the codec fails, so does the decoding. Any other encoding is refused.
pub open spec fn is_decoding_of(result: Result<Tile, TileError>, data: Seq<u8>, info: TileInfo) -> bool {
    if !info.encoding.encoded() {
        result matches Ok(tile) && tile.data@ == data && tile.info == info
    } else if info.encoding is Gzip || info.encoding is Brotli {
        match decoded(data, info.encoding) {
            Some(plain) => {
                &&& result matches Ok(tile)
                &&& tile.data@ == plain
                &&& tile.info == TileInfo { format: info.format, encoding: Encoding::Uncompressed }
            },
            None => result matches Err(e) && e is Codec,
        }
    } else {
        result == Err::<Tile, TileError>(TileError::UndecodableEncoding(info))
    }
}

/// What encoding makes of `data` for the content coding `enc`, or `None` where the codec
/// fails. Codings other than gzip and brotli leave the data as it is.
pub open spec fn encoded(data: Seq<u8>, enc: ContentEncoding) -> Option<Seq<u8>> {
    match enc {
        ContentEncoding::Gzip => gzip_encoded(data),
        ContentEncoding::Brotli => brotli_encoded(
            data,
            BROTLI_BUFFER_SIZE,
            BROTLI_QUALITY,
            BROTLI_WINDOW,
        ),
        _ => Some(data),
    }
}

/// Whether `result` is what encoding the content `data`, described by `info`, for the
/// content coding `enc` gives.
///
/// For gzip and brotli the tile holds what the codec makes of `data`, which is not empty
/// and decodes to `data`; where the codec fails, so does the encoding. For any other
/// coding the tile stays as it is.
pub open spec fn is_encoding_of(
    result: Result<Tile, TileError>,
    data: Seq<u8>,
    info: TileInfo,
    enc: ContentEncoding,
) -> bool {
    if enc is Gzip || enc is Brotli {
        let target = tile_encoding(enc).unwrap();
        match encoded(data, enc) {
            Some(stream) => {
                &&& result matches Ok(tile)
                &&& tile.data@ == stream
                &&& tile.data@.len() > 0
                &&& decoded(tile.data@, target) == Some(data)
                &&& tile.info == TileInfo { format: info.format, encoding: target }
            },
            None => result matches Err(e) && e is Codec,
        }
    } else {
        result matches Ok(tile) && tile.data@ == data && tile.info == info
    }
}

/// Decoding what was encoded gives back the content that was encoded, as plain data of
/// the same format.
pub proof fn lemma_decode_inverts_encode(
    data: Seq<u8>,
    info: TileInfo,
    enc: ContentEncoding,
    packed: Tile,
    result: Result<Tile, TileError>,
)
    requires
        enc is Gzip || enc is Brotli,
        is_encoding_of(Ok(packed), data, info, enc),
        is_decoding_of(result, packed.data@, packed.info),
    ensures
        is_unchanged(
            result,
            data,
            TileInfo { format: info.format, encoding: Encoding::Uncompressed },
        ),
{
}

/// Whether one of `items` names, with a quality above zero, the content coding that
/// stands for the tile encoding `encoding`.
pub open spec fn names_encoding(items: Seq<QualityItem>, encoding: Encoding) -> bool {
    exists|i: int| 0 <= i < items.len() && accepts(#[trigger] items[i], encoding)
}

/// Whether `item` names, with a quality above zero, the content coding that stands for
/// the tile encoding `encoding`.
pub open spec fn accepts(item: QualityItem, encoding: Encoding) -> bool {
    item.quality > 0 && (item.item matches Preference::Specific(HeaderEnc::Known(enc))
        && tile_encoding(enc) == Some(encoding))
}

/// Whether `result` is what the plain content `data` of the format `format` becomes for
/// a client that sent `items`: encoded in the negotiated coding where that is gzip or
/// brotli, and left as it is otherwise.
pub open spec fn is_negotiated_encoding_of(
    result: Result<Tile, TileError>,
    data: Seq<u8>,
    format: Format,
    items: Seq<QualityItem>,
    prefer: PreferredEncoding,
) -> bool {
    let info = TileInfo { format, encoding: Encoding::Uncompressed };
    match negotiated(items, prefer) {
        Some(enc) => is_encoding_of(result, data, info, enc),
        None => result matches Ok(tile) && tile.data@ == data && tile.info == info,
    }
}

/// Whether `result` is the content `data`, described by `info`, made ready for a client
/// that sent the header `accept`, or none.
///
/// No content stays no content. Without a header the content is decoded. With one,
/// encoded content is left alone where the client names its coding with a quality above
/// zero, and decoded otherwise; and plain content, decoded or not, is encoded in the
/// negotiated coding.
pub open spec fn is_recompression_of(
    result: Result<Tile, TileError>,
    data: Seq<u8>,
    info: TileInfo,
    accept: Option<Seq<QualityItem>>,
    prefer: PreferredEncoding,
) -> bool {
    if data.len() == 0 {
        is_empty_tile(result, info.format)
    } else {
        is_recompression_of_content(result, data, info, accept, prefer)
    }
}

/// Whether `result` is a tile of the format `format` without content.
pub open spec fn is_empty_tile(result: Result<Tile, TileError>, format: Format) -> bool {
    &&& result matches Ok(tile)
    &&& tile.data@.len() == 0
    &&& tile.info == TileInfo { format, encoding: Encoding::Uncompressed }
}

/// [`is_recompression_of`] for content that is not empty.
pub open spec fn is_recompression_of_content(
    result: Result<Tile, TileError>,
    data: Seq<u8>,
    info: TileInfo,
    accept: Option<Seq<QualityItem>>,
    prefer: PreferredEncoding,
) -> bool {
    match accept {
        None => is_decoding_of(result, data, info),
        Some(items) => if info.encoding.encoded() && !names_encoding(items, info.encoding) {
            if info.encoding is Gzip || info.encoding is Brotli {
                match decoded(data, info.encoding) {
                    Some(plain) => is_negotiated_encoding_of(
                        result,
                        plain,
                        info.format,
                        items,
                        prefer,
                    ),
                    None => result matches Err(e) && e is Codec,
                }
            } else {
                result == Err::<Tile, TileError>(TileError::UndecodableEncoding(info))
            }
        } else if info.encoding is Uncompressed {
            is_negotiated_encoding_of(result, data, info.format, items, prefer)
        } else {
            result matches Ok(tile) && tile.data@ == data && tile.info == info
        },
    }
}

/// Whether `result` is the answer to a request at the zoom level `zoom` for which the
/// sources, which share `info`, gave `tiles`.
///
/// Where no source has content, the answer is a tile without content. Where one has, or
/// several whose tiles can be joined, it is their content, one after the other, made
/// ready for the client. Where several have and their tiles cannot be joined, the request
/// fails.
pub open spec fn is_tile_content_of(
    result: Result<Tile, TileError>,
    tiles: Seq<Seq<u8>>,
    info: TileInfo,
    zoom: u8,
    accept: Option<Seq<QualityItem>>,
    prefer: PreferredEncoding,
) -> bool {
    match merged(tiles, info) {
        None => result == Err::<Tile, TileError>(TileError::CannotMerge(info, zoom)),
        Some(data) => is_recompression_of(result, data, info, accept, prefer),
    }
}

/// Whether `result` is the tile of the content `data`, described by `info`.
pub open spec fn is_unchanged(result: Result<Tile, TileError>, data: Seq<u8>, info: TileInfo) -> bool {
    result matches Ok(tile) && tile.data@ == data && tile.info == info
}

/// The rule of concatenation: where more than one source has content, vector tiles under
/// gzip that the client accepts under gzip go out as the contents one after the other,
/// and so do plain vector tiles for a client without header; vector tiles under brotli
/// make the request fail as a bad request.
pub proof fn lemma_concatenation_rule(
    result: Result<Tile, TileError>,
    tiles: Seq<Seq<u8>>,
    info: TileInfo,
    zoom: u8,
    accept: Option<Seq<QualityItem>>,
    prefer: PreferredEncoding,
)
    requires
        non_empty_count(tiles) >= 2,
        info.format == Format::Mvt,
        is_tile_content_of(result, tiles, info, zoom, accept, prefer),
    ensures
        info.encoding is Gzip && accept is Some && names_encoding(accept.unwrap(), Encoding::Gzip)
            ==> is_unchanged(result, concat(tiles), info),
        info.encoding is Uncompressed && accept is None ==> is_unchanged(
            result,
            concat(tiles),
            info,
        ),
        info.encoding is Brotli ==> result == Err::<Tile, TileError>(
            TileError::CannotMerge(info, zoom),
        ) && result->Err_0.status() == 400,
{
    lemma_concat_of_few(tiles, 0);
}

/// Encodes `tile` for the content coding `enc`: under gzip or brotli for these two, and
/// not at all for any other.
pub fn encode(tile: Tile, enc: ContentEncoding) -> (result: Result<Tile, TileError>)
    ensures
        is_encoding_of(result, tile.data@, tile.info, enc),
{
    match enc {
        ContentEncoding::Brotli => {
            match encode_brotli(
                tile.data.as_slice(),
                BROTLI_BUFFER_SIZE,
                BROTLI_QUALITY,
                BROTLI_WINDOW,
            ) {
                Ok(bytes) => Ok(Tile::new(bytes, tile.info.encoding(Encoding::Brotli))),
                Err(e) => Err(TileError::Codec(e)),
            }
        },
        ContentEncoding::Gzip => {
            match encode_gzip(tile.data.as_slice()) {
                Ok(bytes) => Ok(Tile::new(bytes, tile.info.encoding(Encoding::Gzip))),
                Err(e) => Err(TileError::Codec(e)),
            }
        },
        _ => Ok(tile),
    }
}

/// Decodes `tile`: a tile under gzip or brotli becomes plain data, a tile that is not
/// encoded stays as it is, and any other is refused.
pub fn decode(tile: Tile) -> (result: Result<Tile, TileError>)
    ensures
        is_decoding_of(result, tile.data@, tile.info),
{
    let info = tile.info;
    if info.encoding.is_encoded() {
        match info.encoding {
            Encoding::Gzip => {
                match decode_gzip(tile.data.as_slice()) {
                    Ok(bytes) => Ok(Tile::new(bytes, info.encoding(Encoding::Uncompressed))),
                    Err(e) => Err(TileError::Codec(e)),
                }
            },
            Encoding::Brotli => {
                match decode_brotli(tile.data.as_slice()) {
                    Ok(bytes) => Ok(Tile::new(bytes, info.encoding(Encoding::Uncompressed))),
                    Err(e) => Err(TileError::Codec(e)),
                }
            },
            _ => Err(TileError::UndecodableEncoding(info)),
        }
    } else {
        Ok(tile)
    }
}

fn names(accept_enc: &AcceptEncoding, encoding: Encoding) -> (named: bool)
    ensures
        named == names_encoding(accept_enc.0@, encoding),
{
    let mut i: usize = 0;
    while i < accept_enc.0.len()
        invariant
            i <= accept_enc.0@.len(),
            forall|k: int| 0 <= k < i ==> !accepts(#[trigger] accept_enc.0@[k], encoding),
        decreases accept_enc.0.len() - i,
    {
        let e = &accept_enc.0[i];
        if e.quality > 0 {
            match &e.item {
                Preference::Specific(HeaderEnc::Known(enc)) => {
                    if to_encoding(*enc) == Some(encoding) {
                        assert(accepts(accept_enc.0@[i as int], encoding));
                        return true;
                    }
                },
                _ => {},
            }
        }
        i = i + 1;
    }
    false
}

/// The header that a client sent, as plain mathematics.
pub open spec fn accept_view(accept_enc: Option<AcceptEncoding>) -> Option<Seq<QualityItem>> {
    match accept_enc {
        Some(accept) => Some(accept.0@),
        None => None,
    }
}

/// The preferred coding of a server: gzip, unless it is set to brotli.
pub open spec fn preference(preferred_enc: Option<PreferredEncoding>) -> PreferredEncoding {
    match preferred_enc {
        Some(PreferredEncoding::Brotli) => PreferredEncoding::Brotli,
        _ => PreferredEncoding::Gzip,
    }
}

/// Makes the content `data`, described by `info`, ready for a client.
///
/// `accept_enc` is the `Accept-Encoding` header of the client, if it sent one, and
/// `preferred_enc` the coding that the server prefers.
pub fn recompress(
    data: Vec<u8>,
    info: TileInfo,
    accept_enc: &Option<AcceptEncoding>,
    preferred_enc: Option<PreferredEncoding>,
) -> (result: Result<Tile, TileError>)
    ensures
        is_recompression_of(
            result,
            data@,
            info,
            accept_view(*accept_enc),
            preference(preferred_enc),
        ),
{
    if data.len() == 0 {
        return Ok(Tile::new(data, info));
    }
    let mut tile = Tile::new(data, info);
    match accept_enc {
        Some(accept_enc) => {
            if info.encoding.is_encoded() {
                if !names(accept_enc, tile.info.encoding) {
                    tile = match decode(tile) {
                        Ok(tile) => tile,
                        Err(e) => {
                            return Err(e);
                        },
                    };
                }
            }
            if tile.info.encoding == Encoding::Uncompressed {
                let prefer = match preferred_enc {
                    Some(PreferredEncoding::Gzip) | None => PreferredEncoding::Gzip,
                    Some(PreferredEncoding::Brotli) => PreferredEncoding::Brotli,
                };
                if let Some(HeaderEnc::Known(enc)) = negotiate(accept_enc, prefer) {
                    return encode(tile, enc);
                }
            }
            Ok(tile)
        },
        None => decode(tile),
    }
}

/// The sources that answer one request, and what the client said of encodings.
#[derive(Debug)]
pub struct DynTileSource<'a> {
    /// The sources, in the order of the request.
    pub sources: Vec<&'a SourceInfo>,
    /// The format and the encoding that the sources share.
    pub info: TileInfo,
    /// The query string of the request, where one of the sources takes it into account.
    pub query_str: Option<&'a str>,
    /// The `Accept-Encoding` header of the client, if it sent one.
    pub accept_enc: Option<AcceptEncoding>,
    /// The coding that the server prefers, if it is set.
    pub preferred_enc: Option<PreferredEncoding>,
}


/// The parts of the path of a request for a tile.
#[derive(Clone, Debug)]
pub struct TileRequest {
    pub source_ids: String,
    pub z: u8,
    pub x: u32,
    pub y: u32,
}

impl TileRequest {
    /// The place that the request asks for.
    pub fn xyz(&self) -> (xyz: TileCoord)
        ensures
            xyz == (TileCoord { z: self.z, x: self.x, y: self.y }),
    {
        TileCoord { z: self.z, x: self.x, y: self.y }
    }
}

/// An answer to a request, ready to be sent.
#[derive(Debug)]
pub struct HttpReply {
    /// The status code.
    pub status: u16,
    /// The value of the `Content-Type` header, if the answer has one.
    pub content_type: Option<&'static str>,
    /// The value of the `Content-Encoding` header, if the answer has one.
    pub content_encoding: Option<&'static str>,
    /// The body.
    pub body: Vec<u8>,
}

/// The view of an optional text.
pub open spec fn opt_str_view(text: Option<&str>) -> Option<Seq<char>> {
    match text {
        Some(text) => Some(text@),
        None => None,
    }
}

/// Whether `reply` is the answer that carries `tile`: "no content" for a tile without
/// content, and otherwise the content with its media type and, where the content is
/// encoded in a coding that HTTP names, with that coding.
pub open spec fn is_reply_of(reply: HttpReply, tile: Tile) -> bool {
    if tile.data@.len() == 0 {
        &&& reply.status == 204
        &&& reply.content_type is None
        &&& reply.content_encoding is None
        &&& reply.body@.len() == 0
    } else {
        &&& reply.status == 200
        &&& opt_str_view(reply.content_type) == Some(tile.info.format.content_type_text())
        &&& opt_str_view(reply.content_encoding) == tile.info.encoding.content_encoding_text()
        &&& reply.body@ == tile.data@
    }
}

/// The answer that carries `tile`.
pub fn http_reply(tile: Tile) -> (reply: HttpReply)
    ensures
        is_reply_of(reply, tile),
{
    if tile.data.len() == 0 {
        HttpReply { status: 204, content_type: None, content_encoding: None, body: Vec::new() }
    } else {
        HttpReply {
            status: 200,
            content_type: Some(tile.info.format.content_type()),
            content_encoding: tile.info.encoding.content_encoding(),
            body: tile.data,
        }
    }
}

impl<'a> DynTileSource<'a> {
    /// Resolves a request for the sources that `source_ids` names to those among `sources`
    /// that can answer it at the zoom level `zoom`.
    ///
    /// The request fails where the names do not resolve, and where none of the sources
    /// has tiles at the zoom level. The query string `query` is kept where it is not empty
    /// and one of the named sources takes it into account.
    pub fn new(
        sources: &'a TileSources,
        source_ids: &str,
        zoom: Option<u8>,
        query: &'a str,
        accept_enc: Option<AcceptEncoding>,
        preferred_enc: Option<PreferredEncoding>,
    ) -> (built: Result<Self, TileError>)
        requires
            sources.wf(),
        ensures
            match resolution(sources@, split(source_ids@, ','), zoom) {
                Resolution::Found { positions, use_url_query, info } => if positions.len() == 0 {
                    built matches Err(e) && e is NoValidSources
                } else {
                    &&& built matches Ok(src)
                    &&& src.info == info
                    &&& src.sources@.len() == positions.len()
                    &&& forall|j: int|
                        0 <= j < positions.len() ==> (#[trigger] src.sources@[j]).model()
                            == source_at(sources@, split(source_ids@, ','), positions[j])
                    &&& opt_str_view(src.query_str) == if use_url_query && query@.len() > 0 {
                        Some(query@)
                    } else {
                        None
                    }
                    &&& src.accept_enc == accept_enc
                    &&& src.preferred_enc == preferred_enc
                },
                failure => built matches Err(e) && reports(e, failure),
            },
    {
        let (sources, use_url_query, info) = match sources.get_sources(source_ids, zoom) {
            Ok(found) => found,
            Err(e) => {
                return Err(e);
            },
        };
        if sources.len() == 0 {
            return Err(TileError::NoValidSources);
        }
        let mut query_str = None;
        if use_url_query && !query.is_empty() {
            query_str = Some(query);
        }
        Ok(DynTileSource { sources, info, query_str, accept_enc, preferred_enc })
    }

    /// The key under which the tile at `xyz` of the source at `index` is cached.
    pub fn cache_key(&self, index: usize, xyz: TileCoord) -> (key: CacheKey)
        requires
            index < self.sources@.len(),
        ensures
            match self.query_str {
                Some(query) => {
                    &&& key matches CacheKey::TileWithQuery(id, place, text)
                    &&& id@ == self.sources@[index as int].id@
                    &&& place == xyz
                    &&& text@ == query@
                },
                None => {
                    &&& key matches CacheKey::Tile(id, place)
                    &&& id@ == self.sources@[index as int].id@
                    &&& place == xyz
                },
            },
    {
        let id = self.sources[index].id.clone();
        match self.query_str {
            Some(query_str) => CacheKey::TileWithQuery(id, xyz, String::from_str(query_str)),
            None => CacheKey::Tile(id, xyz),
        }
    }

    /// Merges the tiles that the sources gave for the place `xyz` into the tile to send.
    ///
    /// `tiles` holds what each source gave, in the order of the sources.
    pub fn get_tile_content(&self, xyz: TileCoord, tiles: Vec<Vec<u8>>) -> (result: Result<
        Tile,
        TileError,
    >)
        ensures
            is_tile_content_of(
                result,
                contents(tiles@),
                self.info,
                xyz.z,
                accept_view(self.accept_enc),
                preference(self.preferred_enc),
            ),
    {
        let mut tiles = tiles;
        let ghost all = contents(tiles@);
        let mut layer_count: usize = 0;
        let mut last_non_empty_layer: usize = 0;
        let mut idx: usize = 0;
        assert(all.take(0) =~= Seq::<Seq<u8>>::empty());
        while idx < tiles.len()
            invariant
                idx <= tiles@.len(),
                all == contents(tiles@),
                layer_count == non_empty_count(all.take(idx as int)),
                layer_count <= idx,
                layer_count > 0 ==> last_non_empty_layer < idx && all[last_non_empty_layer as int].len()
                    > 0,
            decreases tiles.len() - idx,
        {
            assert(all.take(idx as int + 1).drop_last() =~= all.take(idx as int));
            if tiles[idx].len() != 0 {
                layer_count = layer_count + 1;
                last_non_empty_layer = idx;
            }
            idx = idx + 1;
        }
        assert(all.take(idx as int) =~= all);
        proof {
            lemma_concat_of_few(all, last_non_empty_layer as int);
        }
        let data = if layer_count == 1 {
            tiles.swap_remove(last_non_empty_layer)
        } else if layer_count == 0 {
            Vec::new()
        } else {
            let can_join = self.info.format == Format::Mvt && (self.info.encoding
                == Encoding::Uncompressed || self.info.encoding == Encoding::Gzip);
            if !can_join {
                return Err(TileError::CannotMerge(self.info, xyz.z));
            }
            concat_all(&tiles)
        };
        recompress(data, self.info, &self.accept_enc, self.preferred_enc)
    }

    /// The answer to send for the place `xyz`, given what each source gave for it.
    pub fn get_http_response(&self, xyz: TileCoord, tiles: Vec<Vec<u8>>) -> (result: Result<
        HttpReply,
        TileError,
    >)
        ensures
            match result {
                Ok(reply) => exists|tile: Tile|
                    {
                        &&& #[trigger] is_reply_of(reply, tile)
                        &&& is_tile_content_of(
                            Ok(tile),
                            contents(tiles@),
                            self.info,
                            xyz.z,
                            accept_view(self.accept_enc),
                            preference(self.preferred_enc),
                        )
                    },
                Err(e) => is_tile_content_of(
                    Err(e),
                    contents(tiles@),
                    self.info,
                    xyz.z,
                    accept_view(self.accept_enc),
                    preference(self.preferred_enc),
                ),
            },
    {
        match self.get_tile_content(xyz, tiles) {
            Ok(tile) => {
                let ghost content = tile;
                let reply = http_reply(tile);
                assert(is_reply_of(reply, content));
                Ok(reply)
            },
            Err(e) => Err(e),
        }
    }
}

/// The contents of `tiles`, one after the other.
pub fn concat_all(tiles: &Vec<Vec<u8>>) -> (data: Vec<u8>)
    ensures
        data@ == concat(contents(tiles@)),
{
    let mut data: Vec<u8> = Vec::new();
    let ghost all = contents(tiles@);
    let mut i: usize = 0;
    assert(all.take(0) =~= Seq::<Seq<u8>>::empty());
    while i < tiles.len()
        invariant
            i <= tiles@.len(),
            all == contents(tiles@),
            data@ == concat(all.take(i as int)),
        decreases tiles.len() - i,
    {
        assert(all.take(i as int + 1).drop_last() =~= all.take(i as int));
        data.extend_from_slice(tiles[i].as_slice());
        i = i + 1;
    }
    assert(all.take(i as int) =~= all);
    data
}

} // verus!
