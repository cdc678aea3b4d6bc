//! Tiles: their coordinates, formats and encodings.

use vstd::prelude::*;

verus! {

/// The kind of content a tile holds.
#[derive(Clone, Copy, Debug, PartialEq, Eq, Structural)]
pub enum Format {
    Gif,
    Jpeg,
    Json,
    Mvt,
    Png,
    Webp,
}

/// How the content of a tile is encoded.
#[derive(Clone, Copy, Debug, PartialEq, Eq, Structural)]
pub enum Encoding {
    /// Plain data.
    Uncompressed,
    /// Compressed by the format itself, as images are.
    Internal,
    Gzip,
    Zlib,
    Brotli,
    Zstd,
}

impl Format {
    /// The media type of the format.
    pub open spec fn content_type_text(self) -> Seq<char> {
        match self {
            Format::Gif => "image/gif"@,
            Format::Jpeg => "image/jpeg"@,
            Format::Json => "application/json"@,
            Format::Mvt => "application/x-protobuf"@,
            Format::Png => "image/png"@,
            Format::Webp => "image/webp"@,
        }
    }

    /// The media type of the format, as the `Content-Type` header gives it.
    pub fn content_type(&self) -> (text: &'static str)
        ensures
            text@ == self.content_type_text(),
    {
        match self {
            Format::Gif => "image/gif",
            Format::Jpeg => "image/jpeg",
            Format::Json => "application/json",
            Format::Mvt => "application/x-protobuf",
            Format::Png => "image/png",
            Format::Webp => "image/webp",
        }
    }
}

impl Encoding {
    /// Whether a client has to decode the content before it can read it.
    pub open spec fn encoded(self) -> bool {
        !(self is Uncompressed) && !(self is Internal)
    }

    /// Whether a client has to decode the content before it can read it.
    pub fn is_encoded(&self) -> (encoded: bool)
        ensures
            encoded == self.encoded(),
    {
        match self {
            Encoding::Uncompressed | Encoding::Internal => false,
            Encoding::Gzip | Encoding::Zlib | Encoding::Brotli | Encoding::Zstd => true,
        }
    }

    /// The token of the encoding in a `Content-Encoding` header, if it has one.
    pub open spec fn content_encoding_text(self) -> Option<Seq<char>> {
        match self {
            Encoding::Uncompressed | Encoding::Internal => None,
            Encoding::Gzip => Some("gzip"@),
            Encoding::Zlib => Some("deflate"@),
            Encoding::Brotli => Some("br"@),
            Encoding::Zstd => Some("zstd"@),
        }
    }

    /// The token of the encoding in a `Content-Encoding` header, if it has one.
    pub fn content_encoding(&self) -> (text: Option<&'static str>)
        ensures
            match self.content_encoding_text() {
                Some(expected) => text matches Some(t) && t@ == expected,
                None => text is None,
            },
    {
        match self {
            Encoding::Uncompressed | Encoding::Internal => None,
            Encoding::Gzip => Some("gzip"),
            Encoding::Zlib => Some("deflate"),
            Encoding::Brotli => Some("br"),
            Encoding::Zstd => Some("zstd"),
        }
    }
}

/// The format and the encoding of a tile.
#[derive(Clone, Copy, Debug, PartialEq, Eq, Structural)]
pub struct TileInfo {
    pub format: Format,
    pub encoding: Encoding,
}

impl TileInfo {
    /// Puts the two together.
    pub fn new(format: Format, encoding: Encoding) -> (info: TileInfo)
        ensures
            info == (TileInfo { format, encoding }),
    {
        TileInfo { format, encoding }
    }

    /// The same format under another encoding.
    pub fn encoding(self, encoding: Encoding) -> (info: TileInfo)
        ensures
            info == (TileInfo { format: self.format, encoding }),
    {
        TileInfo { format: self.format, encoding }
    }
}

/// The place of a tile: its zoom level, column and row.
#[derive(Clone, Copy, Debug, PartialEq, Eq, Hash, Structural)]
pub struct TileCoord {
    pub z: u8,
    pub x: u32,
    pub y: u32,
}

/// Two to the power of `z`.
pub open spec fn pow2(z: nat) -> nat
    decreases z,
{
    if z == 0 {
        1
    } else {
        2 * pow2((z - 1) as nat)
    }
}

impl TileCoord {
    /// Whether the column and the row exist at the zoom level.
    pub open spec fn valid(self) -> bool {
        self.x < pow2(self.z as nat) && self.y < pow2(self.z as nat)
    }

    /// Whether the column and the row exist at the zoom level.
    pub fn is_valid(&self) -> (valid: bool)
        ensures
            valid == self.valid(),
    {
        proof {
            lemma_pow2_grows(32, self.z as nat);
            lemma_pow2_32();
        }
        if self.z >= 32 {
            true
        } else {
            let side: u64 = 1u64 << (self.z as u64);
            assert(side == pow2(self.z as nat)) by {
                lemma_shift_is_pow2(self.z as u64);
            }
            (self.x as u64) < side && (self.y as u64) < side
        }
    }
}

proof fn lemma_pow2_32()
    ensures
        pow2(32) == 0x1_0000_0000,
{
    reveal_with_fuel(pow2, 33);
}

proof fn lemma_pow2_grows(a: nat, b: nat)
    ensures
        a <= b ==> pow2(a) <= pow2(b),
    decreases b,
{
    if a < b {
        lemma_pow2_grows(a, (b - 1) as nat);
    }
}

proof fn lemma_shift_is_pow2(z: u64)
    requires
        z < 32,
    ensures
        (1u64 << z) == pow2(z as nat),
    decreases z,
{
    if z == 0 {
        assert((1u64 << 0u64) == 1) by (bit_vector);
    } else {
        lemma_shift_is_pow2((z - 1) as u64);
        let prev = (z - 1) as u64;
        assert((1u64 << z) == 2 * (1u64 << prev)) by (bit_vector)
            requires
                0 < z < 32,
                prev == z - 1,
        ;
    }
}

/// The content of a tile at some place, with its format and encoding.
///
/// Empty content stands for "nothing at this place".
#[derive(Debug)]
pub struct Tile {
    pub data: Vec<u8>,
    pub info: TileInfo,
}

impl Tile {
    /// Whether a tile without content is marked as plain data.
    pub open spec fn wf(&self) -> bool {
        self.data@.len() == 0 ==> self.info.encoding == Encoding::Uncompressed
    }

    /// A tile of the content `data`, described by `info`. Where there is no content, the
    /// tile counts as plain data, whatever `info` says of the encoding.
    pub fn new(data: Vec<u8>, info: TileInfo) -> (tile: Tile)
        ensures
            tile.wf(),
            tile.data == data,
            tile.info.format == info.format,
            tile.info.encoding == if data@.len() == 0 {
                Encoding::Uncompressed
            } else {
                info.encoding
            },
    {
        if data.len() == 0 {
            Tile { data, info: info.encoding(Encoding::Uncompressed) }
        } else {
            Tile { data, info }
        }
    }

    /// Whether the tile has no content.
    pub fn is_empty(&self) -> (empty: bool)
        ensures
            empty == (self.data@.len() == 0),
    {
        self.data.len() == 0
    }
}

} // verus!
