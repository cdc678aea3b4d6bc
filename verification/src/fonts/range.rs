//! Glyph ranges: blocks of 256 codepoints, and the mask of each.

use crate::fonts::bitset::insert;
use crate::fonts::bitset::members;
use crate::fonts::bitset::with_capacity;
use crate::fonts::bitset::MAX_UNICODE_CP;
use bit_set::BitSet;
use vstd::prelude::*;

verus! {

/// The number of codepoints in a glyph range.
pub const CP_RANGE_SIZE: usize = 256;

/// The highest range: each range is 256 codepoints long, so it is 0xFFFF / 256.
pub const MAX_UNICODE_CP_RANGE_ID: usize = 255;

/// Why a glyph range cannot be served.
#[derive(Debug)]
pub enum FontError {
    /// No font is registered under this name.
    FontNotFound(String),
    /// The range starts after its end.
    InvalidFontRangeStartEnd(u32, u32),
    /// The start of the range is no multiple of 256.
    InvalidFontRangeStart(u32),
    /// The end of the range is not one less than a multiple of 256.
    InvalidFontRangeEnd(u32),
    /// The range is not 256 codepoints long.
    InvalidFontRange(u32, u32),
    /// The face in this file has no family name.
    MissingFamilyName(String),
}

impl FontError {
    /// The HTTP status that answers a request which failed in this way: "not found" for
    /// an unknown font, "bad request" for a wrong range, and a server error otherwise.
    pub open spec fn status(self) -> u16 {
        match self {
            FontError::FontNotFound(_) => 404,
            FontError::InvalidFontRangeStartEnd(_, _) => 400,
            FontError::InvalidFontRangeStart(_) => 400,
            FontError::InvalidFontRangeEnd(_) => 400,
            FontError::InvalidFontRange(_, _) => 400,
            FontError::MissingFamilyName(_) => 500,
        }
    }

    /// The HTTP status that answers a request which failed in this way.
    pub fn status_code(&self) -> (code: u16)
        ensures
            code == self.status(),
    {
        match self {
            FontError::FontNotFound(_) => 404,
            FontError::InvalidFontRangeStartEnd(_, _) => 400,
            FontError::InvalidFontRangeStart(_) => 400,
            FontError::InvalidFontRangeEnd(_) => 400,
            FontError::InvalidFontRange(_, _) => 400,
            FontError::MissingFamilyName(_) => 500,
        }
    }
}

/// What is wrong with the range from `start` to `end`, if anything.
pub open spec fn range_error(start: u32, end: u32) -> Option<FontError> {
    if start > end {
        Some(FontError::InvalidFontRangeStartEnd(start, end))
    } else if start % 256 != 0 {
        Some(FontError::InvalidFontRangeStart(start))
    } else if end % 256 != 255 {
        Some(FontError::InvalidFontRangeEnd(end))
    } else if end - start != 255 {
        Some(FontError::InvalidFontRange(start, end))
    } else {
        None
    }
}

/// Checks that `start` and `end` bound one glyph range, and gives the number of that range.
pub fn validate_font_range(start: u32, end: u32) -> (checked: Result<usize, FontError>)
    ensures
        match range_error(start, end) {
            Some(e) => checked == Err::<usize, FontError>(e),
            None => checked == Ok::<usize, FontError>((start / 256) as usize),
        },
{
    if start > end {
        return Err(FontError::InvalidFontRangeStartEnd(start, end));
    }
    if start % (CP_RANGE_SIZE as u32) != 0 {
        return Err(FontError::InvalidFontRangeStart(start));
    }
    if end % (CP_RANGE_SIZE as u32) != (CP_RANGE_SIZE as u32 - 1) {
        return Err(FontError::InvalidFontRangeEnd(end));
    }
    if (end - start) != (CP_RANGE_SIZE as u32 - 1) {
        return Err(FontError::InvalidFontRange(start, end));
    }
    Ok((start as usize) / CP_RANGE_SIZE)
}

/// The codepoints from `lo` up to, but without, `hi`.
pub open spec fn codepoints_between(lo: int, hi: int) -> Set<usize> {
    Set::new(|cp: usize| lo <= cp < hi)
}

/// The codepoints of the range `id`: those from `id * 256` to `id * 256 + 255`.
pub open spec fn range_mask(id: int) -> Set<usize> {
    codepoints_between(id * 256, id * 256 + 256)
}

/// Whether `masks` holds the mask of every range, each at the index of its range.
pub open spec fn are_range_masks(masks: Seq<BitSet>) -> bool {
    &&& masks.len() == MAX_UNICODE_CP_RANGE_ID + 1
    &&& forall|id: int| 0 <= id < masks.len() ==> members(#[trigger] masks[id]) == range_mask(id)
}

/// Builds the mask of every range.
pub fn build_range_masks() -> (masks: Vec<BitSet>)
    ensures
        are_range_masks(masks@),
{
    let mut masks: Vec<BitSet> = Vec::with_capacity(MAX_UNICODE_CP_RANGE_ID + 1);
    let mut bs = with_capacity(CP_RANGE_SIZE);
    let mut v: usize = 0;
    assert(codepoints_between(0, 0) =~= Set::<usize>::empty());
    while v <= MAX_UNICODE_CP
        invariant
            v <= MAX_UNICODE_CP + 1,
            masks@.len() == v / 256,
            forall|id: int| 0 <= id < masks@.len() ==> members(#[trigger] masks@[id]) == range_mask(id),
            members(bs) == codepoints_between((v / 256) * 256, v as int),
        decreases MAX_UNICODE_CP + 1 - v,
    {
        let ghost base = (v / 256) * 256;
        let ghost before = members(bs);
        insert(&mut bs, v);
        assert(members(bs) =~= codepoints_between(base as int, v + 1));
        if v % CP_RANGE_SIZE == (CP_RANGE_SIZE - 1) {
            assert(members(bs) == range_mask((v / 256) as int));
            masks.push(bs);
            bs = with_capacity(CP_RANGE_SIZE);
            assert(codepoints_between(v + 1, v + 1) =~= Set::<usize>::empty());
            assert((v + 1) / 256 == v / 256 + 1);
        } else {
            assert((v + 1) / 256 == v / 256);
        }
        v = v + 1;
    }
    masks
}

/// A block of `n` consecutive codepoints is a finite set of `n` elements.
pub proof fn lemma_codepoints_between_len(lo: int, n: nat)
    requires
        0 <= lo,
        lo + n <= usize::MAX,
    ensures
        codepoints_between(lo, lo + n).finite(),
        codepoints_between(lo, lo + n).len() == n,
    decreases n,
{
    if n == 0 {
        assert(codepoints_between(lo, lo) =~= Set::<usize>::empty());
    } else {
        lemma_codepoints_between_len(lo, (n - 1) as nat);
        let last = (lo + n - 1) as usize;
        assert(codepoints_between(lo, lo + n) =~= codepoints_between(lo, lo + n - 1).insert(last));
    }
}

/// Every range mask holds exactly 256 codepoints, and the masks of two different ranges
/// share none.
pub proof fn lemma_range_masks_partition(i: int, j: int)
    requires
        0 <= i <= MAX_UNICODE_CP_RANGE_ID,
        0 <= j <= MAX_UNICODE_CP_RANGE_ID,
        i != j,
    ensures
        range_mask(i).finite(),
        range_mask(i).len() == 256,
        range_mask(i).intersect(range_mask(j)) == Set::<usize>::empty(),
{
    lemma_codepoints_between_len(i * 256, 256);
    assert(range_mask(i).intersect(range_mask(j)) =~= Set::<usize>::empty());
}

} // verus!
