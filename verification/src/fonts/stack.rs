//! Which font renders which codepoint of a requested glyph range.
//!
//! A request names fonts in order of preference. Each codepoint of the range goes to the
//! first of them that covers it.

use crate::fonts::range::range_mask;
use crate::fonts::range::MAX_UNICODE_CP_RANGE_ID;
use crate::fonts::sources::font_index;
use crate::fonts::sources::has_font;
use crate::fonts::sources::FontModel;
use crate::text::decimal;
use crate::text::joined;
use vstd::prelude::*;

verus! {

/// One font of a glyph range, with the codepoints that it is to render.
#[derive(Debug)]
pub struct GlyphSource {
    /// The name by which the request asked for the font.
    pub id: String,
    /// The file that holds the face.
    pub path: String,
    /// The position of the face in its file.
    pub face_index: isize,
    /// The codepoints to render from this face, in rising order.
    pub codepoints: Vec<u32>,
}

/// A glyph range to render: the name and the range of the stack, and the fonts that
/// contribute to it, in the order in which the request named them.
#[derive(Debug)]
pub struct GlyphRange {
    /// The names of the contributing fonts, with a comma and a space between them.
    pub name: String,
    /// The first and the last codepoint of the range, with a hyphen between them.
    pub range: String,
    /// The contributing fonts. There is at least one.
    pub fonts: Vec<GlyphSource>,
}

/// The codepoints that a request for the range starting at `start` asks for.
pub open spec fn requested_mask(start: u32) -> Set<usize> {
    if start / 256 <= MAX_UNICODE_CP_RANGE_ID {
        range_mask(start as int / 256)
    } else {
        Set::<usize>::empty()
    }
}

/// What the font that the request names at position `k` covers.
pub open spec fn coverage_at(fonts: Seq<FontModel>, ids: Seq<Seq<char>>, k: int) -> Set<usize> {
    fonts[font_index(fonts, ids[k])].codepoints
}

/// The codepoints of `mask` that none of the first `k` fonts of the request covers.
pub open spec fn needed_before(
    fonts: Seq<FontModel>,
    ids: Seq<Seq<char>>,
    mask: Set<usize>,
    k: int,
) -> Set<usize>
    decreases k,
{
    if k <= 0 {
        mask
    } else {
        needed_before(fonts, ids, mask, k - 1).difference(coverage_at(fonts, ids, k - 1))
    }
}

/// The codepoints that the font at position `k` of the request renders.
pub open spec fn taken(fonts: Seq<FontModel>, ids: Seq<Seq<char>>, mask: Set<usize>, k: int) -> Set<
    usize,
> {
    needed_before(fonts, ids, mask, k).intersect(coverage_at(fonts, ids, k))
}

/// The positions below `n` in the request of the fonts that render something, rising.
pub open spec fn contributors(
    fonts: Seq<FontModel>,
    ids: Seq<Seq<char>>,
    mask: Set<usize>,
    n: int,
) -> Seq<int>
    decreases n,
{
    if n <= 0 {
        Seq::<int>::empty()
    } else if taken(fonts, ids, mask, n - 1) == Set::<usize>::empty() {
        contributors(fonts, ids, mask, n - 1)
    } else {
        contributors(fonts, ids, mask, n - 1).push(n - 1)
    }
}

/// The names in the request of the fonts at `positions`.
pub open spec fn names_at(ids: Seq<Seq<char>>, positions: Seq<int>) -> Seq<Seq<char>> {
    Seq::new(positions.len(), |j: int| ids[positions[j]])
}

/// Whether `codepoints` lists the members of `set`, each once, in rising order.
pub open spec fn lists_set(codepoints: Seq<u32>, set: Set<usize>) -> bool {
    &&& forall|i: int, j: int|
        0 <= i < j < codepoints.len() ==> (#[trigger] codepoints[i]) < (#[trigger] codepoints[j])
    &&& forall|cp: usize| #[trigger]
        set.contains(cp) <==> exists|i: int|
            0 <= i < codepoints.len() && (#[trigger] codepoints[i]) == cp
}

/// Whether `source` is what the font at position `k` of the request contributes.
pub open spec fn source_matches(
    source: GlyphSource,
    fonts: Seq<FontModel>,
    ids: Seq<Seq<char>>,
    mask: Set<usize>,
    k: int,
) -> bool {
    let font = fonts[font_index(fonts, ids[k])];
    &&& source.id@ == ids[k]
    &&& source.path@ == font.path
    &&& source.face_index == font.face_index
    &&& lists_set(source.codepoints@, taken(fonts, ids, mask, k))
}

/// Whether `range` is the answer to a request for the fonts `ids`, in this order, and the
/// glyph range from `start` to `end`.
pub open spec fn range_matches(
    range: GlyphRange,
    fonts: Seq<FontModel>,
    ids: Seq<Seq<char>>,
    start: u32,
    end: u32,
) -> bool {
    let mask = requested_mask(start);
    let positions = contributors(fonts, ids, mask, ids.len() as int);
    &&& range.range@ == decimal(start as nat) + seq!['-'] + decimal(end as nat)
    &&& range.name@ == joined(names_at(ids, positions), seq![',', ' '])
    &&& range.fonts@.len() == positions.len()
    &&& forall|j: int|
        0 <= j < positions.len() ==> source_matches(
            #[trigger] range.fonts@[j],
            fonts,
            ids,
            mask,
            positions[j],
        )
}

/// The contributors are positions in the request, in rising order, and they are exactly
/// the positions of the fonts that render something.
pub proof fn lemma_contributors(
    fonts: Seq<FontModel>,
    ids: Seq<Seq<char>>,
    mask: Set<usize>,
    n: int,
)
    ensures
        forall|j: int|
            0 <= j < contributors(fonts, ids, mask, n).len() ==> {
                let k = #[trigger] contributors(fonts, ids, mask, n)[j];
                0 <= k < n && taken(fonts, ids, mask, k) != Set::<usize>::empty()
            },
        forall|i: int, j: int|
            0 <= i < j < contributors(fonts, ids, mask, n).len() ==> (#[trigger] contributors(
                fonts,
                ids,
                mask,
                n,
            )[i]) < (#[trigger] contributors(fonts, ids, mask, n)[j]),
        forall|k: int|
            0 <= k < n && #[trigger] taken(fonts, ids, mask, k) != Set::<usize>::empty()
                ==> contributors(fonts, ids, mask, n).contains(k),
    decreases n,
{
    if n > 0 {
        lemma_contributors(fonts, ids, mask, n - 1);
        let before = contributors(fonts, ids, mask, n - 1);
        let now = contributors(fonts, ids, mask, n);
        assert forall|k: int|
            0 <= k < n && #[trigger] taken(fonts, ids, mask, k) != Set::<usize>::empty() implies now.contains(
            k,
        ) by {
            if k < n - 1 {
                let j = choose|j: int| 0 <= j < before.len() && before[j] == k;
                assert(now[j] == k);
            } else {
                assert(now[now.len() - 1] == k);
            }
        }
    }
}

/// A codepoint is still needed before the font at position `k` exactly if the request
/// asks for it and none of the fonts before that position covers it.
pub proof fn lemma_needed_before(
    fonts: Seq<FontModel>,
    ids: Seq<Seq<char>>,
    mask: Set<usize>,
    k: int,
    cp: usize,
)
    requires
        0 <= k,
    ensures
        needed_before(fonts, ids, mask, k).contains(cp) <==> mask.contains(cp) && forall|j: int|
            0 <= j < k ==> !(#[trigger] coverage_at(fonts, ids, j)).contains(cp),
    decreases k,
{
    if k > 0 {
        lemma_needed_before(fonts, ids, mask, k - 1, cp);
        if needed_before(fonts, ids, mask, k).contains(cp) {
            assert forall|j: int| 0 <= j < k implies !(#[trigger] coverage_at(
                fonts,
                ids,
                j,
            )).contains(cp) by {}
        }
    }
}

/// Fallback through the fonts of a request: a codepoint is rendered exactly if the range
/// holds it and one of the named fonts covers it, and then it is rendered by the first
/// named font that covers it, and by no other.
pub proof fn lemma_font_fallback(
    fonts: Seq<FontModel>,
    ids: Seq<Seq<char>>,
    mask: Set<usize>,
    cp: usize,
)
    ensures
        (exists|k: int| 0 <= k < ids.len() && #[trigger] taken(fonts, ids, mask, k).contains(cp))
            <==> (mask.contains(cp) && exists|k: int|
            0 <= k < ids.len() && #[trigger] coverage_at(fonts, ids, k).contains(cp)),
        forall|k: int|
            0 <= k < ids.len() && #[trigger] taken(fonts, ids, mask, k).contains(cp) ==> {
                &&& coverage_at(fonts, ids, k).contains(cp)
                &&& forall|j: int|
                    0 <= j < k ==> !(#[trigger] coverage_at(fonts, ids, j)).contains(cp)
            },
        forall|k: int, l: int|
            0 <= k < l < ids.len() ==> !(#[trigger] taken(fonts, ids, mask, k).contains(cp)
                && #[trigger] taken(fonts, ids, mask, l).contains(cp)),
{
    assert forall|k: int|
        0 <= k < ids.len() && #[trigger] taken(fonts, ids, mask, k).contains(cp) implies {
        &&& coverage_at(fonts, ids, k).contains(cp)
        &&& forall|j: int| 0 <= j < k ==> !(#[trigger] coverage_at(fonts, ids, j)).contains(cp)
    } by {
        lemma_needed_before(fonts, ids, mask, k, cp);
    }
    assert forall|k: int, l: int| 0 <= k < l < ids.len() implies !(#[trigger] taken(
        fonts,
        ids,
        mask,
        k,
    ).contains(cp) && #[trigger] taken(fonts, ids, mask, l).contains(cp)) by {
        lemma_needed_before(fonts, ids, mask, l, cp);
    }
    if mask.contains(cp) && exists|k: int|
        0 <= k < ids.len() && #[trigger] coverage_at(fonts, ids, k).contains(cp) {
        let k = choose|k: int|
            0 <= k < ids.len() && #[trigger] coverage_at(fonts, ids, k).contains(cp);
        lemma_first_cover(fonts, ids, cp, k);
        let first = choose|first: int|
            0 <= first <= k && #[trigger] coverage_at(fonts, ids, first).contains(cp) && forall|
                j: int,
            |
                0 <= j < first ==> !(#[trigger] coverage_at(fonts, ids, j)).contains(cp);
        lemma_needed_before(fonts, ids, mask, first, cp);
        assert(taken(fonts, ids, mask, first).contains(cp));
    }
    if exists|k: int| 0 <= k < ids.len() && #[trigger] taken(fonts, ids, mask, k).contains(cp) {
        let k = choose|k: int|
            0 <= k < ids.len() && #[trigger] taken(fonts, ids, mask, k).contains(cp);
        lemma_needed_before(fonts, ids, mask, k, cp);
        assert(coverage_at(fonts, ids, k).contains(cp));
    }
}

/// Among the fonts up to position `k`, where the one at `k` covers `cp`, there is a first
/// that covers it.
proof fn lemma_first_cover(fonts: Seq<FontModel>, ids: Seq<Seq<char>>, cp: usize, k: int)
    requires
        0 <= k,
        coverage_at(fonts, ids, k).contains(cp),
    ensures
        exists|first: int|
            0 <= first <= k && #[trigger] coverage_at(fonts, ids, first).contains(cp) && forall|
                j: int,
            |
                0 <= j < first ==> !(#[trigger] coverage_at(fonts, ids, j)).contains(cp),
    decreases k,
{
    if exists|j: int| 0 <= j < k && #[trigger] coverage_at(fonts, ids, j).contains(cp) {
        let j = choose|j: int| 0 <= j < k && #[trigger] coverage_at(fonts, ids, j).contains(cp);
        lemma_first_cover(fonts, ids, cp, j);
        let first = choose|first: int|
            0 <= first <= j && #[trigger] coverage_at(fonts, ids, first).contains(cp) && forall|
                i: int,
            |
                0 <= i < first ==> !(#[trigger] coverage_at(fonts, ids, i)).contains(cp);
        assert(0 <= first <= k);
    } else {
        assert(forall|j: int| 0 <= j < k ==> !(#[trigger] coverage_at(fonts, ids, j)).contains(cp));
    }
}

} // verus!
