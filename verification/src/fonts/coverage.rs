//! The codepoints a font face covers, and the contiguous spans they form.

use crate::fonts::bitset::insert;
use crate::fonts::bitset::members;
use crate::fonts::bitset::with_capacity;
use crate::fonts::bitset::MAX_UNICODE_CP;
use bit_set::BitSet;
use vstd::prelude::*;

verus! {

/// Whether the face whose glyph indices are `glyphs` has a glyph for the codepoint `cp`.
///
/// `glyphs[cp]` is the index of the glyph for `cp`, zero where the face has none. Only the
/// codepoints up to `MAX_UNICODE_CP` count.
pub open spec fn is_covered(glyphs: Seq<u32>, cp: int) -> bool {
    0 <= cp < glyphs.len() && cp <= MAX_UNICODE_CP && glyphs[cp] != 0
}

/// The covered codepoints below `limit`.
pub open spec fn covered_below(glyphs: Seq<u32>, limit: int) -> Set<usize> {
    Set::new(|cp: usize| cp < limit && is_covered(glyphs, cp as int))
}

/// All the codepoints that the face covers.
pub open spec fn covered(glyphs: Seq<u32>) -> Set<usize> {
    covered_below(glyphs, MAX_UNICODE_CP + 1)
}

/// Whether `spans` lists, in rising order, the maximal runs of covered codepoints, each by
/// its first and last codepoint.
pub open spec fn is_span_list(spans: Seq<(usize, usize)>, glyphs: Seq<u32>) -> bool {
    &&& forall|k: int| 0 <= k < spans.len() ==> (#[trigger] spans[k]).0 <= spans[k].1
    &&& forall|k: int, cp: int|
        0 <= k < spans.len() && (#[trigger] spans[k]).0 <= cp <= spans[k].1 ==> #[trigger] is_covered(
            glyphs,
            cp,
        )
    &&& forall|k: int|
        0 <= k < spans.len() ==> !is_covered(glyphs, (#[trigger] spans[k]).0 - 1) && !is_covered(
            glyphs,
            spans[k].1 + 1,
        )
    &&& forall|k: int, l: int|
        0 <= k < l < spans.len() ==> (#[trigger] spans[k]).1 < (#[trigger] spans[l]).0
    &&& forall|cp: int| #[trigger]
        is_covered(glyphs, cp) ==> exists|k: int|
            0 <= k < spans.len() && (#[trigger] spans[k]).0 <= cp <= spans[k].1
}

/// What a face covers: the set of codepoints, how many they are, and their spans.
pub type GetGlyphInfo = (BitSet, usize, Vec<(usize, usize)>);

/// Finds the codepoints for which the face has a glyph.
///
/// `glyphs[cp]` is the glyph index that the face reports for the codepoint `cp`; entries
/// beyond `MAX_UNICODE_CP` are not looked at. The answer is `None` where nothing is covered.
pub fn get_available_codepoints(glyphs: &Vec<u32>) -> (info: Option<GetGlyphInfo>)
    ensures
        info is None <==> covered(glyphs@) == Set::<usize>::empty(),
        info matches Some((codepoints, count, spans)) ==> {
            &&& members(codepoints) == covered(glyphs@)
            &&& covered(glyphs@).finite()
            &&& count == covered(glyphs@).len()
            &&& is_span_list(spans@, glyphs@)
        },
{
    let mut codepoints = with_capacity(MAX_UNICODE_CP);
    let mut spans: Vec<(usize, usize)> = Vec::new();
    let mut first: Option<usize> = None;
    let mut count: usize = 0;
    let limit: usize = if glyphs.len() <= MAX_UNICODE_CP {
        glyphs.len()
    } else {
        MAX_UNICODE_CP + 1
    };
    let mut cp: usize = 0;
    assert(covered_below(glyphs@, 0) =~= Set::<usize>::empty());
    while cp < limit
        invariant
            cp <= limit <= MAX_UNICODE_CP + 1,
            limit <= glyphs.len(),
            limit == glyphs.len() || limit == MAX_UNICODE_CP + 1,
            members(codepoints) == covered_below(glyphs@, cp as int),
            covered_below(glyphs@, cp as int).finite(),
            count == covered_below(glyphs@, cp as int).len(),
            count <= cp,
            forall|k: int| 0 <= k < spans.len() ==> (#[trigger] spans[k]).0 <= spans[k].1,
            forall|k: int| 0 <= k < spans.len() ==> (#[trigger] spans[k]).1 + 1 < cp,
            forall|k: int, c: int|
                0 <= k < spans.len() && (#[trigger] spans[k]).0 <= c <= spans[k].1
                    ==> #[trigger] is_covered(glyphs@, c),
            forall|k: int|
                0 <= k < spans.len() ==> !is_covered(glyphs@, (#[trigger] spans[k]).0 - 1)
                    && !is_covered(glyphs@, spans[k].1 + 1),
            forall|k: int, l: int|
                0 <= k < l < spans.len() ==> (#[trigger] spans[k]).1 < (#[trigger] spans[l]).0,
            first matches Some(f) ==> {
                &&& f < cp
                &&& !is_covered(glyphs@, f - 1)
                &&& forall|c: int| f <= c < cp ==> #[trigger] is_covered(glyphs@, c)
                &&& forall|k: int| 0 <= k < spans.len() ==> (#[trigger] spans[k]).1 < f
            },
            first is None ==> !is_covered(glyphs@, cp - 1),
            forall|c: int| #[trigger]
                is_covered(glyphs@, c) && c < cp ==> (first matches Some(f) && f <= c) || exists|
                    k: int,
                |
                    0 <= k < spans.len() && (#[trigger] spans[k]).0 <= c <= spans[k].1,
        decreases limit - cp,
    {
        let ghost before = covered_below(glyphs@, cp as int);
        let ghost old_spans = spans@;
        if glyphs[cp] != 0 {
            insert(&mut codepoints, cp);
            assert(covered_below(glyphs@, cp + 1) =~= before.insert(cp));
            count = count + 1;
            if first.is_none() {
                first = Some(cp);
            }
        } else {
            assert(covered_below(glyphs@, cp + 1) =~= before);
            if let Some(start) = first {
                spans.push((start, cp - 1));
                first = None;
                assert forall|c: int| #[trigger]
                    is_covered(glyphs@, c) && c < cp + 1 implies exists|k: int|
                    0 <= k < spans.len() && (#[trigger] spans[k]).0 <= c <= spans[k].1 by {
                    if start <= c {
                        assert(spans[spans.len() - 1].0 <= c <= spans[spans.len() - 1].1);
                    } else {
                        let k = choose|k: int|
                            0 <= k < old_spans.len() && (#[trigger] old_spans[k]).0 <= c
                                <= old_spans[k].1;
                        assert(spans[k] == old_spans[k]);
                    }
                }
            } else {
                assert forall|c: int| #[trigger]
                    is_covered(glyphs@, c) && c < cp + 1 implies exists|k: int|
                    0 <= k < spans.len() && (#[trigger] spans[k]).0 <= c <= spans[k].1 by {}
            }
        }
        cp = cp + 1;
    }
    assert(covered_below(glyphs@, limit as int) =~= covered(glyphs@));
    if let Some(start) = first {
        let ghost old_spans = spans@;
        spans.push((start, limit - 1));
        assert forall|c: int| #[trigger] is_covered(glyphs@, c) implies exists|k: int|
            0 <= k < spans.len() && (#[trigger] spans[k]).0 <= c <= spans[k].1 by {
            if start <= c {
                assert(spans[spans.len() - 1].0 <= c <= spans[spans.len() - 1].1);
            } else {
                let k = choose|k: int|
                    0 <= k < old_spans.len() && (#[trigger] old_spans[k]).0 <= c <= old_spans[k].1;
                assert(spans[k] == old_spans[k]);
            }
        }
    }
    if count == 0 {
        assert(covered(glyphs@) =~= Set::<usize>::empty()) by {
            covered(glyphs@).lemma_len0_is_empty();
        }
        None
    } else {
        assert(covered(glyphs@).len() != 0);
        Some((codepoints, count, spans))
    }
}

/// The spans of a face that covers something start at its smallest covered codepoint and
/// end at its largest.
pub proof fn lemma_spans_bound_coverage(spans: Seq<(usize, usize)>, glyphs: Seq<u32>, cp: int)
    requires
        is_span_list(spans, glyphs),
        is_covered(glyphs, cp),
    ensures
        spans.len() > 0,
        is_covered(glyphs, spans.first().0 as int),
        is_covered(glyphs, spans.last().1 as int),
        spans.first().0 <= cp <= spans.last().1,
{
    let k = choose|k: int| 0 <= k < spans.len() && (#[trigger] spans[k]).0 <= cp <= spans[k].1;
    let first = spans[0];
    let last = spans[spans.len() - 1];
    assert(first.0 <= first.0 <= first.1);
    assert(last.0 <= last.1 <= last.1);
    if 0 < k {
        assert(spans[0].1 < spans[k].0);
    }
    if k < spans.len() - 1 {
        assert(spans[k].1 < spans[spans.len() - 1].0);
    }
}

} // verus!
