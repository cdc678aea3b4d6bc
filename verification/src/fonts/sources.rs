//! The registered fonts: what each covers, and which names are taken.

use crate::fonts::bitset::contains;
use crate::fonts::bitset::difference_with;
use crate::fonts::bitset::duplicate;
use crate::fonts::bitset::intersect_with;
use crate::fonts::bitset::is_empty;
use crate::fonts::bitset::members;
use crate::fonts::bitset::to_vec;
use crate::fonts::bitset::with_capacity;
use crate::fonts::bitset::MAX_UNICODE_CP;
use crate::fonts::coverage::covered;
use crate::fonts::coverage::get_available_codepoints;
use crate::fonts::coverage::is_covered;
use crate::fonts::coverage::is_span_list;
use crate::fonts::coverage::lemma_spans_bound_coverage;
use crate::fonts::name::canonical_font_name;
use crate::fonts::name::canonical_name;
use crate::fonts::name::opt_view;
use crate::fonts::range::are_range_masks;
use crate::fonts::range::build_range_masks;
use crate::fonts::range::range_error;
use crate::fonts::range::validate_font_range;
use crate::fonts::range::FontError;
use crate::fonts::range::MAX_UNICODE_CP_RANGE_ID;
use crate::fonts::stack::contributors;
use crate::fonts::stack::coverage_at;
use crate::fonts::stack::lists_set;
use crate::fonts::stack::names_at;
use crate::fonts::stack::needed_before;
use crate::fonts::stack::range_matches;
use crate::fonts::stack::requested_mask;
use crate::fonts::stack::source_matches;
use crate::fonts::stack::taken;
use crate::fonts::stack::GlyphRange;
use crate::fonts::stack::GlyphSource;
use crate::text::decimal_string;
use crate::text::joined;
use crate::text::split;
use crate::text::split_on;
use bit_set::BitSet;
use vstd::prelude::*;
use vstd::string::*;

verus! {

/// A face of a font file, as found when the font directories are scanned.
#[derive(Debug)]
pub struct FaceInfo {
    /// The file that holds the face.
    pub path: String,
    /// The position of the face in its file.
    pub face_index: isize,
    /// The family name of the face, if it has one.
    pub family: Option<String>,
    /// The style name of the face, if it has one.
    pub style: Option<String>,
    /// For each codepoint from zero on, the index of its glyph in the face, zero for none.
    pub glyphs: Vec<u32>,
}

/// What a [`FaceInfo`] holds, as plain mathematics.
pub struct FaceModel {
    pub path: Seq<char>,
    pub face_index: isize,
    pub family: Option<Seq<char>>,
    pub style: Option<Seq<char>>,
    pub glyphs: Seq<u32>,
}

impl FaceInfo {
    /// The face as plain mathematics.
    pub open spec fn model(&self) -> FaceModel {
        FaceModel {
            path: self.path@,
            face_index: self.face_index,
            family: opt_view(self.family),
            style: opt_view(self.style),
            glyphs: self.glyphs@,
        }
    }
}

/// A registered font: where to load it from, and the codepoints it covers.
#[derive(Debug)]
pub struct FontSource {
    path: String,
    face_index: isize,
    codepoints: BitSet,
}

/// A registered font as plain mathematics.
pub struct FontModel {
    pub name: Seq<char>,
    pub path: Seq<char>,
    pub face_index: isize,
    pub codepoints: Set<usize>,
}

/// What the catalog tells about a registered font.
#[derive(Clone, Debug)]
pub struct FontEntry {
    pub family: String,
    pub style: Option<String>,
    pub total_glyphs: usize,
    pub start: usize,
    pub end: usize,
}

/// A catalog entry as plain mathematics.
pub struct EntryModel {
    pub name: Seq<char>,
    pub family: Seq<char>,
    pub style: Option<Seq<char>>,
    pub total_glyphs: usize,
    pub start: usize,
    pub end: usize,
}

/// The public description of the registered fonts, in the order of their registration.
#[derive(Clone, Debug)]
pub struct FontCatalog {
    fonts: Vec<(String, FontEntry)>,
}

/// The registered fonts, with the mask of every glyph range.
#[derive(Debug)]
pub struct FontSources {
    fonts: Vec<(String, FontSource)>,
    masks: Vec<BitSet>,
    catalog: FontCatalog,
}

/// What became of a face that was offered for registration.
#[derive(Debug)]
pub enum FaceOutcome {
    /// The face is now registered under `name`; `spans` are the runs of codepoints it covers.
    Registered { name: String, spans: Vec<(usize, usize)> },
    /// Nothing changed: `name` was taken already, by the font loaded from `configured_path`.
    Duplicate { name: String, configured_path: String },
    /// Nothing changed: the face covers no codepoint.
    NoGlyphs { name: String },
}

/// The kinds of result that offering a face can have.
pub enum FaceStatus {
    MissingFamily,
    Duplicate,
    NoGlyphs,
    Registered,
}

/// Whether a font named `name` is among `fonts`.
pub open spec fn has_font(fonts: Seq<FontModel>, name: Seq<char>) -> bool {
    exists|i: int| 0 <= i < fonts.len() && (#[trigger] fonts[i]).name == name
}

/// The position among `fonts` of a font named `name`.
pub open spec fn font_index(fonts: Seq<FontModel>, name: Seq<char>) -> int {
    choose|i: int| 0 <= i < fonts.len() && (#[trigger] fonts[i]).name == name
}

/// Whether no two of `fonts` share a name.
pub open spec fn names_unique(fonts: Seq<FontModel>) -> bool {
    forall|i: int, j: int|
        0 <= i < j < fonts.len() ==> (#[trigger] fonts[i]).name != (#[trigger] fonts[j]).name
}

/// What offering `face` to a catalog that holds `fonts` leads to.
pub open spec fn face_status(fonts: Seq<FontModel>, face: FaceModel) -> FaceStatus {
    match face.family {
        None => FaceStatus::MissingFamily,
        Some(family) => if has_font(fonts, canonical_name(family, face.style)) {
            FaceStatus::Duplicate
        } else if covered(face.glyphs) == Set::<usize>::empty() {
            FaceStatus::NoGlyphs
        } else {
            FaceStatus::Registered
        },
    }
}

/// The font that `face` is registered as.
pub open spec fn font_of_face(face: FaceModel) -> FontModel {
    FontModel {
        name: canonical_name(face.family.unwrap(), face.style),
        path: face.path,
        face_index: face.face_index,
        codepoints: covered(face.glyphs),
    }
}

/// The smallest codepoint that the face with the glyph indices `glyphs` covers.
pub open spec fn lowest_covered(glyphs: Seq<u32>) -> usize {
    choose|cp: usize|
        is_covered(glyphs, cp as int) && forall|c: int| #[trigger]
            is_covered(glyphs, c) ==> cp <= c
}

/// The largest codepoint that the face with the glyph indices `glyphs` covers.
pub open spec fn highest_covered(glyphs: Seq<u32>) -> usize {
    choose|cp: usize|
        is_covered(glyphs, cp as int) && forall|c: int| #[trigger]
            is_covered(glyphs, c) ==> c <= cp
}

/// The catalog entry of the font that `face` is registered as.
pub open spec fn entry_of_face(face: FaceModel) -> EntryModel {
    EntryModel {
        name: canonical_name(face.family.unwrap(), face.style),
        family: face.family.unwrap(),
        style: face.style,
        total_glyphs: covered(face.glyphs).len() as usize,
        start: lowest_covered(face.glyphs),
        end: highest_covered(face.glyphs),
    }
}

/// The catalog entries after `face` was offered to a catalog that held `fonts` and had
/// the entries `entries`.
pub open spec fn described(fonts: Seq<FontModel>, entries: Seq<EntryModel>, face: FaceModel) -> Seq<
    EntryModel,
> {
    if face_status(fonts, face) is Registered {
        entries.push(entry_of_face(face))
    } else {
        entries
    }
}

/// The fonts after `face` was offered to a catalog that held `fonts`.
pub open spec fn registered(fonts: Seq<FontModel>, face: FaceModel) -> Seq<FontModel> {
    if face_status(fonts, face) is Registered {
        fonts.push(font_of_face(face))
    } else {
        fonts
    }
}

/// Whether `entry` describes `font`: same name, the number of covered codepoints, and the
/// smallest and the largest of them.
pub open spec fn entry_describes(entry: EntryModel, font: FontModel) -> bool {
    &&& entry.name == font.name
    &&& font.codepoints.finite()
    &&& entry.total_glyphs == font.codepoints.len()
    &&& font.codepoints.contains(entry.start)
    &&& font.codepoints.contains(entry.end)
    &&& forall|cp: usize| #[trigger]
        font.codepoints.contains(cp) ==> entry.start <= cp <= entry.end <= MAX_UNICODE_CP
}

impl FontCatalog {
    /// The entries of the catalog, in the order of registration.
    pub closed spec fn view(&self) -> Seq<EntryModel> {
        Seq::new(
            self.fonts@.len(),
            |i: int|
                EntryModel {
                    name: self.fonts@[i].0@,
                    family: self.fonts@[i].1.family@,
                    style: opt_view(self.fonts@[i].1.style),
                    total_glyphs: self.fonts@[i].1.total_glyphs,
                    start: self.fonts@[i].1.start,
                    end: self.fonts@[i].1.end,
                },
        )
    }

    /// The number of entries.
    pub fn len(&self) -> (n: usize)
        ensures
            n == self@.len(),
    {
        self.fonts.len()
    }

    /// The name of the entry at `index`.
    pub fn name(&self, index: usize) -> (name: &String)
        requires
            index < self@.len(),
        ensures
            name@ == self@[index as int].name,
    {
        &self.fonts[index].0
    }

    /// The entry at `index`.
    pub fn entry(&self, index: usize) -> (entry: &FontEntry)
        requires
            index < self@.len(),
        ensures
            entry.family@ == self@[index as int].family,
            opt_view(entry.style) == self@[index as int].style,
            entry.total_glyphs == self@[index as int].total_glyphs,
            entry.start == self@[index as int].start,
            entry.end == self@[index as int].end,
    {
        &self.fonts[index].1
    }
}

impl FontSources {
    /// The registered fonts, in the order of registration.
    pub closed spec fn view(&self) -> Seq<FontModel> {
        Seq::new(
            self.fonts@.len(),
            |i: int|
                FontModel {
                    name: self.fonts@[i].0@,
                    path: self.fonts@[i].1.path@,
                    face_index: self.fonts@[i].1.face_index,
                    codepoints: members(self.fonts@[i].1.codepoints),
                },
        )
    }

    /// The catalog entries, in the order of registration.
    pub closed spec fn entries(&self) -> Seq<EntryModel> {
        self.catalog@
    }

    /// The masks of the glyph ranges.
    pub closed spec fn masks(&self) -> Seq<BitSet> {
        self.masks@
    }

    /// What holds of every value of this type that the library hands out: the masks are
    /// those of the glyph ranges, no name is registered twice, and the catalog describes
    /// the fonts one by one.
    pub open spec fn wf(&self) -> bool {
        &&& are_range_masks(self.masks())
        &&& names_unique(self@)
        &&& self.entries().len() == self@.len()
        &&& forall|i: int|
            0 <= i < self@.len() ==> entry_describes(#[trigger] self.entries()[i], self@[i])
    }

    /// A catalog without fonts.
    pub fn new() -> (sources: FontSources)
        ensures
            sources.wf(),
            sources@ == Seq::<FontModel>::empty(),
            sources.entries() == Seq::<EntryModel>::empty(),
    {
        let sources = FontSources {
            fonts: Vec::new(),
            masks: build_range_masks(),
            catalog: FontCatalog { fonts: Vec::new() },
        };
        assert(sources@ =~= Seq::<FontModel>::empty());
        assert(sources.entries() =~= Seq::<EntryModel>::empty());
        sources
    }

    /// The public description of the registered fonts.
    pub fn get_catalog(&self) -> (catalog: &FontCatalog)
        ensures
            catalog@ == self.entries(),
    {
        &self.catalog
    }

    /// Whether the font at `index` covers the codepoint `cp`.
    pub fn covers(&self, index: usize, cp: usize) -> (covered: bool)
        requires
            index < self@.len(),
        ensures
            covered == self@[index as int].codepoints.contains(cp),
    {
        contains(&self.fonts[index].1.codepoints, cp)
    }

    /// The position of the font registered under `name`, if there is one.
    pub fn position(&self, name: &String) -> (found: Option<usize>)
        ensures
            found is Some <==> has_font(self@, name@),
            found matches Some(i) ==> i < self@.len() && self@[i as int].name == name@,
            found matches Some(i) ==> (names_unique(self@) ==> i == font_index(self@, name@)),
    {
        let mut i: usize = 0;
        while i < self.fonts.len()
            invariant
                i <= self.fonts@.len(),
                self@.len() == self.fonts@.len(),
                forall|k: int| 0 <= k < i ==> (#[trigger] self@[k]).name != name@,
            decreases self.fonts.len() - i,
        {
            if self.fonts[i].0 == *name {
                assert(self@[i as int].name == name@);
                return Some(i);
            }
            i = i + 1;
        }
        None
    }

    /// Offers a face for registration.
    ///
    /// A face without a family name is an error. A face whose canonical name is taken, or
    /// which covers no codepoint, is passed over. Any other face is registered under its
    /// canonical name, after the fonts that are registered already.
    pub fn register_face(&mut self, face: &FaceInfo) -> (outcome: Result<FaceOutcome, FontError>)
        requires
            old(self).wf(),
        ensures
            final(self).wf(),
            final(self)@ == registered(old(self)@, face.model()),
            final(self).entries() == described(old(self)@, old(self).entries(), face.model()),
            final(self).masks() == old(self).masks(),
            match face_status(old(self)@, face.model()) {
                FaceStatus::MissingFamily => {
                    &&& outcome matches Err(FontError::MissingFamilyName(path))
                    &&& path@ == face.path@
                },
                FaceStatus::Duplicate => {
                    &&& outcome matches Ok(FaceOutcome::Duplicate { name, configured_path })
                    &&& name@ == canonical_name(face.family.unwrap()@, opt_view(face.style))
                    &&& configured_path@ == old(self)@[font_index(old(self)@, name@)].path
                },
                FaceStatus::NoGlyphs => {
                    &&& outcome matches Ok(FaceOutcome::NoGlyphs { name })
                    &&& name@ == canonical_name(face.family.unwrap()@, opt_view(face.style))
                },
                FaceStatus::Registered => {
                    &&& outcome matches Ok(FaceOutcome::Registered { name, spans })
                    &&& name@ == canonical_name(face.family.unwrap()@, opt_view(face.style))
                    &&& is_span_list(spans@, face.glyphs@)
                },
            },
    {
        let family = match &face.family {
            Some(family) => family,
            None => {
                return Err(FontError::MissingFamilyName(face.path.clone()));
            },
        };
        let name = canonical_font_name(family, &face.style);
        if let Some(i) = self.position(&name) {
            return Ok(
                FaceOutcome::Duplicate { name, configured_path: self.fonts[i].1.path.clone() },
            );
        }
        let (codepoints, count, spans) = match get_available_codepoints(&face.glyphs) {
            Some(info) => info,
            None => {
                return Ok(FaceOutcome::NoGlyphs { name });
            },
        };
        proof {
            let cp = choose|cp: usize| covered(face.glyphs@).contains(cp);
            if !covered(face.glyphs@).contains(cp) {
                assert(covered(face.glyphs@) =~= Set::<usize>::empty());
            }
            lemma_spans_bound_coverage(spans@, face.glyphs@, cp as int);
            assert forall|c: usize| #[trigger] covered(face.glyphs@).contains(c) implies spans@[0].0
                <= c <= spans@[spans@.len() - 1].1 <= MAX_UNICODE_CP by {
                lemma_spans_bound_coverage(spans@, face.glyphs@, c as int);
            }
        }
        let start = spans[0].0;
        let end = spans[spans.len() - 1].1;
        proof {
            let g = face.glyphs@;
            assert forall|c: int| #[trigger] is_covered(g, c) implies start <= c <= end by {
                lemma_spans_bound_coverage(spans@, g, c);
            }
            assert(is_covered(g, start as int) && is_covered(g, end as int));
            assert(is_covered(g, lowest_covered(g) as int));
            assert(is_covered(g, highest_covered(g) as int));
            assert(start == lowest_covered(g));
            assert(end == highest_covered(g));
        }
        let ghost old_fonts = self@;
        let ghost old_entries = self.entries();
        self.catalog.fonts.push(
            (
                name.clone(),
                FontEntry {
                    family: family.clone(),
                    style: face.style.clone(),
                    total_glyphs: count,
                    start,
                    end,
                },
            ),
        );
        self.fonts.push(
            (
                name.clone(),
                FontSource { path: face.path.clone(), face_index: face.face_index, codepoints },
            ),
        );
        proof {
            assert(self@ =~= old_fonts.push(font_of_face(face.model())));
            assert(self.entries() =~= old_entries.push(entry_of_face(face.model())));
            assert forall|i: int| 0 <= i < self@.len() implies entry_describes(
                #[trigger] self.entries()[i],
                self@[i],
            ) by {
                if i < old_fonts.len() {
                    assert(self.entries()[i] == old_entries[i]);
                    assert(self@[i] == old_fonts[i]);
                }
            }
        }
        Ok(FaceOutcome::Registered { name, spans })
    }
}

/// The members of `set` as codepoints, in rising order.
fn codepoints_of(set: &BitSet) -> (codepoints: Vec<u32>)
    requires
        forall|cp: usize| #[trigger] members(*set).contains(cp) ==> cp <= MAX_UNICODE_CP,
    ensures
        lists_set(codepoints@, members(*set)),
{
    let values = to_vec(set);
    let mut codepoints: Vec<u32> = Vec::new();
    let mut i: usize = 0;
    while i < values.len()
        invariant
            i <= values.len(),
            codepoints@.len() == i,
            forall|k: int| 0 <= k < values@.len() ==> values@.contains(#[trigger] values@[k]),
            forall|v: usize| values@.contains(v) ==> v <= MAX_UNICODE_CP,
            forall|k: int| 0 <= k < i ==> (#[trigger] codepoints@[k]) == values@[k],
        decreases values.len() - i,
    {
        assert(values@.contains(values@[i as int]));
        codepoints.push(values[i] as u32);
        i = i + 1;
    }
    proof {
        assert forall|cp: usize| #[trigger] members(*set).contains(cp) implies exists|i: int|
            0 <= i < codepoints@.len() && (#[trigger] codepoints@[i]) == cp by {
            assert(values@.contains(cp));
            let k = choose|k: int| 0 <= k < values@.len() && values@[k] == cp;
            assert(codepoints@[k] == cp);
        }
        assert forall|cp: usize|
            (exists|i: int|
                0 <= i < codepoints@.len() && (#[trigger] codepoints@[i]) == cp) implies #[trigger] members(
            *set,
        ).contains(cp) by {
            let k = choose|k: int| 0 <= k < codepoints@.len() && (#[trigger] codepoints@[k]) == cp;
            assert(values@.contains(values@[k]));
        }
    }
    codepoints
}

impl FontSources {
    /// Plans the glyph range from `start` to `end` for the fonts that `ids` names, with
    /// commas between the names.
    ///
    /// The bounds are checked first. Then every name has to be that of a registered font.
    /// Each codepoint of the range goes to the first named font that covers it. The answer
    /// is `None` where no named font covers any codepoint of the range.
    pub fn get_font_range(&self, ids: &str, start: u32, end: u32) -> (plan: Result<
        Option<GlyphRange>,
        FontError,
    >)
        requires
            self.wf(),
        ensures
            match range_error(start, end) {
                Some(e) => plan == Err::<Option<GlyphRange>, FontError>(e),
                None => {
                    let names = split(ids@, ',');
                    let positions = contributors(
                        self@,
                        names,
                        requested_mask(start),
                        names.len() as int,
                    );
                    &&& plan is Err <==> exists|k: int|
                        0 <= k < names.len() && !has_font(self@, #[trigger] names[k])
                    &&& plan matches Err(e) ==> e matches FontError::FontNotFound(id) && exists|
                        k: int,
                    |
                        {
                            &&& 0 <= k < names.len()
                            &&& id@ == #[trigger] names[k]
                            &&& !has_font(self@, names[k])
                            &&& forall|j: int| 0 <= j < k ==> has_font(self@, #[trigger] names[j])
                        }
                    &&& plan matches Ok(None) ==> positions.len() == 0
                    &&& plan matches Ok(Some(range)) ==> positions.len() > 0 && range_matches(
                        range,
                        self@,
                        names,
                        start,
                        end,
                    )
                },
            },
    {
        let range_id = match validate_font_range(start, end) {
            Ok(id) => id,
            Err(e) => {
                return Err(e);
            },
        };
        let mut needed = if range_id <= MAX_UNICODE_CP_RANGE_ID {
            duplicate(&self.masks[range_id])
        } else {
            with_capacity(0)
        };
        let pieces = split_on(ids, ',');
        let ghost names = split(ids@, ',');
        let ghost mask = requested_mask(start);
        let mut name = String::new();
        let mut sources: Vec<GlyphSource> = Vec::new();
        let mut k: usize = 0;
        assert(names_at(names, contributors(self@, names, mask, 0)) =~= Seq::<Seq<char>>::empty());
        while k < pieces.len()
            invariant
                k <= pieces.len(),
                pieces.deep_view() == names,
                pieces@.len() == names.len(),
                names == split(ids@, ','),
                range_error(start, end) is None,
                self.wf(),
                mask == requested_mask(start),
                forall|cp: usize| #[trigger] mask.contains(cp) ==> cp <= MAX_UNICODE_CP,
                members(needed) == needed_before(self@, names, mask, k as int),
                forall|j: int| 0 <= j < k ==> has_font(self@, #[trigger] names[j]),
                sources@.len() == contributors(self@, names, mask, k as int).len(),
                forall|j: int|
                    0 <= j < sources@.len() ==> source_matches(
                        #[trigger] sources@[j],
                        self@,
                        names,
                        mask,
                        contributors(self@, names, mask, k as int)[j],
                    ),
                name@ == joined(
                    names_at(names, contributors(self@, names, mask, k as int)),
                    seq![',', ' '],
                ),
            decreases pieces.len() - k,
        {
            let id = &pieces[k];
            assert(id@ == names[k as int]) by {
                assert(pieces.deep_view()[k as int] == pieces@[k as int].deep_view());
            }
            let i = match self.position(id) {
                Some(i) => i,
                None => {
                    let missing = id.clone();
                    assert(missing@ == names[k as int] && !has_font(self@, names[k as int]));
                    return Err(FontError::FontNotFound(missing));
                },
            };
            let font = &self.fonts[i].1;
            assert(members(font.codepoints) == coverage_at(self@, names, k as int));
            let ghost before = contributors(self@, names, mask, k as int);
            let ghost needed_set = members(needed);
            let mut ds = duplicate(&needed);
            intersect_with(&mut ds, &font.codepoints);
            assert(members(ds) == taken(self@, names, mask, k as int));
            if !is_empty(&ds) {
                difference_with(&mut needed, &font.codepoints);
                if sources.len() > 0 {
                    name.append(", ");
                }
                name.append(id.as_str());
                proof {
                    crate::fonts::stack::lemma_needed_before(self@, names, mask, k as int, 0);
                    assert forall|cp: usize| #[trigger] members(ds).contains(cp) implies cp
                        <= MAX_UNICODE_CP by {
                        crate::fonts::stack::lemma_needed_before(self@, names, mask, k as int, cp);
                    }
                }
                let codepoints = codepoints_of(&ds);
                sources.push(
                    GlyphSource {
                        id: id.clone(),
                        path: font.path.clone(),
                        face_index: font.face_index,
                        codepoints,
                    },
                );
                proof {
                    reveal_strlit(", ");
                    assert(", "@ =~= seq![',', ' ']);
                    let after = contributors(self@, names, mask, k as int + 1);
                    assert(after == before.push(k as int));
                    assert(names_at(names, after) =~= names_at(names, before).push(names[k as int]));
                    assert(names_at(names, after).drop_last() =~= names_at(names, before));
                    assert forall|j: int| 0 <= j < sources@.len() implies source_matches(
                        #[trigger] sources@[j],
                        self@,
                        names,
                        mask,
                        after[j],
                    ) by {
                        if j < before.len() {
                            assert(after[j] == before[j]);
                        }
                    }
                }
            } else {
                assert forall|cp: usize| needed_set.contains(cp) implies !members(
                    font.codepoints,
                ).contains(cp) by {
                    assert(!members(ds).contains(cp));
                }
                assert(needed_set.difference(members(font.codepoints)) =~= needed_set);
            }
            k = k + 1;
        }
        if sources.len() == 0 {
            return Ok(None);
        }
        let mut range = decimal_string(start as u64);
        range.append("-");
        let end_text = decimal_string(end as u64);
        range.append(end_text.as_str());
        proof {
            reveal_strlit("-");
            assert("-"@ =~= seq!['-']);
        }
        Ok(Some(GlyphRange { name, range, fonts: sources }))
    }
}

/// Whether a file with the extension `extension` is taken for a font file: OpenType,
/// TrueType and TrueType collections are.
pub fn is_font_extension(extension: &str) -> (is_font: bool)
    ensures
        is_font == (extension@ == "otf"@ || extension@ == "ttf"@ || extension@ == "ttc"@),
{
    let extension = String::from_str(extension);
    extension == String::from_str("otf") || extension == String::from_str("ttf") || extension
        == String::from_str("ttc")
}

/// The fonts that are registered after `faces` were offered one by one, in this order, to
/// a catalog without fonts.
pub open spec fn catalog_of(faces: Seq<FaceModel>) -> Seq<FontModel>
    decreases faces.len(),
{
    if faces.len() == 0 {
        Seq::<FontModel>::empty()
    } else {
        registered(catalog_of(faces.drop_last()), faces.last())
    }
}

/// The catalog entries after `faces` were offered one by one, in this order, to a catalog
/// without fonts.
pub open spec fn entries_of(faces: Seq<FaceModel>) -> Seq<EntryModel>
    decreases faces.len(),
{
    if faces.len() == 0 {
        Seq::<EntryModel>::empty()
    } else {
        described(catalog_of(faces.drop_last()), entries_of(faces.drop_last()), faces.last())
    }
}

/// The faces of `faces` as plain mathematics.
pub open spec fn face_models(faces: Seq<FaceInfo>) -> Seq<FaceModel> {
    Seq::new(faces.len(), |k: int| faces[k].model())
}

/// The kind of an outcome.
pub open spec fn outcome_status(outcome: FaceOutcome) -> FaceStatus {
    match outcome {
        FaceOutcome::Registered { .. } => FaceStatus::Registered,
        FaceOutcome::Duplicate { .. } => FaceStatus::Duplicate,
        FaceOutcome::NoGlyphs { .. } => FaceStatus::NoGlyphs,
    }
}

/// The canonical name that an outcome is about.
pub open spec fn outcome_name(outcome: FaceOutcome) -> Seq<char> {
    match outcome {
        FaceOutcome::Registered { name, .. } => name@,
        FaceOutcome::Duplicate { name, .. } => name@,
        FaceOutcome::NoGlyphs { name } => name@,
    }
}

/// Builds the font catalog from the faces that a scan of the font directories found.
///
/// The faces are offered in the order given. A face without a family name ends the build
/// with an error. Otherwise the answer holds the catalog and, for every face and in the
/// same order, what became of it.
pub fn resolve_fonts(faces: &Vec<FaceInfo>) -> (built: Result<
    (FontSources, Vec<FaceOutcome>),
    FontError,
>)
    ensures
        built is Err <==> exists|k: int|
            0 <= k < faces@.len() && (#[trigger] faces@[k]).family is None,
        built matches Err(e) ==> e matches FontError::MissingFamilyName(path) && exists|k: int|
            {
                &&& 0 <= k < faces@.len()
                &&& (#[trigger] faces@[k]).family is None
                &&& path@ == faces@[k].path@
                &&& forall|j: int| 0 <= j < k ==> (#[trigger] faces@[j]).family is Some
            },
        built matches Ok((sources, outcomes)) ==> {
            &&& sources.wf()
            &&& sources@ == catalog_of(face_models(faces@))
            &&& sources.entries() == entries_of(face_models(faces@))
            &&& outcomes@.len() == faces@.len()
            &&& forall|k: int|
                0 <= k < faces@.len() ==> {
                    &&& outcome_status(#[trigger] outcomes@[k]) == face_status(
                        catalog_of(face_models(faces@).take(k)),
                        faces@[k].model(),
                    )
                    &&& outcome_name(outcomes@[k]) == canonical_name(
                        faces@[k].family.unwrap()@,
                        opt_view(faces@[k].style),
                    )
                }
        },
{
    let mut sources = FontSources::new();
    let mut outcomes: Vec<FaceOutcome> = Vec::new();
    let ghost models = face_models(faces@);
    let mut k: usize = 0;
    assert(models.take(0) =~= Seq::<FaceModel>::empty());
    while k < faces.len()
        invariant
            k <= faces.len(),
            models == face_models(faces@),
            sources.wf(),
            sources@ == catalog_of(models.take(k as int)),
            sources.entries() == entries_of(models.take(k as int)),
            outcomes@.len() == k,
            forall|j: int| 0 <= j < k ==> (#[trigger] faces@[j]).family is Some,
            forall|j: int|
                0 <= j < k ==> {
                    &&& outcome_status(#[trigger] outcomes@[j]) == face_status(
                        catalog_of(models.take(j)),
                        faces@[j].model(),
                    )
                    &&& outcome_name(outcomes@[j]) == canonical_name(
                        faces@[j].family.unwrap()@,
                        opt_view(faces@[j].style),
                    )
                },
        decreases faces.len() - k,
    {
        proof {
            assert(models.take(k as int + 1).drop_last() =~= models.take(k as int));
            assert(models.take(k as int + 1).last() == faces@[k as int].model());
        }
        match sources.register_face(&faces[k]) {
            Ok(outcome) => {
                outcomes.push(outcome);
            },
            Err(e) => {
                return Err(e);
            },
        }
        k = k + 1;
    }
    assert(models.take(k as int) =~= models);
    Ok((sources, outcomes))
}

/// After a catalog was built no name is registered twice, whatever the faces were.
pub proof fn lemma_catalog_names_unique(faces: Seq<FaceModel>)
    ensures
        names_unique(catalog_of(faces)),
    decreases faces.len(),
{
    if faces.len() > 0 {
        lemma_catalog_names_unique(faces.drop_last());
        let before = catalog_of(faces.drop_last());
        let after = catalog_of(faces);
        if face_status(before, faces.last()) is Registered {
            assert forall|i: int, j: int| 0 <= i < j < after.len() implies (#[trigger] after[i]).name
                != (#[trigger] after[j]).name by {
                if j == before.len() {
                    assert(before[i] == after[i]);
                } else {
                    assert(before[i] == after[i] && before[j] == after[j]);
                }
            }
        }
    }
}

} // verus!
