//! The canonical name under which a font face is registered.

use crate::text::string_of;
use crate::text::chars_of;
use regex::Regex;
use vstd::prelude::*;
use vstd::string::*;

verus! {

/// Whether `c` has the Unicode property `White_Space`.
pub open spec fn is_whitespace(c: char) -> bool {
    let u = c as int;
    ||| 0x09 <= u <= 0x0d
    ||| u == 0x20
    ||| u == 0x85
    ||| u == 0xa0
    ||| u == 0x1680
    ||| 0x2000 <= u <= 0x200a
    ||| u == 0x2028
    ||| u == 0x2029
    ||| u == 0x202f
    ||| u == 0x205f
    ||| u == 0x3000
}

/// `s` with every slash and comma turned into a space.
pub open spec fn without_separators(s: Seq<char>) -> Seq<char> {
    s.map_values(
        |c: char|
            if c == '/' || c == ',' {
                ' '
            } else {
                c
            },
    )
}

/// `s` with every maximal run of whitespace turned into one space.
pub open spec fn collapsed(s: Seq<char>) -> Seq<char>
    decreases s.len(),
{
    if s.len() == 0 {
        s
    } else if !is_whitespace(s.last()) {
        collapsed(s.drop_last()).push(s.last())
    } else if s.len() >= 2 && is_whitespace(s[s.len() - 2]) {
        collapsed(s.drop_last())
    } else {
        collapsed(s.drop_last()).push(' ')
    }
}

/// The family name, followed by a space and the style name where there is one.
pub open spec fn full_name(family: Seq<char>, style: Option<Seq<char>>) -> Seq<char> {
    match style {
        Some(style) => family + seq![' '] + style,
        None => family,
    }
}

/// The name under which a face of this family and style is registered.
pub open spec fn canonical_name(family: Seq<char>, style: Option<Seq<char>>) -> Seq<char> {
    collapsed(without_separators(full_name(family, style)))
}

/// The view of an optional text.
pub open spec fn opt_view(s: Option<String>) -> Option<Seq<char>> {
    match s {
        Some(s) => Some(s@),
        None => None,
    }
}

/// `Regex::new(pattern)`, then `Regex::replace_all(text, replacement)`.
///
/// The pattern is a run of one or more whitespace characters and the replacement is one
/// space without any group reference, so every maximal run of whitespace in `text` comes
/// back as a single space and the rest comes back as it is.
#[verifier::external_body]
fn replace_all(pattern: &str, text: &str, replacement: &str) -> (replaced: String)
    requires
        pattern@ == "\\s+"@,
        replacement@ == " "@,
    ensures
        replaced@ == collapsed(text@),
{
    Regex::new(pattern).unwrap().replace_all(text, replacement).into_owned()
}

/// Turns every slash and comma of `s` into a space.
pub fn replace_separators(s: &str) -> (replaced: String)
    ensures
        replaced@ == without_separators(s@),
{
    let chars = chars_of(s);
    let mut out: Vec<char> = Vec::new();
    let mut i: usize = 0;
    while i < chars.len()
        invariant
            i <= chars.len(),
            chars@ == s@,
            out@ == without_separators(chars@.subrange(0, i as int)),
        decreases chars.len() - i,
    {
        let c = chars[i];
        if c == '/' || c == ',' {
            out.push(' ');
        } else {
            out.push(c);
        }
        i = i + 1;
        assert(out@ =~= without_separators(chars@.subrange(0, i as int)));
    }
    assert(chars@.subrange(0, i as int) =~= chars@);
    string_of(&out)
}

/// Composes the canonical name of a face from its family and style names.
pub fn canonical_font_name(family: &String, style: &Option<String>) -> (name: String)
    ensures
        name@ == canonical_name(family@, opt_view(*style)),
{
    let mut name = family.clone();
    match style {
        Some(style) => {
            name.append(" ");
            name.append(style.as_str());
            proof {
                reveal_strlit(" ");
                assert(" "@ =~= seq![' ']);
            }
        },
        None => {},
    }
    assert(name@ == full_name(family@, opt_view(*style)));
    let replaced = replace_separators(name.as_str());
    replace_all("\\s+", replaced.as_str(), " ")
}

/// What [`collapsed`] keeps: no whitespace but the space, no two spaces in a row, and
/// nothing that was not in `s` but the space.
pub proof fn lemma_collapsed_shape(s: Seq<char>)
    ensures
        forall|i: int|
            0 <= i < collapsed(s).len() ==> (#[trigger] collapsed(s)[i] == ' ' || (s.contains(
                collapsed(s)[i],
            ) && !is_whitespace(collapsed(s)[i]))),
        forall|i: int|
            0 <= i < collapsed(s).len() - 1 ==> !(#[trigger] collapsed(s)[i] == ' ' && collapsed(
                s,
            )[i + 1] == ' '),
        s.len() > 0 ==> collapsed(s).len() > 0 && (collapsed(s).last() == ' ' <==> is_whitespace(
            s.last(),
        )),
    decreases s.len(),
{
    if s.len() > 0 {
        let p = s.drop_last();
        lemma_collapsed_shape(p);
        assert forall|i: int| 0 <= i < collapsed(s).len() implies (#[trigger] collapsed(s)[i]
            == ' ' || (s.contains(collapsed(s)[i]) && !is_whitespace(collapsed(s)[i]))) by {
            let c = collapsed(s)[i];
            if i < collapsed(p).len() {
                assert(c == collapsed(p)[i]);
                if c != ' ' {
                    assert(p.contains(c));
                    let k = choose|k: int| 0 <= k < p.len() && p[k] == c;
                    assert(s[k] == c);
                }
            } else if c != ' ' {
                assert(c == s.last());
                assert(s[s.len() - 1] == c);
            }
        }
        if p.len() > 0 {
            assert(p.last() == s[s.len() - 2]);
        }
    }
}

/// A canonical font name holds no slash and no comma, no whitespace but the space, and no
/// two spaces in a row.
pub proof fn lemma_canonical_name_shape(family: Seq<char>, style: Option<Seq<char>>)
    ensures
        forall|i: int|
            0 <= i < canonical_name(family, style).len() ==> {
                let c = #[trigger] canonical_name(family, style)[i];
                c != '/' && c != ',' && (is_whitespace(c) ==> c == ' ')
            },
        forall|i: int|
            0 <= i < canonical_name(family, style).len() - 1 ==> !(#[trigger] canonical_name(
                family,
                style,
            )[i] == ' ' && canonical_name(family, style)[i + 1] == ' '),
{
    let raw = without_separators(full_name(family, style));
    lemma_collapsed_shape(raw);
    assert forall|i: int| 0 <= i < collapsed(raw).len() implies {
        let c = #[trigger] collapsed(raw)[i];
        c != '/' && c != ',' && (is_whitespace(c) ==> c == ' ')
    } by {
        let c = collapsed(raw)[i];
        if c != ' ' {
            assert(raw.contains(c));
            let k = choose|k: int| 0 <= k < raw.len() && raw[k] == c;
            assert(raw[k] != '/' && raw[k] != ',');
        }
    }
}

} // verus!
