//! Static files by name, as the command line gives them: a path alone, or a name, a
//! colon and a path.

use crate::srv::server::is_valid_id_char;
use crate::srv::server::valid_id_char;
use crate::statics::entries_map;
use crate::pg::table::text_view;
use crate::statics::file_stem;
use crate::statics::named_view;
use crate::statics::names_unique;
use crate::statics::put_entry;
use crate::statics::with_stems;
use crate::statics::StaticsModel;
use crate::statics::StaticsSourceEnum;
use crate::text::chars_of;
use crate::text::string_of;
use vstd::prelude::*;
use vstd::string::*;

verus! {

/// What the command line says of static files: the files and directories to hand out,
/// each as a path or as a name, a colon and a path.
#[derive(Debug)]
pub struct StaticsArgs {
    pub files: Option<Vec<String>>,
}

/// The static files of a server: the sources by name, where any are set.
#[derive(Debug)]
pub struct FilesConfig {
    files: Option<Vec<(String, StaticsSourceEnum)>>,
}

/// The place of the first `c` in `s`, if there is one.
pub open spec fn index_of(s: Seq<char>, c: char) -> Option<int>
    decreases s.len(),
{
    if s.len() == 0 {
        None
    } else if s[0] == c {
        Some(0)
    } else {
        match index_of(s.drop_first(), c) {
            Some(i) => Some(i + 1),
            None => None,
        }
    }
}

/// The first `c` in `s` stands at a place before which there is none.
pub proof fn lemma_index_of(s: Seq<char>, c: char)
    ensures
        match index_of(s, c) {
            Some(i) => 0 <= i < s.len() && s[i] == c && forall|k: int|
                0 <= k < i ==> #[trigger] s[k] != c,
            None => forall|k: int| 0 <= k < s.len() ==> #[trigger] s[k] != c,
        },
    decreases s.len(),
{
    if s.len() > 0 && s[0] != c {
        let rest = s.drop_first();
        lemma_index_of(rest, c);
        match index_of(rest, c) {
            Some(i) => {
                assert(s[i + 1] == rest[i]);
                assert forall|k: int| 0 <= k < i + 1 implies #[trigger] s[k] != c by {
                    if k > 0 {
                        assert(s[k] == rest[k - 1]);
                    }
                }
            },
            None => {
                assert forall|k: int| 0 <= k < s.len() implies #[trigger] s[k] != c by {
                    if k > 0 {
                        assert(s[k] == rest[k - 1]);
                    }
                }
            },
        }
    }
}

/// Whether `s` starts with two slashes.
pub open spec fn starts_with_slashes(s: Seq<char>) -> bool {
    s.len() >= 2 && s[0] == '/' && s[1] == '/'
}

/// The name and the path that `value` gives, where it is a name, a colon and a path: what
/// stands before the first colon is made of characters that a name may hold, and what
/// stands after it does not start with two slashes.
pub open spec fn named_source(value: Seq<char>) -> Option<(Seq<char>, Seq<char>)> {
    match index_of(value, ':') {
        Some(i) => {
            let name = value.take(i);
            let path = value.skip(i + 1);
            if !starts_with_slashes(path) && forall|k: int|
                0 <= k < name.len() ==> valid_id_char(#[trigger] name[k]) {
                Some((name, path))
            } else {
                None
            }
        },
        None => None,
    }
}

/// The view of an optional pair of texts.
pub open spec fn pair_view(pair: Option<(String, String)>) -> Option<(Seq<char>, Seq<char>)> {
    match pair {
        Some((a, b)) => Some((a@, b@)),
        None => None,
    }
}

/// Reads `value` as a name, a colon and a path, where it is that.
pub fn parse_named_source(value: &str) -> (parsed: Option<(String, String)>)
    ensures
        pair_view(parsed) == named_source(value@),
{
    let chars = chars_of(value);
    proof {
        lemma_index_of(value@, ':');
    }
    let mut i: usize = 0;
    while i < chars.len() && chars[i] != ':'
        invariant
            i <= chars@.len(),
            chars@ == value@,
            forall|k: int| 0 <= k < i ==> #[trigger] chars@[k] != ':',
        decreases chars.len() - i,
    {
        i = i + 1;
    }
    if i == chars.len() {
        return None;
    }
    assert(index_of(value@, ':') == Some(i as int));
    let ghost name = value@.take(i as int);
    let ghost path = value@.skip(i as int + 1);
    if chars.len() - i > 2 && chars[i + 1] == '/' && chars[i + 2] == '/' {
        assert(path[0] == '/' && path[1] == '/');
        return None;
    }
    assert(!starts_with_slashes(path)) by {
        if path.len() >= 2 {
            assert(path[0] == chars@[i + 1] && path[1] == chars@[i + 2]);
        }
    }
    let mut key: Vec<char> = Vec::new();
    let mut k: usize = 0;
    while k < i
        invariant
            k <= i < chars@.len(),
            chars@ == value@,
            name == value@.take(i as int),
            index_of(value@, ':') == Some(i as int),
            key@ == value@.take(k as int),
            forall|j: int| 0 <= j < k ==> valid_id_char(#[trigger] name[j]),
        decreases i - k,
    {
        if !is_valid_id_char(chars[k]) {
            assert(!valid_id_char(name[k as int]));
            return None;
        }
        key.push(chars[k]);
        assert(key@ =~= value@.take(k as int + 1));
        k = k + 1;
    }
    let mut rest: Vec<char> = Vec::new();
    let mut j: usize = i + 1;
    assert(value@.subrange(i as int + 1, i as int + 1) =~= Seq::<char>::empty());
    while j < chars.len()
        invariant
            i < j <= chars@.len(),
            chars@ == value@,
            rest@ == value@.subrange(i as int + 1, j as int),
        decreases chars.len() - j,
    {
        rest.push(chars[j]);
        j = j + 1;
        assert(rest@ =~= value@.subrange(i as int + 1, j as int));
    }
    assert(rest@ =~= path);
    Some((string_of(&key), string_of(&rest)))
}

/// The sources that the first `n` values of `named` stand for, where each value comes
/// with the name of the file that it ends in, without extension, if it ends in one.
///
/// A value that is a name, a colon and a path is the source of that path under that name.
/// Any other value that ends in the name of a file is a source under that name. Of two
/// values for one name the later counts.
pub open spec fn arg_sources(named: Seq<(Option<Seq<char>>, Seq<char>)>, n: int) -> Map<
    Seq<char>,
    StaticsModel,
>
    decreases n,
{
    if n <= 0 {
        Map::empty()
    } else {
        let before = arg_sources(named, n - 1);
        match named_source(named[n - 1].1) {
            Some((name, path)) => before.insert(name, StaticsModel::Simple(path)),
            None => match named[n - 1].0 {
                Some(stem) => before.insert(stem, StaticsModel::Simple(named[n - 1].1)),
                None => before,
            },
        }
    }
}

impl FilesConfig {
    /// The sources by name, where any are set.
    pub closed spec fn view(&self) -> Option<Map<Seq<char>, StaticsModel>> {
        match self.files {
            Some(files) => Some(entries_map(files@)),
            None => None,
        }
    }

    /// Whether no name stands twice in the configuration.
    pub closed spec fn wf(&self) -> bool {
        self.files matches Some(files) ==> names_unique(files@)
    }

    /// A configuration without static files.
    pub fn new() -> (config: FilesConfig)
        ensures
            config.wf(),
            config@ is None,
    {
        FilesConfig { files: None }
    }

    /// The names with their sources, where any are set.
    pub fn entries(&self) -> (entries: &Option<Vec<(String, StaticsSourceEnum)>>)
        ensures
            match entries {
                Some(files) => self@ == Some(entries_map(files@)),
                None => self@ is None,
            },
    {
        &self.files
    }

    /// Takes over the sources of `other`: where both have sources, those of `other` are
    /// added, and a name that both have gets the source of `other`.
    pub fn merge(&mut self, other: FilesConfig) -> (merged: &mut Self)
        requires
            old(self).wf(),
            other.wf(),
        ensures
            merged.wf(),
            merged@ == match (old(self)@, other@) {
                (Some(first), Some(second)) => Some(first.union_prefer_right(second)),
                (None, second) => second,
                (first, None) => first,
            },
            *final(self) == *final(merged),
    {
        let first = self.files.take();
        self.files = match (first, other.files) {
            (Some(mut first), Some(second)) => {
                let ghost first_map = entries_map(first@);
                let mut rest = second;
                let ghost all = rest@;
                let ghost mut done: int = 0;
                assert(first_map.union_prefer_right(entries_map(all.take(0))) =~= first_map) by {
                    assert(all.take(0) =~= Seq::<(String, StaticsSourceEnum)>::empty());
                }
                while rest.len() > 0
                    invariant
                        0 <= done <= all.len(),
                        rest@ == all.skip(done),
                        names_unique(first@),
                        entries_map(first@) == first_map.union_prefer_right(
                            entries_map(all.take(done)),
                        ),
                    decreases rest.len(),
                {
                    let (k, v) = rest.remove(0);
                    proof {
                        assert(all.skip(done)[0] == all[done]);
                        assert(rest@ =~= all.skip(done + 1));
                        assert(all.take(done + 1).drop_last() =~= all.take(done));
                        assert(all.take(done + 1).last() == all[done]);
                    }
                    put_entry(&mut first, k, v);
                    proof {
                        assert(entries_map(first@) =~= first_map.union_prefer_right(
                            entries_map(all.take(done + 1)),
                        ));
                        done = done + 1;
                    }
                }
                assert(all.take(done) =~= all);
                Some(first)
            },
            (None, Some(second)) => Some(second),
            (first, None) => first,
        };
        self
    }

    /// The configuration as it is used.
    pub fn finalize(self) -> (config: FilesConfig)
        ensures
            config == self,
    {
        self
    }

    /// The static files that the values of `named` stand for, where each value comes with
    /// the name of the file that it ends in, without extension, if it ends in one.
    pub fn from_named(named: Vec<(Option<String>, String)>) -> (config: FilesConfig)
        ensures
            config.wf(),
            config@ == Some(arg_sources(named_view(named@), named@.len() as int)),
    {
        let mut rest = named;
        let ghost all = named_view(rest@);
        let ghost mut done: int = 0;
        let mut entries: Vec<(String, StaticsSourceEnum)> = Vec::new();
        assert(named_view(rest@) =~= all.skip(0));
        while rest.len() > 0
            invariant
                0 <= done <= all.len(),
                named_view(rest@) == all.skip(done),
                rest@.len() == all.len() - done,
                names_unique(entries@),
                entries_map(entries@) == arg_sources(all, done),
            decreases rest.len(),
        {
            let ghost before = rest@;
            let (stem, value) = rest.remove(0);
            proof {
                assert(named_view(before)[0] == (text_view(stem), value@));
                assert(all.skip(done)[0] == all[done]);
                assert(named_view(rest@) =~= all.skip(done + 1)) by {
                    assert forall|i: int| 0 <= i < rest@.len() implies named_view(rest@)[i]
                        == all.skip(done + 1)[i] by {
                        assert(rest@[i] == before[i + 1]);
                        assert(named_view(before)[i + 1] == all.skip(done)[i + 1]);
                    }
                }
            }
            match parse_named_source(value.as_str()) {
                Some((k, v)) => {
                    put_entry(&mut entries, k, StaticsSourceEnum::Simple(v));
                },
                None => {
                    if let Some(id) = stem {
                        put_entry(&mut entries, id, StaticsSourceEnum::Simple(value));
                    }
                },
            }
            proof {
                done = done + 1;
            }
        }
        FilesConfig { files: Some(entries) }
    }

    /// The static files that the command line gives.
    ///
    /// A value that is a name, a colon and a path is the source of that path under that
    /// name. Any other value that ends in the name of a file is a source under that name
    /// without its extension. Of two values for one name the later counts.
    ///
    /// Which name a value ends in is for `Path::file_stem` to say. Whatever it says of each
    /// value, the configuration is what [`FilesConfig::from_named`] makes of its answers.
    pub fn from_args(args: StaticsArgs) -> (config: FilesConfig)
        ensures
            config.wf(),
            args.files is None <==> config@ is None,
            args.files matches Some(values) ==> exists|stems: Seq<Option<Seq<char>>>|
                stems.len() == values@.len() && config@ == Some(
                    arg_sources(#[trigger] with_stems(stems, values@), values@.len() as int),
                ),
    {
        let values = match args.files {
            Some(values) => values,
            None => {
                return FilesConfig { files: None };
            },
        };
        let mut rest = values;
        let ghost all = rest@;
        let ghost mut stems: Seq<Option<Seq<char>>> = Seq::empty();
        let mut named: Vec<(Option<String>, String)> = Vec::new();
        assert(rest@ =~= all.skip(0));
        while rest.len() > 0
            invariant
                stems.len() <= all.len(),
                named@.len() == stems.len(),
                rest@ == all.skip(stems.len() as int),
                forall|i: int|
                    0 <= i < stems.len() ==> (#[trigger] named_view(named@)[i]) == (
                        stems[i],
                        all[i]@,
                    ),
            decreases rest.len(),
        {
            let ghost done = stems.len() as int;
            let ghost before = named@;
            let value = rest.remove(0);
            proof {
                assert(all.skip(done)[0] == all[done]);
                assert(rest@ =~= all.skip(done + 1));
            }
            let stem = match parse_named_source(value.as_str()) {
                Some(_) => None,
                None => file_stem(value.as_str()),
            };
            proof {
                stems = stems.push(text_view(stem));
            }
            named.push((stem, value));
            proof {
                assert forall|i: int| 0 <= i < stems.len() implies (#[trigger] named_view(
                    named@,
                )[i]) == (stems[i], all[i]@) by {
                    if i < done {
                        assert(named@[i] == before[i]);
                        assert(named_view(before)[i] == (stems[i], all[i]@));
                    }
                }
            }
        }
        let ghost pairs = named_view(named@);
        let config = FilesConfig::from_named(named);
        proof {
            assert(pairs =~= with_stems(stems, all));
        }
        config
    }
}

} // verus!
