//! Directories and files that the server hands out as they are, each under a name.

use crate::pg::table::pairs_view;
use crate::pg::table::text_view;
use std::path::Path;
use vstd::prelude::*;
use vstd::string::*;

verus! {

/// What the command line says of static files: the files and directories to hand out.
#[derive(Debug)]
pub struct StaticsArgs {
    pub files: Option<Vec<String>>,
}

/// A directory to hand out, with the file that answers for the directory itself.
#[derive(Debug)]
pub struct StaticsSource {
    pub path: String,
    pub index_file: Option<String>,
    /// Settings that the server does not know, each with its value as text.
    pub unrecognized: Vec<(String, String)>,
}

/// Where the files of a name come from: a path alone, or a path with settings.
#[derive(Debug)]
pub enum StaticsSourceEnum {
    Simple(String),
    Complex(StaticsSource),
}

/// A [`StaticsSourceEnum`] as plain mathematics.
pub enum StaticsModel {
    Simple(Seq<char>),
    Complex {
        path: Seq<char>,
        index_file: Option<Seq<char>>,
        unrecognized: Seq<(Seq<char>, Seq<char>)>,
    },
}

impl StaticsSourceEnum {
    /// The source as plain mathematics.
    pub open spec fn model(self) -> StaticsModel {
        match self {
            StaticsSourceEnum::Simple(path) => StaticsModel::Simple(path@),
            StaticsSourceEnum::Complex(source) => StaticsModel::Complex {
                path: source.path@,
                index_file: text_view(source.index_file),
                unrecognized: pairs_view(source.unrecognized@),
            },
        }
    }
}

/// The names of `entries`, each with its source, as a map. Where a name stands twice, the
/// later source counts.
pub open spec fn entries_map(entries: Seq<(String, StaticsSourceEnum)>) -> Map<
    Seq<char>,
    StaticsModel,
>
    decreases entries.len(),
{
    if entries.len() == 0 {
        Map::empty()
    } else {
        entries_map(entries.drop_last()).insert(entries.last().0@, entries.last().1.model())
    }
}

/// Whether no name stands twice in `entries`.
pub open spec fn names_unique(entries: Seq<(String, StaticsSourceEnum)>) -> bool {
    forall|i: int, j: int|
        0 <= i < j < entries.len() ==> (#[trigger] entries[i]).0@ != (#[trigger] entries[j]).0@
}

/// The static files of the configuration: the sources by name, where any are set.
#[derive(Debug)]
pub struct StaticsConfig {
    pub files: Option<Vec<(String, StaticsSourceEnum)>>,
}

impl StaticsConfig {
    /// The sources by name, where any are set.
    pub open spec fn view(&self) -> Option<Map<Seq<char>, StaticsModel>> {
        match self.files {
            Some(files) => Some(entries_map(files@)),
            None => None,
        }
    }

    /// Whether no name stands twice in the configuration.
    pub open spec fn wf(&self) -> bool {
        self.files matches Some(files) ==> names_unique(files@)
    }
}

/// Why static files cannot be set up.
#[derive(Debug)]
pub enum StaticsError {
    /// The command line and the configuration give this name to different sources.
    DuplicateSourceId(String),
}

/// A name of `entries` is in their map, with the source of its entry where no name
/// stands twice; and every name of the map is a name of `entries`.
pub proof fn lemma_entries_map(entries: Seq<(String, StaticsSourceEnum)>)
    ensures
        forall|i: int|
            0 <= i < entries.len() ==> entries_map(entries).dom().contains(
                (#[trigger] entries[i]).0@,
            ),
        forall|key: Seq<char>| #[trigger]
            entries_map(entries).dom().contains(key) ==> exists|i: int|
                0 <= i < entries.len() && (#[trigger] entries[i]).0@ == key,
        names_unique(entries) ==> forall|i: int|
            0 <= i < entries.len() ==> entries_map(entries)[(#[trigger] entries[i]).0@]
                == entries[i].1.model(),
    decreases entries.len(),
{
    if entries.len() > 0 {
        let front = entries.drop_last();
        lemma_entries_map(front);
        assert forall|i: int| 0 <= i < entries.len() implies entries_map(entries).dom().contains(
            (#[trigger] entries[i]).0@,
        ) by {
            if i < front.len() {
                assert(front[i] == entries[i]);
            }
        }
        assert forall|key: Seq<char>| #[trigger]
            entries_map(entries).dom().contains(key) implies exists|i: int|
            0 <= i < entries.len() && (#[trigger] entries[i]).0@ == key by {
            if key == entries.last().0@ {
                assert(entries[entries.len() - 1].0@ == key);
            } else {
                let i = choose|i: int| 0 <= i < front.len() && (#[trigger] front[i]).0@ == key;
                assert(entries[i] == front[i]);
            }
        }
        if names_unique(entries) {
            assert(names_unique(front)) by {
                assert forall|i: int, j: int| 0 <= i < j < front.len() implies (
                #[trigger] front[i]).0@ != (#[trigger] front[j]).0@ by {
                    assert(front[i] == entries[i] && front[j] == entries[j]);
                }
            }
            assert forall|i: int| 0 <= i < entries.len() implies entries_map(entries)[(
            #[trigger] entries[i]).0@] == entries[i].1.model() by {
                if i < front.len() {
                    assert(front[i] == entries[i]);
                    assert(entries[i].0@ != entries[entries.len() - 1].0@);
                }
            }
        }
    }
}

/// Whether two lists of pairs of texts hold the same texts.
fn same_pairs(a: &Vec<(String, String)>, b: &Vec<(String, String)>) -> (same: bool)
    ensures
        same == (pairs_view(a@) == pairs_view(b@)),
{
    if a.len() != b.len() {
        assert(pairs_view(a@).len() != pairs_view(b@).len());
        return false;
    }
    let mut i: usize = 0;
    while i < a.len()
        invariant
            i <= a@.len(),
            a@.len() == b@.len(),
            forall|k: int| 0 <= k < i ==> pairs_view(a@)[k] == pairs_view(b@)[k],
        decreases a.len() - i,
    {
        if !(a[i].0 == b[i].0 && a[i].1 == b[i].1) {
            assert(pairs_view(a@)[i as int] != pairs_view(b@)[i as int]);
            return false;
        }
        i = i + 1;
    }
    assert(pairs_view(a@) =~= pairs_view(b@));
    true
}

/// Whether two sources are the same.
pub fn same_source(a: &StaticsSourceEnum, b: &StaticsSourceEnum) -> (same: bool)
    ensures
        same == (a.model() == b.model()),
{
    match (a, b) {
        (StaticsSourceEnum::Simple(x), StaticsSourceEnum::Simple(y)) => *x == *y,
        (StaticsSourceEnum::Complex(x), StaticsSourceEnum::Complex(y)) => {
            let same_index = match (&x.index_file, &y.index_file) {
                (Some(p), Some(q)) => *p == *q,
                (None, None) => true,
                _ => false,
            };
            x.path == y.path && same_index && same_pairs(&x.unrecognized, &y.unrecognized)
        },
        _ => false,
    }
}

/// The position in `entries` of the entry of the name `id`, if there is one.
pub fn find_entry(entries: &Vec<(String, StaticsSourceEnum)>, id: &String) -> (found: Option<usize>)
    ensures
        found is Some <==> entries_map(entries@).dom().contains(id@),
        found matches Some(i) ==> i < entries@.len() && entries@[i as int].0@ == id@,
{
    let mut i: usize = 0;
    while i < entries.len()
        invariant
            i <= entries@.len(),
            forall|k: int| 0 <= k < i ==> (#[trigger] entries@[k]).0@ != id@,
        decreases entries.len() - i,
    {
        if entries[i].0 == *id {
            proof {
                lemma_entries_map(entries@);
            }
            return Some(i);
        }
        i = i + 1;
    }
    proof {
        lemma_entries_map(entries@);
    }
    None
}

/// Sets the source of the name `id` in `entries`.
pub fn put_entry(entries: &mut Vec<(String, StaticsSourceEnum)>, id: String, source: StaticsSourceEnum)
    requires
        names_unique(old(entries)@),
    ensures
        names_unique(final(entries)@),
        entries_map(final(entries)@) == entries_map(old(entries)@).insert(id@, source.model()),
{
    let ghost before = entries@;
    let ghost model = source.model();
    match find_entry(entries, &id) {
        Some(i) => {
            let ghost key = id@;
            entries.push((id, source));
            let _ = entries.swap_remove(i);
            proof {
                assert(entries@.len() == before.len());
                assert forall|a: int, b: int| 0 <= a < b < entries@.len() implies (
                #[trigger] entries@[a]).0@ != (#[trigger] entries@[b]).0@ by {
                    assert(entries@[a].0@ == before[a].0@ && entries@[b].0@ == before[b].0@);
                }
                lemma_entries_map(entries@);
                lemma_entries_map(before);
                assert(entries_map(entries@) =~= entries_map(before).insert(key, model)) by {
                    assert forall|k: Seq<char>|
                        entries_map(entries@).dom().contains(k) <==> entries_map(before).insert(
                            key,
                            model,
                        ).dom().contains(k) by {
                        if entries_map(entries@).dom().contains(k) {
                            let j = choose|j: int|
                                0 <= j < entries@.len() && (#[trigger] entries@[j]).0@ == k;
                            assert(before[j].0@ == k);
                        }
                        if entries_map(before).dom().contains(k) {
                            let j = choose|j: int|
                                0 <= j < before.len() && (#[trigger] before[j]).0@ == k;
                            assert(entries@[j].0@ == k);
                        }
                    }
                    assert forall|k: Seq<char>|
                        entries_map(entries@).dom().contains(k) implies entries_map(entries@)[k]
                        == entries_map(before).insert(key, model)[k] by {
                        let j = choose|j: int|
                            0 <= j < entries@.len() && (#[trigger] entries@[j]).0@ == k;
                        assert(before[j].0@ == k);
                        if j != i {
                            assert(entries@[j] == before[j]);
                            assert(k != key) by {
                                if j < i {
                                    assert(before[j].0@ != before[i as int].0@);
                                } else {
                                    assert(before[i as int].0@ != before[j].0@);
                                }
                            }
                        }
                    }
                }
            }
        },
        None => {
            entries.push((id, source));
            proof {
                lemma_entries_map(before);
                assert(entries@.drop_last() =~= before);
                assert forall|a: int, b: int| 0 <= a < b < entries@.len() implies (
                #[trigger] entries@[a]).0@ != (#[trigger] entries@[b]).0@ by {
                    if b == before.len() {
                        assert(entries@[a] == before[a]);
                        assert(entries_map(before).dom().contains(before[a].0@));
                    } else {
                        assert(entries@[a] == before[a] && entries@[b] == before[b]);
                    }
                }
            }
        },
    }
}

/// Whether the name `key` has different sources in `args` and in `cfg`.
pub open spec fn conflicts(
    args: Map<Seq<char>, StaticsModel>,
    cfg: Map<Seq<char>, StaticsModel>,
    key: Seq<char>,
) -> bool {
    args.dom().contains(key) && cfg.dom().contains(key) && args[key] != cfg[key]
}

/// Merges the sources `args` of the command line into the configuration.
///
/// Without sources on the command line the configuration stays as it is. A name that the
/// two give to different sources is an error, and then the configuration is left without
/// static files. Otherwise the configuration has the sources of both.
#[verifier::loop_isolation(false)]
pub fn merge_files(args: Option<Vec<(String, StaticsSourceEnum)>>, config: &mut StaticsConfig) -> (merged:
    Result<(), StaticsError>)
    requires
        old(config).wf(),
        args matches Some(entries) ==> names_unique(entries@),
    ensures
        final(config).wf(),
        args is None ==> merged is Ok && final(config)@ == old(config)@,
        args is Some && old(config)@ is None ==> merged is Ok && final(config)@ == Some(
            entries_map(args.unwrap()@),
        ),
        args is Some && old(config)@ is Some ==> ({
            let given = entries_map(args.unwrap()@);
            let cfg = old(config)@.unwrap();
            &&& merged is Err <==> exists|key: Seq<char>| conflicts(given, cfg, key)
            &&& merged matches Err(StaticsError::DuplicateSourceId(id)) ==> conflicts(
                given,
                cfg,
                id@,
            ) && final(config)@ is None
            &&& merged is Ok ==> final(config)@ == Some(cfg.union_prefer_right(given))
        }),
{
    let taken = config.files.take();
    match (args, taken) {
        (Some(entries), Some(mut cfg)) => {
            let ghost given = entries_map(entries@);
            let ghost configured = entries_map(cfg@);
            proof {
                lemma_entries_map(entries@);
            }
            let mut rest = entries;
            let ghost all = rest@;
            let ghost mut done: int = 0;
            assert(configured.union_prefer_right(entries_map(all.take(0))) =~= configured) by {
                assert(all.take(0) =~= Seq::<(String, StaticsSourceEnum)>::empty());
            }
            while rest.len() > 0
                invariant
                    0 <= done <= all.len(),
                    rest@ == all.skip(done),
                    names_unique(all),
                    names_unique(cfg@),
                    given == entries_map(all),
                    config.files is None,
                    entries_map(cfg@) == configured.union_prefer_right(
                        entries_map(all.take(done)),
                    ),
                    forall|k: int|
                        0 <= k < done ==> !conflicts(given, configured, (#[trigger] all[k]).0@),
                decreases rest.len(),
            {
                let (k, v) = rest.remove(0);
                proof {
                    assert(all.skip(done)[0] == all[done]);
                    assert(rest@ =~= all.skip(done + 1));
                    lemma_entries_map(all);
                    lemma_entries_map(all.take(done));
                    lemma_entries_map(cfg@);
                    assert(all.take(done + 1).drop_last() =~= all.take(done));
                    assert(all.take(done + 1).last() == all[done]);
                    assert(!entries_map(all.take(done)).dom().contains(k@)) by {
                        if entries_map(all.take(done)).dom().contains(k@) {
                            let j = choose|j: int|
                                0 <= j < done && (#[trigger] all.take(done)[j]).0@ == k@;
                            assert(all[j].0@ != all[done].0@);
                        }
                    }
                }
                match find_entry(&cfg, &k) {
                    Some(i) => {
                        if !same_source(&cfg[i].1, &v) {
                            let id = cfg[i].0.clone();
                            proof {
                                assert(id@ == k@);
                                assert(entries_map(cfg@)[k@] == cfg@[i as int].1.model());
                                assert(configured.dom().contains(k@));
                                assert(configured[k@] == entries_map(cfg@)[k@]);
                                assert(given.dom().contains(all[done].0@));
                                assert(given[all[done].0@] == all[done].1.model());
                                assert(conflicts(given, configured, id@));
                                assert(exists|key: Seq<char>| conflicts(given, configured, key));
                                assert(args is Some);
                                assert(entries_map(args.unwrap()@) == given);
                                assert(old(config)@ is Some);
                                assert(old(config)@.unwrap() == configured);
                                assert(config@ is None);
                            }
                            return Err(StaticsError::DuplicateSourceId(id));
                        }
                        proof {
                            assert(entries_map(cfg@)[k@] == v.model());
                            assert(entries_map(cfg@) =~= configured.union_prefer_right(
                                entries_map(all.take(done + 1)),
                            ));
                        }
                    },
                    None => {
                        put_entry(&mut cfg, k, v);
                        assert(entries_map(cfg@) =~= configured.union_prefer_right(
                            entries_map(all.take(done + 1)),
                        ));
                    },
                }
                proof {
                    done = done + 1;
                }
            }
            proof {
                assert(all.take(done) =~= all);
                lemma_entries_map(all);
                assert forall|key: Seq<char>| !conflicts(given, configured, key) by {
                    if given.dom().contains(key) {
                        let j = choose|j: int| 0 <= j < all.len() && (#[trigger] all[j]).0@ == key;
                        assert(!conflicts(given, configured, all[j].0@));
                    }
                }
            }
            config.files = Some(cfg);
            Ok(())
        },
        (Some(files), None) => {
            config.files = Some(files);
            Ok(())
        },
        (None, files) => {
            config.files = files;
            Ok(())
        },
    }
}

/// `Path::file_stem`, its text read leniently: the name of the file that `path` ends in,
/// without its extension, where the path ends in a name.
#[verifier::external_body]
pub(crate) fn file_stem(path: &str) -> (stem: Option<String>) {
    Path::new(path).file_stem().map(|v| v.to_string_lossy().to_string())
}

/// The paths of `named`, each with the name that was found for it, as plain mathematics.
pub open spec fn named_view(named: Seq<(Option<String>, String)>) -> Seq<
    (Option<Seq<char>>, Seq<char>),
> {
    Seq::new(named.len(), |i: int| (text_view(named[i].0), named[i].1@))
}

/// The sources that the first `n` of `named` stand for: each path for which a name was
/// found is the source of that name, and of two paths with one name the later counts.
pub open spec fn named_sources(named: Seq<(Option<Seq<char>>, Seq<char>)>, n: int) -> Map<
    Seq<char>,
    StaticsModel,
>
    decreases n,
{
    if n <= 0 {
        Map::empty()
    } else {
        let before = named_sources(named, n - 1);
        match named[n - 1].0 {
            Some(id) => before.insert(id, StaticsModel::Simple(named[n - 1].1)),
            None => before,
        }
    }
}

/// The paths `files`, each with the name of `stems` at its place.
pub open spec fn with_stems(stems: Seq<Option<Seq<char>>>, files: Seq<String>) -> Seq<
    (Option<Seq<char>>, Seq<char>),
> {
    Seq::new(files.len(), |i: int| (stems[i], files[i]@))
}

/// The sources that the paths `files` stand for, where `stems` holds for each path, at
/// its place, the name of the file that it ends in, without extension, if it ends in one.
pub open spec fn stem_sources(stems: Seq<Option<Seq<char>>>, files: Seq<String>) -> Map<
    Seq<char>,
    StaticsModel,
> {
    named_sources(with_stems(stems, files), files.len() as int)
}

/// Every source of [`named_sources`] is the path of one of the first `n` of `named`, under
/// the name that was found for that path.
pub proof fn lemma_named_sources(named: Seq<(Option<Seq<char>>, Seq<char>)>, n: int)
    requires
        0 <= n <= named.len(),
    ensures
        forall|key: Seq<char>| #[trigger]
            named_sources(named, n).dom().contains(key) ==> exists|k: int|
                0 <= k < n && (#[trigger] named[k]).0 == Some(key) && named_sources(named, n)[key]
                    == StaticsModel::Simple(named[k].1),
        forall|k: int|
            0 <= k < n && (#[trigger] named[k]).0 is Some ==> named_sources(
                named,
                n,
            ).dom().contains(named[k].0.unwrap()),
    decreases n,
{
    if n > 0 {
        lemma_named_sources(named, n - 1);
        let before = named_sources(named, n - 1);
        let now = named_sources(named, n);
        assert forall|key: Seq<char>| #[trigger] now.dom().contains(key) implies exists|k: int|
            0 <= k < n && (#[trigger] named[k]).0 == Some(key) && now[key] == StaticsModel::Simple(
                named[k].1,
            ) by {
            if named[n - 1].0 == Some(key) {
                assert(now[key] == StaticsModel::Simple(named[n - 1].1));
            } else {
                assert(before.dom().contains(key));
                let k = choose|k: int|
                    0 <= k < n - 1 && (#[trigger] named[k]).0 == Some(key) && before[key]
                        == StaticsModel::Simple(named[k].1);
                assert(now[key] == StaticsModel::Simple(named[k].1));
            }
        }
    }
}

/// The sources that the paths of `named` stand for, where each path comes with the name
/// that was found for it, if one was: each path with a name is the source of that name,
/// and of two paths with one name the later counts.
pub fn sources_of_stems(named: Vec<(Option<String>, String)>) -> (entries: Vec<
    (String, StaticsSourceEnum),
>)
    ensures
        names_unique(entries@),
        entries_map(entries@) == named_sources(named_view(named@), named@.len() as int),
{
    let mut rest = named;
    let ghost all = named_view(rest@);
    let ghost mut done: int = 0;
    let mut entries: Vec<(String, StaticsSourceEnum)> = Vec::new();
    assert(named_view(rest@) =~= all.skip(0));
    while rest.len() > 0
        invariant
            0 <= done <= all.len(),
            named_view(rest@) == all.skip(done),
            rest@.len() == all.len() - done,
            names_unique(entries@),
            entries_map(entries@) == named_sources(all, done),
        decreases rest.len(),
    {
        let ghost before = rest@;
        let (stem, path) = rest.remove(0);
        proof {
            assert(named_view(before)[0] == (text_view(stem), path@));
            assert(all.skip(done)[0] == all[done]);
            assert(named_view(rest@) =~= all.skip(done + 1)) by {
                assert forall|i: int| 0 <= i < rest@.len() implies named_view(rest@)[i]
                    == all.skip(done + 1)[i] by {
                    assert(rest@[i] == before[i + 1]);
                    assert(named_view(before)[i + 1] == all.skip(done)[i + 1]);
                }
            }
        }
        if let Some(id) = stem {
            put_entry(&mut entries, id, StaticsSourceEnum::Simple(path));
        }
        proof {
            done = done + 1;
        }
    }
    entries
}

/// The sources that the paths `files` of a command line stand for: each path that ends in
/// the name of a file is a source under that name without its extension, and of two
/// paths that share a name the later counts.
///
/// Which name a path ends in is for `Path::file_stem` to say. Whatever it says of each
/// path, the sources are those that [`sources_of_stems`] makes of its answers.
pub fn sources_of_paths(files: Vec<String>) -> (entries: Vec<(String, StaticsSourceEnum)>)
    ensures
        names_unique(entries@),
        exists|stems: Seq<Option<Seq<char>>>|
            stems.len() == files@.len() && entries_map(entries@) == #[trigger] stem_sources(
                stems,
                files@,
            ),
        forall|i: int|
            0 <= i < entries@.len() ==> exists|k: int|
                0 <= k < files@.len() && (#[trigger] entries@[i]).1.model() == StaticsModel::Simple(
                    (#[trigger] files@[k])@,
                ),
{
    let mut rest = files;
    let ghost all = rest@;
    let ghost mut stems: Seq<Option<Seq<char>>> = Seq::empty();
    let mut named: Vec<(Option<String>, String)> = Vec::new();
    assert(rest@ =~= all.skip(0));
    while rest.len() > 0
        invariant
            stems.len() <= all.len(),
            named@.len() == stems.len(),
            rest@ == all.skip(stems.len() as int),
            forall|i: int|
                0 <= i < stems.len() ==> (#[trigger] named_view(named@)[i]) == (stems[i], all[i]@),
        decreases rest.len(),
    {
        let ghost done = stems.len() as int;
        let ghost before = named@;
        let value = rest.remove(0);
        proof {
            assert(all.skip(done)[0] == all[done]);
            assert(rest@ =~= all.skip(done + 1));
        }
        let stem = file_stem(value.as_str());
        proof {
            stems = stems.push(text_view(stem));
        }
        named.push((stem, value));
        proof {
            assert forall|i: int| 0 <= i < stems.len() implies (#[trigger] named_view(named@)[i])
                == (stems[i], all[i]@) by {
                if i < done {
                    assert(named@[i] == before[i]);
                    assert(named_view(before)[i] == (stems[i], all[i]@));
                }
            }
        }
    }
    let ghost pairs = named_view(named@);
    let entries = sources_of_stems(named);
    proof {
        assert(pairs =~= with_stems(stems, all));
        assert(entries_map(entries@) == stem_sources(stems, files@));
        lemma_named_sources(pairs, pairs.len() as int);
        lemma_entries_map(entries@);
        assert forall|i: int| 0 <= i < entries@.len() implies exists|k: int|
            0 <= k < files@.len() && (#[trigger] entries@[i]).1.model() == StaticsModel::Simple(
                (#[trigger] files@[k])@,
            ) by {
            let key = entries@[i].0@;
            assert(entries_map(entries@).dom().contains(key));
            let k = choose|k: int|
                0 <= k < pairs.len() && (#[trigger] pairs[k]).0 == Some(key) && named_sources(
                    pairs,
                    pairs.len() as int,
                )[key] == StaticsModel::Simple(pairs[k].1);
            assert(entries@[i].1.model() == StaticsModel::Simple(files@[k]@));
        }
    }
    entries
}

/// Whether `merged` and the configuration `after` are what merging the sources `given`
/// of the command line into the configuration `before` gives.
///
/// A name that the two give to different sources is an error, and then the configuration
/// is left without static files. Otherwise the configuration has the sources of both.
pub open spec fn is_merge_of(
    merged: Result<(), StaticsError>,
    after: Option<Map<Seq<char>, StaticsModel>>,
    before: Option<Map<Seq<char>, StaticsModel>>,
    given: Map<Seq<char>, StaticsModel>,
) -> bool {
    match before {
        Some(cfg) => {
            &&& merged is Err <==> exists|key: Seq<char>| conflicts(given, cfg, key)
            &&& merged matches Err(StaticsError::DuplicateSourceId(id)) ==> conflicts(
                given,
                cfg,
                id@,
            ) && after is None
            &&& merged is Ok ==> after == Some(cfg.union_prefer_right(given))
        },
        None => merged is Ok && after == Some(given),
    }
}

impl StaticsArgs {
    /// Merges the static files of the command line into the configuration `config`.
    ///
    /// Every path of the command line that ends in the name of a file is a source under
    /// that name without its extension. Without paths on the command line the
    /// configuration stays as it is. Where the command line and the configuration give
    /// one name to different sources, that is an error, and the configuration is left
    /// without static files. Otherwise the configuration has the sources of both.
    ///
    /// Which name a path ends in is for `Path::file_stem` to say. Whatever it says of each
    /// path, the outcome is the merge of the sources that [`sources_of_stems`] makes of
    /// its answers.
    pub fn merge_into_config(self, config: &mut StaticsConfig) -> (merged: Result<(), StaticsError>)
        requires
            old(config).wf(),
        ensures
            final(config).wf(),
            self.files is None ==> merged is Ok && final(config)@ == old(config)@,
            self.files matches Some(files) ==> exists|stems: Seq<Option<Seq<char>>>|
                stems.len() == files@.len() && is_merge_of(
                    merged,
                    final(config)@,
                    old(config)@,
                    #[trigger] stem_sources(stems, files@),
                ),
    {
        let ghost paths = self.files;
        let files = match self.files {
            Some(v) => Some(sources_of_paths(v)),
            None => None,
        };
        let ghost given = files;
        let merged = merge_files(files, config);
        proof {
            if paths is Some {
                let stems = choose|stems: Seq<Option<Seq<char>>>|
                    stems.len() == paths.unwrap()@.len() && entries_map(given.unwrap()@)
                        == #[trigger] stem_sources(stems, paths.unwrap()@);
                assert(is_merge_of(
                    merged,
                    config@,
                    old(config)@,
                    stem_sources(stems, paths.unwrap()@),
                ));
            }
        }
        merged
    }
}

impl StaticsConfig {
    /// The settings of the sources that the server does not know, each under the path of
    /// the setting in the configuration: `files`, the name of the source and the name of
    /// the setting, with dots between them.
    pub fn finalize(&self) -> (unrecognized: Result<Vec<(String, String)>, StaticsError>)
        ensures
            unrecognized matches Ok(settings) && pairs_view(settings@) == unrecognized_of(
                match self.files {
                    Some(files) => files@,
                    None => Seq::<(String, StaticsSourceEnum)>::empty(),
                },
            ),
    {
        let mut res: Vec<(String, String)> = Vec::new();
        if let Some(fs) = &self.files {
            let mut i: usize = 0;
            assert(fs@.take(0) =~= Seq::<(String, StaticsSourceEnum)>::empty());
            assert(pairs_view(res@) =~= Seq::<(Seq<char>, Seq<char>)>::empty());
            while i < fs.len()
                invariant
                    i <= fs@.len(),
                    pairs_view(res@) == unrecognized_of(fs@.take(i as int)),
                decreases fs.len() - i,
            {
                assert(fs@.take(i as int + 1).drop_last() =~= fs@.take(i as int));
                assert(fs@.take(i as int + 1).last() == fs@[i as int]);
                if let StaticsSourceEnum::Complex(s) = &fs[i].1 {
                    let ghost before = pairs_view(res@);
                    let mut j: usize = 0;
                    assert(before + prefixed(fs@[i as int].0@, pairs_view(s.unrecognized@), 0)
                        =~= before);
                    while j < s.unrecognized.len()
                        invariant
                            j <= s.unrecognized@.len(),
                            i < fs@.len(),
                            pairs_view(res@) == before + prefixed(
                                fs@[i as int].0@,
                                pairs_view(s.unrecognized@),
                                j as int,
                            ),
                        decreases s.unrecognized.len() - j,
                    {
                        let mut key = String::from_str("files.");
                        key.append(fs[i].0.as_str());
                        key.append(".");
                        key.append(s.unrecognized[j].0.as_str());
                        let ghost r0 = pairs_view(res@);
                        res.push((key, s.unrecognized[j].1.clone()));
                        assert(pairs_view(res@) =~= r0.push(
                            (
                                "files."@ + fs@[i as int].0@ + "."@ + s.unrecognized@[j as int].0@,
                                s.unrecognized@[j as int].1@,
                            ),
                        ));
                        assert(pairs_view(s.unrecognized@)[j as int] == (
                            s.unrecognized@[j as int].0@,
                            s.unrecognized@[j as int].1@,
                        ));
                        j = j + 1;
                    }
                }
                i = i + 1;
            }
            assert(fs@.take(i as int) =~= fs@);
        } else {
            assert(pairs_view(res@) =~= Seq::<(Seq<char>, Seq<char>)>::empty());
        }
        Ok(res)
    }
}

/// The first `n` of the settings `settings` of the source `id`, each under its path in the
/// configuration.
pub open spec fn prefixed(id: Seq<char>, settings: Seq<(Seq<char>, Seq<char>)>, n: int) -> Seq<
    (Seq<char>, Seq<char>),
>
    decreases n,
{
    if n <= 0 {
        Seq::<(Seq<char>, Seq<char>)>::empty()
    } else {
        prefixed(id, settings, n - 1).push(
            ("files."@ + id + "."@ + settings[n - 1].0, settings[n - 1].1),
        )
    }
}

/// The unknown settings of the sources `entries`, in order.
pub open spec fn unrecognized_of(entries: Seq<(String, StaticsSourceEnum)>) -> Seq<
    (Seq<char>, Seq<char>),
>
    decreases entries.len(),
{
    if entries.len() == 0 {
        Seq::<(Seq<char>, Seq<char>)>::empty()
    } else {
        unrecognized_of(entries.drop_last()) + match entries.last().1 {
            StaticsSourceEnum::Complex(source) => prefixed(
                entries.last().0@,
                pairs_view(source.unrecognized@),
                source.unrecognized@.len() as int,
            ),
            StaticsSourceEnum::Simple(_) => Seq::<(Seq<char>, Seq<char>)>::empty(),
        }
    }
}

} // verus!
