//! What is known of a table with a geometry column.

use crate::text::lemma_lex_lt_total;
use crate::text::lex_lt;
use crate::text::lowercase;
use crate::text::text_lt;
use crate::text::to_lowercase;
use vstd::prelude::*;
use vstd::string::*;

verus! {

/// A list of pairs of texts as plain mathematics.
pub open spec fn pairs_view(pairs: Seq<(String, String)>) -> Seq<(Seq<char>, Seq<char>)> {
    Seq::new(pairs.len(), |i: int| (pairs[i].0@, pairs[i].1@))
}

/// The view of an optional text.
pub open spec fn text_view(text: Option<String>) -> Option<Seq<char>> {
    match text {
        Some(text) => Some(text@),
        None => None,
    }
}

/// The view of an optional list of pairs of texts.
pub open spec fn opt_pairs_view(pairs: Option<Vec<(String, String)>>) -> Option<
    Seq<(Seq<char>, Seq<char>)>,
> {
    match pairs {
        Some(pairs) => Some(pairs_view(pairs@)),
        None => None,
    }
}

/// A box on the globe. Each bound is a longitude or a latitude in degrees, kept as the
/// bits of a double-precision number: the library carries bounds and never computes on
/// them.
#[derive(Clone, Copy, Debug, PartialEq, Eq, Structural)]
pub struct GeoBBox {
    pub left: u64,
    pub bottom: u64,
    pub right: u64,
    pub top: u64,
}

/// A table with a geometry column, as the database reports it or as the configuration
/// asks for it.
#[derive(Debug)]
pub struct TableInfo {
    /// The name of the layer in the tiles, where it is not the name of the source.
    pub layer_id: Option<String>,
    pub schema: String,
    pub table: String,
    /// The spatial reference of the geometry; zero where it is not set.
    pub srid: i32,
    pub geometry_column: String,
    /// Whether the geometry column has a spatial index, where that is known.
    pub geometry_index: Option<bool>,
    /// Whether the table is a view, where that is known.
    pub is_view: Option<bool>,
    /// The column that gives a feature its identifier.
    pub id_column: Option<String>,
    pub bounds: Option<GeoBBox>,
    /// The width and height of a tile in its own units.
    pub extent: Option<u32>,
    /// The margin around a tile, in the units of the tile.
    pub buffer: Option<u32>,
    /// Whether geometries are cut at the margin.
    pub clip_geom: Option<bool>,
    pub geometry_type: Option<String>,
    /// The columns to put into the tiles, each with its SQL type, in order.
    pub properties: Option<Vec<(String, String)>>,
    /// For each configured column name, the name of the column in the database.
    pub prop_mapping: Vec<(String, String)>,
    /// The comment on the table, where it is JSON: it overrides the generated TileJSON.
    pub tilejson: Option<String>,
}

/// A [`TableInfo`] as plain mathematics.
pub struct TableModel {
    pub layer_id: Option<Seq<char>>,
    pub schema: Seq<char>,
    pub table: Seq<char>,
    pub srid: i32,
    pub geometry_column: Seq<char>,
    pub geometry_index: Option<bool>,
    pub is_view: Option<bool>,
    pub id_column: Option<Seq<char>>,
    pub bounds: Option<GeoBBox>,
    pub extent: Option<u32>,
    pub buffer: Option<u32>,
    pub clip_geom: Option<bool>,
    pub geometry_type: Option<Seq<char>>,
    pub properties: Option<Seq<(Seq<char>, Seq<char>)>>,
    pub prop_mapping: Seq<(Seq<char>, Seq<char>)>,
    pub tilejson: Option<Seq<char>>,
}

/// The name by which messages speak of the table: schema, table and geometry column,
/// with dots between them.
pub open spec fn table_id(schema: Seq<char>, table: Seq<char>, geometry_column: Seq<char>) -> Seq<
    char,
> {
    schema + seq!['.'] + table + seq!['.'] + geometry_column
}

/// A copy of `pairs`.
pub fn clone_pairs(pairs: &Vec<(String, String)>) -> (copy: Vec<(String, String)>)
    ensures
        pairs_view(copy@) == pairs_view(pairs@),
{
    let mut copy: Vec<(String, String)> = Vec::new();
    let mut i: usize = 0;
    while i < pairs.len()
        invariant
            i <= pairs@.len(),
            copy@.len() == i,
            forall|k: int|
                0 <= k < i ==> (#[trigger] copy@[k]).0@ == pairs@[k].0@ && copy@[k].1@
                    == pairs@[k].1@,
        decreases pairs.len() - i,
    {
        copy.push((pairs[i].0.clone(), pairs[i].1.clone()));
        i = i + 1;
    }
    assert(pairs_view(copy@) =~= pairs_view(pairs@));
    copy
}

/// A copy of `text`.
pub fn clone_text(text: &Option<String>) -> (copy: Option<String>)
    ensures
        text_view(copy) == text_view(*text),
{
    match text {
        Some(text) => Some(text.clone()),
        None => None,
    }
}

impl TableInfo {
    /// The table as plain mathematics.
    pub open spec fn view(&self) -> TableModel {
        TableModel {
            layer_id: text_view(self.layer_id),
            schema: self.schema@,
            table: self.table@,
            srid: self.srid,
            geometry_column: self.geometry_column@,
            geometry_index: self.geometry_index,
            is_view: self.is_view,
            id_column: text_view(self.id_column),
            bounds: self.bounds,
            extent: self.extent,
            buffer: self.buffer,
            clip_geom: self.clip_geom,
            geometry_type: text_view(self.geometry_type),
            properties: opt_pairs_view(self.properties),
            prop_mapping: pairs_view(self.prop_mapping@),
            tilejson: text_view(self.tilejson),
        }
    }

    /// The name by which messages speak of the table.
    pub fn format_id(&self) -> (id: String)
        ensures
            id@ == table_id(self.schema@, self.table@, self.geometry_column@),
    {
        let mut id = self.schema.clone();
        id.append(".");
        id.append(self.table.as_str());
        id.append(".");
        id.append(self.geometry_column.as_str());
        proof {
            reveal_strlit(".");
            assert("."@ =~= seq!['.']);
        }
        id
    }

    /// A copy of the table.
    pub fn duplicate(&self) -> (copy: TableInfo)
        ensures
            copy@ == self@,
    {
        let properties = match &self.properties {
            Some(properties) => Some(clone_pairs(properties)),
            None => None,
        };
        TableInfo {
            layer_id: clone_text(&self.layer_id),
            schema: self.schema.clone(),
            table: self.table.clone(),
            srid: self.srid,
            geometry_column: self.geometry_column.clone(),
            geometry_index: self.geometry_index,
            is_view: self.is_view,
            id_column: clone_text(&self.id_column),
            bounds: self.bounds,
            extent: self.extent,
            buffer: self.buffer,
            clip_geom: self.clip_geom,
            geometry_type: clone_text(&self.geometry_type),
            properties,
            prop_mapping: clone_pairs(&self.prop_mapping),
            tilejson: clone_text(&self.tilejson),
        }
    }
}

/// Whether one of `pairs` has `key` as its first text.
pub open spec fn has_key(pairs: Seq<(Seq<char>, Seq<char>)>, key: Seq<char>) -> bool {
    exists|i: int| 0 <= i < pairs.len() && (#[trigger] pairs[i]).0 == key
}

/// The position in `pairs` of the pair whose first text is `key`, if there is one.
pub fn find_key(pairs: &Vec<(String, String)>, key: &str) -> (found: Option<usize>)
    ensures
        found is Some <==> has_key(pairs_view(pairs@), key@),
        found matches Some(i) ==> i < pairs@.len() && pairs@[i as int].0@ == key@,
{
    let wanted = String::from_str(key);
    let mut i: usize = 0;
    while i < pairs.len()
        invariant
            i <= pairs@.len(),
            wanted@ == key@,
            forall|k: int| 0 <= k < i ==> (#[trigger] pairs_view(pairs@)[k]).0 != key@,
        decreases pairs.len() - i,
    {
        if pairs[i].0 == wanted {
            assert(pairs_view(pairs@)[i as int].0 == key@);
            return Some(i);
        }
        i = i + 1;
    }
    None
}

/// The positions below `n` of the columns among `props` whose name is `key` but for the
/// case of its letters.
pub open spec fn folded_matches(props: Seq<(Seq<char>, Seq<char>)>, key: Seq<char>, n: int) -> Seq<
    int,
>
    decreases n,
{
    if n <= 0 {
        Seq::<int>::empty()
    } else if lowercase(props[n - 1].0) == lowercase(key) {
        folded_matches(props, key, n - 1).push(n - 1)
    } else {
        folded_matches(props, key, n - 1)
    }
}

/// The name of the column among `props` that the configured name `key` stands for.
///
/// A column of that very name is it. Failing that, it is the column whose name is `key`
/// but for the case of its letters, where there is exactly one such column. Otherwise
/// there is none.
pub open spec fn normalized_key(props: Seq<(Seq<char>, Seq<char>)>, key: Seq<char>) -> Option<
    Seq<char>,
> {
    if has_key(props, key) {
        Some(key)
    } else {
        let matches = folded_matches(props, key, props.len() as int);
        if matches.len() == 1 {
            Some(props[matches[0]].0)
        } else {
            None
        }
    }
}

/// Finds the column of the database that the configured name `key` stands for.
pub fn normalize_key(props: &Vec<(String, String)>, key: &str) -> (column: Option<String>)
    ensures
        text_view(column) == normalized_key(pairs_view(props@), key@),
{
    if find_key(props, key).is_some() {
        return Some(String::from_str(key));
    }
    let ghost model = pairs_view(props@);
    let folded = to_lowercase(key);
    let mut result: Option<usize> = None;
    let mut multiple = false;
    let mut i: usize = 0;
    while i < props.len()
        invariant
            i <= props@.len(),
            model == pairs_view(props@),
            folded@ == lowercase(key@),
            result is None ==> folded_matches(model, key@, i as int).len() == 0 && !multiple,
            result matches Some(r) ==> r < i && if multiple {
                folded_matches(model, key@, i as int).len() >= 2
            } else {
                folded_matches(model, key@, i as int) == seq![r as int]
            },
        decreases props.len() - i,
    {
        if to_lowercase(props[i].0.as_str()) == folded {
            if result.is_none() {
                result = Some(i);
            } else {
                multiple = true;
            }
        }
        i = i + 1;
    }
    if multiple {
        None
    } else {
        match result {
            Some(r) => Some(props[r].0.clone()),
            None => None,
        }
    }
}

/// The second text of the first pair of `pairs` whose first text is `key`.
pub open spec fn lookup(pairs: Seq<(Seq<char>, Seq<char>)>, key: Seq<char>) -> Option<Seq<char>>
    decreases pairs.len(),
{
    if pairs.len() == 0 {
        None
    } else if pairs[0].0 == key {
        Some(pairs[0].1)
    } else {
        lookup(pairs.drop_first(), key)
    }
}

/// The second text of the first pair of `pairs` whose first text is `key`.
pub fn lookup_key<'a>(pairs: &'a Vec<(String, String)>, key: &str) -> (found: Option<&'a String>)
    ensures
        text_view_ref(found) == lookup(pairs_view(pairs@), key@),
{
    let wanted = String::from_str(key);
    let ghost model = pairs_view(pairs@);
    let mut i: usize = 0;
    assert(model.skip(0) =~= model);
    while i < pairs.len()
        invariant
            i <= pairs@.len(),
            wanted@ == key@,
            model == pairs_view(pairs@),
            lookup(model, key@) == lookup(model.skip(i as int), key@),
        decreases pairs.len() - i,
    {
        assert(model.skip(i as int)[0] == model[i as int]);
        assert(model.skip(i as int).drop_first() =~= model.skip(i as int + 1));
        if pairs[i].0 == wanted {
            return Some(&pairs[i].1);
        }
        i = i + 1;
    }
    None
}

/// The view of an optional borrowed text.
pub open spec fn text_view_ref(text: Option<&String>) -> Option<Seq<char>> {
    match text {
        Some(text) => Some(text@),
        None => None,
    }
}

/// Whether the first texts of `pairs` rise from each pair to the next in the order of
/// texts, so that none of them occurs twice.
pub open spec fn keys_rising(pairs: Seq<(Seq<char>, Seq<char>)>) -> bool {
    forall|i: int, j: int|
        0 <= i < j < pairs.len() ==> lex_lt((#[trigger] pairs[i]).0, (#[trigger] pairs[j]).0)
}

/// Whether no two of `pairs` have the same first text.
pub open spec fn keys_distinct(pairs: Seq<(Seq<char>, Seq<char>)>) -> bool {
    forall|i: int, j: int|
        0 <= i < j < pairs.len() ==> (#[trigger] pairs[i]).0 != (#[trigger] pairs[j]).0
}

/// The ordered map `map` with `value` set for `key`: in the place of the pair of that key
/// where there is one, and else where the order of the keys asks for it.
pub open spec fn put_ordered(
    map: Seq<(Seq<char>, Seq<char>)>,
    key: Seq<char>,
    value: Seq<char>,
) -> Seq<(Seq<char>, Seq<char>)>
    decreases map.len(),
{
    if map.len() == 0 {
        seq![(key, value)]
    } else if map.last().0 == key {
        map.drop_last().push((key, value))
    } else if lex_lt(map.last().0, key) {
        map.push((key, value))
    } else {
        put_ordered(map.drop_last(), key, value).push(map.last())
    }
}

/// The ordered map of `pairs`: its pairs in rising order of their first texts, each first
/// text once, with the second text of its last pair.
pub open spec fn ordered_pairs(pairs: Seq<(Seq<char>, Seq<char>)>) -> Seq<(Seq<char>, Seq<char>)>
    decreases pairs.len(),
{
    if pairs.len() == 0 {
        pairs
    } else {
        put_ordered(ordered_pairs(pairs.drop_last()), pairs.last().0, pairs.last().1)
    }
}

/// Setting a value in an ordered map keeps it ordered, and adds no key but the one set.
pub proof fn lemma_put_ordered(map: Seq<(Seq<char>, Seq<char>)>, key: Seq<char>, value: Seq<char>)
    requires
        keys_rising(map),
    ensures
        keys_rising(put_ordered(map, key, value)),
        forall|i: int|
            0 <= i < put_ordered(map, key, value).len() ==> (#[trigger] put_ordered(
                map,
                key,
                value,
            )[i]).0 == key || exists|j: int|
                0 <= j < map.len() && (#[trigger] map[j]).0 == put_ordered(map, key, value)[i].0,
    decreases map.len(),
{
    let out = put_ordered(map, key, value);
    if map.len() == 0 {
    } else if map.last().0 == key {
        assert forall|i: int, j: int| 0 <= i < j < out.len() implies lex_lt(
            (#[trigger] out[i]).0,
            (#[trigger] out[j]).0,
        ) by {
            assert(out[i].0 == map[i].0 && out[j].0 == map[j].0);
        }
        assert forall|i: int| 0 <= i < out.len() implies (#[trigger] out[i]).0 == key || exists|
            j: int,
        |
            0 <= j < map.len() && (#[trigger] map[j]).0 == out[i].0 by {
            assert(map[i].0 == out[i].0);
        }
    } else if lex_lt(map.last().0, key) {
        assert forall|i: int, j: int| 0 <= i < j < out.len() implies lex_lt(
            (#[trigger] out[i]).0,
            (#[trigger] out[j]).0,
        ) by {
            if j == map.len() {
                if i < map.len() - 1 {
                    assert(lex_lt(map[i].0, map[map.len() - 1].0));
                    lemma_lex_lt_total(map[i].0, map.last().0, key);
                }
            } else {
                assert(out[i] == map[i] && out[j] == map[j]);
            }
        }
        assert forall|i: int| 0 <= i < out.len() implies (#[trigger] out[i]).0 == key || exists|
            j: int,
        |
            0 <= j < map.len() && (#[trigger] map[j]).0 == out[i].0 by {
            if i < map.len() {
                assert(map[i].0 == out[i].0);
            }
        }
    } else {
        let front = map.drop_last();
        assert(keys_rising(front)) by {
            assert forall|i: int, j: int| 0 <= i < j < front.len() implies lex_lt(
                (#[trigger] front[i]).0,
                (#[trigger] front[j]).0,
            ) by {
                assert(front[i] == map[i] && front[j] == map[j]);
            }
        }
        lemma_put_ordered(front, key, value);
        let inner = put_ordered(front, key, value);
        lemma_lex_lt_total(map.last().0, key, key);
        assert(lex_lt(key, map.last().0));
        assert forall|i: int, j: int| 0 <= i < j < out.len() implies lex_lt(
            (#[trigger] out[i]).0,
            (#[trigger] out[j]).0,
        ) by {
            if j == inner.len() {
                assert(out[i] == inner[i]);
                if inner[i].0 != key {
                    let k = choose|k: int| 0 <= k < front.len() && (#[trigger] front[k]).0
                        == inner[i].0;
                    assert(front[k] == map[k]);
                    assert(lex_lt(map[k].0, map[map.len() - 1].0));
                }
            } else {
                assert(out[i] == inner[i] && out[j] == inner[j]);
            }
        }
        assert forall|i: int| 0 <= i < out.len() implies (#[trigger] out[i]).0 == key || exists|
            j: int,
        |
            0 <= j < map.len() && (#[trigger] map[j]).0 == out[i].0 by {
            if i < inner.len() {
                assert(out[i] == inner[i]);
                if inner[i].0 != key {
                    let k = choose|k: int| 0 <= k < front.len() && (#[trigger] front[k]).0
                        == inner[i].0;
                    assert(map[k].0 == out[i].0);
                }
            } else {
                assert(map[map.len() - 1].0 == out[i].0);
            }
        }
    }
}

/// An ordered map of pairs is ordered.
pub proof fn lemma_ordered_pairs(pairs: Seq<(Seq<char>, Seq<char>)>)
    ensures
        keys_rising(ordered_pairs(pairs)),
    decreases pairs.len(),
{
    if pairs.len() > 0 {
        lemma_ordered_pairs(pairs.drop_last());
        lemma_put_ordered(ordered_pairs(pairs.drop_last()), pairs.last().0, pairs.last().1);
    }
}

/// Where `key` goes before every pair of `map` from `pos` on, setting it replaces the
/// pair in front of `pos` where that has the key, and else puts a pair in at `pos`.
proof fn lemma_put_at(
    map: Seq<(Seq<char>, Seq<char>)>,
    key: Seq<char>,
    value: Seq<char>,
    pos: int,
)
    requires
        0 <= pos <= map.len(),
        forall|j: int| pos <= j < map.len() ==> lex_lt(key, (#[trigger] map[j]).0),
        pos > 0 ==> !lex_lt(key, map[pos - 1].0),
    ensures
        put_ordered(map, key, value) == if pos > 0 && map[pos - 1].0 == key {
            map.update(pos - 1, (key, value))
        } else {
            map.insert(pos, (key, value))
        },
    decreases map.len(),
{
    if map.len() == 0 {
        assert(map.insert(0, (key, value)) =~= seq![(key, value)]);
    } else if pos == map.len() {
        if map.last().0 == key {
            assert(map.drop_last().push((key, value)) =~= map.update(pos - 1, (key, value)));
        } else {
            lemma_lex_lt_total(map.last().0, key, key);
            assert(map.insert(pos, (key, value)) =~= map.push((key, value)));
        }
    } else {
        let last = map[map.len() - 1];
        assert(lex_lt(key, last.0));
        lemma_lex_lt_total(key, last.0, key);
        lemma_put_at(map.drop_last(), key, value, pos);
        if pos > 0 && map[pos - 1].0 == key {
            assert(map.drop_last().update(pos - 1, (key, value)).push(last) =~= map.update(
                pos - 1,
                (key, value),
            ));
        } else {
            assert(map.drop_last().insert(pos, (key, value)).push(last) =~= map.insert(
                pos,
                (key, value),
            ));
        }
    }
}

/// The ordered map of `pairs`: its pairs in rising order of their first texts, each first
/// text once, with the second text of its last pair.
pub fn ordered(pairs: &Vec<(String, String)>) -> (map: Vec<(String, String)>)
    ensures
        pairs_view(map@) == ordered_pairs(pairs_view(pairs@)),
        keys_rising(pairs_view(map@)),
{
    let ghost all = pairs_view(pairs@);
    let mut map: Vec<(String, String)> = Vec::new();
    let mut i: usize = 0;
    assert(all.take(0) =~= Seq::<(Seq<char>, Seq<char>)>::empty());
    assert(pairs_view(map@) =~= Seq::<(Seq<char>, Seq<char>)>::empty());
    while i < pairs.len()
        invariant
            i <= pairs@.len(),
            all == pairs_view(pairs@),
            pairs_view(map@) == ordered_pairs(all.take(i as int)),
        decreases pairs.len() - i,
    {
        let ghost before = pairs_view(map@);
        let key = pairs[i].0.clone();
        let value = pairs[i].1.clone();
        proof {
            assert(all.take(i as int + 1).drop_last() =~= all.take(i as int));
            assert(all.take(i as int + 1).last() == (key@, value@));
        }
        let mut pos: usize = map.len();
        while pos > 0 && text_lt(key.as_str(), map[pos - 1].0.as_str())
            invariant
                pos <= map@.len(),
                before == pairs_view(map@),
                forall|j: int| pos <= j < before.len() ==> lex_lt(key@, (#[trigger] before[j]).0),
            decreases pos,
        {
            assert(before[pos - 1].0 == map@[pos - 1].0@);
            pos = pos - 1;
        }
        proof {
            if pos > 0 {
                assert(before[pos - 1].0 == map@[pos - 1].0@);
            }
            lemma_put_at(before, key@, value@, pos as int);
        }
        if pos > 0 && map[pos - 1].0 == key {
            map.set(pos - 1, (key, value));
            assert(pairs_view(map@) =~= before.update(pos - 1, (key@, value@)));
        } else {
            map.insert(pos, (key, value));
            assert(pairs_view(map@) =~= before.insert(pos as int, (key@, value@)));
        }
        i = i + 1;
    }
    proof {
        assert(all.take(i as int) =~= all);
        lemma_ordered_pairs(all);
    }
    map
}

impl TableModel {
    /// Whether the columns of the table are an ordered map: in rising order of their
    /// names, each name once.
    pub open spec fn properties_ordered(self) -> bool {
        self.properties matches Some(properties) ==> keys_rising(properties)
    }

    /// What holds of a table that the library makes: its columns are an ordered map, and
    /// no configured name is mapped twice.
    pub open spec fn wf(self) -> bool {
        self.properties_ordered() && keys_distinct(self.prop_mapping)
    }
}

/// Whether the first texts of `pairs` rise from each pair to the next.
pub fn are_keys_rising(pairs: &Vec<(String, String)>) -> (rising: bool)
    ensures
        rising == keys_rising(pairs_view(pairs@)),
{
    let ghost model = pairs_view(pairs@);
    let mut i: usize = 1;
    while i < pairs.len()
        invariant
            1 <= i,
            model == pairs_view(pairs@),
            forall|a: int, b: int|
                0 <= a < b < i && b < model.len() ==> lex_lt(
                    (#[trigger] model[a]).0,
                    (#[trigger] model[b]).0,
                ),
        decreases pairs.len() - i,
    {
        assert(model[i - 1].0 == pairs@[i - 1].0@ && model[i as int].0 == pairs@[i as int].0@);
        if !text_lt(pairs[i - 1].0.as_str(), pairs[i].0.as_str()) {
            return false;
        }
        proof {
            assert forall|a: int, b: int| 0 <= a < b < i + 1 && b < model.len() implies lex_lt(
                (#[trigger] model[a]).0,
                (#[trigger] model[b]).0,
            ) by {
                if b == i && a < i - 1 {
                    assert(lex_lt(model[a].0, model[i - 1].0));
                    lemma_lex_lt_total(model[a].0, model[i - 1].0, model[i as int].0);
                }
            }
        }
        i = i + 1;
    }
    true
}

/// Whether no two of `pairs` have the same first text.
pub fn are_keys_distinct(pairs: &Vec<(String, String)>) -> (distinct: bool)
    ensures
        distinct == keys_distinct(pairs_view(pairs@)),
{
    let ghost model = pairs_view(pairs@);
    let mut j: usize = 0;
    while j < pairs.len()
        invariant
            j <= pairs@.len(),
            model == pairs_view(pairs@),
            forall|a: int, b: int|
                0 <= a < b < j ==> (#[trigger] model[a]).0 != (#[trigger] model[b]).0,
        decreases pairs.len() - j,
    {
        let mut i: usize = 0;
        while i < j
            invariant
                i <= j < pairs@.len(),
                model == pairs_view(pairs@),
                forall|a: int| 0 <= a < i ==> (#[trigger] model[a]).0 != model[j as int].0,
            decreases j - i,
        {
            assert(model[i as int].0 == pairs@[i as int].0@ && model[j as int].0
                == pairs@[j as int].0@);
            if pairs[i].0 == pairs[j].0 {
                return false;
            }
            i = i + 1;
        }
        j = j + 1;
    }
    true
}

impl TableInfo {
    /// What holds of a table that the library makes: its columns are an ordered map, and
    /// no configured name is mapped twice.
    pub open spec fn wf(&self) -> bool {
        self@.wf()
    }

    /// Whether the columns of the table are an ordered map and no configured name is
    /// mapped twice.
    pub fn is_wf(&self) -> (valid: bool)
        ensures
            valid == self.wf(),
    {
        let ordered = match &self.properties {
            Some(properties) => are_keys_rising(properties),
            None => true,
        };
        ordered && are_keys_distinct(&self.prop_mapping)
    }
}

} // verus!
