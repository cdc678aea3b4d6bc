//! The tables with a geometry column that a database reports.

use crate::pg::table::keys_distinct;
use crate::pg::table::lemma_ordered_pairs;
use crate::pg::table::ordered;
use crate::pg::table::ordered_pairs;
use crate::pg::table::clone_text;
use crate::pg::table::pairs_view;
use crate::pg::table::table_id;
use crate::pg::table::text_view;
use crate::pg::table::TableInfo;
use crate::pg::table::TableModel;
use serde_json::Value;
use vstd::prelude::*;
use vstd::string::*;

verus! {

/// One row of the answer to the query for the tables with a geometry column.
#[derive(Debug)]
pub struct TableRow {
    pub schema: String,
    pub name: String,
    /// The comment on the table, if it has one.
    pub description: Option<String>,
    /// The name of the geometry column.
    pub geom: String,
    pub geom_idx: Option<bool>,
    pub is_view: Option<bool>,
    pub srid: i32,
    pub geometry_type: Option<String>,
    /// The other columns of the table, each with its SQL type.
    pub properties: Vec<(String, String)>,
}

/// Something worth a warning that the report of the database shows.
#[derive(Debug)]
pub enum TableWarning {
    /// The comment on this table of this schema is no JSON: the TileJSON of the table is
    /// generated.
    UnparsableComment(String, String),
    /// This geometry column of this table of this schema has no spatial index.
    MissingIndex(String, String, String),
    /// The database reported the table of this name twice; the later report counts.
    Duplicate(String),
}

/// A [`TableWarning`] as plain mathematics.
pub enum WarningModel {
    UnparsableComment(Seq<char>, Seq<char>),
    MissingIndex(Seq<char>, Seq<char>, Seq<char>),
    Duplicate(Seq<char>),
}

impl TableWarning {
    /// The warning as plain mathematics.
    pub open spec fn model(self) -> WarningModel {
        match self {
            TableWarning::UnparsableComment(schema, table) => WarningModel::UnparsableComment(
                schema@,
                table@,
            ),
            TableWarning::MissingIndex(schema, table, column) => WarningModel::MissingIndex(
                schema@,
                table@,
                column@,
            ),
            TableWarning::Duplicate(id) => WarningModel::Duplicate(id@),
        }
    }
}

/// The warnings of `warnings` as plain mathematics.
pub open spec fn warnings_view(warnings: Seq<TableWarning>) -> Seq<WarningModel> {
    Seq::new(warnings.len(), |i: int| warnings[i].model())
}

/// Whether `serde_json` reads `text` as a JSON value.
pub uninterp spec fn parses_as_json(text: Seq<char>) -> bool;

/// `serde_json::from_str` for a `Value`: whether `text` is read as a JSON value.
#[verifier::external_body]
fn is_json(text: &str) -> (parsed: bool)
    ensures
        parsed == parses_as_json(text@),
{
    serde_json::from_str::<Value>(text).is_ok()
}

/// A row as plain mathematics.
pub struct RowModel {
    pub schema: Seq<char>,
    pub name: Seq<char>,
    pub description: Option<Seq<char>>,
    pub geom: Seq<char>,
    pub geom_idx: Option<bool>,
    pub is_view: Option<bool>,
    pub srid: i32,
    pub geometry_type: Option<Seq<char>>,
    pub properties: Seq<(Seq<char>, Seq<char>)>,
}

impl TableRow {
    /// The row as plain mathematics.
    pub open spec fn model(&self) -> RowModel {
        RowModel {
            schema: self.schema@,
            name: self.name@,
            description: text_view(self.description),
            geom: self.geom@,
            geom_idx: self.geom_idx,
            is_view: self.is_view,
            srid: self.srid,
            geometry_type: text_view(self.geometry_type),
            properties: pairs_view(self.properties@),
        }
    }
}

/// The rows of `rows` as plain mathematics.
pub open spec fn rows_view(rows: Seq<TableRow>) -> Seq<RowModel> {
    Seq::new(rows.len(), |i: int| rows[i].model())
}

/// The comment of a row, where it is JSON.
pub open spec fn tilejson_of(row: RowModel) -> Option<Seq<char>> {
    match row.description {
        Some(text) => if parses_as_json(text) {
            Some(text)
        } else {
            None
        },
        None => None,
    }
}

/// The table that a row reports. Its columns are those of the row as an ordered map.
pub open spec fn table_of(row: RowModel) -> TableModel {
    TableModel {
        layer_id: None,
        schema: row.schema,
        table: row.name,
        srid: row.srid,
        geometry_column: row.geom,
        geometry_index: row.geom_idx,
        is_view: row.is_view,
        id_column: None,
        bounds: None,
        extent: None,
        buffer: None,
        clip_geom: None,
        geometry_type: row.geometry_type,
        properties: Some(ordered_pairs(row.properties)),
        prop_mapping: Seq::<(Seq<char>, Seq<char>)>::empty(),
        tilejson: tilejson_of(row),
    }
}

/// Whether `a` and `b` are the same geometry column of the same table.
pub open spec fn same_table(a: TableModel, b: TableModel) -> bool {
    a.schema == b.schema && a.table == b.table && a.geometry_column == b.geometry_column
}

/// Whether the geometry column of `table` is among `tables`.
pub open spec fn has_table(tables: Seq<TableModel>, table: TableModel) -> bool {
    exists|i: int| 0 <= i < tables.len() && same_table(#[trigger] tables[i], table)
}

/// The position of the geometry column of `table` among `tables`.
pub open spec fn table_index(tables: Seq<TableModel>, table: TableModel) -> int {
    choose|i: int| 0 <= i < tables.len() && same_table(#[trigger] tables[i], table)
}

/// Whether no geometry column is twice among `tables`.
pub open spec fn tables_unique(tables: Seq<TableModel>) -> bool {
    forall|i: int, j: int|
        0 <= i < j < tables.len() ==> !same_table(#[trigger] tables[i], #[trigger] tables[j])
}

/// `tables` with `table` put in: in the place of the report of the same geometry column
/// where there is one, and at the end otherwise.
pub open spec fn put(tables: Seq<TableModel>, table: TableModel) -> Seq<TableModel> {
    if has_table(tables, table) {
        tables.update(table_index(tables, table), table)
    } else {
        tables.push(table)
    }
}

/// The tables that the rows report, each geometry column once.
pub open spec fn tables_of(rows: Seq<RowModel>) -> Seq<TableModel>
    decreases rows.len(),
{
    if rows.len() == 0 {
        Seq::<TableModel>::empty()
    } else {
        put(tables_of(rows.drop_last()), table_of(rows.last()))
    }
}

/// The warnings that `row` is worth, given the tables reported before it: for a comment
/// that is no JSON, for a table without spatial index that is no view, and for a geometry
/// column that was reported before, in this order.
pub open spec fn row_warnings(before: Seq<TableModel>, row: RowModel) -> Seq<WarningModel> {
    let comment = if row.description is Some && tilejson_of(row) is None {
        seq![WarningModel::UnparsableComment(row.schema, row.name)]
    } else {
        Seq::<WarningModel>::empty()
    };
    let index = if row.geom_idx == Some(false) && row.is_view == Some(false) {
        seq![WarningModel::MissingIndex(row.schema, row.name, row.geom)]
    } else {
        Seq::<WarningModel>::empty()
    };
    let duplicate = if has_table(before, table_of(row)) {
        seq![WarningModel::Duplicate(table_id(row.schema, row.name, row.geom))]
    } else {
        Seq::<WarningModel>::empty()
    };
    comment + index + duplicate
}

/// The warnings that the rows are worth, in the order of the rows.
pub open spec fn warnings_of(rows: Seq<RowModel>) -> Seq<WarningModel>
    decreases rows.len(),
{
    if rows.len() == 0 {
        Seq::<WarningModel>::empty()
    } else {
        warnings_of(rows.drop_last()) + row_warnings(tables_of(rows.drop_last()), rows.last())
    }
}

/// The tables with a geometry column of a database, each geometry column once.
#[derive(Debug)]
pub struct TableCatalog {
    tables: Vec<TableInfo>,
}

impl TableCatalog {
    /// The tables, in the order in which they were first reported.
    pub closed spec fn view(&self) -> Seq<TableModel> {
        Seq::new(self.tables@.len(), |i: int| self.tables@[i]@)
    }

    /// What holds of every value of this type that the library hands out: no geometry
    /// column is in it twice.
    pub open spec fn wf(&self) -> bool {
        tables_unique(self@)
    }

    /// No tables.
    pub fn new() -> (catalog: TableCatalog)
        ensures
            catalog.wf(),
            catalog@ == Seq::<TableModel>::empty(),
    {
        let catalog = TableCatalog { tables: Vec::new() };
        assert(catalog@ =~= Seq::<TableModel>::empty());
        catalog
    }

    /// The number of tables.
    pub fn len(&self) -> (n: usize)
        ensures
            n == self@.len(),
    {
        self.tables.len()
    }

    /// The table at `index`.
    pub fn table(&self, index: usize) -> (table: &TableInfo)
        requires
            index < self@.len(),
        ensures
            table@ == self@[index as int],
    {
        &self.tables[index]
    }

    /// The position of the geometry column `geometry_column` of the table `table` of the
    /// schema `schema`, if it is there.
    pub fn position(&self, schema: &String, table: &String, geometry_column: &String) -> (found:
        Option<usize>)
        ensures
            match found {
                Some(i) => {
                    &&& i < self@.len()
                    &&& self@[i as int].schema == schema@
                    &&& self@[i as int].table == table@
                    &&& self@[i as int].geometry_column == geometry_column@
                },
                None => forall|i: int|
                    0 <= i < self@.len() ==> !((#[trigger] self@[i]).schema == schema@
                        && self@[i].table == table@ && self@[i].geometry_column
                        == geometry_column@),
            },
    {
        let mut i: usize = 0;
        while i < self.tables.len()
            invariant
                i <= self.tables@.len(),
                self@.len() == self.tables@.len(),
                forall|k: int|
                    0 <= k < i ==> !((#[trigger] self@[k]).schema == schema@ && self@[k].table
                        == table@ && self@[k].geometry_column == geometry_column@),
            decreases self.tables.len() - i,
        {
            let t = &self.tables[i];
            assert(self@[i as int] == t@);
            if t.schema == *schema && t.table == *table && t.geometry_column == *geometry_column {
                return Some(i);
            }
            i = i + 1;
        }
        None
    }

    /// Puts `info` into the catalog. An earlier report of the same geometry column is
    /// replaced and handed back.
    pub fn insert(&mut self, info: TableInfo) -> (replaced: Option<TableInfo>)
        requires
            old(self).wf(),
        ensures
            final(self).wf(),
            final(self)@ == put(old(self)@, info@),
            replaced is Some <==> has_table(old(self)@, info@),
            replaced matches Some(previous) ==> previous@ == old(self)@[table_index(
                old(self)@,
                info@,
            )],
    {
        let ghost before = self@;
        let ghost model = info@;
        match self.position(&info.schema, &info.table, &info.geometry_column) {
            Some(i) => {
                assert(same_table(before[i as int], model));
                assert(table_index(before, model) == i) by {
                    let j = table_index(before, model);
                    if j < i {
                        assert(!same_table(before[j], before[i as int]));
                    } else if i < j {
                        assert(!same_table(before[i as int], before[j]));
                    }
                }
                self.tables.push(info);
                let previous = self.tables.swap_remove(i);
                proof {
                    assert(self@ =~= before.update(i as int, model));
                    assert forall|a: int, b: int| 0 <= a < b < self@.len() implies !same_table(
                        #[trigger] self@[a],
                        #[trigger] self@[b],
                    ) by {
                        assert(same_table(self@[a], before[a]));
                        assert(same_table(self@[b], before[b]));
                        assert(!same_table(before[a], before[b]));
                    }
                }
                Some(previous)
            },
            None => {
                self.tables.push(info);
                proof {
                    assert(self@ =~= before.push(model));
                    assert forall|a: int, b: int| 0 <= a < b < self@.len() implies !same_table(
                        #[trigger] self@[a],
                        #[trigger] self@[b],
                    ) by {
                        if b == before.len() {
                            assert(self@[a] == before[a]);
                        } else {
                            assert(!same_table(before[a], before[b]));
                        }
                    }
                }
                None
            },
        }
    }
}

/// The table that `row` reports.
pub fn table_from_row(row: &TableRow) -> (info: TableInfo)
    ensures
        info@ == table_of(row.model()),
        info.wf(),
{
    let tilejson = match &row.description {
        Some(text) => if is_json(text.as_str()) {
            Some(text.clone())
        } else {
            None
        },
        None => None,
    };
    let info = TableInfo {
        layer_id: None,
        schema: row.schema.clone(),
        table: row.name.clone(),
        srid: row.srid,
        geometry_column: row.geom.clone(),
        geometry_index: row.geom_idx,
        is_view: row.is_view,
        id_column: None,
        bounds: None,
        extent: None,
        buffer: None,
        clip_geom: None,
        geometry_type: clone_text(&row.geometry_type),
        properties: Some(ordered(&row.properties)),
        prop_mapping: Vec::new(),
        tilejson,
    };
    assert(info@.prop_mapping =~= Seq::<(Seq<char>, Seq<char>)>::empty());
    info
}

/// Every table that rows report has its columns as an ordered map, and maps no name.
pub proof fn lemma_tables_of_wf(rows: Seq<RowModel>)
    ensures
        forall|i: int| 0 <= i < tables_of(rows).len() ==> (#[trigger] tables_of(rows)[i]).wf(),
    decreases rows.len(),
{
    if rows.len() > 0 {
        lemma_tables_of_wf(rows.drop_last());
        let before = tables_of(rows.drop_last());
        let table = table_of(rows.last());
        lemma_ordered_pairs(rows.last().properties);
        assert(table.wf());
        assert forall|i: int| 0 <= i < tables_of(rows).len() implies (#[trigger] tables_of(
            rows,
        )[i]).wf() by {
            if has_table(before, table) {
                if i != table_index(before, table) {
                    assert(tables_of(rows)[i] == before[i]);
                }
            } else if i < before.len() {
                assert(tables_of(rows)[i] == before[i]);
            }
        }
    }
}

/// Collects the tables that the rows of the database report, with the warnings that the
/// rows are worth.
pub fn query_available_tables(rows: &Vec<TableRow>) -> (found: (TableCatalog, Vec<TableWarning>))
    ensures
        found.0.wf(),
        found.0@ == tables_of(rows_view(rows@)),
        warnings_view(found.1@) == warnings_of(rows_view(rows@)),
{
    let mut res = TableCatalog::new();
    let mut warnings: Vec<TableWarning> = Vec::new();
    let ghost models = rows_view(rows@);
    let mut k: usize = 0;
    assert(models.take(0) =~= Seq::<RowModel>::empty());
    assert(warnings_view(warnings@) =~= Seq::<WarningModel>::empty());
    while k < rows.len()
        invariant
            k <= rows@.len(),
            models == rows_view(rows@),
            res.wf(),
            res@ == tables_of(models.take(k as int)),
            warnings_view(warnings@) == warnings_of(models.take(k as int)),
        decreases rows.len() - k,
    {
        let row = &rows[k];
        proof {
            assert(models.take(k as int + 1).drop_last() =~= models.take(k as int));
            assert(models.take(k as int + 1).last() == row.model());
        }
        let ghost w0 = warnings_view(warnings@);
        let info = table_from_row(row);
        if row.description.is_some() && info.tilejson.is_none() {
            warnings.push(TableWarning::UnparsableComment(row.schema.clone(), row.name.clone()));
        }
        let ghost w1 = warnings_view(warnings@);
        if let (Some(false), Some(false)) = (info.geometry_index, info.is_view) {
            warnings.push(
                TableWarning::MissingIndex(
                    info.schema.clone(),
                    info.table.clone(),
                    info.geometry_column.clone(),
                ),
            );
        }
        let ghost w2 = warnings_view(warnings@);
        if let Some(v) = res.insert(info) {
            warnings.push(TableWarning::Duplicate(v.format_id()));
        }
        proof {
            let before = tables_of(models.take(k as int));
            let m = row.model();
            let comment = if m.description is Some && tilejson_of(m) is None {
                seq![WarningModel::UnparsableComment(m.schema, m.name)]
            } else {
                Seq::<WarningModel>::empty()
            };
            let index = if m.geom_idx == Some(false) && m.is_view == Some(false) {
                seq![WarningModel::MissingIndex(m.schema, m.name, m.geom)]
            } else {
                Seq::<WarningModel>::empty()
            };
            let duplicate = if has_table(before, table_of(m)) {
                seq![WarningModel::Duplicate(table_id(m.schema, m.name, m.geom))]
            } else {
                Seq::<WarningModel>::empty()
            };
            assert(w1 =~= w0 + comment);
            assert(w2 =~= w1 + index);
            assert(warnings_view(warnings@) =~= w2 + duplicate);
            assert(warnings_view(warnings@) =~= w0 + (comment + index + duplicate));
        }
        k = k + 1;
    }
    assert(models.take(k as int) =~= models);
    (res, warnings)
}

} // verus!
