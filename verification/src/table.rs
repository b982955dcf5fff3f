//! A loaded row store and the semantics of matching its rows against
//! conditions.

use vstd::prelude::*;

use crate::condition::CondV;
use crate::condition::Condition;
use crate::value::Case;
use crate::value::Value;
use crate::value::ValueV;
use crate::value::fold_value_spec;
use crate::value::in_range_spec;
use crate::value::value_in_range;
use crate::value::values_match;

verus! {

/// One named, immutable table: every row holds one value per column.
#[derive(Debug)]
pub struct Table {
    pub name: String,
    pub columns: Vec<String>,
    pub rows: Vec<Vec<Value>>,
}

/// The mathematical model of a [`Table`].
pub struct TableV {
    pub name: Seq<char>,
    pub columns: Seq<Seq<char>>,
    pub rows: Seq<Seq<ValueV>>,
}

impl DeepView for Table {
    type V = TableV;

    open spec fn deep_view(&self) -> TableV {
        TableV {
            name: self.name@,
            columns: self.columns.deep_view(),
            rows: self.rows.deep_view(),
        }
    }
}

/// Well-formedness of a table: column names are distinct and every row has
/// exactly one value per column.
pub open spec fn table_wf(t: TableV) -> bool {
    &&& forall|i: int, j: int|
        0 <= i < j < t.columns.len() ==> t.columns[i] != t.columns[j]
    &&& forall|i: int| 0 <= i < t.rows.len() ==> (#[trigger] t.rows[i]).len() == t.columns.len()
}

/// Whether a column of this name exists.
pub open spec fn has_col(columns: Seq<Seq<char>>, field: Seq<char>) -> bool {
    exists|i: int| 0 <= i < columns.len() && columns[i] == field
}

/// The position of the column of this name (meaningful only when it exists;
/// unique once the columns are distinct).
pub open spec fn col_of(columns: Seq<Seq<char>>, field: Seq<char>) -> int {
    choose|i: int| 0 <= i < columns.len() && columns[i] == field
}

/// Finds the position of a column by name.
pub fn find_column(columns: &Vec<String>, field: &String) -> (r: Option<usize>)
    ensures
        match r {
            Some(j) => j < columns@.len() && columns.deep_view()[j as int] == field@,
            None => !has_col(columns.deep_view(), field@),
        },
{
    let mut i: usize = 0;
    while i < columns.len()
        invariant
            i <= columns@.len(),
            forall|j: int| 0 <= j < i ==> columns.deep_view()[j] != field@,
        decreases columns@.len() - i,
    {
        assert(columns.deep_view()[i as int] == columns@[i as int]@);
        if columns[i].eq(field) {
            return Some(i);
        }
        i = i + 1;
    }
    None
}

/// Whether a table of this name exists.
pub open spec fn has_table(tables: Seq<TableV>, name: Seq<char>) -> bool {
    exists|i: int| 0 <= i < tables.len() && tables[i].name == name
}

/// The position of the table of this name (meaningful only when it exists;
/// unique once names are distinct).
pub open spec fn table_of(tables: Seq<TableV>, name: Seq<char>) -> int {
    choose|i: int| 0 <= i < tables.len() && tables[i].name == name
}

/// Finds the position of a table by name.
pub fn find_table(tables: &Vec<Table>, name: &String) -> (r: Option<usize>)
    ensures
        match r {
            Some(i) => i < tables@.len() && tables.deep_view()[i as int].name == name@,
            None => !has_table(tables.deep_view(), name@),
        },
{
    let mut i: usize = 0;
    while i < tables.len()
        invariant
            i <= tables@.len(),
            forall|j: int| 0 <= j < i ==> (#[trigger] tables.deep_view()[j]).name != name@,
        decreases tables@.len() - i,
    {
        assert(tables.deep_view()[i as int] == tables@[i as int].deep_view());
        if tables[i].name.eq(name) {
            return Some(i);
        }
        i = i + 1;
    }
    assert forall|j: int| 0 <= j < tables.deep_view().len() implies (#[trigger] tables.deep_view()[
        j
    ]).name != name@ by {}
    None
}

/// Whether one condition holds of one row.  A condition on a column the
/// table does not have holds of no row.
pub open spec fn cond_matches(t: TableV, row: Seq<ValueV>, c: CondV, case: Case) -> bool {
    match c {
        CondV::Exact { field, value } => {
            &&& has_col(t.columns, field)
            &&& fold_value_spec(row[col_of(t.columns, field)], case) == fold_value_spec(
                value,
                case,
            )
        },
        CondV::Range { field, from, to, from_inclusive, to_inclusive } => {
            &&& has_col(t.columns, field)
            &&& in_range_spec(row[col_of(t.columns, field)], from, to, from_inclusive, to_inclusive)
        },
    }
}

/// Whether every condition holds of the row at position `i`.
pub open spec fn row_matches(t: TableV, i: int, conds: Seq<CondV>, case: Case) -> bool {
    forall|k: int| 0 <= k < conds.len() ==> cond_matches(t, t.rows[i], #[trigger] conds[k], case)
}

/// Decides whether one condition holds of one row of the table.
pub fn cond_matches_row(t: &Table, row_index: usize, c: &Condition, case: Case) -> (r: bool)
    requires
        table_wf(t.deep_view()),
        row_index < t.rows@.len(),
    ensures
        r == cond_matches(
            t.deep_view(),
            t.deep_view().rows[row_index as int],
            c.deep_view(),
            case,
        ),
{
    let ghost tv = t.deep_view();
    let field = match c {
        Condition::Exact { field, .. } => field,
        Condition::Range { field, .. } => field,
    };
    let col = find_column(&t.columns, field);
    match col {
        None => false,
        Some(j) => {
            proof {
                assert(tv.columns[j as int] == field@);
                assert(has_col(tv.columns, field@));
                // distinct columns pin the chosen position down
                assert(col_of(tv.columns, field@) == j as int) by {
                    let k = col_of(tv.columns, field@);
                    assert(0 <= k < tv.columns.len() && tv.columns[k] == field@);
                }
                assert(t.rows.deep_view()[row_index as int] == t.rows@[row_index as int].deep_view());
                assert(tv.rows[row_index as int].len() == tv.columns.len());
                assert(tv.columns.len() == t.columns@.len());
                assert(t.rows@[row_index as int]@.len() == t.rows@[row_index as int].deep_view().len());
            }
            let row = &t.rows[row_index];
            let cell = &row[j];
            proof {
                assert(cell.deep_view() == tv.rows[row_index as int][j as int]);
            }
            match c {
                Condition::Exact { value, .. } => values_match(cell, value, case),
                Condition::Range { from, to, from_inclusive, to_inclusive, .. } => value_in_range(
                    cell,
                    from,
                    to,
                    *from_inclusive,
                    *to_inclusive,
                ),
            }
        },
    }
}

/// Decides whether every condition holds of the row at `row_index`.
pub fn row_matches_all(t: &Table, row_index: usize, conds: &[Condition], case: Case) -> (r: bool)
    requires
        table_wf(t.deep_view()),
        row_index < t.rows@.len(),
    ensures
        r == row_matches(t.deep_view(), row_index as int, conds.deep_view(), case),
{
    let mut k: usize = 0;
    while k < conds.len()
        invariant
            k <= conds@.len(),
            table_wf(t.deep_view()),
            row_index < t.rows@.len(),
            forall|m: int|
                0 <= m < k ==> cond_matches(
                    t.deep_view(),
                    t.deep_view().rows[row_index as int],
                    #[trigger] conds.deep_view()[m],
                    case,
                ),
        decreases conds@.len() - k,
    {
        if !cond_matches_row(t, row_index, &conds[k], case) {
            assert(conds.deep_view()[k as int] == conds@[k as int].deep_view());
            return false;
        }
        k = k + 1;
    }
    true
}

} // verus!
