//! Indexes: per-row normalized keys for one field set and case mode, and the
//! identity under which the registry deduplicates them.

use vstd::prelude::*;

use crate::condition::CondV;
use crate::condition::Condition;
use crate::table::Table;
use crate::table::TableV;
use crate::table::col_of;
use crate::table::cond_matches;
use crate::table::has_col;
use crate::table::row_matches;
use crate::table::table_wf;
use crate::value::Case;
use crate::value::Value;
use crate::value::ValueV;
use crate::value::fold_value;
use crate::value::fold_value_spec;

verus! {

/// The opaque token a compile-time index request returns; it is the position
/// of the index within its registry.
#[derive(Clone, Copy, Debug, PartialEq, Eq, Structural)]
pub struct IndexHandle(pub usize);

/// An index over one table: for a fixed field set and case mode it holds,
/// for every row position, the row's normalized key (the case-folded values
/// of the involved columns, in the index's field order).  The positions
/// matching a lookup key are the positions whose stored key equals it.
#[derive(Debug)]
pub struct Index {
    pub table: String,
    pub case: Case,
    pub fields: Vec<String>,
    pub keys: Vec<Vec<Value>>,
}

/// The mathematical model of an [`Index`].
pub struct IndexV {
    pub table: Seq<char>,
    pub case: Case,
    pub fields: Seq<Seq<char>>,
    pub keys: Seq<Seq<ValueV>>,
}

impl DeepView for Index {
    type V = IndexV;

    open spec fn deep_view(&self) -> IndexV {
        IndexV {
            table: self.table@,
            case: self.case,
            fields: self.fields.deep_view(),
            keys: self.keys.deep_view(),
        }
    }
}

/// The normalized key of one row for the given fields and case mode.
pub open spec fn row_key(t: TableV, row: Seq<ValueV>, fields: Seq<Seq<char>>, case: Case) -> Seq<
    ValueV,
> {
    Seq::new(fields.len(), |j: int| fold_value_spec(row[col_of(t.columns, fields[j])], case))
}

/// Whether the index is the one the build algorithm produces over table `t`:
/// every field names a column, and every row position carries that row's
/// normalized key.
pub open spec fn index_built(ix: IndexV, t: TableV) -> bool {
    &&& ix.table == t.name
    &&& forall|j: int| 0 <= j < ix.fields.len() ==> has_col(t.columns, #[trigger] ix.fields[j])
    &&& ix.keys.len() == t.rows.len()
    &&& forall|i: int|
        0 <= i < t.rows.len() ==> #[trigger] ix.keys[i] == row_key(t, t.rows[i], ix.fields, ix.case)
}

/// Two field lists name the same field set.
pub open spec fn same_fields(a: Seq<Seq<char>>, b: Seq<Seq<char>>) -> bool {
    &&& forall|x: Seq<char>| a.contains(x) ==> b.contains(x)
    &&& forall|x: Seq<char>| b.contains(x) ==> a.contains(x)
}

/// The identity under which indexes are deduplicated: table name, case mode
/// and field set.
pub open spec fn key_matches(
    ix: IndexV,
    table: Seq<char>,
    case: Case,
    fields: Seq<Seq<char>>,
) -> bool {
    &&& ix.table == table
    &&& ix.case == case
    &&& same_fields(ix.fields, fields)
}

/// Whether the field list contains this name.
pub fn contains_field(fields: &Vec<String>, f: &String) -> (r: bool)
    ensures
        r == fields.deep_view().contains(f@),
{
    let mut i: usize = 0;
    while i < fields.len()
        invariant
            i <= fields@.len(),
            forall|j: int| 0 <= j < i ==> fields.deep_view()[j] != f@,
        decreases fields@.len() - i,
    {
        assert(fields.deep_view()[i as int] == fields@[i as int]@);
        if fields[i].eq(f) {
            assert(fields.deep_view().contains(f@));
            return true;
        }
        i = i + 1;
    }
    assert(!fields.deep_view().contains(f@));
    false
}

/// Whether the two field lists name the same field set.
pub fn fields_equal_as_sets(a: &Vec<String>, b: &Vec<String>) -> (r: bool)
    ensures
        r == same_fields(a.deep_view(), b.deep_view()),
{
    let forward = fields_subset(a, b);
    let backward = fields_subset(b, a);
    forward && backward
}

fn fields_subset(a: &Vec<String>, b: &Vec<String>) -> (r: bool)
    ensures
        r == forall|x: Seq<char>| a.deep_view().contains(x) ==> b.deep_view().contains(x),
{
    let mut i: usize = 0;
    while i < a.len()
        invariant
            i <= a@.len(),
            forall|j: int| 0 <= j < i ==> b.deep_view().contains(#[trigger] a.deep_view()[j]),
        decreases a@.len() - i,
    {
        if !contains_field(b, &a[i]) {
            proof {
                assert(a.deep_view()[i as int] == a@[i as int]@);
                assert(a.deep_view().contains(a.deep_view()[i as int]));
            }
            return false;
        }
        assert(a.deep_view()[i as int] == a@[i as int]@);
        i = i + 1;
    }
    proof {
        assert forall|x: Seq<char>| a.deep_view().contains(x) implies b.deep_view().contains(x) by {
            let k = choose|k: int| 0 <= k < a.deep_view().len() && a.deep_view()[k] == x;
            assert(b.deep_view().contains(a.deep_view()[k]));
        }
    }
    true
}

/// Whether every field names a column of the table.
pub fn fields_known(t: &Table, fields: &Vec<String>) -> (r: bool)
    ensures
        r == forall|j: int|
            0 <= j < fields.deep_view().len() ==> has_col(
                t.deep_view().columns,
                #[trigger] fields.deep_view()[j],
            ),
{
    let mut i: usize = 0;
    while i < fields.len()
        invariant
            i <= fields@.len(),
            forall|j: int|
                0 <= j < i ==> has_col(t.deep_view().columns, #[trigger] fields.deep_view()[j]),
        decreases fields@.len() - i,
    {
        assert(fields.deep_view()[i as int] == fields@[i as int]@);
        match crate::table::find_column(&t.columns, &fields[i]) {
            Some(_) => {},
            None => {
                return false;
            },
        }
        i = i + 1;
    }
    true
}

fn find_column_must(columns: &Vec<String>, field: &String) -> (j: usize)
    requires
        has_col(columns.deep_view(), field@),
    ensures
        j < columns@.len(),
        columns.deep_view()[j as int] == field@,
{
    match crate::table::find_column(columns, field) {
        Some(j) => j,
        None => {
            // unreachable: the field is required to name a column
            proof {
                assert(false);
            }
            0
        },
    }
}

/// Builds the normalized key of one row.
fn build_row_key(t: &Table, row_index: usize, fields: &Vec<String>, case: Case) -> (r: Vec<Value>)
    requires
        table_wf(t.deep_view()),
        row_index < t.rows@.len(),
        forall|j: int|
            0 <= j < fields.deep_view().len() ==> has_col(
                t.deep_view().columns,
                #[trigger] fields.deep_view()[j],
            ),
    ensures
        r.deep_view() == row_key(
            t.deep_view(),
            t.deep_view().rows[row_index as int],
            fields.deep_view(),
            case,
        ),
{
    let ghost tv = t.deep_view();
    let mut out: Vec<Value> = Vec::new();
    let mut j: usize = 0;
    while j < fields.len()
        invariant
            tv == t.deep_view(),
            j <= fields@.len(),
            table_wf(t.deep_view()),
            row_index < t.rows@.len(),
            forall|k: int|
                0 <= k < fields.deep_view().len() ==> has_col(
                    t.deep_view().columns,
                    #[trigger] fields.deep_view()[k],
                ),
            out.deep_view().len() == j,
            forall|k: int|
                0 <= k < j ==> out.deep_view()[k] == fold_value_spec(
                    t.deep_view().rows[row_index as int][col_of(
                        t.deep_view().columns,
                        fields.deep_view()[k],
                    )],
                    case,
                ),
        decreases fields@.len() - j,
    {
        assert(fields.deep_view()[j as int] == fields@[j as int]@);
        assert(has_col(tv.columns, fields.deep_view()[j as int]));
        let col = find_column_must(&t.columns, &fields[j]);
        proof {
            let fv = fields.deep_view()[j as int];
            assert(t.columns.deep_view()[col as int] == fields@[j as int]@);
            assert(tv.columns[col as int] == fv);
            let k = col_of(tv.columns, fv);
            assert(0 <= k < tv.columns.len() && tv.columns[k] == fv) by {
                assert(has_col(tv.columns, fv));
            }
            assert(k == col as int);
            assert(tv.rows[row_index as int] == t.rows@[row_index as int].deep_view());
            assert(tv.rows[row_index as int].len() == tv.columns.len());
            assert(t.rows@[row_index as int]@.len() == tv.rows[row_index as int].len());
        }
        let row = &t.rows[row_index];
        let cell = &row[col];
        proof {
            assert(cell.deep_view() == tv.rows[row_index as int][col as int]);
        }
        let folded = fold_value(cell, case);
        let ghost pre = out.deep_view();
        let ghost fv2 = folded.deep_view();
        out.push(folded);
        proof {
            assert(out.deep_view() =~= pre.push(fv2));
            assert(out.deep_view()[j as int] == fold_value_spec(
                t.deep_view().rows[row_index as int][col_of(
                    t.deep_view().columns,
                    fields.deep_view()[j as int],
                )],
                case,
            ));
        }
        j = j + 1;
    }
    assert(out.deep_view() =~= row_key(tv, tv.rows[row_index as int], fields.deep_view(), case));
    out
}

/// Builds the index over one table for a validated field list: one full scan
/// of the table, computing every row's normalized key.
pub fn build_index(t: &Table, fields: Vec<String>, case: Case) -> (ix: Index)
    requires
        table_wf(t.deep_view()),
        forall|j: int|
            0 <= j < fields.deep_view().len() ==> has_col(
                t.deep_view().columns,
                #[trigger] fields.deep_view()[j],
            ),
    ensures
        index_built(ix.deep_view(), t.deep_view()),
        ix.deep_view().case == case,
        ix.deep_view().fields == fields.deep_view(),
{
    let ghost tv = t.deep_view();
    let table_name = t.name.clone();
    let mut keys: Vec<Vec<Value>> = Vec::new();
    let mut i: usize = 0;
    while i < t.rows.len()
        invariant
            tv == t.deep_view(),
            i <= t.rows@.len(),
            table_wf(t.deep_view()),
            forall|j: int|
                0 <= j < fields.deep_view().len() ==> has_col(
                    t.deep_view().columns,
                    #[trigger] fields.deep_view()[j],
                ),
            keys.deep_view().len() == i,
            forall|k: int|
                0 <= k < i ==> #[trigger] keys.deep_view()[k] == row_key(
                    t.deep_view(),
                    t.deep_view().rows[k],
                    fields.deep_view(),
                    case,
                ),
        decreases t.rows@.len() - i,
    {
        let key = build_row_key(t, i, &fields, case);
        let ghost pre = keys.deep_view();
        let ghost kv = key.deep_view();
        keys.push(key);
        proof {
            assert(keys.deep_view() =~= pre.push(kv));
        }
        i = i + 1;
    }
    let ix = Index { table: table_name, case, fields, keys };
    proof {
        assert(tv.rows.len() == t.rows@.len());
    }
    ix
}

/// There is an exact-match condition on this field.
pub open spec fn has_exact_on(conds: Seq<CondV>, f: Seq<char>) -> bool {
    exists|k: int|
        0 <= k < conds.len() && ((#[trigger] conds[k]) matches CondV::Exact { field, .. }
            && field == f)
}

/// Collects the fields of the exact-match conditions.
pub fn collect_exact_fields(conds: &[Condition]) -> (r: Vec<String>)
    ensures
        forall|j: int|
            0 <= j < r.deep_view().len() ==> has_exact_on(
                conds.deep_view(),
                #[trigger] r.deep_view()[j],
            ),
        forall|k: int|
            0 <= k < conds.deep_view().len() ==> ((#[trigger] conds.deep_view()[k]) matches
            CondV::Exact { field, .. } ==> r.deep_view().contains(field)),
{
    let mut out: Vec<String> = Vec::new();
    let mut k: usize = 0;
    while k < conds.len()
        invariant
            k <= conds@.len(),
            forall|j: int|
                0 <= j < out.deep_view().len() ==> has_exact_on(
                    conds.deep_view(),
                    #[trigger] out.deep_view()[j],
                ),
            forall|m: int|
                0 <= m < k ==> ((#[trigger] conds.deep_view()[m]) matches CondV::Exact {
                    field,
                    ..
                } ==> out.deep_view().contains(field)),
        decreases conds@.len() - k,
    {
        let ghost pre = out.deep_view();
        assert(conds.deep_view()[k as int] == conds@[k as int].deep_view());
        match &conds[k] {
            Condition::Exact { field, .. } => {
                out.push(field.clone());
                proof {
                    assert(out.deep_view() =~= pre.push(field@));
                    assert(out.deep_view()[pre.len() as int] == field@);
                    assert(has_exact_on(conds.deep_view(), field@)) by {
                        assert(conds.deep_view()[k as int] matches CondV::Exact { field: f2, .. }
                            && f2 == field@);
                    }
                    assert forall|m: int|
                        0 <= m < k && ((#[trigger] conds.deep_view()[m]) matches CondV::Exact {
                            field: fm,
                            ..
                        }) implies out.deep_view().contains(
                        match conds.deep_view()[m] {
                            CondV::Exact { field: fm2, .. } => fm2,
                            CondV::Range { field: fm2, .. } => fm2,
                        },
                    ) by {
                        let fm2 = match conds.deep_view()[m] {
                            CondV::Exact { field: x, .. } => x,
                            CondV::Range { field: x, .. } => x,
                        };
                        assert(pre.contains(fm2));
                        let idx = choose|idx: int| 0 <= idx < pre.len() && pre[idx] == fm2;
                        assert(out.deep_view()[idx] == fm2);
                    }
                }
            },
            Condition::Range { .. } => {},
        }
        k = k + 1;
    }
    out
}

/// Some exact-match condition on field `f` carries a value that normalizes
/// to `v` under the case mode.
pub open spec fn exact_entry(conds: Seq<CondV>, f: Seq<char>, case: Case, v: ValueV) -> bool {
    exists|k: int|
        0 <= k < conds.len() && ((#[trigger] conds[k]) matches CondV::Exact { field, value }
            && field == f && v == fold_value_spec(value, case))
}

/// The lookup key `qkey` agrees with the conditions: for every index field
/// there is an exact-match condition on that field whose normalized value is
/// the key's component.
pub open spec fn qkey_ok(ix: IndexV, conds: Seq<CondV>, case: Case, qkey: Seq<ValueV>) -> bool {
    &&& qkey.len() == ix.fields.len()
    &&& forall|j: int| #![trigger ix.fields[j]]
        0 <= j < ix.fields.len() ==> exact_entry(conds, ix.fields[j], case, qkey[j])
}

/// A row that satisfies every condition carries exactly the key that the
/// conditions' exact-match values normalize to: the heart of why answering
/// from an index bucket loses no matching row.
pub proof fn lemma_matching_row_has_key(
    t: TableV,
    i: int,
    conds: Seq<CondV>,
    case: Case,
    ix: IndexV,
    qkey: Seq<ValueV>,
)
    requires
        table_wf(t),
        index_built(ix, t),
        ix.case == case,
        0 <= i < t.rows.len(),
        row_matches(t, i, conds, case),
        qkey_ok(ix, conds, case, qkey),
    ensures
        ix.keys[i] == qkey,
{
    assert(ix.keys[i] == row_key(t, t.rows[i], ix.fields, ix.case));
    assert forall|j: int| 0 <= j < ix.fields.len() implies #[trigger] qkey[j] == row_key(
        t,
        t.rows[i],
        ix.fields,
        ix.case,
    )[j] by {
        assert(exact_entry(conds, ix.fields[j], case, qkey[j]));
        let k = choose|k: int|
            0 <= k < conds.len() && ((#[trigger] conds[k]) matches CondV::Exact { field, value }
                && field == ix.fields[j] && qkey[j] == fold_value_spec(value, case));
        assert(cond_matches(t, t.rows[i], conds[k], case));
    }
    assert(ix.keys[i] =~= qkey);
}

} // verus!
