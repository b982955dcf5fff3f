//! The read-only search handle over a sealed registry, and the runtime
//! matcher behind `find_table_row`.

use vstd::prelude::*;

use std::sync::Arc;

use crate::condition::CondV;
use crate::condition::Condition;
use crate::error::Error;
use crate::index::Index;
use crate::index::IndexHandle;
use crate::index::IndexV;
use crate::index::collect_exact_fields;
use crate::index::exact_entry;
use crate::index::fields_equal_as_sets;
use crate::index::has_exact_on;
use crate::index::index_built;
use crate::index::lemma_matching_row_has_key;
use crate::index::qkey_ok;
use crate::table::Table;
use crate::table::TableV;
use crate::table::col_of;
use crate::table::find_column;
use crate::table::find_table;
use crate::table::has_col;
use crate::table::has_table;
use crate::table::table_of;
use crate::table::row_matches;
use crate::table::row_matches_all;
use crate::table::table_wf;
use crate::value::Case;
use crate::value::Value;
use crate::value::ValueV;
use crate::value::clone_value;
use crate::value::fold_value;
use crate::value::fold_value_spec;
use crate::value::values_match;

verus! {

/// The immutable data a sealed registry publishes: its tables and indexes.
#[derive(Debug)]
pub(crate) struct Snapshot {
    pub(crate) tables: Vec<Table>,
    pub(crate) indexes: Vec<Index>,
}

/// The invariant of the publication cell a registry shares with its views:
/// it is empty until the registry seals, and from then on holds a
/// well-formed snapshot.
pub(crate) struct SnapInv;

impl vstd::rwlock::RwLockPredicate<Option<Arc<Snapshot>>> for SnapInv {
    closed spec fn inv(self, v: Option<Arc<Snapshot>>) -> bool {
        match v {
            None => true,
            Some(a) => data_wf(a.tables.deep_view(), a.indexes.deep_view()),
        }
    }
}

pub(crate) type SnapCell = vstd::rwlock::RwLock<Option<Arc<Snapshot>>, SnapInv>;

/// A cheap, cloneable, read-only view into a registry.  A view taken after
/// sealing carries the snapshot directly; one taken earlier shares the
/// registry's publication cell and starts answering from the sealed
/// snapshot the moment `finish_load` fills it.  All views over one registry
/// share the same immutable backing data, and lookups may run concurrently
/// without coordination.
#[derive(Clone)]
pub struct TableSearch {
    direct: Option<Arc<Snapshot>>,
    cell: Arc<SnapCell>,
}

/// The mathematical model of a [`TableSearch`]: whether the view carries
/// the sealed data directly, and if so which.  A view taken before sealing
/// is not loaded in this sense; what it answers depends on whether the
/// registry has sealed by the time of the call (see [`lookup_ok`]).
pub struct SearchV {
    pub loaded: bool,
    pub tables: Seq<TableV>,
    pub indexes: Seq<IndexV>,
}

/// Well-formedness of a table-and-index collection: table names are
/// distinct, every table is well-formed, and every index was built over the
/// table it names.
pub open spec fn data_wf(tables: Seq<TableV>, indexes: Seq<IndexV>) -> bool {
    &&& forall|i: int| 0 <= i < tables.len() ==> table_wf(#[trigger] tables[i])
    &&& forall|i: int, j: int|
        0 <= i < j < tables.len() ==> tables[i].name != tables[j].name
    &&& forall|k: int|
        0 <= k < indexes.len() ==> {
            &&& has_table(tables, (#[trigger] indexes[k]).table)
            &&& index_built(indexes[k], tables[table_of(tables, indexes[k].table)])
        }
}

/// Well-formedness of a search view.
pub open spec fn search_wf(s: SearchV) -> bool {
    data_wf(s.tables, s.indexes)
}

impl View for TableSearch {
    type V = SearchV;

    closed spec fn view(&self) -> SearchV {
        match self.direct {
            Some(a) => SearchV {
                loaded: true,
                tables: a.tables.deep_view(),
                indexes: a.indexes.deep_view(),
            },
            None => SearchV { loaded: false, tables: Seq::empty(), indexes: Seq::empty() },
        }
    }
}

/// A fresh, still-empty publication cell.
pub(crate) fn new_cell() -> Arc<SnapCell> {
    Arc::new(SnapCell::new(None, Ghost(SnapInv)))
}

/// Puts the sealed snapshot into a registry's publication cell, making
/// every view that shares the cell answer from it.
pub(crate) fn publish_snapshot(cell: &SnapCell, snap: Arc<Snapshot>)
    requires
        data_wf(snap.tables.deep_view(), snap.indexes.deep_view()),
{
    let (_stale, write) = cell.acquire_write();
    write.release_write(Some(snap));
}

impl TableSearch {
    /// Wraps published data (or, before sealing, the shared publication
    /// cell alone) into a view.
    pub(crate) fn from_parts(direct: Option<Arc<Snapshot>>, cell: Arc<SnapCell>) -> (s: TableSearch)
        ensures
            match direct {
                Some(a) => s@ == SearchV {
                    loaded: true,
                    tables: a.tables.deep_view(),
                    indexes: a.indexes.deep_view(),
                },
                None => s@ == SearchV {
                    loaded: false,
                    tables: Seq::<TableV>::empty(),
                    indexes: Seq::<IndexV>::empty(),
                },
            },
    {
        TableSearch { direct, cell }
    }

    /// A second handle over the same backing data.
    pub fn duplicate(&self) -> (r: TableSearch)
        ensures
            r@ == self@,
    {
        match &self.direct {
            Some(a) => TableSearch { direct: Some(a.clone()), cell: self.cell.clone() },
            None => TableSearch { direct: None, cell: self.cell.clone() },
        }
    }
}

/// Some row satisfies every condition.
pub open spec fn some_match(t: TableV, conds: Seq<CondV>, case: Case) -> bool {
    exists|i: int| 0 <= i < t.rows.len() && row_matches(t, i, conds, case)
}

/// Two different rows satisfy every condition.
pub open spec fn ambiguous_match(t: TableV, conds: Seq<CondV>, case: Case) -> bool {
    exists|i: int, j: int|
        0 <= i < j < t.rows.len() && row_matches(t, i, conds, case) && row_matches(
            t,
            j,
            conds,
            case,
        )
}

/// The position of a matching row (meaningful when one exists; unique when
/// the match is unambiguous).
pub open spec fn the_match(t: TableV, conds: Seq<CondV>, case: Case) -> int {
    choose|i: int| 0 <= i < t.rows.len() && row_matches(t, i, conds, case)
}

/// The projection of a matched row: the full row in column order when no
/// selection is given, otherwise exactly the requested columns in the
/// requested order, refused when one of them names no column.
pub open spec fn project_spec(
    t: TableV,
    row: Seq<ValueV>,
    select: Option<Seq<Seq<char>>>,
) -> Result<Seq<(Seq<char>, ValueV)>, Error> {
    match select {
        None => Ok(Seq::new(t.columns.len(), |k: int| (t.columns[k], row[k]))),
        Some(sel) => if exists|k: int|
            0 <= k < sel.len() && !has_col(t.columns, #[trigger] sel[k]) {
            Err(Error::UnknownColumn)
        } else {
            Ok(Seq::new(sel.len(), |k: int| (sel[k], row[col_of(t.columns, sel[k])]))
            )
        },
    }
}

/// What a lookup returns, as a function of the sealed data and the request
/// alone: the index handle argument has no bearing on it.
pub open spec fn find_row_spec(
    s: SearchV,
    table: Seq<char>,
    case: Case,
    conds: Seq<CondV>,
    select: Option<Seq<Seq<char>>>,
) -> Result<Seq<(Seq<char>, ValueV)>, Error> {
    if !s.loaded {
        Err(Error::NotLoaded)
    } else if !has_table(s.tables, table) {
        Err(Error::UnknownTable)
    } else {
        let t = s.tables[table_of(s.tables, table)];
        if !some_match(t, conds, case) {
            Err(Error::NotFound)
        } else if ambiguous_match(t, conds, case) {
            Err(Error::MultipleMatches)
        } else {
            project_spec(t, t.rows[the_match(t, conds, case)], select)
        }
    }
}

/// The model of an optional selection list.
pub open spec fn select_view(select: Option<&Vec<String>>) -> Option<Seq<Seq<char>>> {
    match select {
        Some(sel) => Some(sel.deep_view()),
        None => None,
    }
}

/// The model of a lookup's result.
pub open spec fn lookup_result_view(r: Result<Vec<(String, Value)>, Error>) -> Result<
    Seq<(Seq<char>, ValueV)>,
    Error,
> {
    match r {
        Ok(v) => Ok(v.deep_view()),
        Err(e) => Err(e),
    }
}

/// What a lookup may return, given the view's model.  A view that carries
/// the sealed data answers exactly `find_row_spec` of it.  A view taken
/// before sealing answers `NotLoaded` while the registry is unsealed and
/// the sealed snapshot's `find_row_spec` afterwards; which of the two holds
/// depends on the moment of the call, and the snapshot itself is pinned
/// only as some well-formed published data, since a contract cannot name a
/// value that does not yet exist when the view is created.
pub open spec fn lookup_ok(
    rv: Result<Seq<(Seq<char>, ValueV)>, Error>,
    s: SearchV,
    table: Seq<char>,
    case: Case,
    conds: Seq<CondV>,
    select: Option<Seq<Seq<char>>>,
) -> bool {
    if s.loaded {
        rv == find_row_spec(s, table, case, conds, select)
    } else {
        rv == Err::<Seq<(Seq<char>, ValueV)>, Error>(Error::NotLoaded) || exists|live: SearchV|
            live.loaded && search_wf(live) && rv == #[trigger] find_row_spec(
                live,
                table,
                case,
                conds,
                select,
            )
    }
}

fn key_equal(a: &Vec<Value>, b: &Vec<Value>) -> (r: bool)
    ensures
        r == (a.deep_view() == b.deep_view()),
{
    if a.len() != b.len() {
        assert(a.deep_view().len() != b.deep_view().len());
        return false;
    }
    let mut i: usize = 0;
    while i < a.len()
        invariant
            i <= a@.len(),
            a@.len() == b@.len(),
            forall|j: int| 0 <= j < i ==> a.deep_view()[j] == b.deep_view()[j],
        decreases a@.len() - i,
    {
        assert(a.deep_view()[i as int] == a@[i as int].deep_view());
        assert(b.deep_view()[i as int] == b@[i as int].deep_view());
        let same = values_match(&a[i], &b[i], Case::Sensitive);
        proof {
            assert(fold_value_spec(a@[i as int].deep_view(), Case::Sensitive) == a@[
                i as int
            ].deep_view());
            assert(fold_value_spec(b@[i as int].deep_view(), Case::Sensitive) == b@[
                i as int
            ].deep_view());
        }
        if !same {
            return false;
        }
        i = i + 1;
    }
    assert(a.deep_view() =~= b.deep_view());
    true
}

fn exact_component(conds: &[Condition], f: &String, case: Case) -> (r: Value)
    requires
        has_exact_on(conds.deep_view(), f@),
    ensures
        exact_entry(conds.deep_view(), f@, case, r.deep_view()),
{
    let mut k: usize = 0;
    while k < conds.len()
        invariant
            k <= conds@.len(),
            has_exact_on(conds.deep_view(), f@),
            forall|m: int|
                0 <= m < k ==> !((#[trigger] conds.deep_view()[m]) matches CondV::Exact {
                    field,
                    ..
                } && field == f@),
        decreases conds@.len() - k,
    {
        assert(conds.deep_view()[k as int] == conds@[k as int].deep_view());
        match &conds[k] {
            Condition::Exact { field, value } => {
                if field.eq(f) {
                    let folded = fold_value(value, case);
                    proof {
                        assert(conds.deep_view()[k as int] matches CondV::Exact {
                            field: f2,
                            value: v2,
                        } && f2 == f@ && folded.deep_view() == fold_value_spec(v2, case));
                        assert(exact_entry(conds.deep_view(), f@, case, folded.deep_view()));
                    }
                    return folded;
                }
            },
            Condition::Range { .. } => {},
        }
        k = k + 1;
    }
    proof {
        let w = choose|w: int|
            0 <= w < conds.deep_view().len() && ((#[trigger] conds.deep_view()[w]) matches
            CondV::Exact { field, .. } && field == f@);
        assert(false);
    }
    // unreachable: an exact-match condition on `f` is required to exist
    Value::Boolean(false)
}

fn query_key(ix: &Index, conds: &[Condition], case: Case) -> (r: Vec<Value>)
    requires
        forall|j: int|
            0 <= j < ix.deep_view().fields.len() ==> has_exact_on(
                conds.deep_view(),
                #[trigger] ix.deep_view().fields[j],
            ),
    ensures
        qkey_ok(ix.deep_view(), conds.deep_view(), case, r.deep_view()),
{
    let mut out: Vec<Value> = Vec::new();
    let mut j: usize = 0;
    while j < ix.fields.len()
        invariant
            j <= ix.fields@.len(),
            forall|m: int|
                0 <= m < ix.deep_view().fields.len() ==> has_exact_on(
                    conds.deep_view(),
                    #[trigger] ix.deep_view().fields[m],
                ),
            out.deep_view().len() == j,
            forall|m: int| #![trigger ix.deep_view().fields[m]]
                0 <= m < j ==> exact_entry(
                    conds.deep_view(),
                    ix.deep_view().fields[m],
                    case,
                    out.deep_view()[m],
                ),
        decreases ix.fields@.len() - j,
    {
        assert(ix.deep_view().fields[j as int] == ix.fields@[j as int]@);
        let component = exact_component(conds, &ix.fields[j], case);
        let ghost pre = out.deep_view();
        let ghost cv = component.deep_view();
        out.push(component);
        proof {
            assert(out.deep_view() =~= pre.push(cv));
        }
        j = j + 1;
    }
    proof {
        assert(out.deep_view().len() == ix.deep_view().fields.len());
        assert(qkey_ok(ix.deep_view(), conds.deep_view(), case, out.deep_view()));
    }
    out
}

fn matching_rows_scan(t: &Table, conds: &[Condition], case: Case) -> (r: Vec<usize>)
    requires
        table_wf(t.deep_view()),
    ensures
        forall|j: int|
            0 <= j < r@.len() ==> (#[trigger] r@[j]) < t.deep_view().rows.len() && row_matches(
                t.deep_view(),
                r@[j] as int,
                conds.deep_view(),
                case,
            ),
        forall|i: int|
            0 <= i < t.deep_view().rows.len() && #[trigger] row_matches(
                t.deep_view(),
                i,
                conds.deep_view(),
                case,
            ) ==> r@.contains(i as usize),
        forall|a: int, b: int| 0 <= a < b < r@.len() ==> r@[a] < r@[b],
        t.deep_view().rows.len() <= usize::MAX,
{
    let nrows = t.rows.len();
    let mut out: Vec<usize> = Vec::new();
    let mut i: usize = 0;
    while i < nrows
        invariant
            nrows == t.rows@.len(),
            i <= t.rows@.len(),
            t.deep_view().rows.len() == t.rows@.len(),
            table_wf(t.deep_view()),
            forall|j: int|
                0 <= j < out@.len() ==> (#[trigger] out@[j]) < i && row_matches(
                    t.deep_view(),
                    out@[j] as int,
                    conds.deep_view(),
                    case,
                ),
            forall|m: int|
                0 <= m < i && #[trigger] row_matches(t.deep_view(), m, conds.deep_view(), case)
                    ==> out@.contains(m as usize),
            forall|a: int, b: int| 0 <= a < b < out@.len() ==> out@[a] < out@[b],
        decreases t.rows@.len() - i,
    {
        let ghost pre = out@;
        if row_matches_all(t, i, conds, case) {
            out.push(i);
            proof {
                assert(out@ =~= pre.push(i));
                assert forall|m: int|
                    0 <= m < i + 1 && #[trigger] row_matches(
                        t.deep_view(),
                        m,
                        conds.deep_view(),
                        case,
                    ) implies out@.contains(m as usize) by {
                    if m < i {
                        assert(pre.contains(m as usize));
                        let w = choose|w: int| 0 <= w < pre.len() && pre[w] == m as usize;
                        assert(out@[w] == m as usize);
                    } else {
                        assert(out@[pre.len() as int] == i);
                    }
                }
            }
        } else {
            proof {
                assert forall|m: int|
                    0 <= m < i + 1 && #[trigger] row_matches(
                        t.deep_view(),
                        m,
                        conds.deep_view(),
                        case,
                    ) implies out@.contains(m as usize) by {
                    assert(m != i);
                    assert(pre.contains(m as usize));
                }
            }
        }
        i = i + 1;
    }
    out
}

fn matching_rows_indexed(
    t: &Table,
    ix: &Index,
    qkey: &Vec<Value>,
    conds: &[Condition],
    case: Case,
) -> (r: Vec<usize>)
    requires
        table_wf(t.deep_view()),
        index_built(ix.deep_view(), t.deep_view()),
        ix.deep_view().case == case,
        qkey_ok(ix.deep_view(), conds.deep_view(), case, qkey.deep_view()),
    ensures
        t.deep_view().rows.len() <= usize::MAX,
        forall|j: int|
            0 <= j < r@.len() ==> (#[trigger] r@[j]) < t.deep_view().rows.len() && row_matches(
                t.deep_view(),
                r@[j] as int,
                conds.deep_view(),
                case,
            ),
        forall|i: int|
            0 <= i < t.deep_view().rows.len() && #[trigger] row_matches(
                t.deep_view(),
                i,
                conds.deep_view(),
                case,
            ) ==> r@.contains(i as usize),
        forall|a: int, b: int| 0 <= a < b < r@.len() ==> r@[a] < r@[b],
{
    let nrows = t.rows.len();
    let mut out: Vec<usize> = Vec::new();
    let mut i: usize = 0;
    proof {
        assert(ix.keys@.len() == ix.deep_view().keys.len());
    }
    while i < nrows
        invariant
            nrows == t.rows@.len(),
            i <= t.rows@.len(),
            t.deep_view().rows.len() == t.rows@.len(),
            ix.keys@.len() == t.rows@.len(),
            table_wf(t.deep_view()),
            index_built(ix.deep_view(), t.deep_view()),
            ix.deep_view().case == case,
            qkey_ok(ix.deep_view(), conds.deep_view(), case, qkey.deep_view()),
            forall|j: int|
                0 <= j < out@.len() ==> (#[trigger] out@[j]) < i && row_matches(
                    t.deep_view(),
                    out@[j] as int,
                    conds.deep_view(),
                    case,
                ),
            forall|m: int|
                0 <= m < i && #[trigger] row_matches(t.deep_view(), m, conds.deep_view(), case)
                    ==> out@.contains(m as usize),
            forall|a: int, b: int| 0 <= a < b < out@.len() ==> out@[a] < out@[b],
        decreases t.rows@.len() - i,
    {
        let ghost pre = out@;
        assert(ix.keys.deep_view()[i as int] == ix.keys@[i as int].deep_view());
        let bucket_hit = key_equal(&ix.keys[i], qkey);
        proof {
            if !bucket_hit && row_matches(t.deep_view(), i as int, conds.deep_view(), case) {
                lemma_matching_row_has_key(
                    t.deep_view(),
                    i as int,
                    conds.deep_view(),
                    case,
                    ix.deep_view(),
                    qkey.deep_view(),
                );
                assert(false);
            }
        }
        if bucket_hit && row_matches_all(t, i, conds, case) {
            out.push(i);
            proof {
                assert(out@ =~= pre.push(i));
                assert forall|m: int|
                    0 <= m < i + 1 && #[trigger] row_matches(
                        t.deep_view(),
                        m,
                        conds.deep_view(),
                        case,
                    ) implies out@.contains(m as usize) by {
                    if m < i {
                        assert(pre.contains(m as usize));
                        let w = choose|w: int| 0 <= w < pre.len() && pre[w] == m as usize;
                        assert(out@[w] == m as usize);
                    } else {
                        assert(out@[pre.len() as int] == i);
                    }
                }
            }
        } else {
            proof {
                assert forall|m: int|
                    0 <= m < i + 1 && #[trigger] row_matches(
                        t.deep_view(),
                        m,
                        conds.deep_view(),
                        case,
                    ) implies out@.contains(m as usize) by {
                    assert(m != i);
                    assert(pre.contains(m as usize));
                }
            }
        }
        i = i + 1;
    }
    out
}

fn project_row(t: &Table, row_index: usize, select: Option<&Vec<String>>) -> (r: Result<
    Vec<(String, Value)>,
    Error,
>)
    requires
        table_wf(t.deep_view()),
        row_index < t.deep_view().rows.len(),
    ensures
        lookup_result_view(r) == project_spec(
            t.deep_view(),
            t.deep_view().rows[row_index as int],
            select_view(select),
        ),
{
    let ghost tv = t.deep_view();
    let ghost rowv = t.deep_view().rows[row_index as int];
    proof {
        assert(t.rows@.len() == tv.rows.len());
        assert(tv.rows[row_index as int] == t.rows@[row_index as int].deep_view());
        assert(tv.rows[row_index as int].len() == tv.columns.len());
        assert(t.rows@[row_index as int]@.len() == tv.rows[row_index as int].len());
        assert(tv.columns.len() == t.columns@.len());
    }
    let row = &t.rows[row_index];
    match select {
        None => {
            let mut out: Vec<(String, Value)> = Vec::new();
            let mut k: usize = 0;
            while k < t.columns.len()
                invariant
                    select is None,
                    tv == t.deep_view(),
                    rowv == tv.rows[row_index as int],
                    row_index < tv.rows.len(),
                    row_index < t.rows@.len(),
                    row == t.rows@[row_index as int],
                    row@.len() == tv.columns.len(),
                    tv.columns.len() == t.columns@.len(),
                    k <= t.columns@.len(),
                    out.deep_view().len() == k,
                    forall|m: int|
                        0 <= m < k ==> out.deep_view()[m] == (tv.columns[m], rowv[m]),
                decreases t.columns@.len() - k,
            {
                proof {
                    assert(tv.columns[k as int] == t.columns@[k as int]@);
                    assert(rowv[k as int] == row@[k as int].deep_view());
                }
                let ghost pre = out.deep_view();
                let name = t.columns[k].clone();
                let cell = clone_value(&row[k]);
                let ghost entry = (name@, cell.deep_view());
                out.push((name, cell));
                proof {
                    assert(out.deep_view() =~= pre.push(entry));
                }
                k = k + 1;
            }
            proof {
                assert(out.deep_view() =~= Seq::new(
                    tv.columns.len(),
                    |m: int| (tv.columns[m], rowv[m]),
                ));
            }
            Ok(out)
        },
        Some(sel) => {
            let mut out: Vec<(String, Value)> = Vec::new();
            let mut k: usize = 0;
            while k < sel.len()
                invariant
                    select == Some(sel),
                    tv == t.deep_view(),
                    rowv == tv.rows[row_index as int],
                    table_wf(tv),
                    row_index < tv.rows.len(),
                    row_index < t.rows@.len(),
                    row == t.rows@[row_index as int],
                    row@.len() == tv.columns.len(),
                    tv.columns.len() == t.columns@.len(),
                    k <= sel@.len(),
                    out.deep_view().len() == k,
                    forall|m: int|
                        0 <= m < k ==> has_col(tv.columns, #[trigger] sel.deep_view()[m]),
                    forall|m: int|
                        0 <= m < k ==> out.deep_view()[m] == (
                            sel.deep_view()[m],
                            rowv[col_of(tv.columns, sel.deep_view()[m])],
                        ),
                decreases sel@.len() - k,
            {
                assert(sel.deep_view()[k as int] == sel@[k as int]@);
                let col = match find_column(&t.columns, &sel[k]) {
                    Some(col) => col,
                    None => {
                        proof {
                            assert(!has_col(tv.columns, sel.deep_view()[k as int]));
                            assert(exists|kk: int|
                                0 <= kk < sel.deep_view().len() && !has_col(
                                    tv.columns,
                                    #[trigger] sel.deep_view()[kk],
                                ));
                        }
                        return Err(Error::UnknownColumn);
                    },
                };
                proof {
                    assert(tv.columns[col as int] == sel.deep_view()[k as int]);
                    assert(has_col(tv.columns, sel.deep_view()[k as int]));
                    let w = col_of(tv.columns, sel.deep_view()[k as int]);
                    assert(0 <= w < tv.columns.len() && tv.columns[w] == sel.deep_view()[k as int]);
                    if w != col as int {
                        assert(false);
                    }
                    assert(rowv[col as int] == row@[col as int].deep_view());
                }
                let ghost pre = out.deep_view();
                let name = sel[k].clone();
                let cell = clone_value(&row[col]);
                let ghost entry = (name@, cell.deep_view());
                out.push((name, cell));
                proof {
                    assert(out.deep_view() =~= pre.push(entry));
                }
                k = k + 1;
            }
            proof {
                assert(out.deep_view() =~= Seq::new(
                    sel.deep_view().len(),
                    |m: int| (sel.deep_view()[m], rowv[col_of(tv.columns, sel.deep_view()[m])]),
                ));
            }
            Ok(out)
        },
    }
}

impl TableSearch {
    /// The snapshot this view answers from right now: the one it carries
    /// directly, or whatever the shared publication cell holds at this
    /// moment (the sealed data once `finish_load` has run, nothing before).
    fn current_snapshot(&self) -> (r: Option<Arc<Snapshot>>)
        requires
            search_wf(self@),
        ensures
            self@.loaded ==> (r matches Some(a) && a.tables.deep_view() == self@.tables
                && a.indexes.deep_view() == self@.indexes),
            match r {
                Some(a) => data_wf(a.tables.deep_view(), a.indexes.deep_view()),
                None => !self@.loaded,
            },
    {
        match &self.direct {
            Some(a) => Some(a.clone()),
            None => {
                let read = self.cell.acquire_read();
                let published: Option<Arc<Snapshot>> = match read.borrow() {
                    Some(a) => Some(a.clone()),
                    None => None,
                };
                read.release_read();
                published
            },
        }
    }

    /// Looks up the single row of `table` that satisfies every condition,
    /// projected to the selected columns.  A stale or mismatched index
    /// handle only costs a full scan, never changes the answer.  A view
    /// that carries the sealed data answers exactly `find_row_spec` of it;
    /// a view taken before sealing fails with `NotLoaded` until the
    /// registry seals and from then on answers from the published
    /// well-formed snapshot (which snapshot that is lies outside what a
    /// contract can name, see [`lookup_ok`]).  The other failures are
    /// `UnknownTable` for an unknown name, `NotFound` when no row matches,
    /// `MultipleMatches` when more than one does, and `UnknownColumn` when
    /// the selection names a column the table does not have.
    pub fn find_table_row(
        &self,
        table: &str,
        case: Case,
        condition: &[Condition],
        select: Option<&Vec<String>>,
        index: Option<IndexHandle>,
    ) -> (r: Result<Vec<(String, Value)>, Error>)
        requires
            search_wf(self@),
        ensures
            lookup_ok(
                lookup_result_view(r),
                self@,
                table@,
                case,
                condition.deep_view(),
                select_view(select),
            ),
    {
        let published = self.current_snapshot();
        match &published {
            None => Err(Error::NotLoaded),
            Some(a) => {
                let ghost live = SearchV {
                    loaded: true,
                    tables: a.tables.deep_view(),
                    indexes: a.indexes.deep_view(),
                };
                let r = lookup_in(&**a, table, case, condition, select, index);
                proof {
                    if self@.loaded {
                        assert(live == self@);
                    } else {
                        assert(lookup_result_view(r) == find_row_spec(
                            live,
                            table@,
                            case,
                            condition.deep_view(),
                            select_view(select),
                        ));
                    }
                }
                r
            },
        }
    }
}

/// The matcher over one published snapshot.
fn lookup_in(
    snap: &Snapshot,
    table: &str,
    case: Case,
    condition: &[Condition],
    select: Option<&Vec<String>>,
    index: Option<IndexHandle>,
) -> (r: Result<Vec<(String, Value)>, Error>)
    requires
        data_wf(snap.tables.deep_view(), snap.indexes.deep_view()),
    ensures
        lookup_result_view(r) == find_row_spec(
            SearchV {
                loaded: true,
                tables: snap.tables.deep_view(),
                indexes: snap.indexes.deep_view(),
            },
            table@,
            case,
            condition.deep_view(),
            select_view(select),
        ),
{
        let ghost sv = (SearchV {
            loaded: true,
            tables: snap.tables.deep_view(),
            indexes: snap.indexes.deep_view(),
        });
        let table_name: String = table.to_owned();
        let ti = match find_table(&snap.tables, &table_name) {
            None => {
                return Err(Error::UnknownTable);
            },
            Some(ti) => ti,
        };
        proof {
            assert(has_table(sv.tables, table@));
            let w = table_of(sv.tables, table@);
            assert(0 <= w < sv.tables.len() && sv.tables[w].name == table@);
            assert(sv.tables[ti as int] == snap.tables.deep_view()[ti as int]);
            if w != ti as int {
                assert(sv.tables[w].name == sv.tables[ti as int].name);
                assert(false);
            }
        }
        let t = &snap.tables[ti];
        let ghost tv = t.deep_view();
        proof {
            assert(tv == sv.tables[table_of(sv.tables, table@)]);
            assert(table_wf(tv));
        }
        let eq_fields = collect_exact_fields(condition);
        let mut use_index: Option<usize> = None;
        match index {
            Some(h) => {
                if h.0 < snap.indexes.len() {
                    let ix = &snap.indexes[h.0];
                    proof {
                        assert(ix.deep_view() == sv.indexes[h.0 as int]);
                    }
                    let case_hit = ix.case == case;
                    if ix.table.eq(&table_name) && case_hit && fields_equal_as_sets(
                        &ix.fields,
                        &eq_fields,
                    ) {
                        use_index = Some(h.0);
                        proof {
                            // the index with this table name was built over
                            // the unique table of that name
                            assert(has_table(sv.tables, ix.deep_view().table));
                            let w = table_of(sv.tables, ix.deep_view().table);
                            assert(0 <= w < sv.tables.len() && sv.tables[w].name == table@);
                            if w != ti as int {
                                assert(false);
                            }
                            assert(index_built(ix.deep_view(), tv));
                        }
                    }
                }
            },
            None => {},
        }
        let matched: Vec<usize> = match use_index {
            Some(p) => {
                let ix = &snap.indexes[p];
                proof {
                    assert forall|j: int|
                        0 <= j < ix.deep_view().fields.len() implies has_exact_on(
                        condition.deep_view(),
                        #[trigger] ix.deep_view().fields[j],
                    ) by {
                        let fj = ix.deep_view().fields[j];
                        assert(ix.deep_view().fields.contains(fj));
                        assert(eq_fields.deep_view().contains(fj));
                        let w = choose|w: int|
                            0 <= w < eq_fields.deep_view().len() && eq_fields.deep_view()[w] == fj;
                        assert(has_exact_on(condition.deep_view(), eq_fields.deep_view()[w]));
                    }
                }
                let qkey = query_key(ix, condition, case);
                matching_rows_indexed(t, ix, &qkey, condition, case)
            },
            None => matching_rows_scan(t, condition, case),
        };
        if matched.len() == 0 {
            proof {
                assert forall|i: int|
                    0 <= i < tv.rows.len() implies !row_matches(
                    tv,
                    i,
                    condition.deep_view(),
                    case,
                ) by {
                    if row_matches(tv, i, condition.deep_view(), case) {
                        assert(matched@.contains(i as usize));
                        let w = choose|w: int| 0 <= w < matched@.len() && matched@[w] == i as usize;
                        assert(false);
                    }
                }
                assert(!some_match(tv, condition.deep_view(), case));
            }
            return Err(Error::NotFound);
        }
        if matched.len() >= 2 {
            proof {
                let x = matched@[0];
                let y = matched@[1];
                assert(x < y);
                assert(row_matches(tv, x as int, condition.deep_view(), case));
                assert(row_matches(tv, y as int, condition.deep_view(), case));
                assert(ambiguous_match(tv, condition.deep_view(), case));
                assert(some_match(tv, condition.deep_view(), case));
            }
            return Err(Error::MultipleMatches);
        }
        let m = matched[0];
        proof {
            assert(row_matches(tv, m as int, condition.deep_view(), case));
            assert(some_match(tv, condition.deep_view(), case));
            assert(!ambiguous_match(tv, condition.deep_view(), case)) by {
                if ambiguous_match(tv, condition.deep_view(), case) {
                    let (x, y): (int, int) = choose|x: int, y: int|
                        0 <= x < y < tv.rows.len() && row_matches(tv, x, condition.deep_view(), case)
                            && row_matches(tv, y, condition.deep_view(), case);
                    assert(matched@.contains(x as usize));
                    assert(matched@.contains(y as usize));
                    let wx = choose|w: int| 0 <= w < matched@.len() && matched@[w] == x as usize;
                    let wy = choose|w: int| 0 <= w < matched@.len() && matched@[w] == y as usize;
                    assert(wx == 0 && wy == 0);
                    assert(false);
                }
            }
            assert(the_match(tv, condition.deep_view(), case) == m as int) by {
                let c = the_match(tv, condition.deep_view(), case);
                assert(0 <= c < tv.rows.len() && row_matches(tv, c, condition.deep_view(), case));
                assert(matched@.contains(c as usize));
                let w = choose|w: int| 0 <= w < matched@.len() && matched@[w] == c as usize;
                assert(w == 0);
            }
        }
        project_row(t, m, select)
}

/// Lookups read sealed, immutable data: what one call returns is a function
/// of the handle's view and the request alone, so any number of concurrent
/// calls return exactly what the same calls return one after another, in any
/// order.
pub proof fn lemma_lookup_deterministic(
    a: SearchV,
    b: SearchV,
    table: Seq<char>,
    case: Case,
    conds: Seq<CondV>,
    select: Option<Seq<Seq<char>>>,
)
    requires
        a == b,
    ensures
        find_row_spec(a, table, case, conds, select) == find_row_spec(b, table, case, conds, select),
{
}

/// While nothing is published a lookup finds no data: the answer for an
/// unloaded view is always `NotLoaded`, whatever the request.
pub proof fn lemma_unloaded_lookup_fails(
    s: SearchV,
    table: Seq<char>,
    case: Case,
    conds: Seq<CondV>,
    select: Option<Seq<Seq<char>>>,
)
    requires
        !s.loaded,
    ensures
        find_row_spec(s, table, case, conds, select) == Err::<Seq<(Seq<char>, ValueV)>, Error>(
            Error::NotLoaded,
        ),
{
}

} // verus!
