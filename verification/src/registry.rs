//! The table registry: the single authority for table identity, index
//! deduplication, and the one-way loading-to-sealed transition.

use vstd::prelude::*;

use std::sync::Arc;

use crate::error::Error;
use crate::index::Index;
use crate::index::IndexHandle;
use crate::index::IndexV;
use crate::index::build_index;
use crate::index::fields_equal_as_sets;
use crate::index::fields_known;
use crate::index::index_built;
use crate::index::key_matches;
use crate::index::row_key;
use crate::index::same_fields;
use crate::search::SnapCell;
use crate::search::Snapshot;
use crate::search::SearchV;
use crate::search::TableSearch;
use crate::search::data_wf;
use crate::search::search_wf;
use crate::table::has_table;
use crate::table::table_of;
use crate::table::Table;
use crate::table::TableV;
use crate::table::find_table;
use crate::table::has_col;
use crate::table::table_wf;
use crate::value::Case;
use crate::value::Value;

verus! {

/// The owner of all loaded tables and built indexes.  It starts in the
/// loading state, in which tables are loaded and indexes requested; sealing
/// it via [`TableRegistry::finish_load`] is irreversible and publishes an
/// immutable snapshot that read-only handles share.  The publication cell
/// is shared with every read-only view handed out, so a view taken during
/// loading starts answering the moment the registry seals.
pub struct TableRegistry {
    tables: Vec<Table>,
    indexes: Vec<Index>,
    sealed: Option<Arc<Snapshot>>,
    cell: Arc<SnapCell>,
}

/// The mathematical model of a [`TableRegistry`].
pub struct RegV {
    pub tables: Seq<TableV>,
    pub indexes: Seq<IndexV>,
    pub sealed: bool,
}

/// Well-formedness of a registry view.
pub open spec fn reg_wf(v: RegV) -> bool {
    data_wf(v.tables, v.indexes)
}

/// The index the build algorithm produces over table `t` for this field
/// list and case mode.
pub open spec fn built_index_spec(t: TableV, fields: Seq<Seq<char>>, case: Case) -> IndexV {
    IndexV {
        table: t.name,
        case,
        fields,
        keys: Seq::new(t.rows.len(), |i: int| row_key(t, t.rows[i], fields, case)),
    }
}

/// The first existing index matching the identity triple, scanning from
/// position `k`.
pub open spec fn find_existing_from(
    indexes: Seq<IndexV>,
    table: Seq<char>,
    case: Case,
    fields: Seq<Seq<char>>,
    k: int,
) -> Option<int>
    decreases indexes.len() - k,
{
    if 0 <= k < indexes.len() {
        if key_matches(indexes[k], table, case, fields) {
            Some(k)
        } else {
            find_existing_from(indexes, table, case, fields, k + 1)
        }
    } else {
        None
    }
}

/// The first existing index matching the identity triple.
pub open spec fn find_existing(
    indexes: Seq<IndexV>,
    table: Seq<char>,
    case: Case,
    fields: Seq<Seq<char>>,
) -> Option<int> {
    find_existing_from(indexes, table, case, fields, 0)
}

/// Whether every field of the list names a column of table `t`.
pub open spec fn fields_all_known(t: TableV, fields: Seq<Seq<char>>) -> bool {
    forall|j: int| 0 <= j < fields.len() ==> has_col(t.columns, #[trigger] fields[j])
}

/// What `add_index` returns, as a function of the registry view and the
/// request.
pub open spec fn add_index_res(
    v: RegV,
    table: Seq<char>,
    case: Case,
    fields: Seq<Seq<char>>,
) -> Result<IndexHandle, Error> {
    if v.sealed {
        Err(Error::LoadingClosed)
    } else if !has_table(v.tables, table) {
        Err(Error::UnknownTable)
    } else if !fields_all_known(v.tables[table_of(v.tables, table)], fields) {
        Err(Error::UnknownColumn)
    } else {
        match find_existing(v.indexes, table, case, fields) {
            Some(i) => Ok(IndexHandle(i as usize)),
            None => Ok(IndexHandle(v.indexes.len() as usize)),
        }
    }
}

/// The registry view `add_index` leaves behind: unchanged unless a new
/// index had to be built, in which case it is appended.
pub open spec fn add_index_post(
    v: RegV,
    table: Seq<char>,
    case: Case,
    fields: Seq<Seq<char>>,
) -> RegV {
    if v.sealed || !has_table(v.tables, table) || !fields_all_known(
        v.tables[table_of(v.tables, table)],
        fields,
    ) {
        v
    } else {
        match find_existing(v.indexes, table, case, fields) {
            Some(i) => v,
            None => RegV {
                tables: v.tables,
                indexes: v.indexes.push(
                    built_index_spec(v.tables[table_of(v.tables, table)], fields, case),
                ),
                sealed: v.sealed,
            },
        }
    }
}

/// The names of the given tables, in order.
pub open spec fn table_names(tables: Seq<TableV>) -> Seq<Seq<char>> {
    Seq::new(tables.len(), |i: int| tables[i].name)
}

impl View for TableRegistry {
    type V = RegV;

    closed spec fn view(&self) -> RegV {
        match self.sealed {
            Some(a) => RegV {
                tables: a.tables.deep_view(),
                indexes: a.indexes.deep_view(),
                sealed: true,
            },
            None => RegV {
                tables: self.tables.deep_view(),
                indexes: self.indexes.deep_view(),
                sealed: false,
            },
        }
    }
}

fn index_key_is(ix: &Index, table: &String, case: Case, fields: &Vec<String>) -> (r: bool)
    ensures
        r == key_matches(ix.deep_view(), table@, case, fields.deep_view()),
{
    if !ix.table.eq(table) {
        return false;
    }
    if !(ix.case == case) {
        return false;
    }
    fields_equal_as_sets(&ix.fields, fields)
}

fn find_matching_index(
    indexes: &Vec<Index>,
    table: &String,
    case: Case,
    fields: &Vec<String>,
) -> (r: Option<usize>)
    ensures
        match r {
            Some(i) => find_existing(indexes.deep_view(), table@, case, fields.deep_view())
                == Some(i as int),
            None => find_existing(indexes.deep_view(), table@, case, fields.deep_view())
                is None,
        },
{
    let ghost iv = indexes.deep_view();
    let mut i: usize = 0;
    while i < indexes.len()
        invariant
            iv == indexes.deep_view(),
            i <= indexes@.len(),
            find_existing(indexes.deep_view(), table@, case, fields.deep_view())
                == find_existing_from(indexes.deep_view(), table@, case, fields.deep_view(), i as int),
        decreases indexes@.len() - i,
    {
        assert(indexes.deep_view()[i as int] == indexes@[i as int].deep_view());
        if index_key_is(&indexes[i], table, case, fields) {
            return Some(i);
        }
        i = i + 1;
    }
    None
}

fn clone_strings(v: &Vec<String>) -> (r: Vec<String>)
    ensures
        r.deep_view() == v.deep_view(),
{
    let mut out: Vec<String> = Vec::new();
    let mut i: usize = 0;
    while i < v.len()
        invariant
            i <= v@.len(),
            out@.len() == i,
            forall|j: int| 0 <= j < i ==> out.deep_view()[j] == v.deep_view()[j],
        decreases v@.len() - i,
    {
        out.push(v[i].clone());
        i = i + 1;
    }
    assert(out.deep_view() =~= v.deep_view());
    out
}

impl TableRegistry {
    /// An empty registry in the loading state.
    pub fn new() -> (r: TableRegistry)
        ensures
            r@ == (RegV { tables: Seq::<TableV>::empty(), indexes: Seq::<IndexV>::empty(), sealed: false }),
            reg_wf(r@),
    {
        let cell: Arc<SnapCell> = crate::search::new_cell();
        let r = TableRegistry { tables: Vec::new(), indexes: Vec::new(), sealed: None, cell };
        proof {
            assert(r@.tables =~= Seq::<TableV>::empty());
            assert(r@.indexes =~= Seq::<IndexV>::empty());
        }
        r
    }

    /// Hands one loaded table to the registry.  The external loader is
    /// responsible for shape: distinct columns, one value per column in
    /// every row, and a name not yet taken.
    pub fn load_table(&mut self, name: String, columns: Vec<String>, rows: Vec<Vec<Value>>) -> (r:
        Result<(), Error>)
        requires
            forall|i: int, j: int|
                0 <= i < j < columns.deep_view().len() ==> columns.deep_view()[i]
                    != columns.deep_view()[j],
            forall|i: int|
                0 <= i < rows.deep_view().len() ==> (#[trigger] rows.deep_view()[i]).len()
                    == columns.deep_view().len(),
            !has_table(old(self)@.tables, name@),
            reg_wf(old(self)@),
        ensures
            reg_wf(final(self)@),
            old(self)@.sealed ==> r == Err::<(), Error>(Error::LoadingClosed) && final(self)@ == old(
                self,
            )@,
            !old(self)@.sealed ==> r == Ok::<(), Error>(()) && final(self)@ == (RegV {
                tables: old(self)@.tables.push(
                    TableV { name: name@, columns: columns.deep_view(), rows: rows.deep_view() },
                ),
                indexes: old(self)@.indexes,
                sealed: false,
            }),
    {
        if self.sealed.is_some() {
            return Err(Error::LoadingClosed);
        }
        let ghost pre = self@;
        let ghost tv = (TableV { name: name@, columns: columns.deep_view(), rows: rows.deep_view() });
        let t = Table { name, columns, rows };
        assert(t.deep_view() == tv);
        self.tables.push(t);
        proof {
            assert(self@.tables =~= pre.tables.push(tv));
            assert(self@.indexes =~= pre.indexes);
            assert(table_wf(tv));
            lemma_data_wf_push_table(pre.tables, pre.indexes, tv);
        }
        Ok(())
    }

    /// The names of all known tables, in load order.
    pub fn table_ids(&self) -> (r: Vec<String>)
        ensures
            r.deep_view() == table_names(self@.tables),
    {
        let names = match &self.sealed {
            Some(a) => collect_names(&a.tables),
            None => collect_names(&self.tables),
        };
        names
    }

    /// How many indexes have been built so far; a repeated `add_index`
    /// request leaves this count unchanged, making index reuse observable.
    pub fn index_count(&self) -> (r: usize)
        ensures
            r == self@.indexes.len(),
    {
        match &self.sealed {
            Some(a) => a.indexes.len(),
            None => self.indexes.len(),
        }
    }

    /// Asks for the index over `table` with the given case mode and field
    /// set, building it by one full scan of the table only when no index
    /// with that identity exists yet.  Equal requests receive equal handles
    /// and no second scan.  Fails with `LoadingClosed` after sealing, with
    /// `UnknownTable` for a name that is not registered, and with
    /// `UnknownColumn` when a field names no column of the table.
    pub fn add_index(&mut self, table: &str, case: Case, fields: &Vec<String>) -> (r: Result<
        IndexHandle,
        Error,
    >)
        requires
            reg_wf(old(self)@),
        ensures
            reg_wf(final(self)@),
            r == add_index_res(old(self)@, table@, case, fields.deep_view()),
            final(self)@ == add_index_post(old(self)@, table@, case, fields.deep_view()),
    {
        let ghost pre = self@;
        if self.sealed.is_some() {
            return Err(Error::LoadingClosed);
        }
        let table_name: String = table.to_owned();
        let ti = match find_table(&self.tables, &table_name) {
            Some(ti) => ti,
            None => {
                return Err(Error::UnknownTable);
            },
        };
        proof {
            assert(has_table(pre.tables, table@));
            let w = table_of(pre.tables, table@);
            assert(0 <= w < pre.tables.len() && pre.tables[w].name == table@);
            if w != ti as int {
                assert(false);
            }
        }
        if !fields_known(&self.tables[ti], fields) {
            return Err(Error::UnknownColumn);
        }
        match find_matching_index(&self.indexes, &table_name, case, fields) {
            Some(i) => Ok(IndexHandle(i)),
            None => {
                let handle = self.indexes.len();
                let owned_fields = clone_strings(fields);
                let ix = build_index(&self.tables[ti], owned_fields, case);
                let ghost pre_ix = self.indexes.deep_view();
                let ghost ixv = ix.deep_view();
                self.indexes.push(ix);
                proof {
                    assert(self@.indexes =~= pre_ix.push(ixv));
                    assert(ixv.keys =~= built_index_spec(
                        pre.tables[ti as int],
                        fields.deep_view(),
                        case,
                    ).keys);
                    assert(ixv == built_index_spec(pre.tables[ti as int], fields.deep_view(), case));
                    assert(self@.tables =~= pre.tables);
                    lemma_data_wf_push_index(pre.tables, pre_ix, ixv);
                }
                Ok(IndexHandle(handle))
            },
        }
    }

    /// Seals the registry (idempotently) and returns a read-only handle
    /// over the now-immutable data.  After the first call every mutation
    /// fails with `LoadingClosed`; repeated calls return new handles over
    /// the same sealed data.
    pub fn finish_load(&mut self) -> (r: TableSearch)
        requires
            reg_wf(old(self)@),
        ensures
            reg_wf(final(self)@),
            final(self)@ == (RegV {
                tables: old(self)@.tables,
                indexes: old(self)@.indexes,
                sealed: true,
            }),
            r@ == (SearchV {
                loaded: true,
                tables: old(self)@.tables,
                indexes: old(self)@.indexes,
            }),
            search_wf(r@),
    {
        match &self.sealed {
            Some(a) => {
                let r = TableSearch::from_parts(Some(a.clone()), self.cell.clone());
                return r;
            },
            None => {},
        }
        let mut tables: Vec<Table> = Vec::new();
        let mut indexes: Vec<Index> = Vec::new();
        core::mem::swap(&mut tables, &mut self.tables);
        core::mem::swap(&mut indexes, &mut self.indexes);
        let arc = Arc::new(Snapshot { tables, indexes });
        self.sealed = Some(arc.clone());
        crate::search::publish_snapshot(&self.cell, arc.clone());
        TableSearch::from_parts(Some(arc), self.cell.clone())
    }

    /// A read-only view.  Taken after sealing it carries the snapshot and
    /// is usable at once; taken before, it shares the publication cell, so
    /// its lookups fail with `NotLoaded` until `finish_load` runs and
    /// answer from the sealed snapshot from then on.
    pub fn as_readonly(&self) -> (r: TableSearch)
        requires
            reg_wf(self@),
        ensures
            self@.sealed ==> r@ == (SearchV {
                loaded: true,
                tables: self@.tables,
                indexes: self@.indexes,
            }),
            !self@.sealed ==> r@ == (SearchV {
                loaded: false,
                tables: Seq::<TableV>::empty(),
                indexes: Seq::<IndexV>::empty(),
            }),
            search_wf(r@),
    {
        match &self.sealed {
            Some(a) => TableSearch::from_parts(Some(a.clone()), self.cell.clone()),
            None => TableSearch::from_parts(None, self.cell.clone()),
        }
    }
}

fn collect_names(tables: &Vec<Table>) -> (r: Vec<String>)
    ensures
        r.deep_view() == table_names(tables.deep_view()),
{
    let mut out: Vec<String> = Vec::new();
    let mut i: usize = 0;
    while i < tables.len()
        invariant
            i <= tables@.len(),
            out@.len() == i,
            forall|j: int| 0 <= j < i ==> out.deep_view()[j] == tables.deep_view()[j].name,
        decreases tables@.len() - i,
    {
        assert(tables.deep_view()[i as int] == tables@[i as int].deep_view());
        let ghost pre = out.deep_view();
        out.push(tables[i].name.clone());
        proof {
            assert(out.deep_view() =~= pre.push(tables@[i as int].name@));
        }
        i = i + 1;
    }
    assert(out.deep_view() =~= table_names(tables.deep_view()));
    out
}

proof fn lemma_find_from_push_hit(
    s: Seq<IndexV>,
    table: Seq<char>,
    case: Case,
    fields: Seq<Seq<char>>,
    x: IndexV,
    k: int,
)
    requires
        0 <= k <= s.len(),
        find_existing_from(s, table, case, fields, k) is None,
        key_matches(x, table, case, fields),
    ensures
        find_existing_from(s.push(x), table, case, fields, k) == Some(s.len() as int),
    decreases s.len() - k,
{
    if k < s.len() {
        assert(s.push(x)[k] == s[k]);
        assert(!key_matches(s[k], table, case, fields));
        lemma_find_from_push_hit(s, table, case, fields, x, k + 1);
    } else {
        assert(s.push(x)[k] == x);
    }
}

/// Asking for the same index twice is idempotent: the second request finds
/// the index the first one returned or built, hands back the very same
/// handle, and leaves the registry untouched - in particular, no second
/// table scan takes place.
pub proof fn lemma_add_index_idempotent(
    v: RegV,
    table: Seq<char>,
    case: Case,
    fields: Seq<Seq<char>>,
)
    ensures
        add_index_post(add_index_post(v, table, case, fields), table, case, fields)
            == add_index_post(v, table, case, fields),
        add_index_res(add_index_post(v, table, case, fields), table, case, fields)
            == add_index_res(v, table, case, fields),
{
    let v1 = add_index_post(v, table, case, fields);
    if !v.sealed && has_table(v.tables, table) && fields_all_known(
        v.tables[table_of(v.tables, table)],
        fields,
    ) {
        match find_existing(v.indexes, table, case, fields) {
            Some(i) => {},
            None => {
                let t = v.tables[table_of(v.tables, table)];
                let built = built_index_spec(t, fields, case);
                assert(t.name == table) by {
                    let w = table_of(v.tables, table);
                    assert(0 <= w < v.tables.len() && v.tables[w].name == table);
                }
                assert(same_fields(fields, fields));
                assert(key_matches(built, table, case, fields));
                lemma_find_from_push_hit(v.indexes, table, case, fields, built, 0);
                assert(v1.indexes == v.indexes.push(built));
                assert(v1.tables == v.tables);
            },
        }
    }
}

/// Once a registry is sealed, every further index request fails with
/// `LoadingClosed` and the registry stays exactly as it is.
pub proof fn lemma_sealed_refuses_add_index(
    v: RegV,
    table: Seq<char>,
    case: Case,
    fields: Seq<Seq<char>>,
)
    requires
        v.sealed,
    ensures
        add_index_res(v, table, case, fields) == Err::<IndexHandle, Error>(Error::LoadingClosed),
        add_index_post(v, table, case, fields) == v,
{
}

proof fn lemma_data_wf_push_table(tables: Seq<TableV>, indexes: Seq<IndexV>, t: TableV)
    requires
        data_wf(tables, indexes),
        table_wf(t),
        !has_table(tables, t.name),
    ensures
        data_wf(tables.push(t), indexes),
{
    let post = tables.push(t);
    assert forall|k: int| 0 <= k < indexes.len() implies {
        &&& has_table(post, (#[trigger] indexes[k]).table)
        &&& index_built(indexes[k], post[table_of(post, indexes[k].table)])
    } by {
        let name = indexes[k].table;
        let w = table_of(tables, name);
        assert(0 <= w < tables.len() && tables[w].name == name);
        assert(post[w] == tables[w]);
        assert(has_table(post, name));
        let w2 = table_of(post, name);
        assert(0 <= w2 < post.len() && post[w2].name == name);
        if w2 == post.len() - 1 {
            assert(t.name == name);
            assert(has_table(tables, t.name));
            assert(false);
        }
        assert(post[w2] == tables[w2]);
        if w2 != w {
            assert(tables[w2].name == tables[w].name);
            assert(false);
        }
    }
}

proof fn lemma_data_wf_push_index(tables: Seq<TableV>, indexes: Seq<IndexV>, ix: IndexV)
    requires
        data_wf(tables, indexes),
        has_table(tables, ix.table),
        index_built(ix, tables[table_of(tables, ix.table)]),
    ensures
        data_wf(tables, indexes.push(ix)),
{
    let post = indexes.push(ix);
    assert forall|k: int| 0 <= k < post.len() implies {
        &&& has_table(tables, (#[trigger] post[k]).table)
        &&& index_built(post[k], tables[table_of(tables, post[k].table)])
    } by {
        if k < indexes.len() {
            assert(post[k] == indexes[k]);
        } else {
            assert(post[k] == ix);
        }
    }
}

} // verus!
