//! The script-facing lookup function: its compile-time half asks the
//! registry for an index, its runtime half evaluates the per-event
//! conditions and looks the row up through a sealed search handle.

use vstd::prelude::*;

use crate::condition::CondV;
use crate::condition::Condition;
use crate::condition::ResolvedV;
use crate::condition::ResolvedValue;
use crate::condition::evaluate_condition;
use crate::condition::evaluate_condition_spec;
use crate::error::Error;
use crate::index::IndexHandle;
use crate::registry::TableRegistry;
use crate::registry::add_index_post;
use crate::registry::add_index_res;
use crate::registry::reg_wf;
use crate::search::SearchV;
use crate::search::TableSearch;
use crate::search::find_row_spec;
use crate::search::lookup_ok;
use crate::search::lookup_result_view;
use crate::search::search_wf;
use crate::search::select_view;
use crate::table::TableV;
use crate::index::IndexV;
use crate::value::Case;
use crate::value::ValueV;

verus! {

/// The case mode a `case_sensitive` argument selects; an absent argument
/// means sensitive comparison.
pub open spec fn case_of(case_sensitive: Option<bool>) -> Case {
    match case_sensitive {
        Some(false) => Case::Insensitive,
        _ => Case::Sensitive,
    }
}

/// Maps the optional `case_sensitive` literal of a call site to a case mode.
pub fn case_mode(case_sensitive: Option<bool>) -> (r: Case)
    ensures
        r == case_of(case_sensitive),
{
    match case_sensitive {
        Some(false) => Case::Insensitive,
        _ => Case::Sensitive,
    }
}

/// The conditions a call site's resolved predicate values classify to, or
/// the first classification error.
pub open spec fn eval_conditions_spec(input: Seq<(Seq<char>, ResolvedV)>) -> Result<
    Seq<CondV>,
    Error,
>
    decreases input.len(),
{
    if input.len() == 0 {
        Ok(Seq::empty())
    } else {
        match eval_conditions_spec(input.drop_last()) {
            Err(e) => Err(e),
            Ok(pre) => match evaluate_condition_spec(input.last().0, input.last().1) {
                Err(e) => Err(e),
                Ok(c) => Ok(pre.push(c)),
            },
        }
    }
}

/// One lookup outcome, wrapped as a keyed mapping value.
pub open spec fn record_spec(
    search: SearchV,
    table: Seq<char>,
    case: Case,
    conds: Seq<CondV>,
    select: Option<Seq<Seq<char>>>,
) -> Result<ResolvedV, Error> {
    match find_row_spec(search, table, case, conds, select) {
        Err(e) => Err(e),
        Ok(row) => Ok(ResolvedV::Object(row)),
    }
}

/// What the wrapped lookup may return, mirroring [`lookup_ok`]: a view that
/// carries the sealed data answers exactly `record_spec` of it; one taken
/// before sealing answers `NotLoaded` until the registry seals and the
/// published well-formed snapshot's `record_spec` afterwards.
pub open spec fn record_ok(
    rv: Result<ResolvedV, Error>,
    search: SearchV,
    table: Seq<char>,
    case: Case,
    conds: Seq<CondV>,
    select: Option<Seq<Seq<char>>>,
) -> bool {
    if search.loaded {
        rv == record_spec(search, table, case, conds, select)
    } else {
        rv == Err::<ResolvedV, Error>(Error::NotLoaded) || exists|live: SearchV|
            live.loaded && search_wf(live) && rv == #[trigger] record_spec(
                live,
                table,
                case,
                conds,
                select,
            )
    }
}

/// What a compiled call site may return for one event: the first
/// classification error of a resolved predicate value, or a wrapped lookup
/// outcome as [`record_ok`] admits.
pub open spec fn resolve_ok(
    rv: Result<ResolvedV, Error>,
    search: SearchV,
    table: Seq<char>,
    case: Case,
    input: Seq<(Seq<char>, ResolvedV)>,
    select: Option<Seq<Seq<char>>>,
) -> bool {
    match eval_conditions_spec(input) {
        Err(e) => rv == Err::<ResolvedV, Error>(e),
        Ok(conds) => record_ok(rv, search, table, case, conds, select),
    }
}

/// Looks up the single matching row and wraps it as a keyed mapping value.
pub fn get_enrichment_table_record(
    select: Option<&Vec<String>>,
    enrichment_tables: &TableSearch,
    table: &str,
    case_sensitive: Case,
    condition: &[Condition],
    index: Option<IndexHandle>,
) -> (r: Result<ResolvedValue, Error>)
    requires
        search_wf(enrichment_tables@),
    ensures
        record_ok(
            match r {
                Ok(v) => Ok::<ResolvedV, Error>(v.deep_view()),
                Err(e) => Err(e),
            },
            enrichment_tables@,
            table@,
            case_sensitive,
            condition.deep_view(),
            select_view(select),
        ),
{
    let looked = enrichment_tables.find_table_row(table, case_sensitive, condition, select, index);
    let ghost lv = lookup_result_view(looked);
    let result = match looked {
        Ok(data) => Ok(ResolvedValue::Object(data)),
        Err(e) => Err(e),
    };
    proof {
        let rv = (match &result {
            Ok(v) => Ok::<ResolvedV, Error>(v.deep_view()),
            Err(e) => Err(*e),
        });
        let sv = enrichment_tables@;
        if !sv.loaded && lv != Err::<Seq<(Seq<char>, ValueV)>, Error>(Error::NotLoaded) {
            let live = choose|live: SearchV|
                live.loaded && search_wf(live) && lv == #[trigger] find_row_spec(
                    live,
                    table@,
                    case_sensitive,
                    condition.deep_view(),
                    select_view(select),
                );
            assert(rv == record_spec(
                live,
                table@,
                case_sensitive,
                condition.deep_view(),
                select_view(select),
            ));
        }
    }
    result
}

/// The compile-time half of the lookup function.
#[derive(Clone, Copy, Debug)]
pub struct GetEnrichmentTableRecord;

/// A compiled lookup call site: the table name, case mode and index handle
/// fixed at compile time, together with a read-only view embedded before
/// the registry sealed.  The view shares the registry's publication cell,
/// so it answers from the sealed snapshot once `finish_load` has run.
#[derive(Clone)]
pub struct GetEnrichmentTableRecordFn {
    pub table: String,
    pub case_sensitive: Case,
    pub index: Option<IndexHandle>,
    pub enrichment_tables: TableSearch,
}

impl GetEnrichmentTableRecord {
    /// The name under which the script language knows this function.
    pub fn identifier(&self) -> (r: &'static str)
        ensures
            r@ == "get_enrichment_table_record"@,
    {
        "get_enrichment_table_record"
    }

    /// Compiles one call site: fixes the case mode, asks the registry for
    /// the index over the predicate's field set (reusing an existing one),
    /// and embeds the returned handle.
    pub fn compile(
        &self,
        registry: &mut TableRegistry,
        table: &str,
        case_sensitive: Option<bool>,
        condition_fields: &Vec<String>,
    ) -> (r: Result<GetEnrichmentTableRecordFn, Error>)
        requires
            reg_wf(old(registry)@),
        ensures
            reg_wf(final(registry)@),
            final(registry)@ == add_index_post(
                old(registry)@,
                table@,
                case_of(case_sensitive),
                condition_fields.deep_view(),
            ),
            match r {
                Ok(f) => {
                    &&& add_index_res(
                        old(registry)@,
                        table@,
                        case_of(case_sensitive),
                        condition_fields.deep_view(),
                    ) matches Ok(h) && f.index == Some(h)
                    &&& f.table@ == table@
                    &&& f.case_sensitive == case_of(case_sensitive)
                    &&& f.enrichment_tables@ == (SearchV {
                        loaded: false,
                        tables: Seq::<TableV>::empty(),
                        indexes: Seq::<IndexV>::empty(),
                    })
                    &&& search_wf(f.enrichment_tables@)
                },
                Err(e) => add_index_res(
                    old(registry)@,
                    table@,
                    case_of(case_sensitive),
                    condition_fields.deep_view(),
                ) == Err::<IndexHandle, Error>(e),
            },
    {
        let case = case_mode(case_sensitive);
        match registry.add_index(table, case, condition_fields) {
            Ok(handle) => Ok(
                GetEnrichmentTableRecordFn {
                    table: table.to_owned(),
                    case_sensitive: case,
                    index: Some(handle),
                    enrichment_tables: registry.as_readonly(),
                },
            ),
            Err(e) => Err(e),
        }
    }
}

impl GetEnrichmentTableRecordFn {
    /// Resolves one event: classifies every resolved predicate value into a
    /// condition, then looks the row up through the embedded view, which
    /// answers from the sealed snapshot once the registry has sealed.
    pub fn resolve(
        &self,
        condition: &Vec<(String, ResolvedValue)>,
        select: Option<&Vec<String>>,
    ) -> (r: Result<ResolvedValue, Error>)
        requires
            search_wf(self.enrichment_tables@),
        ensures
            resolve_ok(
                match r {
                    Ok(v) => Ok::<ResolvedV, Error>(v.deep_view()),
                    Err(e) => Err(e),
                },
                self.enrichment_tables@,
                self.table@,
                self.case_sensitive,
                condition.deep_view(),
                select_view(select),
            ),
    {
        let ghost input = condition.deep_view();
        let mut conds: Vec<Condition> = Vec::new();
        let mut i: usize = 0;
        proof {
            assert(input.take(0) =~= Seq::<(Seq<char>, ResolvedV)>::empty());
            assert(conds.deep_view() =~= Seq::<CondV>::empty());
        }
        while i < condition.len()
            invariant
                input == condition.deep_view(),
                i <= condition@.len(),
                eval_conditions_spec(input.take(i as int)) == Ok::<Seq<CondV>, Error>(
                    conds.deep_view(),
                ),
            decreases condition@.len() - i,
        {
            assert(condition.deep_view()[i as int] == (
                condition@[i as int].0@,
                condition@[i as int].1.deep_view(),
            ));
            let entry = &condition[i];
            match evaluate_condition(entry.0.as_str(), &entry.1) {
                Ok(c) => {
                    let ghost pre = conds.deep_view();
                    let ghost cv = c.deep_view();
                    conds.push(c);
                    proof {
                        assert(conds.deep_view() =~= pre.push(cv));
                        assert(input.take(i + 1).drop_last() =~= input.take(i as int));
                        assert(input.take(i + 1).last() == input[i as int]);
                    }
                },
                Err(e) => {
                    proof {
                        assert(input.take(i + 1).drop_last() =~= input.take(i as int));
                        assert(input.take(i + 1).last() == input[i as int]);
                        assert(eval_conditions_spec(input.take(i + 1)) == Err::<Seq<CondV>, Error>(
                            e,
                        ));
                        lemma_eval_error_extends(input, i + 1, e);
                    }
                    return Err(e);
                },
            }
            i = i + 1;
        }
        proof {
            assert(input.take(condition@.len() as int) =~= input);
        }
        get_enrichment_table_record(
            select,
            &self.enrichment_tables,
            self.table.as_str(),
            self.case_sensitive,
            conds.as_slice(),
            self.index,
        )
    }
}

proof fn lemma_eval_error_extends(input: Seq<(Seq<char>, ResolvedV)>, j: int, e: Error)
    requires
        0 <= j <= input.len(),
        eval_conditions_spec(input.take(j)) == Err::<Seq<CondV>, Error>(e),
    ensures
        eval_conditions_spec(input) == Err::<Seq<CondV>, Error>(e),
    decreases input.len() - j,
{
    if j == input.len() {
        assert(input.take(j) =~= input);
    } else {
        assert(input.take(j + 1).drop_last() =~= input.take(j));
        assert(eval_conditions_spec(input.take(j + 1)) == Err::<Seq<CondV>, Error>(e));
        lemma_eval_error_extends(input, j + 1, e);
    }
}

} // verus!
