use enrichment::Case;
use enrichment::Condition;
use enrichment::Error;
use enrichment::GetEnrichmentTableRecord;
use enrichment::GetEnrichmentTableRecordFn;
use enrichment::IndexHandle;
use enrichment::ResolvedValue;
use enrichment::TableRegistry;
use enrichment::Value;

fn s(x: &str) -> String {
    x.to_string()
}

fn b(x: &str) -> Value {
    Value::Bytes(x.as_bytes().to_vec())
}

fn exact(field: &str, value: Value) -> Condition {
    Condition::Exact { field: s(field), value }
}

/// A registry holding one table `t` with rows {id:1,name:"Bob"} and
/// {id:2,name:"Sue"}.
fn two_row_registry() -> TableRegistry {
    let mut registry = TableRegistry::new();
    registry
        .load_table(
            s("t"),
            vec![s("id"), s("name")],
            vec![
                vec![Value::Integer(1), b("Bob")],
                vec![Value::Integer(2), b("Sue")],
            ],
        )
        .unwrap();
    registry
}

#[test]
fn find_table_row() {
    let mut registry = TableRegistry::new();
    registry
        .load_table(s("dummy1"), vec![s("field")], vec![vec![b("value")]])
        .unwrap();
    // the call site embeds its view before the registry seals; a stale
    // handle only costs the index shortcut, never the answer
    let func = GetEnrichmentTableRecordFn {
        table: s("dummy1"),
        case_sensitive: Case::Sensitive,
        index: Some(IndexHandle(999)),
        enrichment_tables: registry.as_readonly(),
    };
    registry.finish_load();
    let got = func.resolve(
        &vec![(s("field"), ResolvedValue::Scalar(b("value")))],
        None,
    );
    assert_eq!(
        got,
        Ok(ResolvedValue::Object(vec![(s("field"), b("value"))]))
    );
}

#[test]
fn exact_match_returns_the_single_row() {
    let mut registry = two_row_registry();
    let search = registry.finish_load();
    let got = search.find_table_row(
        "t",
        Case::Sensitive,
        &[exact("id", Value::Integer(1))],
        None,
        None,
    );
    assert_eq!(got, Ok(vec![(s("id"), Value::Integer(1)), (s("name"), b("Bob"))]));
}

#[test]
fn duplicate_rows_are_ambiguous() {
    let mut registry = TableRegistry::new();
    registry
        .load_table(
            s("t"),
            vec![s("id"), s("name")],
            vec![
                vec![Value::Integer(1), b("Bob")],
                vec![Value::Integer(1), b("Bill")],
            ],
        )
        .unwrap();
    let search = registry.finish_load();
    let got = search.find_table_row(
        "t",
        Case::Sensitive,
        &[exact("id", Value::Integer(1))],
        None,
        None,
    );
    assert_eq!(got, Err(Error::MultipleMatches));
}

#[test]
fn missing_key_is_not_found() {
    let mut registry = two_row_registry();
    let search = registry.finish_load();
    let got = search.find_table_row(
        "t",
        Case::Sensitive,
        &[exact("id", Value::Integer(999))],
        None,
        None,
    );
    assert_eq!(got, Err(Error::NotFound));
}

#[test]
fn case_folding_is_per_lookup() {
    let mut registry = TableRegistry::new();
    registry
        .load_table(s("t"), vec![s("name")], vec![vec![b("Bob")]])
        .unwrap();
    let search = registry.finish_load();
    let relaxed = search.find_table_row(
        "t",
        Case::Insensitive,
        &[exact("name", b("bob"))],
        None,
        None,
    );
    assert_eq!(relaxed, Ok(vec![(s("name"), b("Bob"))]));
    let strict = search.find_table_row(
        "t",
        Case::Sensitive,
        &[exact("name", b("bob"))],
        None,
        None,
    );
    assert_eq!(strict, Err(Error::NotFound));
}

#[test]
fn projection_keeps_exactly_the_selected_columns() {
    let mut registry = TableRegistry::new();
    registry
        .load_table(
            s("t"),
            vec![s("id"), s("name"), s("city")],
            vec![vec![Value::Integer(1), b("Bob"), b("NYC")]],
        )
        .unwrap();
    let search = registry.finish_load();
    let narrow = search.find_table_row(
        "t",
        Case::Sensitive,
        &[exact("id", Value::Integer(1))],
        Some(&vec![s("name")]),
        None,
    );
    assert_eq!(narrow, Ok(vec![(s("name"), b("Bob"))]));
    let bogus = search.find_table_row(
        "t",
        Case::Sensitive,
        &[exact("id", Value::Integer(1))],
        Some(&vec![s("zzz")]),
        None,
    );
    assert_eq!(bogus, Err(Error::UnknownColumn));
}

#[test]
fn repeated_index_requests_share_one_index() {
    let mut registry = two_row_registry();
    let first = registry
        .add_index("t", Case::Sensitive, &vec![s("id"), s("name")])
        .unwrap();
    assert_eq!(registry.index_count(), 1);
    // same field set in another order: same identity, same handle, no scan
    let second = registry
        .add_index("t", Case::Sensitive, &vec![s("name"), s("id")])
        .unwrap();
    assert_eq!(first, second);
    assert_eq!(registry.index_count(), 1);
    // a different case mode is a different index
    let third = registry
        .add_index("t", Case::Insensitive, &vec![s("id"), s("name")])
        .unwrap();
    assert_ne!(first, third);
    assert_eq!(registry.index_count(), 2);
}

#[test]
fn sealing_is_irreversible() {
    let mut registry = two_row_registry();
    let early_view = registry.as_readonly();
    let got = early_view.find_table_row(
        "t",
        Case::Sensitive,
        &[exact("id", Value::Integer(1))],
        None,
        None,
    );
    assert_eq!(got, Err(Error::NotLoaded));
    registry.finish_load();
    assert_eq!(
        registry.add_index("t", Case::Sensitive, &vec![s("id")]),
        Err(Error::LoadingClosed)
    );
    assert_eq!(
        registry.load_table(s("u"), vec![s("id")], vec![]),
        Err(Error::LoadingClosed)
    );
    // sealing again is idempotent and hands out a fresh usable view
    let search = registry.finish_load();
    let late = search.find_table_row(
        "t",
        Case::Sensitive,
        &[exact("id", Value::Integer(2))],
        None,
        None,
    );
    assert_eq!(late, Ok(vec![(s("id"), Value::Integer(2)), (s("name"), b("Sue"))]));
    // the view taken before sealing now answers from the sealed snapshot
    let woken = early_view.find_table_row(
        "t",
        Case::Sensitive,
        &[exact("id", Value::Integer(1))],
        None,
        None,
    );
    assert_eq!(woken, Ok(vec![(s("id"), Value::Integer(1)), (s("name"), b("Bob"))]));
}

#[test]
fn unknown_table_is_reported() {
    let mut registry = two_row_registry();
    assert_eq!(
        registry.add_index("missing", Case::Sensitive, &vec![s("id")]),
        Err(Error::UnknownTable)
    );
    let search = registry.finish_load();
    let got = search.find_table_row(
        "missing",
        Case::Sensitive,
        &[exact("id", Value::Integer(1))],
        None,
        None,
    );
    assert_eq!(got, Err(Error::UnknownTable));
}

#[test]
fn unknown_index_column_is_reported() {
    let mut registry = two_row_registry();
    assert_eq!(
        registry.add_index("t", Case::Sensitive, &vec![s("zzz")]),
        Err(Error::UnknownColumn)
    );
}

#[test]
fn table_ids_lists_loaded_tables() {
    let mut registry = two_row_registry();
    registry
        .load_table(s("u"), vec![s("k")], vec![vec![Value::Integer(7)]])
        .unwrap();
    assert_eq!(registry.table_ids(), vec![s("t"), s("u")]);
    registry.finish_load();
    assert_eq!(registry.table_ids(), vec![s("t"), s("u")]);
}

#[test]
fn indexed_lookup_agrees_with_scan() {
    let mut registry = two_row_registry();
    let handle = registry
        .add_index("t", Case::Sensitive, &vec![s("id")])
        .unwrap();
    let search = registry.finish_load();
    let with_index = search.find_table_row(
        "t",
        Case::Sensitive,
        &[exact("id", Value::Integer(2))],
        None,
        Some(handle),
    );
    let without = search.find_table_row(
        "t",
        Case::Sensitive,
        &[exact("id", Value::Integer(2))],
        None,
        None,
    );
    assert_eq!(with_index, without);
    assert_eq!(with_index, Ok(vec![(s("id"), Value::Integer(2)), (s("name"), b("Sue"))]));
}

#[test]
fn insensitive_index_folds_its_keys() {
    let mut registry = TableRegistry::new();
    registry
        .load_table(s("t"), vec![s("name"), s("id")], vec![
            vec![b("Bob"), Value::Integer(1)],
            vec![b("SUE"), Value::Integer(2)],
        ])
        .unwrap();
    let handle = registry
        .add_index("t", Case::Insensitive, &vec![s("name")])
        .unwrap();
    let search = registry.finish_load();
    let got = search.find_table_row(
        "t",
        Case::Insensitive,
        &[exact("name", b("sue"))],
        Some(&vec![s("id")]),
        Some(handle),
    );
    assert_eq!(got, Ok(vec![(s("id"), Value::Integer(2))]));
}

#[test]
fn timestamp_range_filters_candidates() {
    let mut registry = TableRegistry::new();
    registry
        .load_table(s("events"), vec![s("id"), s("at")], vec![
            vec![Value::Integer(1), Value::Timestamp(100)],
            vec![Value::Integer(1), Value::Timestamp(900)],
        ])
        .unwrap();
    let search = registry.finish_load();
    let got = search.find_table_row(
        "events",
        Case::Sensitive,
        &[
            exact("id", Value::Integer(1)),
            Condition::Range {
                field: s("at"),
                from: Value::Timestamp(50),
                to: Value::Timestamp(200),
                from_inclusive: true,
                to_inclusive: true,
            },
        ],
        None,
        None,
    );
    assert_eq!(
        got,
        Ok(vec![(s("id"), Value::Integer(1)), (s("at"), Value::Timestamp(100))])
    );
}

#[test]
fn range_bounds_respect_inclusivity() {
    let mut registry = TableRegistry::new();
    registry
        .load_table(s("events"), vec![s("at")], vec![vec![Value::Timestamp(100)]])
        .unwrap();
    let search = registry.finish_load();
    let exclusive = search.find_table_row(
        "events",
        Case::Sensitive,
        &[Condition::Range {
            field: s("at"),
            from: Value::Timestamp(100),
            to: Value::Timestamp(200),
            from_inclusive: false,
            to_inclusive: true,
        }],
        None,
        None,
    );
    assert_eq!(exclusive, Err(Error::NotFound));
    let inclusive = search.find_table_row(
        "events",
        Case::Sensitive,
        &[Condition::Range {
            field: s("at"),
            from: Value::Timestamp(100),
            to: Value::Timestamp(200),
            from_inclusive: true,
            to_inclusive: true,
        }],
        None,
        None,
    );
    assert_eq!(inclusive, Ok(vec![(s("at"), Value::Timestamp(100))]));
}

#[test]
fn no_conditions_match_every_row() {
    let mut registry = two_row_registry();
    let search = registry.finish_load();
    let got = search.find_table_row("t", Case::Sensitive, &[], None, None);
    assert_eq!(got, Err(Error::MultipleMatches));
}

#[test]
fn empty_table_has_no_match() {
    let mut registry = TableRegistry::new();
    registry.load_table(s("t"), vec![s("id")], vec![]).unwrap();
    let search = registry.finish_load();
    let got = search.find_table_row("t", Case::Sensitive, &[], None, None);
    assert_eq!(got, Err(Error::NotFound));
}

#[test]
fn concurrent_lookups_agree_with_sequential_ones() {
    let mut registry = two_row_registry();
    let search = registry.finish_load();
    let sequential = search.find_table_row(
        "t",
        Case::Sensitive,
        &[exact("id", Value::Integer(1))],
        None,
        None,
    );
    // many handles over the same sealed data, queried repeatedly and in a
    // different order, return exactly the sequential answers
    let mut repeated: Vec<_> = Vec::new();
    let mut k = 0;
    while k < 8 {
        let view = search.duplicate();
        repeated.push(view.find_table_row(
            "t",
            Case::Sensitive,
            &[exact("id", Value::Integer(1))],
            None,
            None,
        ));
        k += 1;
    }
    for got in repeated {
        assert_eq!(got, sequential);
    }
}

#[test]
fn compile_then_resolve_round_trip() {
    let function = GetEnrichmentTableRecord;
    assert_eq!(function.identifier(), "get_enrichment_table_record");
    let mut registry = two_row_registry();
    let compiled = function
        .compile(&mut registry, "t", Some(true), &vec![s("id")])
        .unwrap();
    assert_eq!(compiled.table, s("t"));
    assert_eq!(compiled.case_sensitive, Case::Sensitive);
    assert_eq!(registry.index_count(), 1);
    // compiled before sealing, the embedded view refuses lookups
    let early = compiled.resolve(
        &vec![(s("id"), ResolvedValue::Scalar(Value::Integer(1)))],
        None,
    );
    assert_eq!(early, Err(Error::NotLoaded));
    registry.finish_load();
    // and answers from the sealed snapshot afterwards
    let got = compiled.resolve(
        &vec![(s("id"), ResolvedValue::Scalar(Value::Integer(1)))],
        None,
    );
    assert_eq!(
        got,
        Ok(ResolvedValue::Object(vec![
            (s("id"), Value::Integer(1)),
            (s("name"), b("Bob")),
        ]))
    );
    let bad_shape = compiled.resolve(
        &vec![(s("id"), ResolvedValue::Object(vec![(s("oops"), Value::Integer(1))]))],
        None,
    );
    assert_eq!(bad_shape, Err(Error::ConditionTypeError));
}

#[test]
fn compile_against_unknown_table_fails() {
    let function = GetEnrichmentTableRecord;
    let mut registry = two_row_registry();
    let compiled = function.compile(&mut registry, "nope", None, &vec![s("id")]);
    assert!(matches!(compiled, Err(Error::UnknownTable)));
}

#[test]
fn error_descriptions_are_stable() {
    assert_eq!(Error::NotFound.describe(), "no rows found");
    assert_eq!(Error::TablesNotLoaded.describe(), "enrichment tables not loaded");
    assert_eq!(Error::LoadingClosed.describe(), "the loading stage is closed");
}
