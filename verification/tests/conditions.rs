use enrichment::Case;
use enrichment::Condition;
use enrichment::Error;
use enrichment::MeaningError;
use enrichment::MeaningList;
use enrichment::ResolvedValue;
use enrichment::SetSemanticMeaning;
use enrichment::Value;
use enrichment::case_mode;
use enrichment::evaluate_condition;
use enrichment::value::values_match;

fn s(x: &str) -> String {
    x.to_string()
}

fn b(x: &str) -> Value {
    Value::Bytes(x.as_bytes().to_vec())
}

#[test]
fn scalar_classifies_as_exact() {
    let got = evaluate_condition("id", &ResolvedValue::Scalar(Value::Integer(5)));
    assert_eq!(got, Ok(Condition::Exact { field: s("id"), value: Value::Integer(5) }));
}

#[test]
fn range_object_classifies_as_inclusive_range() {
    let got = evaluate_condition(
        "at",
        &ResolvedValue::Object(vec![
            (s("from"), Value::Timestamp(100)),
            (s("to"), Value::Timestamp(200)),
        ]),
    );
    let want = Condition::Range {
        field: s("at"),
        from: Value::Timestamp(100),
        to: Value::Timestamp(200),
        from_inclusive: true,
        to_inclusive: true,
    };
    assert_eq!(got, Ok(want));
}

#[test]
fn range_object_keys_may_come_in_either_order() {
    let got = evaluate_condition(
        "at",
        &ResolvedValue::Object(vec![
            (s("to"), Value::Timestamp(200)),
            (s("from"), Value::Timestamp(100)),
        ]),
    );
    let want = Condition::Range {
        field: s("at"),
        from: Value::Timestamp(100),
        to: Value::Timestamp(200),
        from_inclusive: true,
        to_inclusive: true,
    };
    assert_eq!(got, Ok(want));
}

#[test]
fn malformed_objects_are_condition_type_errors() {
    let wrong_keys = evaluate_condition(
        "at",
        &ResolvedValue::Object(vec![
            (s("lo"), Value::Timestamp(100)),
            (s("hi"), Value::Timestamp(200)),
        ]),
    );
    assert_eq!(wrong_keys, Err(Error::ConditionTypeError));
    let wrong_kind = evaluate_condition(
        "at",
        &ResolvedValue::Object(vec![
            (s("from"), Value::Integer(100)),
            (s("to"), Value::Timestamp(200)),
        ]),
    );
    assert_eq!(wrong_kind, Err(Error::ConditionTypeError));
    let wrong_arity = evaluate_condition(
        "at",
        &ResolvedValue::Object(vec![(s("from"), Value::Timestamp(100))]),
    );
    assert_eq!(wrong_arity, Err(Error::ConditionTypeError));
}

#[test]
fn case_mode_defaults_to_sensitive() {
    assert_eq!(case_mode(None), Case::Sensitive);
    assert_eq!(case_mode(Some(true)), Case::Sensitive);
    assert_eq!(case_mode(Some(false)), Case::Insensitive);
}

#[test]
fn folding_compares_ascii_letters_only() {
    assert!(values_match(&b("BOB"), &b("bob"), Case::Insensitive));
    assert!(!values_match(&b("BOB"), &b("bob"), Case::Sensitive));
    assert!(values_match(&b("r2-d2!"), &b("R2-D2!"), Case::Insensitive));
    assert!(!values_match(&b("bob"), &Value::Integer(1), Case::Insensitive));
    assert!(values_match(
        &Value::Integer(7),
        &Value::Integer(7),
        Case::Insensitive
    ));
}

#[test]
fn composite_values_compare_as_exact_payloads() {
    let inner = |name: &str| Value::Composite(vec![(s("city"), b(name)), (s("zip"), Value::Integer(10001))]);
    assert!(values_match(&inner("NYC"), &inner("NYC"), Case::Sensitive));
    assert!(!values_match(&inner("NYC"), &inner("LA"), Case::Sensitive));
    // folding never reaches inside a composite
    assert!(!values_match(&inner("NYC"), &inner("nyc"), Case::Insensitive));
    assert!(!values_match(&inner("NYC"), &b("NYC"), Case::Sensitive));
}

#[test]
fn composite_cells_match_exactly() {
    let mut registry = enrichment::TableRegistry::new();
    let address = |city: &str| Value::Composite(vec![(s("city"), b(city))]);
    registry
        .load_table(
            s("people"),
            vec![s("id"), s("addr")],
            vec![
                vec![Value::Integer(1), address("NYC")],
                vec![Value::Integer(2), address("LA")],
            ],
        )
        .unwrap();
    let search = registry.finish_load();
    let got = search.find_table_row(
        "people",
        Case::Sensitive,
        &[Condition::Exact { field: s("addr"), value: address("LA") }],
        None,
        None,
    );
    assert_eq!(
        got,
        Ok(vec![(s("id"), Value::Integer(2)), (s("addr"), address("LA"))])
    );
}

#[test]
fn meanings_bind_to_exactly_one_field() {
    let function = SetSemanticMeaning;
    assert_eq!(function.identifier(), "set_semantic_meaning");
    let mut list = MeaningList::new();
    assert_eq!(
        function.compile(&mut list, true, true, s("user"), s(".user.name")),
        Ok(())
    );
    // the same assignment again is fine
    assert_eq!(
        function.compile(&mut list, true, true, s("user"), s(".user.name")),
        Ok(())
    );
    // pointing the meaning at a different field is not
    assert_eq!(
        function.compile(&mut list, true, true, s("user"), s(".login")),
        Err(MeaningError::ConflictingMeaning)
    );
    assert_eq!(list.lookup(&s("user")), Some(s(".user.name")));
    assert_eq!(list.lookup(&s("host")), None);
}

#[test]
fn meanings_need_an_existing_external_target() {
    let function = SetSemanticMeaning;
    let mut list = MeaningList::new();
    assert_eq!(
        function.compile(&mut list, false, true, s("user"), s("local")),
        Err(MeaningError::NonExternalTarget)
    );
    assert_eq!(
        function.compile(&mut list, true, false, s("user"), s(".ghost")),
        Err(MeaningError::UnknownField)
    );
    assert_eq!(list.lookup(&s("user")), None);
}
