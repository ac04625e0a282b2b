use jqbe::executor::{build_path, compare_values, execute, execute_collection, op_symbol, path_or_root, ExecuteError};
use jqbe::text::Compared;
use jqbe::json::JsonValue;
use jqbe::number::JsonNumber;
use jqbe::parser::{parse, FieldEntry, Operator, OrderDir, ParseError};

fn s(text: &str) -> JsonValue {
    JsonValue::String(text.to_string())
}

fn n(value: u64) -> JsonValue {
    JsonValue::Number(JsonNumber::PosInt(value))
}

fn f(value: f64) -> JsonValue {
    JsonValue::Number(JsonNumber::Float(value.to_bits()))
}

fn arr(items: Vec<JsonValue>) -> JsonValue {
    JsonValue::Array(items)
}

fn obj(members: Vec<(&str, JsonValue)>) -> JsonValue {
    JsonValue::Object(members.into_iter().map(|(k, v)| (k.to_string(), v)).collect())
}

fn run(query: &JsonValue, doc: &JsonValue) -> Result<JsonValue, ExecuteError> {
    execute(&parse(query).unwrap(), doc)
}

fn ids(v: &JsonValue) -> Vec<u64> {
    v.as_array()
        .unwrap()
        .iter()
        .map(|o| match o.get("id") {
            Some(JsonValue::Number(JsonNumber::PosInt(u))) => *u,
            _ => panic!("no id"),
        })
        .collect()
}

fn orders() -> JsonValue {
    obj(vec![(
        "orders",
        arr(vec![
            obj(vec![("id", n(1)), ("status", s("pending")), ("total", n(150)), ("product", s("b"))]),
            obj(vec![("id", n(2)), ("status", s("pending")), ("total", n(50)), ("product", s("a"))]),
            obj(vec![("id", n(3)), ("status", s("complete")), ("total", n(200)), ("product", s("c"))]),
            obj(vec![("id", n(4)), ("status", s("pending")), ("total", n(150)), ("product", s("a"))]),
        ]),
    )])
}

#[test]
fn paths_join_with_dots() {
    assert_eq!(build_path("", "user"), "user");
    assert_eq!(build_path("user", "name"), "user.name");
    assert_eq!(path_or_root(""), "<root>");
    assert_eq!(path_or_root("a.b"), "a.b");
}

#[test]
fn match_only_filters_without_projecting() {
    let r = run(
        &obj(vec![("orders", obj(vec![("total", obj(vec![("?", obj(vec![(">", n(100))]))])), ("id", s("*"))]))]),
        &orders(),
    )
    .unwrap();
    assert_eq!(ids(r.get("orders").unwrap()), vec![1, 3, 4]);
    for o in r.get("orders").unwrap().as_array().unwrap() {
        assert!(o.get("total").is_none());
    }
    let r = run(&obj(vec![("status", obj(vec![("?", s("pending"))])), ("id", s("*"))]), &obj(vec![("status", s("pending")), ("id", n(9))])).unwrap();
    assert!(r.get("status").is_none());
    assert!(matches!(r.get("id"), Some(JsonValue::Number(JsonNumber::PosInt(9)))));
}

#[test]
fn comparison_operators() {
    let doc = obj(vec![("total", n(100)), ("id", n(1))]);
    let check = |op: &str, operand: JsonValue| -> bool {
        !run(&obj(vec![("total", obj(vec![(op, operand)])), ("id", s("*"))]), &doc).unwrap().is_null()
    };
    assert!(check(">=", n(100)));
    assert!(!check(">", n(100)));
    assert!(check("<=", n(100)));
    assert!(!check("<", n(100)));
    assert!(check("<", f(100.5)));
    assert!(check(">", f(99.5)));
    assert!(check("!=", n(101)));
    assert!(!check("!=", n(100)));
    assert!(check("!=", f(100.0)));
}

#[test]
fn large_integers_compare_as_binary64() {
    let doc = obj(vec![("big", n(9007199254740993))]);
    let q = obj(vec![("big", obj(vec![(">", f(9007199254740992.0))]))]);
    assert!(run(&q, &doc).unwrap().is_null());
    let q = obj(vec![("big", obj(vec![(">=", f(9007199254740992.0))]))]);
    assert!(!run(&q, &doc).unwrap().is_null());
}

#[test]
fn ordering_operator_needs_numbers() {
    let r = run(&obj(vec![("name", obj(vec![(">", n(1))]))]), &obj(vec![("name", s("Alice"))]));
    match r {
        Err(ExecuteError::IncomparableType { path, operator }) => {
            assert_eq!(path, "name");
            assert_eq!(operator, ">");
        }
        other => panic!("unexpected {other:?}"),
    }
    let r = run(&obj(vec![("total", obj(vec![("<", s("x"))]))]), &obj(vec![("total", n(1))]));
    assert!(matches!(r, Err(ExecuteError::IncomparableType { .. })));
}

#[test]
fn not_equal_compares_any_values() {
    let q = obj(vec![("status", obj(vec![("!=", s("complete"))])), ("id", s("*"))]);
    let r = run(&q, &obj(vec![("status", s("pending")), ("id", n(1))])).unwrap();
    assert!(!r.is_null());
    assert_eq!(r.get("status").and_then(|v| v.as_str()), Some("pending"));
    let r = run(&q, &obj(vec![("status", s("complete")), ("id", n(2))])).unwrap();
    assert!(r.is_null());
    let r = run(&obj(vec![("flag", obj(vec![("!=", JsonValue::Bool(true))]))]), &obj(vec![("flag", JsonValue::Null)])).unwrap();
    assert!(!r.is_null());
}

#[test]
fn error_paths_name_the_field() {
    let r = run(
        &obj(vec![("user", obj(vec![("nonexistent_field", s("*"))]))]),
        &obj(vec![("user", obj(vec![("name", s("Alice"))]))]),
    );
    match r {
        Err(ExecuteError::MissingField { path }) => assert_eq!(path, "user.nonexistent_field"),
        other => panic!("unexpected {other:?}"),
    }
    let r = run(
        &obj(vec![("orders", obj(vec![("missing", s("*"))]))]),
        &obj(vec![("orders", arr(vec![obj(vec![("missing", n(1))]), obj(vec![("id", n(2))])]))]),
    );
    match r {
        Err(ExecuteError::MissingField { path }) => assert_eq!(path, "orders[1].missing"),
        other => panic!("unexpected {other:?}"),
    }
    let r = run(&obj(vec![("name", obj(vec![("first", s("*"))]))]), &obj(vec![("name", s("Alice"))]));
    match r {
        Err(ExecuteError::NotAnObject { path }) => assert_eq!(path, "name"),
        other => panic!("unexpected {other:?}"),
    }
    assert!(matches!(run(&obj(vec![("name", s("*"))]), &arr(vec![])), Ok(JsonValue::Array(v)) if v.is_empty()));
    match run(&obj(vec![("name", s("*"))]), &s("text")) {
        Err(ExecuteError::NotAnObject { path }) => assert_eq!(path, "<root>"),
        other => panic!("unexpected {other:?}"),
    }
}

#[test]
fn error_messages() {
    let e = ExecuteError::MissingField { path: "a.b".to_string() };
    assert_eq!(e.message(), "Field not found in document: a.b");
    let e = ExecuteError::IncomparableType { path: "x".to_string(), operator: ">".to_string() };
    assert_eq!(e.message(), "Cannot apply operator \">\" to field: x");
    assert_eq!(ParseError::NotAnObject.message(), "Query document must be a JSON object");
    let e = ParseError::InvalidOperatorValue { key: "|".to_string(), reason: "value must be an array".to_string() };
    assert_eq!(e.message(), "Invalid value for operator \"|\": value must be an array");
    assert_eq!(ParseError::UnknownOperator("~".to_string()).message(), "Unknown operator \"~\"");
}

#[test]
fn nested_no_match_propagates() {
    let r = run(
        &obj(vec![("user", obj(vec![("country", s("US"))])), ("id", s("*"))]),
        &obj(vec![("user", obj(vec![("country", s("FR"))])), ("id", n(1))]),
    )
    .unwrap();
    assert!(r.is_null());
}

#[test]
fn ordering_is_stable_and_paged() {
    let q = obj(vec![("orders", obj(vec![("^", s("total")), ("id", s("*")), ("total", s("*"))]))]);
    assert_eq!(ids(run(&q, &orders()).unwrap().get("orders").unwrap()), vec![2, 1, 4, 3]);
    let q = obj(vec![("orders", obj(vec![("v", s("total")), ("id", s("*")), ("total", s("*"))]))]);
    assert_eq!(ids(run(&q, &orders()).unwrap().get("orders").unwrap()), vec![3, 1, 4, 2]);
    let q = obj(vec![("orders", obj(vec![("^", s("product")), ("@", n(1)), ("#", n(2)), ("id", s("*")), ("product", s("*"))]))]);
    assert_eq!(ids(run(&q, &orders()).unwrap().get("orders").unwrap()), vec![4, 1]);
    let q = obj(vec![("orders", obj(vec![("@", n(10)), ("id", s("*"))]))]);
    assert_eq!(ids(run(&q, &orders()).unwrap().get("orders").unwrap()), Vec::<u64>::new());
    let q = obj(vec![("orders", obj(vec![("^", s("total")), ("id", s("*"))]))]);
    assert_eq!(ids(run(&q, &orders()).unwrap().get("orders").unwrap()), vec![2, 1, 4, 3]);
    let q = obj(vec![("orders", obj(vec![("v", s("product")), ("#", n(3)), ("id", s("*"))]))]);
    assert_eq!(ids(run(&q, &orders()).unwrap().get("orders").unwrap()), vec![3, 1, 2]);
}

#[test]
fn ordering_reads_the_members_not_the_results() {
    let q = obj(vec![("^", s("total")), ("id", s("*"))]);
    let members = vec![
        obj(vec![("id", n(1)), ("total", n(300))]),
        obj(vec![("id", n(2)), ("total", n(100))]),
        obj(vec![("id", n(3)), ("total", n(200))]),
    ];
    let r = run(&q, &arr(members)).unwrap();
    assert_eq!(ids(&r), vec![2, 3, 1]);
    assert!(r.as_array().unwrap()[0].get("total").is_none());
}

#[test]
fn collection_documents_answer_with_arrays() {
    let q = obj(vec![("id", s("*"))]);
    let r = run(&q, &arr(vec![obj(vec![("id", n(1)), ("x", n(2))]), obj(vec![("id", n(2))])])).unwrap();
    assert_eq!(ids(&r), vec![1, 2]);
    assert!(r.as_array().unwrap()[0].get("x").is_none());
    let q = obj(vec![("status", s("active")), ("id", s("*"))]);
    let r = run(&q, &arr(vec![obj(vec![("status", s("closed")), ("id", n(1))])])).unwrap();
    assert!(matches!(r, JsonValue::Array(ref v) if v.is_empty()));
    let r = run(&q, &arr(vec![obj(vec![("id", n(1))])]));
    assert!(matches!(r, Err(ExecuteError::MissingField { path }) if path == "[0].status"));
    let r = run(&q, &n(3));
    assert!(matches!(r, Err(ExecuteError::NotAnObject { path }) if path == "<root>"));
}

#[test]
fn missing_fields_are_reported_whatever_matches() {
    let q = obj(vec![("status", s("active")), ("nonexistent", s("*"))]);
    let r = run(&q, &obj(vec![("status", s("inactive"))]));
    assert!(matches!(r, Err(ExecuteError::MissingField { path }) if path == "nonexistent"));
    let q = obj(vec![("total", obj(vec![(">", n(100))])), ("user", obj(vec![("name", s("*"))])), ("gone", s("*"))]);
    let r = run(&q, &obj(vec![("total", n(5)), ("user", obj(vec![("name", s("A"))]))]));
    assert!(matches!(r, Err(ExecuteError::MissingField { path }) if path == "gone"));
}

#[test]
fn parse_errors() {
    assert!(matches!(
        parse(&obj(vec![("^", n(1))])),
        Err(ParseError::InvalidCollectionOperator { key, reason }) if key == "^" && reason == "value must be a field name string"
    ));
    assert!(matches!(
        parse(&obj(vec![("#", JsonValue::Number(JsonNumber::NegInt(-1)))])),
        Err(ParseError::InvalidCollectionOperator { key, reason }) if key == "#" && reason == "value must be a non-negative integer"
    ));
    assert!(matches!(
        parse(&obj(vec![("@", f(1.5))])),
        Err(ParseError::InvalidCollectionOperator { key, .. }) if key == "@"
    ));
    assert!(matches!(
        parse(&obj(vec![("status", obj(vec![("|", s("pending"))]))])),
        Err(ParseError::InvalidOperatorValue { key, reason }) if key == "|" && reason == "value must be an array"
    ));
    assert!(matches!(
        parse(&obj(vec![("status", obj(vec![("?", obj(vec![("|", n(1))]))]))])),
        Err(ParseError::InvalidOperatorValue { .. })
    ));
    assert!(matches!(
        parse(&obj(vec![("name", obj(vec![("~", s("A*"))]))])),
        Err(ParseError::UnknownOperator(k)) if k == "~"
    ));
    assert!(matches!(
        parse(&obj(vec![("orders", obj(vec![("#", n(2))]))])),
        Ok(q) if matches!(&q.fields[0].1, FieldEntry::Nested(sub) if sub.collection_opts.limit == Some(2))
    ));
    assert!(matches!(
        parse(&obj(vec![("name", obj(vec![("$count", s("*"))]))])),
        Ok(q) if matches!(&q.fields[0].1, FieldEntry::Nested(_))
    ));
}

#[test]
fn parse_field_forms() {
    let q = parse(&obj(vec![
        ("a", obj(vec![("?", s("x"))])),
        ("b", obj(vec![("?", obj(vec![("<=", n(3))]))])),
        ("c", obj(vec![("other", n(1))])),
        ("d", obj(vec![(">", n(1)), ("<", n(5))])),
        ("e", JsonValue::Null),
        ("v", s("e")),
    ]))
    .unwrap();
    assert_eq!(q.fields.len(), 5);
    assert!(matches!(&q.fields[0].1, FieldEntry::Operator(Operator::MatchOnly(inner)) if matches!(**inner, FieldEntry::Match(_))));
    assert!(matches!(&q.fields[1].1, FieldEntry::Operator(Operator::MatchOnly(inner)) if matches!(**inner, FieldEntry::Operator(Operator::Lte(_)))));
    assert!(matches!(&q.fields[2].1, FieldEntry::Nested(_)));
    assert!(matches!(&q.fields[3].1, FieldEntry::Nested(_)));
    assert!(matches!(&q.fields[4].1, FieldEntry::Match(JsonValue::Null)));
    assert!(matches!(q.collection_opts.order_dir, Some(OrderDir::Desc)));
    assert_eq!(q.collection_opts.order_by.as_deref(), Some("e"));
}

#[test]
fn collection_helpers_on_their_own() {
    let q = parse(&obj(vec![("^", s("total")), ("@", n(1)), ("#", n(1)), ("id", s("*"))])).unwrap();
    let members = vec![
        obj(vec![("id", n(1)), ("total", n(300))]),
        obj(vec![("id", n(2)), ("total", n(100))]),
        obj(vec![("id", n(3)), ("total", n(200))]),
    ];
    let r = execute_collection(&q, &members, "orders").unwrap();
    assert_eq!(ids(&arr(r)), vec![3]);
    let r = execute_collection(&q, &vec![obj(vec![("total", n(1))])], "orders");
    assert!(matches!(r, Err(ExecuteError::MissingField { path }) if path == "orders[0].id"));
    assert_eq!(op_symbol(&Operator::Ne(s("x"))), "!=");
    assert_eq!(op_symbol(&Operator::Gte(n(1))), ">=");
    assert!(matches!(compare_values(Some(&n(2)), Some(&n(10))), Compared::Less));
    assert!(matches!(compare_values(Some(&s("b")), Some(&s("a"))), Compared::Greater));
    assert!(matches!(compare_values(Some(&s("b")), Some(&n(1))), Compared::Equal));
    assert!(matches!(compare_values(None, Some(&n(1))), Compared::Equal));
}
