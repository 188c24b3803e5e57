use firestore_plugin::crud::{rename_next, RenameAction, RenameOutcome, RenameStep};
use firestore_plugin::coercion::{coerce_string, StringCoercion};
use firestore_plugin::crud::{
    column_hint, document_path, explicit_id, missing_fields_message, rename_target,
    required_fields_missing, value_to_string, CellValue,
};
use firestore_plugin::models::{ConnectionFields, ConnectionParams, Settings, SettingsFields};
use firestore_plugin::query_parser::parse;
use firestore_plugin::query_plan::{
    capped_offset, choose_cursor, count_key, doc_short_id, effective_paging, explain_details,
    next_cursor_offset, prepare_filter, project_columns, query_key, query_limit, should_count,
    total_count,
};
use firestore_plugin::schema_infer::ColumnInfo;
use serde_json::Value;

fn col(name: &str, data_type: &str, nullable: bool) -> ColumnInfo {
    ColumnInfo {
        name: name.into(),
        data_type: data_type.into(),
        is_nullable: nullable,
        references: None,
        comment: None,
    }
}

fn s(t: &str) -> CellValue {
    CellValue::Str(t.to_string())
}

fn record(pairs: Vec<(&str, CellValue)>) -> Vec<(String, CellValue)> {
    pairs.into_iter().map(|(k, v)| (k.to_string(), v)).collect()
}

#[test]
fn value_to_string_strings() {
    assert_eq!(value_to_string(&s("abc")), Some("abc".to_string()));
}

#[test]
fn value_to_string_rejects_empty_string() {
    assert_eq!(value_to_string(&s("")), None);
}

#[test]
fn value_to_string_accepts_numbers() {
    assert_eq!(value_to_string(&CellValue::Number("42".into())), Some("42".to_string()));
    assert_eq!(value_to_string(&CellValue::Number("2.5".into())), Some("2.5".to_string()));
}

#[test]
fn value_to_string_rejects_null_bool_array() {
    assert_eq!(value_to_string(&CellValue::Null), None);
    assert_eq!(value_to_string(&CellValue::Bool(true)), None);
    assert_eq!(value_to_string(&CellValue::Array), None);
}

#[test]
fn required_fields_missing_returns_empty_when_all_set() {
    let cols = vec![col("id", "string", false), col("name", "string", false), col("email", "string", true)];
    let data = record(vec![("name", s("Alice")), ("email", s(""))]);
    assert!(required_fields_missing(&cols, &data).is_empty());
}

#[test]
fn required_fields_missing_skips_synthetic_id() {
    let cols = vec![col("id", "string", false)];
    let data = record(vec![]);
    assert!(required_fields_missing(&cols, &data).is_empty());
}

#[test]
fn required_fields_missing_flags_absent_field() {
    let cols = vec![col("name", "string", false)];
    let data = record(vec![]);
    assert_eq!(required_fields_missing(&cols, &data), vec!["name"]);
}

#[test]
fn required_fields_missing_flags_null_value() {
    let cols = vec![col("name", "string", false)];
    let data = record(vec![("name", CellValue::Null)]);
    assert_eq!(required_fields_missing(&cols, &data), vec!["name"]);
}

#[test]
fn required_fields_missing_flags_empty_string() {
    let cols = vec![col("name", "string", false)];
    let data = record(vec![("name", s(""))]);
    assert_eq!(required_fields_missing(&cols, &data), vec!["name"]);
}

#[test]
fn required_fields_missing_treats_zero_and_false_as_set() {
    let cols = vec![col("count", "number", false), col("active", "boolean", false)];
    let data = record(vec![("count", CellValue::Number("0".into())), ("active", CellValue::Bool(false))]);
    assert!(required_fields_missing(&cols, &data).is_empty());
}

#[test]
fn required_fields_missing_treats_empty_collections_as_set() {
    let cols = vec![col("tags", "array", false), col("meta", "map", false)];
    let data = record(vec![("tags", CellValue::Array), ("meta", CellValue::Object)]);
    assert!(required_fields_missing(&cols, &data).is_empty());
}

#[test]
fn required_fields_missing_returns_multiple() {
    let cols = vec![col("a", "string", false), col("b", "string", false), col("c", "string", false)];
    let data = record(vec![("b", s("x"))]);
    let mut missing = required_fields_missing(&cols, &data);
    missing.sort();
    assert_eq!(missing, vec!["a", "c"]);
}

#[test]
fn missing_fields_message_lists_names() {
    let m = missing_fields_message(&vec!["a".to_string(), "c".to_string()]);
    assert!(m.starts_with("Required field(s) not set: a, c. The plugin's schema declares"));
}

#[test]
fn column_hint_takes_first_match() {
    let cols = vec![col("when", "timestamp", true), col("when", "string", true)];
    assert_eq!(column_hint(&cols, "when"), Some("timestamp".to_string()));
    assert_eq!(column_hint(&cols, "other"), None);
}

#[test]
fn explicit_id_needs_a_non_empty_string() {
    assert_eq!(explicit_id(&record(vec![("id", s("abc"))])), Some("abc".to_string()));
    assert_eq!(explicit_id(&record(vec![("id", s(""))])), None);
    assert_eq!(explicit_id(&record(vec![("id", CellValue::Number("3".into()))])), None);
    assert_eq!(explicit_id(&record(vec![("x", s("abc"))])), None);
}

#[test]
fn rename_target_rules() {
    assert_eq!(rename_target("a", &s("b")), Ok(Some("b".to_string())));
    assert_eq!(rename_target("a", &s("a")), Ok(None));
    assert!(rename_target("a", &s("")).unwrap_err().starts_with("renaming an id requires"));
    assert!(rename_target("a", &CellValue::Number("1".into())).is_err());
}

#[test]
fn document_path_format() {
    assert_eq!(
        document_path("p", "(default)", "users", "abc"),
        "projects/p/databases/(default)/documents/users/abc"
    );
}

#[test]
fn doc_short_id_takes_last_segment() {
    assert_eq!(doc_short_id("projects/p/databases/(default)/documents/users/abc123"), "abc123");
}

#[test]
fn doc_short_id_handles_empty_name() {
    assert_eq!(doc_short_id(""), "");
}

fn project_rows(all_names: &[String], rows: &[Value], requested: &[String]) -> (Vec<String>, Vec<Value>) {
    let (cols, idx) = project_columns(all_names, requested);
    let out = rows
        .iter()
        .map(|row| {
            let arr = row.as_array().cloned().unwrap_or_default();
            Value::Array(
                idx.iter()
                    .map(|i| i.and_then(|i| arr.get(i).cloned()).unwrap_or(Value::Null))
                    .collect(),
            )
        })
        .collect();
    (cols, out)
}

fn arr(items: Vec<Value>) -> Value {
    Value::Array(items)
}

#[test]
fn project_columns_keeps_only_requested() {
    let names = vec!["id".into(), "email".into(), "rating".into()];
    let rows = vec![arr(vec![Value::from("abc"), Value::from("x@y.de"), Value::from(5)])];
    let (cols, rows) = project_rows(&names, &rows, &["email".into()]);
    assert_eq!(cols, vec!["email"]);
    assert_eq!(rows, vec![arr(vec![Value::from("x@y.de")])]);
}

#[test]
fn project_columns_keeps_unknown_with_null_fill() {
    let names = vec!["id".into(), "email".into()];
    let rows = vec![arr(vec![Value::from("abc"), Value::from("x@y.de")])];
    let (cols, rows) = project_rows(&names, &rows, &["id".into(), "missing".into()]);
    assert_eq!(cols, vec!["id", "missing"]);
    assert_eq!(rows, vec![arr(vec![Value::from("abc"), Value::Null])]);
}

#[test]
fn project_columns_preserves_order() {
    let names = vec!["a".into(), "b".into(), "c".into()];
    let rows = vec![arr(vec![Value::from(1), Value::from(2), Value::from(3)])];
    let (cols, rows) = project_rows(&names, &rows, &["c".into(), "a".into()]);
    assert_eq!(cols, vec!["c", "a"]);
    assert_eq!(rows, vec![arr(vec![Value::from(3), Value::from(1)])]);
}

#[test]
fn paging_prefers_host_page_over_sql() {
    assert_eq!(effective_paging(None, None, None, None), (100, 0));
    assert_eq!(effective_paging(None, None, Some(20), Some(5)), (20, 5));
    assert_eq!(effective_paging(Some(25), Some(3), Some(20), Some(5)), (25, 50));
    assert_eq!(effective_paging(Some(25), Some(1), None, Some(5)), (25, 0));
    assert_eq!(effective_paging(None, Some(0), Some(10), Some(5)), (10, 5));
    assert_eq!(effective_paging(None, Some(2), Some(10), Some(5)), (10, 10));
}

#[test]
fn cursor_choice_exact_then_nearest_below() {
    let offs = vec![50, 100, 150];
    assert_eq!(choose_cursor(&offs, 0), (None, 0));
    assert_eq!(choose_cursor(&offs, 100), (Some(100), 0));
    assert_eq!(choose_cursor(&offs, 130), (Some(100), 30));
    assert_eq!(choose_cursor(&offs, 20), (None, 20));
    assert_eq!(choose_cursor(&vec![], 7), (None, 7));
}

#[test]
fn counting_and_totals() {
    assert!(should_count(None));
    assert!(!should_count(Some(3)));
    assert_eq!(total_count(Some(9), 4), (9, true));
    assert_eq!(total_count(None, 4), (4, false));
    assert_eq!(next_cursor_offset(50, 25), 75);
    assert_eq!(query_limit(0x1_0000_0005), 5);
    assert_eq!(capped_offset(u64::MAX), u32::MAX);
    assert_eq!(capped_offset(12), 12);
}

#[test]
fn cache_keys_use_canonical_forms() {
    let q = parse(r#"SELECT * FROM "t" WHERE b = 2 AND a = 1 ORDER BY x DESC"#).unwrap();
    let c = count_key(&q);
    assert_eq!(c.table, "t");
    assert_eq!(c.where_canonical, "(and (cmp a Eq 1) (cmp b Eq 2))");
    let k = query_key(&q);
    assert_eq!(k.order_by_canonical, "x DESC");
    let plain = parse("SELECT * FROM t").unwrap();
    assert_eq!(count_key(&plain).where_canonical, "");
    let (f, o, l) = explain_details(&plain);
    assert!(f.is_none() && o.is_none() && l.is_none());
}

#[test]
fn prepare_filter_rewrites_and_validates() {
    let mut q = parse(r#"SELECT * FROM "users" WHERE id = 'abc'"#).unwrap();
    let mut st = Settings::default();
    st.project_id = "p".into();
    assert!(prepare_filter(&mut q, Some(&st)).is_ok());
    let canon = firestore_plugin::canonical::canonical_filter(q.where_clause.as_ref().unwrap());
    assert_eq!(canon, "(cmp __name__ Eq ref:projects/p/databases/(default)/documents/users/abc)");
    let mut bad = parse(r#"SELECT * FROM "u" WHERE a > 1 AND b < 2"#).unwrap();
    assert!(prepare_filter(&mut bad, None).unwrap_err().contains("(saw a, b)"));
}

#[test]
fn settings_uses_defaults_for_missing_keys() {
    let s = Settings::from_value(&SettingsFields {
        project_id: None,
        database_id: None,
        service_account_path: None,
        emulator_host: None,
        sample_size: None,
    });
    assert_eq!(s.project_id, "");
    assert_eq!(s.database_id, "(default)");
    assert!(s.service_account_path.is_none());
    assert!(s.emulator_host.is_none());
    assert_eq!(s.sample_size, 50);
}

#[test]
fn settings_reads_provided_values() {
    let s = Settings::from_value(&SettingsFields {
        project_id: Some("p1".into()),
        database_id: Some("named-db".into()),
        service_account_path: Some("/etc/sa.json".into()),
        emulator_host: Some("localhost:8080".into()),
        sample_size: Some(25),
    });
    assert_eq!(s.project_id, "p1");
    assert_eq!(s.database_id, "named-db");
    assert_eq!(s.service_account_path.as_deref(), Some("/etc/sa.json"));
    assert_eq!(s.emulator_host.as_deref(), Some("localhost:8080"));
    assert_eq!(s.sample_size, 25);
}

#[test]
fn settings_treats_empty_strings_as_unset() {
    let s = Settings::from_value(&SettingsFields {
        project_id: None,
        database_id: None,
        service_account_path: Some(String::new()),
        emulator_host: Some(String::new()),
        sample_size: None,
    });
    assert!(s.service_account_path.is_none());
    assert!(s.emulator_host.is_none());
}

#[test]
fn settings_clamps_zero_sample_size_to_one() {
    let s = Settings::from_value(&SettingsFields {
        project_id: None,
        database_id: None,
        service_account_path: None,
        emulator_host: None,
        sample_size: Some(0),
    });
    assert_eq!(s.sample_size, 1);
}

#[test]
fn settings_oversized_sample_size_falls_back() {
    let s = Settings::from_value(&SettingsFields {
        project_id: None,
        database_id: Some(String::new()),
        service_account_path: None,
        emulator_host: None,
        sample_size: Some(1 << 40),
    });
    assert_eq!(s.sample_size, 50);
    assert_eq!(s.database_id, "(default)");
}

#[test]
fn connection_port_must_fit_sixteen_bits() {
    let f = |port: Option<u64>| ConnectionFields {
        driver: Some("firestore".into()),
        host: None,
        port,
        database: None,
        username: None,
        password: None,
        ssl_mode: None,
    };
    assert_eq!(ConnectionParams::from_value(&f(Some(8080))).port, Some(8080));
    assert_eq!(ConnectionParams::from_value(&f(Some(70000))).port, None);
    assert_eq!(ConnectionParams::from_value(&f(None)).driver.as_deref(), Some("firestore"));
}

#[test]
fn coerce_string_follows_the_hint() {
    match coerce_string("2026-05-09T10:30:00Z", Some("timestamp")) {
        StringCoercion::Timestamp(t) => {
            assert_eq!(t.seconds, 1778322600);
            assert_eq!(t.nanos, 0);
        }
        _ => panic!("expected a timestamp"),
    }
    assert!(matches!(coerce_string("not a date", Some("timestamp")), StringCoercion::Text(_)));
    assert!(matches!(coerce_string("p/x", Some("reference")), StringCoercion::Reference(_)));
    match coerce_string("aGVsbG8=", Some("binary")) {
        StringCoercion::Bytes(b) => assert_eq!(b, b"hello".to_vec()),
        _ => panic!("expected bytes"),
    }
    assert!(matches!(coerce_string("%%", Some("binary")), StringCoercion::Text(_)));
    assert!(matches!(coerce_string("[1]", Some("array")), StringCoercion::Json));
    assert!(matches!(coerce_string("{}", Some("map")), StringCoercion::Json));
    assert!(matches!(coerce_string("x", None), StringCoercion::Text(_)));
}

#[test]
fn rename_steps_in_order_and_stops_at_the_first_failure() {
    assert!(matches!(
        rename_next(RenameStep::ReadSource, RenameOutcome::Done, "b", "a"),
        RenameAction::Call(RenameStep::CheckTarget)
    ));
    assert!(matches!(
        rename_next(RenameStep::CheckTarget, RenameOutcome::Done, "b", "a"),
        RenameAction::Call(RenameStep::WriteCopy)
    ));
    assert!(matches!(
        rename_next(RenameStep::WriteCopy, RenameOutcome::Done, "b", "a"),
        RenameAction::Call(RenameStep::DeleteSource)
    ));
    assert!(matches!(
        rename_next(RenameStep::DeleteSource, RenameOutcome::Done, "b", "a"),
        RenameAction::Finish
    ));
    match rename_next(RenameStep::CheckTarget, RenameOutcome::Exists, "b", "a") {
        RenameAction::Fail(code, msg, url) => {
            assert_eq!(code, -32602);
            assert_eq!(
                msg,
                "Cannot rename to 'b': a document with that id already exists. Pick a different id or delete the existing one first."
            );
            assert!(url.is_none());
        }
        other => panic!("unexpected {other:?}"),
    }
    match rename_next(
        RenameStep::ReadSource,
        RenameOutcome::Failed(-32001, "gone".into(), None),
        "b",
        "a",
    ) {
        RenameAction::Fail(code, msg, _) => {
            assert_eq!(code, -32001);
            assert_eq!(msg, "gone");
        }
        other => panic!("unexpected {other:?}"),
    }
    match rename_next(
        RenameStep::DeleteSource,
        RenameOutcome::Failed(-32000, "denied".into(), Some("u".into())),
        "b",
        "a",
    ) {
        RenameAction::Fail(code, msg, url) => {
            assert_eq!(code, -32000);
            assert_eq!(
                msg,
                "Renamed copy created at 'b' but failed to delete the source at 'a': denied. You now have both — delete one manually."
            );
            assert_eq!(url.as_deref(), Some("u"));
        }
        other => panic!("unexpected {other:?}"),
    }
    assert!(matches!(
        rename_next(
            RenameStep::CheckTarget,
            RenameOutcome::Failed(-32000, "x".into(), None),
            "b",
            "a"
        ),
        RenameAction::Call(RenameStep::WriteCopy)
    ));
}
