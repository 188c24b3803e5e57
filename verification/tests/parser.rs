use firestore_plugin::ast::{CmpOp, FilterExpr, Literal, OrderItem, ParsedQuery};
use firestore_plugin::query_parser::parse;

#[test]
fn parses_select_star_with_quoted_table() {
    let q = parse(r#"SELECT * FROM "users""#).unwrap();
    assert_eq!(q.table, "users");
    assert_eq!(q.order_by, vec![]);
    assert_eq!(q.limit, None);
    assert_eq!(q.offset, None);
}

#[test]
fn parses_unquoted_table() {
    let q = parse("SELECT * FROM users").unwrap();
    assert_eq!(q.table, "users");
}

#[test]
fn parses_backtick_quoted_table() {
    let q = parse("SELECT * FROM `users`").unwrap();
    assert_eq!(q.table, "users");
}

#[test]
fn keywords_are_case_insensitive() {
    let q = parse(r#"select * from "users" order by name desc limit 10 offset 5"#).unwrap();
    assert_eq!(q.table, "users");
    assert_eq!(
        q.order_by,
        vec![OrderItem {
            field: "name".into(),
            desc: true
        }]
    );
    assert_eq!(q.limit, Some(10));
    assert_eq!(q.offset, Some(5));
}

#[test]
fn parses_multi_column_order_by() {
    let q = parse(r#"SELECT * FROM "events" ORDER BY ts DESC, user_id ASC"#).unwrap();
    assert_eq!(
        q.order_by,
        vec![
            OrderItem {
                field: "ts".into(),
                desc: true
            },
            OrderItem {
                field: "user_id".into(),
                desc: false
            },
        ]
    );
}

#[test]
fn parses_limit_and_offset_in_either_order() {
    let q = parse(r#"SELECT * FROM "users" OFFSET 100 LIMIT 50"#).unwrap();
    assert_eq!(q.limit, Some(50));
    assert_eq!(q.offset, Some(100));
}

#[test]
fn whitespace_is_flexible() {
    let q = parse("  SELECT\t*\n  FROM \"users\"  ").unwrap();
    assert_eq!(q.table, "users");
}

#[test]
fn parses_where_with_eq() {
    let q = parse(r#"SELECT * FROM "u" WHERE name = 'Alice'"#).unwrap();
    let w = q.where_clause.unwrap();
    match w {
        FilterExpr::Compare { field, op, value } => {
            assert_eq!(field, vec!["name".to_string()]);
            assert_eq!(op, CmpOp::Eq);
            assert_eq!(value, Literal::Str("Alice".to_string()));
        }
        _ => panic!("expected Compare, got {w:?}"),
    }
}

#[test]
fn accepts_single_column_projection() {
    let q = parse(r#"SELECT name FROM "users""#).unwrap();
    assert_eq!(q.columns, Some(vec!["name".to_string()]));
}

#[test]
fn rejects_join() {
    let err =
        parse(r#"SELECT * FROM "users" JOIN "posts" ON users.id = posts.user_id"#).unwrap_err();
    assert!(err.contains("JOIN"));
}

#[test]
fn rejects_group_by() {
    let err = parse(r#"SELECT * FROM "users" GROUP BY country"#).unwrap_err();
    assert!(err.contains("GROUP"));
}

#[test]
fn rejects_missing_from() {
    let err = parse("SELECT *").unwrap_err();
    assert!(err.contains("expected 'FROM'"));
}

#[test]
fn rejects_negative_limit() {
    let err = parse(r#"SELECT * FROM "users" LIMIT -5"#).unwrap_err();
    assert!(err.contains("unexpected character: -"), "got: {err}");
}

#[test]
fn float_literals_lex_correctly() {
    let err = parse("SELECT * FROM \"x\" 3.14").unwrap_err();
    assert!(err.contains("trailing tokens") || err.contains("unexpected"));
}

#[test]
fn dot_notation_in_table_name_is_preserved() {
    let q = parse("SELECT * FROM users.archive").unwrap();
    assert_eq!(q.table, "users.archive");
}

fn first_compare(q: &ParsedQuery) -> &FilterExpr {
    q.where_clause.as_ref().unwrap()
}

#[test]
fn parses_where_with_double_eq() {
    let q = parse(r#"SELECT * FROM "u" WHERE name == 'Alice'"#).unwrap();
    match first_compare(&q) {
        FilterExpr::Compare { op, .. } => assert_eq!(*op, CmpOp::Eq),
        _ => panic!(),
    }
}

#[test]
fn parses_where_with_ne_and_diamond() {
    let q1 = parse(r#"SELECT * FROM "u" WHERE level != 'debug'"#).unwrap();
    let q2 = parse(r#"SELECT * FROM "u" WHERE level <> 'debug'"#).unwrap();
    for q in &[q1, q2] {
        match first_compare(q) {
            FilterExpr::Compare { op, .. } => assert_eq!(*op, CmpOp::Ne),
            _ => panic!(),
        }
    }
}

#[test]
fn parses_string_literal_with_escaped_quote() {
    let q = parse(r#"SELECT * FROM "u" WHERE name = 'Alice O\'Brien'"#).unwrap();
    match first_compare(&q) {
        FilterExpr::Compare {
            value: Literal::Str(s),
            ..
        } => {
            assert_eq!(s, "Alice O'Brien");
        }
        _ => panic!(),
    }
}

#[test]
fn parses_int_and_float_and_bool_and_null() {
    let q = parse(r#"SELECT * FROM "u" WHERE x = 42 AND y = 3.15 AND z = TRUE AND w = NULL"#)
        .unwrap();
    match q.where_clause {
        Some(FilterExpr::And(ref terms)) => {
            let lits: Vec<&Literal> = terms
                .iter()
                .map(|t| match t {
                    FilterExpr::Compare { value, .. } => value,
                    _ => panic!(),
                })
                .collect();
            assert_eq!(lits[0], &Literal::Int(42));
            match lits[1] {
                Literal::Float(text) => assert_eq!(text.parse::<f64>().unwrap(), 3.15),
                other => panic!("{other:?}"),
            }
            assert_eq!(lits[2], &Literal::Bool(true));
            assert_eq!(lits[3], &Literal::Null);
        }
        _ => panic!("{:?}", q.where_clause),
    }
}

#[test]
fn parses_dot_notation_field_path() {
    let q = parse(r#"SELECT * FROM "u" WHERE address.city = 'Berlin'"#).unwrap();
    match first_compare(&q) {
        FilterExpr::Compare { field, .. } => {
            assert_eq!(field, &vec!["address".to_string(), "city".to_string()]);
        }
        _ => panic!(),
    }
}

#[test]
fn parses_in_and_not_in_lists() {
    let q1 = parse(r#"SELECT * FROM "u" WHERE status IN ('active', 'pending')"#).unwrap();
    let q2 = parse(r#"SELECT * FROM "u" WHERE status NOT IN ('banned')"#).unwrap();
    match q1.where_clause {
        Some(FilterExpr::In {
            values,
            negated: false,
            ..
        }) => {
            assert_eq!(values.len(), 2);
        }
        _ => panic!(),
    }
    match q2.where_clause {
        Some(FilterExpr::In {
            values,
            negated: true,
            ..
        }) => {
            assert_eq!(values, vec![Literal::Str("banned".to_string())]);
        }
        _ => panic!(),
    }
}

#[test]
fn parses_array_contains_and_array_contains_any() {
    let q1 = parse(r#"SELECT * FROM "p" WHERE ARRAY_CONTAINS(tags, 'urgent')"#).unwrap();
    match q1.where_clause {
        Some(FilterExpr::ArrayContains { field, value }) => {
            assert_eq!(field, vec!["tags".to_string()]);
            assert_eq!(value, Literal::Str("urgent".to_string()));
        }
        _ => panic!(),
    }
    let q2 = parse(r#"SELECT * FROM "p" WHERE ARRAY_CONTAINS_ANY(tags, ('p0', 'p1'))"#).unwrap();
    match q2.where_clause {
        Some(FilterExpr::ArrayContainsAny { values, .. }) => {
            assert_eq!(values.len(), 2);
        }
        _ => panic!(),
    }
}

#[test]
fn precedence_or_under_and() {
    let q = parse(r#"SELECT * FROM "u" WHERE a = 1 OR b = 2 AND c = 3"#).unwrap();
    match q.where_clause {
        Some(FilterExpr::Or(ref terms)) => {
            assert_eq!(terms.len(), 2);
            assert!(matches!(&terms[0], FilterExpr::Compare { .. }));
            match &terms[1] {
                FilterExpr::And(inner) => assert_eq!(inner.len(), 2),
                _ => panic!("expected And inside Or"),
            }
        }
        _ => panic!("{:?}", q.where_clause),
    }
}

#[test]
fn parens_override_precedence() {
    let q = parse(r#"SELECT * FROM "u" WHERE (a = 1 OR b = 2) AND c = 3"#).unwrap();
    match q.where_clause {
        Some(FilterExpr::And(ref terms)) => {
            assert_eq!(terms.len(), 2);
            assert!(matches!(&terms[0], FilterExpr::Or(_)));
        }
        _ => panic!("{:?}", q.where_clause),
    }
}

#[test]
fn parses_timestamp_cast() {
    let q = parse(r#"SELECT * FROM "e" WHERE ts > TIMESTAMP '2026-01-01T00:00:00Z'"#).unwrap();
    match first_compare(&q) {
        FilterExpr::Compare {
            value: Literal::Timestamp(_),
            ..
        } => {}
        _ => panic!("{:?}", q.where_clause),
    }
}

#[test]
fn rejects_empty_in_list() {
    let err = parse(r#"SELECT * FROM "u" WHERE x IN ()"#).unwrap_err();
    assert!(err.contains("at least one value"), "got: {err}");
}

#[test]
fn rejects_unbalanced_parens() {
    let err = parse(r#"SELECT * FROM "u" WHERE (a = 1"#).unwrap_err();
    assert!(err.contains(")") || err.contains("expected"));
}

#[test]
fn rejects_unknown_function() {
    let err = parse(r#"SELECT * FROM "u" WHERE FOO_BAR(x)"#).unwrap_err();
    assert!(err.contains("unknown function"), "got: {err}");
    assert!(err.contains("FOO_BAR"));
}

#[test]
fn unwraps_tabularis_limit_subquery() {
    let q = parse(
        r#"SELECT * FROM (SELECT * FROM "advisors" WHERE rating > 4 ORDER BY createdAt DESC LIMIT 50) AS limited_subset"#,
    )
    .unwrap();
    assert_eq!(q.table, "advisors");
    assert_eq!(q.limit, Some(50));
    assert_eq!(q.order_by.len(), 1);
    assert_eq!(q.order_by[0].field, "createdAt");
    assert!(q.order_by[0].desc);
    assert!(q.where_clause.is_some());
}

#[test]
fn outer_limit_overrides_inner() {
    let q = parse(r#"SELECT * FROM (SELECT * FROM "u" LIMIT 10) AS s LIMIT 5"#).unwrap();
    assert_eq!(q.limit, Some(5));
}

#[test]
fn parses_column_projection() {
    let q = parse(r#"SELECT name, email FROM "users""#).unwrap();
    assert_eq!(q.table, "users");
    assert_eq!(q.columns, Some(vec!["name".to_string(), "email".to_string()]));
}

#[test]
fn star_keeps_columns_none() {
    let q = parse(r#"SELECT * FROM "users""#).unwrap();
    assert!(q.columns.is_none());
}

#[test]
fn projection_with_where_and_limit() {
    let q = parse(r#"SELECT id, rating FROM "advisors" WHERE verified = true LIMIT 5"#).unwrap();
    assert_eq!(q.columns, Some(vec!["id".to_string(), "rating".to_string()]));
    assert_eq!(q.limit, Some(5));
    assert!(q.where_clause.is_some());
}

#[test]
fn parses_infix_array_contains() {
    let q = parse(r#"SELECT * FROM "p" WHERE tags ARRAY_CONTAINS 'urgent'"#).unwrap();
    match first_compare(&q) {
        FilterExpr::ArrayContains { field, value } => {
            assert_eq!(field, &vec!["tags".to_string()]);
            assert_eq!(value, &Literal::Str("urgent".into()));
        }
        other => panic!("{other:?}"),
    }
}

#[test]
fn parses_infix_array_contains_any() {
    let q = parse(r#"SELECT * FROM "p" WHERE tags ARRAY_CONTAINS_ANY ('p0', 'p1')"#).unwrap();
    match first_compare(&q) {
        FilterExpr::ArrayContainsAny { field, values } => {
            assert_eq!(field, &vec!["tags".to_string()]);
            assert_eq!(values.len(), 2);
        }
        other => panic!("{other:?}"),
    }
}

#[test]
fn subquery_without_alias() {
    let q = parse(r#"SELECT * FROM (SELECT * FROM "u" LIMIT 7)"#).unwrap();
    assert_eq!(q.table, "u");
    assert_eq!(q.limit, Some(7));
}

#[test]
fn trailing_tokens_error_names_the_position() {
    let err = parse(r#"SELECT * FROM "u" ) x"#).unwrap_err();
    assert_eq!(err, "unexpected trailing tokens at position 4");
}

#[test]
fn timestamp_literal_reads_utc_seconds() {
    let q = parse(r#"SELECT * FROM "e" WHERE ts > TIMESTAMP '2026-05-09T10:30:00Z'"#).unwrap();
    match first_compare(&q) {
        FilterExpr::Compare {
            value: Literal::Timestamp(t),
            op,
            ..
        } => {
            assert_eq!(*op, CmpOp::Gt);
            assert_eq!(t.seconds, 1778322600);
            assert_eq!(t.nanos, 0);
        }
        other => panic!("{other:?}"),
    }
}

#[test]
fn bad_timestamp_literal_is_reported() {
    let err = parse(r#"SELECT * FROM "e" WHERE ts > TIMESTAMP 'yesterday'"#).unwrap_err();
    assert!(err.starts_with("TIMESTAMP literal not RFC 3339: "), "got: {err}");
}

#[test]
fn bare_not_is_rejected() {
    let err = parse(r#"SELECT * FROM "u" WHERE NOT a = 1"#).unwrap_err();
    assert_eq!(
        err,
        "Phase 2 supports NOT only in NOT IN; bare NOT expressions are not parseable yet"
    );
}

#[test]
fn missing_operator_error_shows_the_token() {
    let err = parse(r#"SELECT * FROM "u" WHERE a 'x'"#).unwrap_err();
    assert_eq!(err, "expected comparison operator, got Some(StringLit(\"x\"))");
}

#[test]
fn unknown_function_is_named_in_upper_case() {
    let err = parse(r#"SELECT * FROM "u" WHERE lower(x)"#).unwrap_err();
    assert_eq!(
        err,
        "unknown function 'LOWER' (did you mean ARRAY_CONTAINS or ARRAY_CONTAINS_ANY?)"
    );
}

#[test]
fn lower_case_join_is_reported_upper_case() {
    let err = parse(r#"SELECT * FROM "u" join v"#).unwrap_err();
    assert!(err.starts_with("'JOIN' is not supported."), "got: {err}");
}
