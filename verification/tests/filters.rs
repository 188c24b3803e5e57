use firestore_plugin::ast::{CmpOp, FilterExpr, Literal, OrderItem};
use firestore_plugin::canonical::{canonical_filter, canonical_literal, canonical_order_by};
use firestore_plugin::firestore_filter::{is_doc_id, rewrite_doc_id, validate};

fn cmp(field: &[&str], op: CmpOp, lit: Literal) -> FilterExpr {
    FilterExpr::Compare {
        field: field.iter().map(|s| s.to_string()).collect(),
        op,
        value: lit,
    }
}

#[test]
fn validates_inequality_on_one_field() {
    let expr = FilterExpr::And(vec![
        cmp(&["age"], CmpOp::Gt, Literal::Int(18)),
        cmp(&["age"], CmpOp::Lt, Literal::Int(99)),
    ]);
    assert!(validate(&expr).is_ok());
}

#[test]
fn rejects_inequality_on_two_fields() {
    let expr = FilterExpr::And(vec![
        cmp(&["age"], CmpOp::Gt, Literal::Int(18)),
        cmp(&["score"], CmpOp::Lt, Literal::Int(100)),
    ]);
    let err = validate(&expr).unwrap_err();
    assert!(err.contains("inequality on at most one field"));
    assert!(err.contains("age"));
    assert!(err.contains("score"));
}

#[test]
fn rejects_in_with_31_values() {
    let values: Vec<Literal> = (0..31).map(Literal::Int).collect();
    let expr = FilterExpr::In {
        field: vec!["x".to_string()],
        values,
        negated: false,
    };
    let err = validate(&expr).unwrap_err();
    assert!(err.contains("IN/NOT IN"));
    assert!(err.contains("30"));
    assert!(err.contains("31"));
}

#[test]
fn rejects_array_contains_with_array_contains_any() {
    let expr = FilterExpr::And(vec![
        FilterExpr::ArrayContains {
            field: vec!["tags".to_string()],
            value: Literal::Str("a".into()),
        },
        FilterExpr::ArrayContainsAny {
            field: vec!["tags".to_string()],
            values: vec![Literal::Str("b".into())],
        },
    ]);
    let err = validate(&expr).unwrap_err();
    assert!(err.contains("ARRAY_CONTAINS"));
    assert!(err.contains("ARRAY_CONTAINS_ANY"));
}

#[test]
fn rejects_two_array_contains_on_same_field() {
    let expr = FilterExpr::And(vec![
        FilterExpr::ArrayContains {
            field: vec!["tags".to_string()],
            value: Literal::Str("a".into()),
        },
        FilterExpr::ArrayContains {
            field: vec!["tags".to_string()],
            value: Literal::Str("b".into()),
        },
    ]);
    let err = validate(&expr).unwrap_err();
    assert!(err.contains("at most one ARRAY_CONTAINS"));
    assert!(err.contains("tags"));
}

#[test]
fn or_branches_aggregate_for_validation() {
    let expr = FilterExpr::Or(vec![
        cmp(&["age"], CmpOp::Gt, Literal::Int(18)),
        cmp(&["score"], CmpOp::Lt, Literal::Int(100)),
    ]);
    let err = validate(&expr).unwrap_err();
    assert!(err.contains("inequality"));
}

#[test]
fn rewrite_doc_id_translates_eq_to_name_with_full_path() {
    let mut expr = FilterExpr::Compare {
        field: vec!["id".to_string()],
        op: CmpOp::Eq,
        value: Literal::Str("callservice".to_string()),
    };
    rewrite_doc_id(&mut expr, "_config", "luninora", "(default)");
    match expr {
        FilterExpr::Compare { field, value, .. } => {
            assert_eq!(field, vec!["__name__".to_string()]);
            assert_eq!(
                value,
                Literal::Reference(
                    "projects/luninora/databases/(default)/documents/_config/callservice".to_string()
                )
            );
        }
        _ => panic!("expected Compare, got {expr:?}"),
    }
}

#[test]
fn rewrite_doc_id_recurses_into_and() {
    let mut expr = FilterExpr::And(vec![
        cmp(&["id"], CmpOp::Eq, Literal::Str("a".into())),
        cmp(&["status"], CmpOp::Eq, Literal::Str("active".into())),
    ]);
    rewrite_doc_id(&mut expr, "users", "p1", "(default)");
    match expr {
        FilterExpr::And(terms) => {
            match &terms[0] {
                FilterExpr::Compare { field, value, .. } => {
                    assert_eq!(field, &vec!["__name__".to_string()]);
                    assert!(matches!(value, Literal::Reference(_)));
                }
                other => panic!("expected rewritten Compare, got {other:?}"),
            }
            match &terms[1] {
                FilterExpr::Compare { field, value, .. } => {
                    assert_eq!(field, &vec!["status".to_string()]);
                    assert_eq!(value, &Literal::Str("active".into()));
                }
                other => panic!("expected untouched Compare, got {other:?}"),
            }
        }
        _ => panic!(),
    }
}

#[test]
fn rewrite_doc_id_translates_in_list() {
    let mut expr = FilterExpr::In {
        field: vec!["id".to_string()],
        values: vec![Literal::Str("a".into()), Literal::Str("b".into())],
        negated: false,
    };
    rewrite_doc_id(&mut expr, "users", "p1", "(default)");
    match expr {
        FilterExpr::In { field, values, .. } => {
            assert_eq!(field, vec!["__name__".to_string()]);
            assert_eq!(values.len(), 2);
            assert!(matches!(values[0], Literal::Reference(_)));
            assert!(matches!(values[1], Literal::Reference(_)));
        }
        _ => panic!(),
    }
}

#[test]
fn rewrite_doc_id_leaves_other_fields_alone() {
    let mut expr = cmp(&["status"], CmpOp::Eq, Literal::Str("active".into()));
    let before = expr.clone();
    rewrite_doc_id(&mut expr, "users", "p1", "(default)");
    assert_eq!(expr, before);
}

#[test]
fn rewriting_twice_changes_nothing_more() {
    let mut once = FilterExpr::Or(vec![
        cmp(&["id"], CmpOp::Ge, Literal::Str("m".into())),
        FilterExpr::In {
            field: vec!["id".to_string()],
            values: vec![Literal::Str("a".into()), Literal::Int(7)],
            negated: true,
        },
    ]);
    rewrite_doc_id(&mut once, "t", "p", "d");
    let mut twice = once.clone();
    rewrite_doc_id(&mut twice, "t", "p", "d");
    assert_eq!(once, twice);
    match &once {
        FilterExpr::Or(terms) => match &terms[1] {
            FilterExpr::In { values, .. } => {
                assert_eq!(
                    values[0],
                    Literal::Reference("projects/p/databases/d/documents/t/a".to_string())
                );
                assert_eq!(values[1], Literal::Int(7));
            }
            other => panic!("{other:?}"),
        },
        other => panic!("{other:?}"),
    }
}

#[test]
fn is_doc_id_needs_exactly_the_id_column() {
    assert!(is_doc_id(&vec!["id".to_string()]));
    assert!(!is_doc_id(&vec!["id".to_string(), "x".to_string()]));
    assert!(!is_doc_id(&vec!["ID".to_string()]));
}

#[test]
fn equalities_in_any_shape_pass_validation() {
    let expr = FilterExpr::Or(vec![
        FilterExpr::And(vec![
            cmp(&["a"], CmpOp::Eq, Literal::Int(1)),
            cmp(&["b"], CmpOp::Eq, Literal::Null),
        ]),
        cmp(&["c", "d"], CmpOp::Eq, Literal::Bool(false)),
    ]);
    assert!(validate(&expr).is_ok());
}

#[test]
fn inequality_message_lists_fields_sorted_once() {
    let expr = FilterExpr::And(vec![
        cmp(&["zeta"], CmpOp::Ne, Literal::Int(1)),
        cmp(&["alpha", "beta"], CmpOp::Le, Literal::Int(2)),
        cmp(&["zeta"], CmpOp::Gt, Literal::Int(0)),
    ]);
    assert_eq!(
        validate(&expr).unwrap_err(),
        "Firestore allows inequality on at most one field per query (saw alpha.beta, zeta). Adjust the filter or split into multiple queries."
    );
}

#[test]
fn array_contains_any_limit_message() {
    let values: Vec<Literal> = (0..32).map(Literal::Int).collect();
    let expr = FilterExpr::ArrayContainsAny {
        field: vec!["tags".to_string()],
        values,
    };
    assert_eq!(
        validate(&expr).unwrap_err(),
        "Firestore limits ARRAY_CONTAINS_ANY to 30 values per query (saw 32)."
    );
}

#[test]
fn repeated_array_contains_message() {
    let ac = |f: &str| FilterExpr::ArrayContains {
        field: vec![f.to_string()],
        value: Literal::Int(1),
    };
    let expr = FilterExpr::And(vec![ac("b"), ac("a"), ac("b"), ac("a"), ac("c")]);
    assert_eq!(
        validate(&expr).unwrap_err(),
        "Firestore allows at most one ARRAY_CONTAINS per field (saw multiple on: a, b)."
    );
}

#[test]
fn canonical_order_by_formats() {
    let items = vec![
        OrderItem {
            field: "x".into(),
            desc: false,
        },
        OrderItem {
            field: "y".into(),
            desc: true,
        },
    ];
    assert_eq!(canonical_order_by(&items), "x ASC, y DESC");
}

#[test]
fn canonical_order_by_empty() {
    assert_eq!(canonical_order_by(&[]), "");
}

#[test]
fn canonical_filter_eq() {
    let f = FilterExpr::Compare {
        field: vec!["status".into()],
        op: CmpOp::Eq,
        value: Literal::Str("active".into()),
    };
    let s = canonical_filter(&f);
    assert!(s.contains("status"));
    assert!(s.contains("active"));
}

#[test]
fn canonical_filter_and_is_deterministic() {
    let f1 = FilterExpr::And(vec![
        FilterExpr::Compare {
            field: vec!["a".into()],
            op: CmpOp::Eq,
            value: Literal::Int(1),
        },
        FilterExpr::Compare {
            field: vec!["b".into()],
            op: CmpOp::Eq,
            value: Literal::Int(2),
        },
    ]);
    let f2 = FilterExpr::And(vec![
        FilterExpr::Compare {
            field: vec!["b".into()],
            op: CmpOp::Eq,
            value: Literal::Int(2),
        },
        FilterExpr::Compare {
            field: vec!["a".into()],
            op: CmpOp::Eq,
            value: Literal::Int(1),
        },
    ]);
    assert_eq!(canonical_filter(&f1), canonical_filter(&f2));
}

#[test]
fn canonical_filter_exact_forms() {
    let f = FilterExpr::Or(vec![
        FilterExpr::In {
            field: vec!["s".into()],
            values: vec![Literal::Str("b".into()), Literal::Str("a".into())],
            negated: true,
        },
        FilterExpr::Compare {
            field: vec!["x".into(), "y".into()],
            op: CmpOp::Le,
            value: Literal::Int(-3),
        },
    ]);
    assert_eq!(canonical_filter(&f), "(or (cmp x.y Le -3) (not_in s ['a','b']))");
}

#[test]
fn canonical_literal_forms() {
    assert_eq!(canonical_literal(&Literal::Bool(true)), "true");
    assert_eq!(canonical_literal(&Literal::Null), "null");
    assert_eq!(canonical_literal(&Literal::Reference("p/q".into())), "ref:p/q");
    let t = firestore_plugin::ast::Timestamp {
        seconds: 1778322600,
        nanos: 0,
    };
    assert_eq!(
        canonical_literal(&Literal::Timestamp(t)),
        "ts:2026-05-09T10:30:00+00:00"
    );
}

#[test]
fn canonical_in_list_ignores_value_order() {
    let a = FilterExpr::ArrayContainsAny {
        field: vec!["t".into()],
        values: vec![Literal::Int(2), Literal::Int(10), Literal::Int(2)],
    };
    let b = FilterExpr::ArrayContainsAny {
        field: vec!["t".into()],
        values: vec![Literal::Int(10), Literal::Int(2), Literal::Int(2)],
    };
    assert_eq!(canonical_filter(&a), canonical_filter(&b));
    assert_eq!(canonical_filter(&a), "(aca t [10,2,2])");
}

#[test]
fn canonical_filter_ignores_order_at_any_depth() {
    let inner1 = FilterExpr::Or(vec![
        cmp(&["a"], CmpOp::Eq, Literal::Int(1)),
        FilterExpr::In {
            field: vec!["s".into()],
            values: vec![Literal::Str("x".into()), Literal::Str("y".into())],
            negated: false,
        },
    ]);
    let inner2 = FilterExpr::Or(vec![
        FilterExpr::In {
            field: vec!["s".into()],
            values: vec![Literal::Str("y".into()), Literal::Str("x".into())],
            negated: false,
        },
        cmp(&["a"], CmpOp::Eq, Literal::Int(1)),
    ]);
    let f1 = FilterExpr::And(vec![inner1, cmp(&["b"], CmpOp::Gt, Literal::Int(2))]);
    let f2 = FilterExpr::And(vec![cmp(&["b"], CmpOp::Gt, Literal::Int(2)), inner2]);
    assert_eq!(canonical_filter(&f1), canonical_filter(&f2));
    assert_eq!(
        canonical_filter(&f1),
        "(and (cmp b Gt 2) (or (cmp a Eq 1) (in s ['x','y'])))"
    );
}
