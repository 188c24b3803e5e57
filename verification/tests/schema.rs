use firestore_plugin::schema_infer::{
    classify_set, document_references, foreign_keys, infer, infer_with_references,
    reference_target, ColumnInfo, DocumentReferences, DocumentTypes, FieldType, ForeignKey,
    INFERRED_ID_COLUMN,
};
use firestore_plugin::schema_overrides::{
    apply, override_file_names, validate, CollectionOverride, FieldOverride, SchemaOverrides,
};

fn doc(pairs: &[(&str, FieldType)]) -> DocumentTypes {
    pairs.iter().map(|(k, v)| (k.to_string(), *v)).collect()
}

#[test]
fn empty_sample_returns_only_id_column() {
    let cols = infer(&[]);
    assert_eq!(cols.len(), 1);
    assert_eq!(cols[0].name, "__id__");
    assert_eq!(cols[0].data_type, "string");
    assert!(!cols[0].is_nullable);
}

#[test]
fn single_doc_yields_id_plus_alphabetical_fields() {
    let sample = vec![doc(&[("name", FieldType::String), ("age", FieldType::Integer)])];
    let cols = infer(&sample);
    assert_eq!(
        cols.iter().map(|c| c.name.as_str()).collect::<Vec<_>>(),
        vec!["__id__", "age", "name"]
    );
    assert_eq!(cols[1].data_type, "number");
    assert_eq!(cols[2].data_type, "string");
    assert!(!cols[1].is_nullable);
}

#[test]
fn integer_and_double_collapse_to_number() {
    let sample = vec![doc(&[("score", FieldType::Integer)]), doc(&[("score", FieldType::Double)])];
    let cols = infer(&sample);
    let score = cols.iter().find(|c| c.name == "score").unwrap();
    assert_eq!(score.data_type, "number");
}

#[test]
fn null_co_observed_with_string_yields_nullable_string() {
    let sample = vec![doc(&[("note", FieldType::String)]), doc(&[("note", FieldType::Null)])];
    let cols = infer(&sample);
    let note = cols.iter().find(|c| c.name == "note").unwrap();
    assert_eq!(note.data_type, "string");
    assert!(note.is_nullable);
}

#[test]
fn conflicting_types_yield_mixed() {
    let sample = vec![doc(&[("flag", FieldType::Boolean)]), doc(&[("flag", FieldType::String)])];
    let cols = infer(&sample);
    let flag = cols.iter().find(|c| c.name == "flag").unwrap();
    assert_eq!(flag.data_type, "mixed");
}

#[test]
fn missing_field_in_some_docs_marks_nullable() {
    let sample = vec![
        doc(&[("name", FieldType::String), ("nickname", FieldType::String)]),
        doc(&[("name", FieldType::String)]),
    ];
    let cols = infer(&sample);
    let name = cols.iter().find(|c| c.name == "name").unwrap();
    let nickname = cols.iter().find(|c| c.name == "nickname").unwrap();
    assert!(!name.is_nullable);
    assert!(nickname.is_nullable);
}

#[test]
fn all_null_yields_null_data_type() {
    let sample = vec![doc(&[("placeholder", FieldType::Null)])];
    let cols = infer(&sample);
    let p = cols.iter().find(|c| c.name == "placeholder").unwrap();
    assert_eq!(p.data_type, "null");
    assert!(p.is_nullable);
}

#[test]
fn nested_map_column_typed_as_map() {
    let sample = vec![doc(&[("address", FieldType::NestedMap)])];
    let cols = infer(&sample);
    let a = cols.iter().find(|c| c.name == "address").unwrap();
    assert_eq!(a.data_type, "map");
}

#[test]
fn inferred_names_are_sorted_and_distinct() {
    let sample = vec![
        doc(&[("b", FieldType::Bytes), ("a", FieldType::GeoPoint)]),
        doc(&[("c", FieldType::Reference), ("a", FieldType::GeoPoint), ("b", FieldType::Bytes)]),
    ];
    let cols = infer(&sample);
    let names: Vec<&str> = cols.iter().map(|c| c.name.as_str()).collect();
    assert_eq!(names, vec!["__id__", "a", "b", "c"]);
    assert_eq!(cols[1].data_type, "geopoint");
    assert_eq!(cols[2].data_type, "binary");
    assert_eq!(cols[3].data_type, "reference");
    assert!(cols[3].is_nullable);
    assert!(!cols[2].is_nullable);
}

#[test]
fn classify_set_names_each_single_type() {
    let one = |t: FieldType| classify_set(&vec![t]).0;
    assert_eq!(one(FieldType::Timestamp), "timestamp");
    assert_eq!(one(FieldType::Array), "array");
    assert_eq!(one(FieldType::Boolean), "boolean");
    assert_eq!(classify_set(&vec![]), ("null".to_string(), false));
    assert_eq!(
        classify_set(&vec![FieldType::Double, FieldType::Null, FieldType::Integer]),
        ("number".to_string(), true)
    );
    assert_eq!(classify_set(&vec![FieldType::Array, FieldType::NestedMap]).0, "mixed");
}

fn col(name: &str) -> ColumnInfo {
    ColumnInfo {
        name: name.into(),
        data_type: "string".into(),
        is_nullable: true,
        references: None,
        comment: None,
    }
}

fn overrides_with_field(coll: &str, field: &str, fo: FieldOverride) -> SchemaOverrides {
    SchemaOverrides {
        collections: vec![(
            coll.into(),
            CollectionOverride {
                fields: vec![(field.into(), fo)],
                extra_fields: vec![],
            },
        )],
    }
}

#[test]
fn required_true_makes_field_not_nullable() {
    let mut cols = vec![col("email")];
    let ov = overrides_with_field(
        "advisors",
        "email",
        FieldOverride {
            required: Some(true),
            ..Default::default()
        },
    );
    apply(&mut cols, &ov, "advisors");
    assert!(!cols[0].is_nullable);
}

#[test]
fn required_false_keeps_field_nullable() {
    let mut cols = vec![ColumnInfo {
        is_nullable: false,
        ..col("email")
    }];
    let ov = overrides_with_field(
        "advisors",
        "email",
        FieldOverride {
            required: Some(false),
            ..Default::default()
        },
    );
    apply(&mut cols, &ov, "advisors");
    assert!(cols[0].is_nullable);
}

#[test]
fn type_override_changes_data_type() {
    let mut cols = vec![ColumnInfo {
        data_type: "mixed".into(),
        ..col("score")
    }];
    let ov = overrides_with_field(
        "advisors",
        "score",
        FieldOverride {
            data_type: Some("number".into()),
            ..Default::default()
        },
    );
    apply(&mut cols, &ov, "advisors");
    assert_eq!(cols[0].data_type, "number");
}

#[test]
fn hidden_drops_column() {
    let mut cols = vec![col("email"), col("internalNotes")];
    let ov = overrides_with_field(
        "advisors",
        "internalNotes",
        FieldOverride {
            hidden: Some(true),
            ..Default::default()
        },
    );
    apply(&mut cols, &ov, "advisors");
    assert_eq!(cols.iter().map(|c| c.name.as_str()).collect::<Vec<_>>(), vec!["email"]);
}

#[test]
fn comment_attaches_to_column() {
    let mut cols = vec![col("email")];
    let ov = overrides_with_field(
        "advisors",
        "email",
        FieldOverride {
            comment: Some("Login identifier".into()),
            ..Default::default()
        },
    );
    apply(&mut cols, &ov, "advisors");
    assert_eq!(cols[0].comment.as_deref(), Some("Login identifier"));
}

#[test]
fn extra_fields_get_appended() {
    let mut cols = vec![col("email")];
    let ov = SchemaOverrides {
        collections: vec![(
            "advisors".into(),
            CollectionOverride {
                fields: vec![],
                extra_fields: vec![(
                    "rarelySet".into(),
                    FieldOverride {
                        data_type: Some("number".into()),
                        required: Some(false),
                        ..Default::default()
                    },
                )],
            },
        )],
    };
    apply(&mut cols, &ov, "advisors");
    let added = cols.iter().find(|c| c.name == "rarelySet").unwrap();
    assert_eq!(added.data_type, "number");
    assert!(added.is_nullable);
}

#[test]
fn extra_fields_skip_if_already_present() {
    let mut cols = vec![col("email")];
    let ov = SchemaOverrides {
        collections: vec![(
            "advisors".into(),
            CollectionOverride {
                fields: vec![],
                extra_fields: vec![("email".into(), FieldOverride::default())],
            },
        )],
    };
    apply(&mut cols, &ov, "advisors");
    assert_eq!(cols.len(), 1);
}

#[test]
fn unknown_collection_is_a_no_op() {
    let mut cols = vec![col("email")];
    let ov = overrides_with_field(
        "other",
        "email",
        FieldOverride {
            required: Some(true),
            ..Default::default()
        },
    );
    apply(&mut cols, &ov, "advisors");
    assert!(cols[0].is_nullable);
}

#[test]
fn validate_rejects_unknown_type() {
    let ov = overrides_with_field(
        "advisors",
        "email",
        FieldOverride {
            data_type: Some("fnord".into()),
            ..Default::default()
        },
    );
    let err = validate(&ov).unwrap_err();
    assert!(err.contains("fnord"));
    assert!(err.contains("Allowed:"));
}

#[test]
fn validate_accepts_all_known_types() {
    let allowed = [
        "string", "number", "boolean", "timestamp", "binary", "geopoint", "reference", "array",
        "map", "null", "mixed",
    ];
    for t in allowed {
        let ov = overrides_with_field(
            "advisors",
            "f",
            FieldOverride {
                data_type: Some(t.into()),
                ..Default::default()
            },
        );
        assert!(validate(&ov).is_ok(), "type {t} should validate");
    }
}

#[test]
fn validate_message_is_exact() {
    let ov = SchemaOverrides {
        collections: vec![(
            "c".into(),
            CollectionOverride {
                fields: vec![],
                extra_fields: vec![(
                    "x".into(),
                    FieldOverride {
                        data_type: Some("int".into()),
                        ..Default::default()
                    },
                )],
            },
        )],
    };
    assert_eq!(
        validate(&ov).unwrap_err(),
        "schema_overrides: collection 'c' field 'x' has unknown type 'int'. Allowed: string, number, boolean, timestamp, binary, geopoint, reference, array, map, null, mixed"
    );
}

#[test]
fn hidden_extra_field_is_not_appended_and_defaults_apply() {
    let mut cols = vec![col("a")];
    let ov = SchemaOverrides {
        collections: vec![(
            "t".into(),
            CollectionOverride {
                fields: vec![],
                extra_fields: vec![
                    (
                        "secret".into(),
                        FieldOverride {
                            hidden: Some(true),
                            ..Default::default()
                        },
                    ),
                    (
                        "plain".into(),
                        FieldOverride {
                            required: Some(true),
                            comment: Some("c".into()),
                            ..Default::default()
                        },
                    ),
                    ("plain".into(), FieldOverride::default()),
                ],
            },
        )],
    };
    apply(&mut cols, &ov, "t");
    assert_eq!(cols.len(), 2);
    assert_eq!(cols[1].name, "plain");
    assert_eq!(cols[1].data_type, "string");
    assert!(!cols[1].is_nullable);
    assert_eq!(cols[1].comment.as_deref(), Some("c"));
}

#[test]
fn override_file_names_strip_parens() {
    let (primary, fallback) = override_file_names("myproj", "(default)");
    assert_eq!(primary, "myproj_default.json");
    assert_eq!(fallback, "myproj.json");
    let (p2, _) = override_file_names("acme", "analytics");
    assert_eq!(p2, "acme_analytics.json");
    let (p3, _) = override_file_names("x", "((()))");
    assert_eq!(p3, "x_.json");
}

#[test]
fn permuted_sample_infers_the_same_columns() {
    let a = doc(&[("name", FieldType::String), ("age", FieldType::Integer)]);
    let b = doc(&[("age", FieldType::Double), ("tags", FieldType::Array)]);
    let c = doc(&[("name", FieldType::Null)]);
    let one = infer(&[a.clone(), b.clone(), c.clone()]);
    let two = infer(&[c, a, b]);
    assert_eq!(one, two);
    assert_eq!(
        one.iter().map(|c| c.name.as_str()).collect::<Vec<_>>(),
        vec!["__id__", "age", "name", "tags"]
    );
}

#[test]
fn applying_overrides_twice_changes_nothing() {
    let ov = SchemaOverrides {
        collections: vec![(
            "advisors".into(),
            CollectionOverride {
                fields: vec![
                    (
                        "email".into(),
                        FieldOverride {
                            required: Some(true),
                            data_type: Some("string".into()),
                            comment: Some("contact".into()),
                            ..Default::default()
                        },
                    ),
                    (
                        "secret".into(),
                        FieldOverride {
                            hidden: Some(true),
                            ..Default::default()
                        },
                    ),
                ],
                extra_fields: vec![(
                    "rarelySet".into(),
                    FieldOverride {
                        data_type: Some("number".into()),
                        ..Default::default()
                    },
                )],
            },
        )],
    };
    let mut cols = vec![col("email"), col("secret"), col("name")];
    apply(&mut cols, &ov, "advisors");
    let once = cols.clone();
    apply(&mut cols, &ov, "advisors");
    assert_eq!(cols, once);
    assert_eq!(
        cols.iter().map(|c| c.name.as_str()).collect::<Vec<_>>(),
        vec!["email", "name", "rarelySet"]
    );
    assert!(!cols[0].is_nullable);
    assert_eq!(cols[0].comment.as_deref(), Some("contact"));
}

#[test]
fn extra_field_with_a_field_override_is_the_exception_to_idempotence() {
    let ov = SchemaOverrides {
        collections: vec![(
            "c".into(),
            CollectionOverride {
                fields: vec![(
                    "x".into(),
                    FieldOverride {
                        data_type: Some("number".into()),
                        ..Default::default()
                    },
                )],
                extra_fields: vec![("x".into(), FieldOverride::default())],
            },
        )],
    };
    let mut cols: Vec<ColumnInfo> = vec![];
    apply(&mut cols, &ov, "c");
    assert_eq!(cols.len(), 1);
    assert_eq!(cols[0].data_type, "string");
    apply(&mut cols, &ov, "c");
    assert_eq!(cols.len(), 1);
    assert_eq!(cols[0].data_type, "number");
}

#[test]
fn reference_columns_declare_foreign_keys() {
    let mut owner = col("owner");
    owner.references = Some("users".into());
    let mut team = col("team");
    team.references = Some("teams".into());
    let cols = vec![col("__id__"), owner, col("title"), team];
    assert_eq!(
        foreign_keys("tasks", &cols),
        vec![
            ForeignKey {
                name: "fk_tasks_owner".into(),
                column_name: "owner".into(),
                ref_table: "users".into(),
            },
            ForeignKey {
                name: "fk_tasks_team".into(),
                column_name: "team".into(),
                ref_table: "teams".into(),
            },
        ]
    );
    assert!(foreign_keys("tasks", &vec![col("a")]).is_empty());
}

fn refs(pairs: &[(&str, &str)]) -> DocumentReferences {
    pairs.iter().map(|(k, v)| (k.to_string(), v.to_string())).collect()
}

#[test]
fn reference_value_extracts_target_collection() {
    let sample = vec![doc(&[("author", FieldType::Reference)])];
    let refs = vec![refs(&[("author", "users")])];
    let cols = infer_with_references(&sample, &refs);
    let author = cols.iter().find(|c| c.name == "author").unwrap();
    assert_eq!(author.data_type, "reference");
    assert_eq!(author.references, Some("users".to_string()));
}

#[test]
fn mixed_reference_targets_yield_no_fk() {
    let sample = vec![
        doc(&[("ref_field", FieldType::Reference)]),
        doc(&[("ref_field", FieldType::Reference)]),
    ];
    let refs = vec![refs(&[("ref_field", "users")]), refs(&[("ref_field", "advisors")])];
    let cols = infer_with_references(&sample, &refs);
    let f = cols.iter().find(|c| c.name == "ref_field").unwrap();
    assert_eq!(f.references, None);
}

#[test]
fn no_reference_data_yields_no_fk() {
    let sample = vec![doc(&[("author", FieldType::Reference)])];
    let cols = infer_with_references(&sample, &[]);
    let f = cols.iter().find(|c| c.name == "author").unwrap();
    assert_eq!(f.references, None);
}

#[test]
fn repeated_target_still_counts_as_one() {
    let sample = vec![
        doc(&[("owner", FieldType::Reference), ("n", FieldType::Integer)]),
        doc(&[("owner", FieldType::Reference)]),
    ];
    let refs = vec![refs(&[("owner", "users")]), refs(&[("owner", "users")])];
    let cols = infer_with_references(&sample, &refs);
    assert_eq!(cols[0].name, INFERRED_ID_COLUMN);
    assert_eq!(cols[0].references, None);
    let plain = infer(&sample);
    assert_eq!(cols.len(), plain.len());
    for (a, b) in cols.iter().zip(plain.iter()) {
        assert_eq!(a.name, b.name);
        assert_eq!(a.data_type, b.data_type);
        assert_eq!(a.is_nullable, b.is_nullable);
    }
    let owner = cols.iter().find(|c| c.name == "owner").unwrap();
    assert_eq!(owner.references, Some("users".to_string()));
    let n = cols.iter().find(|c| c.name == "n").unwrap();
    assert_eq!(n.references, None);
}

#[test]
fn extracts_root_collection() {
    let path = "projects/p/databases/(default)/documents/users/abc123";
    assert_eq!(reference_target(path), Some("users".to_string()));
}

#[test]
fn handles_subcollection_doc() {
    let path = "projects/p/databases/(default)/documents/users/abc/orders/xyz";
    assert_eq!(reference_target(path), Some("users".to_string()));
}

#[test]
fn returns_none_for_unrecognised_path() {
    assert_eq!(reference_target("garbage"), None);
}

#[test]
fn reference_target_edge_cases() {
    assert_eq!(reference_target("a/documents/"), Some(String::new()));
    assert_eq!(reference_target("documents/users/x"), None);
    assert_eq!(reference_target("/documents/c/documents/d"), Some("c".to_string()));
    assert_eq!(reference_target("x/documents/col"), Some("col".to_string()));
}

#[test]
fn document_references_keep_paths_with_a_collection() {
    let paths = vec![
        ("author".to_string(), "projects/p/databases/d/documents/users/alice".to_string()),
        ("bad".to_string(), "nowhere".to_string()),
        ("team".to_string(), "projects/p/databases/d/documents/teams/t1/members/m".to_string()),
    ];
    assert_eq!(
        document_references(&paths),
        vec![("author".to_string(), "users".to_string()), ("team".to_string(), "teams".to_string())]
    );
}

#[test]
fn permuted_references_infer_the_same_targets() {
    let a = doc(&[("owner", FieldType::Reference)]);
    let b = doc(&[("owner", FieldType::Reference), ("team", FieldType::Reference)]);
    let ra = refs(&[("owner", "users")]);
    let rb = refs(&[("owner", "users"), ("team", "teams")]);
    let one = infer_with_references(&[a.clone(), b.clone()], &[ra.clone(), rb.clone()]);
    let two = infer_with_references(&[b, a], &[rb, ra]);
    assert_eq!(one, two);
    assert_eq!(one[2].references, Some("teams".to_string()));
}
