use firestore_plugin::admin::{list_databases, strip_database_id};
use firestore_plugin::error::PluginError;
use firestore_plugin::firestore_error::{classify, map_message, ErrorKind};
use firestore_plugin::models::Settings;

#[test]
fn internal_uses_jsonrpc_internal_code() {
    let e = PluginError::internal("boom");
    assert_eq!(e.code, -32603);
    assert_eq!(e.message, "boom");
}

#[test]
fn invalid_params_uses_jsonrpc_invalid_params_code() {
    let e = PluginError::invalid_params("missing x");
    assert_eq!(e.code, -32602);
}

#[test]
fn display_format_includes_code() {
    let e = PluginError::internal("bad");
    assert_eq!(e.display_text(), "[-32603] bad");
}

#[test]
fn extracts_firebase_console_url() {
    let raw = "FAILED_PRECONDITION: The query requires an index. \
               You can create it here: https://console.firebase.google.com/v1/r/project/p1/firestore/indexes?create_composite=abc";
    let (code, msg, data) = map_message(raw, ErrorKind::FailedPrecondition, None);
    assert_eq!(code, -32603);
    assert!(msg.starts_with("Missing Firestore index. Create it: https://console.firebase.google.com/"));
    let url = data.unwrap();
    assert!(url.starts_with("https://console.firebase.google.com/"));
}

#[test]
fn extracts_cloud_console_url() {
    let raw = "FAILED_PRECONDITION: missing index, see https://console.cloud.google.com/firestore/indexes?project=p1";
    let (code, msg, data) = map_message(raw, ErrorKind::FailedPrecondition, None);
    assert_eq!(code, -32603);
    assert!(msg.contains("https://console.cloud.google.com/"));
    assert!(data.is_some());
}

#[test]
fn failed_precondition_without_url_falls_through() {
    let (code, msg, data) = map_message(
        "FAILED_PRECONDITION: something else",
        ErrorKind::FailedPrecondition,
        None,
    );
    assert_eq!(code, -32603);
    assert!(msg.starts_with("Firestore: "));
    assert!(data.is_none());
}

#[test]
fn unauthenticated_message_includes_setup_hint() {
    let (code, msg, data) = map_message("UNAUTHENTICATED: bad creds", ErrorKind::Unauthenticated, None);
    assert_eq!(code, -32602);
    assert!(msg.contains("service_account_path"));
    assert!(msg.contains("gcloud auth application-default login"));
    assert!(data.is_none());
}

#[test]
fn not_found_uses_invalid_params_code() {
    let (code, msg, _) = map_message("NOT_FOUND: collection 'gone' missing", ErrorKind::NotFound, None);
    assert_eq!(code, -32602);
    assert!(msg.starts_with("Not found: "));
}

#[test]
fn other_kind_falls_through_to_internal_error() {
    let (code, msg, data) = map_message("DEADLINE_EXCEEDED", ErrorKind::Other, None);
    assert_eq!(code, -32603);
    assert!(msg.starts_with("Firestore: "));
    assert!(data.is_none());
}

#[test]
fn url_regex_does_not_match_non_console_links() {
    let raw = "FAILED_PRECONDITION: see https://example.com/help and https://google.com/policies";
    let (code, msg, data) = map_message(raw, ErrorKind::FailedPrecondition, None);
    assert_eq!(code, -32603);
    assert!(msg.starts_with("Firestore: "));
    assert!(data.is_none());
}

#[test]
fn classifier_recognises_each_status_token() {
    assert_eq!(classify("rpc error: code = FAILED_PRECONDITION"), ErrorKind::FailedPrecondition);
    assert_eq!(classify("rpc error: code = UNAUTHENTICATED"), ErrorKind::Unauthenticated);
    assert_eq!(classify("rpc error: code = NOT_FOUND"), ErrorKind::NotFound);
    assert_eq!(classify("rpc error: code = INTERNAL"), ErrorKind::Other);
}

#[test]
fn permission_denied_message_includes_project_id_and_role_hint() {
    let (code, msg, _) = map_message("PERMISSION_DENIED: missing scope", ErrorKind::PermissionDenied, None);
    assert_eq!(code, -32602);
    assert!(msg.contains("Access denied"));
    assert!(msg.contains("roles/datastore.viewer"));
}

#[test]
fn resource_exhausted_message_mentions_quota() {
    let (code, msg, _) = map_message("RESOURCE_EXHAUSTED: quota", ErrorKind::ResourceExhausted, None);
    assert_eq!(code, -32603);
    assert!(msg.contains("quota exceeded"));
}

#[test]
fn deadline_exceeded_message_suggests_limit() {
    let (code, msg, _) = map_message("DEADLINE_EXCEEDED", ErrorKind::DeadlineExceeded, None);
    assert_eq!(code, -32603);
    assert!(msg.contains("LIMIT"));
}

#[test]
fn unavailable_message_says_transient() {
    let (code, msg, _) = map_message("UNAVAILABLE: temp", ErrorKind::Unavailable, None);
    assert_eq!(code, -32603);
    assert!(msg.contains("transient"));
}

#[test]
fn classifier_recognises_new_status_tokens() {
    assert_eq!(classify("rpc error: code = PERMISSION_DENIED"), ErrorKind::PermissionDenied);
    assert_eq!(classify("rpc error: code = RESOURCE_EXHAUSTED"), ErrorKind::ResourceExhausted);
    assert_eq!(classify("rpc error: code = DEADLINE_EXCEEDED"), ErrorKind::DeadlineExceeded);
    assert_eq!(classify("rpc error: code = UNAVAILABLE"), ErrorKind::Unavailable);
}

#[test]
fn classifier_prefers_earlier_tokens() {
    assert_eq!(classify("NOT_FOUND after UNAUTHENTICATED"), ErrorKind::Unauthenticated);
    assert_eq!(classify(""), ErrorKind::Other);
}

#[test]
fn console_url_stops_at_whitespace_and_quotes() {
    let raw = "FAILED_PRECONDITION: 'https://console.cloud.google.com/x?y=1' more";
    let (_, msg, data) = map_message(raw, ErrorKind::FailedPrecondition, None);
    assert_eq!(data.as_deref(), Some("https://console.cloud.google.com/x?y=1"));
    assert_eq!(msg, "Missing Firestore index. Create it: https://console.cloud.google.com/x?y=1");
    let bare = "see https://console.cloud.google.com/ only";
    let (_, _, none) = map_message(bare, ErrorKind::FailedPrecondition, None);
    assert!(none.is_none());
}

#[test]
fn permission_hint_names_configured_project() {
    let (_, msg, _) = map_message("PERMISSION_DENIED", ErrorKind::PermissionDenied, Some("acme"));
    assert_eq!(
        msg,
        "Access denied: PERMISSION_DENIED. Check the service account's IAM roles for project 'acme' (needs at minimum 'roles/datastore.viewer' for reads)."
    );
    let (_, blank, _) = map_message("x", ErrorKind::PermissionDenied, Some(""));
    assert!(blank.contains("project 'the configured project'"));
}

#[test]
fn strip_database_id_handles_full_resource_name() {
    assert_eq!(strip_database_id("projects/my-project/databases/(default)"), "(default)");
    assert_eq!(strip_database_id("projects/my-project/databases/analytics-db"), "analytics-db");
    assert_eq!(strip_database_id("plain-id"), "plain-id");
}

#[test]
fn strip_database_id_of_trailing_slash_is_empty() {
    assert_eq!(strip_database_id("projects/p/"), "");
}

#[test]
fn list_databases_adds_default_under_emulator() {
    let mut s = Settings::default();
    s.database_id = "named".to_string();
    s.emulator_host = Some("localhost:8080".to_string());
    assert_eq!(list_databases(&s).unwrap(), vec!["named".to_string(), "(default)".to_string()]);
    s.database_id = "(default)".to_string();
    assert_eq!(list_databases(&s).unwrap(), vec!["(default)".to_string()]);
    s.database_id = "named".to_string();
    s.emulator_host = Some(String::new());
    assert_eq!(list_databases(&s).unwrap(), vec!["named".to_string()]);
}
