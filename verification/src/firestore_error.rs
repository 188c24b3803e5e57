//! Mapping of Firestore errors to JSON-RPC error codes and messages:
//! missing-index URLs are surfaced verbatim, authentication, permission,
//! quota, timeout and availability failures get a hint.
use vstd::prelude::*;
use crate::error::{INTERNAL_ERROR, INVALID_PARAMS};
use crate::text::{contains_text, has_substring, owned, push_str};

verus! {

/// Coarse classification of a Firestore error, used to pick a response shape.
#[derive(Debug, Clone, Copy, PartialEq, Eq, Structural)]
pub enum ErrorKind {
    FailedPrecondition,
    Unauthenticated,
    NotFound,
    PermissionDenied,
    ResourceExhausted,
    DeadlineExceeded,
    Unavailable,
    Other,
}

/// Unicode `White_Space`, the characters the regex class `\s` stands for.
pub open spec fn is_white_space(c: char) -> bool {
    let u = c as u32;
    ||| 0x9 <= u <= 0xD
    ||| u == 0x20
    ||| u == 0x85
    ||| u == 0xA0
    ||| u == 0x1680
    ||| 0x2000 <= u <= 0x200A
    ||| u == 0x2028
    ||| u == 0x2029
    ||| u == 0x202F
    ||| u == 0x205F
    ||| u == 0x3000
}

/// The characters that end a console URL: white space and quotes.
pub open spec fn ends_url(c: char) -> bool {
    is_white_space(c) || c == '\'' || c == '"'
}

pub open spec fn starts_at(s: Seq<char>, i: int, p: Seq<char>) -> bool {
    0 <= i && i + p.len() <= s.len() && s.subrange(i, i + p.len()) == p
}

/// Length of the Firebase or Cloud console URL prefix at `i`, or 0.
pub open spec fn console_prefix_len(s: Seq<char>, i: int) -> nat {
    if starts_at(s, i, "https://console.firebase.google.com/"@) {
        "https://console.firebase.google.com/"@.len()
    } else if starts_at(s, i, "https://console.cloud.google.com/"@) {
        "https://console.cloud.google.com/"@.len()
    } else {
        0
    }
}

/// The first position from `j` on that ends a URL (or the end of `s`).
pub open spec fn run_end(s: Seq<char>, j: int) -> int
    decreases s.len() - j,
{
    if j < 0 || j >= s.len() || ends_url(s[j]) {
        j
    } else {
        run_end(s, j + 1)
    }
}

/// The console URL that starts at `i`: the prefix and at least one more
/// character, up to the next white space or quote.
pub open spec fn url_at(s: Seq<char>, i: int) -> Option<Seq<char>> {
    let k = console_prefix_len(s, i);
    if k > 0 && i + k < s.len() && !ends_url(s[i + k]) {
        Some(s.subrange(i, run_end(s, i + k)))
    } else {
        None
    }
}

/// The leftmost console URL at or after `i`.
pub open spec fn first_console_url(s: Seq<char>, i: int) -> Option<Seq<char>>
    decreases s.len() - i,
{
    if i < 0 || i >= s.len() {
        None
    } else {
        match url_at(s, i) {
            Some(u) => Some(u),
            None => first_console_url(s, i + 1),
        }
    }
}

/// The leftmost match in `s` of
/// `https://console\.(?:firebase|cloud)\.google\.com/[^\s'"]+`.
pub open spec fn index_url(s: Seq<char>) -> Option<Seq<char>> {
    first_console_url(s, 0)
}

/// The leftmost match of the console-URL pattern in `raw`, found by
/// `regex::Regex::find`: the regex crate's leftmost-first search with a
/// greedy `+` and Unicode `\s` (its documented defaults), stated as
/// `index_url`.
#[verifier::external_body]
fn find_index_url(raw: &str) -> (r: Option<String>)
    ensures
        match index_url(raw@) {
            Some(u) => r matches Some(m) && m@ == u,
            None => r is None,
        },
{
    let re = regex::Regex::new(r#"https://console\.(?:firebase|cloud)\.google\.com/[^\s'"]+"#).unwrap();
    match re.find(raw) {
        Some(m) => Some(m.as_str().to_string()),
        None => None,
    }
}

/// The kind named by the first gRPC status token found in `raw`, in the
/// order the tokens are tried.
pub open spec fn classify_spec(raw: Seq<char>) -> ErrorKind {
    if has_substring(raw, "FAILED_PRECONDITION"@) {
        ErrorKind::FailedPrecondition
    } else if has_substring(raw, "UNAUTHENTICATED"@) {
        ErrorKind::Unauthenticated
    } else if has_substring(raw, "PERMISSION_DENIED"@) {
        ErrorKind::PermissionDenied
    } else if has_substring(raw, "NOT_FOUND"@) {
        ErrorKind::NotFound
    } else if has_substring(raw, "RESOURCE_EXHAUSTED"@) {
        ErrorKind::ResourceExhausted
    } else if has_substring(raw, "DEADLINE_EXCEEDED"@) {
        ErrorKind::DeadlineExceeded
    } else if has_substring(raw, "UNAVAILABLE"@) {
        ErrorKind::Unavailable
    } else {
        ErrorKind::Other
    }
}

/// Classifies an error text by the gRPC status name it contains.
pub fn classify(raw: &str) -> (r: ErrorKind)
    ensures
        r == classify_spec(raw@),
{
    if contains_text(raw, "FAILED_PRECONDITION") {
        ErrorKind::FailedPrecondition
    } else if contains_text(raw, "UNAUTHENTICATED") {
        ErrorKind::Unauthenticated
    } else if contains_text(raw, "PERMISSION_DENIED") {
        ErrorKind::PermissionDenied
    } else if contains_text(raw, "NOT_FOUND") {
        ErrorKind::NotFound
    } else if contains_text(raw, "RESOURCE_EXHAUSTED") {
        ErrorKind::ResourceExhausted
    } else if contains_text(raw, "DEADLINE_EXCEEDED") {
        ErrorKind::DeadlineExceeded
    } else if contains_text(raw, "UNAVAILABLE") {
        ErrorKind::Unavailable
    } else {
        ErrorKind::Other
    }
}

/// The project named in the permission hint: the configured project ID,
/// or a placeholder when none is set.
pub open spec fn project_label(project: Option<Seq<char>>) -> Seq<char> {
    match project {
        Some(p) => if p.len() > 0 {
            p
        } else {
            "the configured project"@
        },
        None => "the configured project"@,
    }
}

/// The JSON-RPC code, the message and the missing-index URL (if any) for
/// an error text of the given kind.
pub open spec fn map_message_spec(raw: Seq<char>, kind: ErrorKind, project: Option<Seq<char>>) -> (
    i64,
    Seq<char>,
    Option<Seq<char>>,
) {
    if kind == ErrorKind::FailedPrecondition && index_url(raw) is Some {
        let url = index_url(raw)->0;
        (INTERNAL_ERROR, "Missing Firestore index. Create it: "@ + url, Some(url))
    } else if kind == ErrorKind::Unauthenticated {
        (
            INVALID_PARAMS,
            "Auth failed: "@ + raw
                + ". Set service_account_path in plugin settings or run 'gcloud auth application-default login'."@,
            None,
        )
    } else if kind == ErrorKind::NotFound {
        (INVALID_PARAMS, "Not found: "@ + raw, None)
    } else if kind == ErrorKind::PermissionDenied {
        (
            INVALID_PARAMS,
            "Access denied: "@ + raw + ". Check the service account's IAM roles for project '"@
                + project_label(project)
                + "' (needs at minimum 'roles/datastore.viewer' for reads)."@,
            None,
        )
    } else if kind == ErrorKind::ResourceExhausted {
        (
            INTERNAL_ERROR,
            "Firestore quota exceeded: "@ + raw
                + ". Wait a minute and retry. If this persists, check the GCP Quotas page for your project."@,
            None,
        )
    } else if kind == ErrorKind::DeadlineExceeded {
        (
            INTERNAL_ERROR,
            "Request timed out: "@ + raw
                + ". The query may be missing an index or scanning a very large collection — try LIMIT to narrow the result set."@,
            None,
        )
    } else if kind == ErrorKind::Unavailable {
        (
            INTERNAL_ERROR,
            "Firestore temporarily unavailable: "@ + raw
                + ". This is usually transient — retry in a few seconds."@,
            None,
        )
    } else {
        (INTERNAL_ERROR, "Firestore: "@ + raw, None)
    }
}

pub open spec fn opt_text(o: Option<&str>) -> Option<Seq<char>> {
    match o {
        Some(p) => Some(p@),
        None => None,
    }
}

/// Whether the code, message and URL of `r` are those of `s`.
pub open spec fn answers(r: (i64, String, Option<String>), s: (i64, Seq<char>, Option<Seq<char>>)) -> bool {
    &&& r.0 == s.0
    &&& r.1@ == s.1
    &&& match s.2 {
        Some(u) => r.2 matches Some(x) && x@ == u,
        None => r.2 is None,
    }
}

/// `raw` after `before`.
fn prefixed(before: &str, raw: &str) -> (r: String)
    ensures
        r@ == before@ + raw@,
{
    let mut m = owned(before);
    push_str(&mut m, raw);
    m
}

/// `raw` between `before` and `after`.
fn framed(before: &str, raw: &str, after: &str) -> (r: String)
    ensures
        r@ == before@ + raw@ + after@,
{
    let mut m = owned(before);
    push_str(&mut m, raw);
    push_str(&mut m, after);
    m
}

/// Maps an error text of the given kind to a JSON-RPC code, a message and,
/// for a missing index, the console URL that creates it. `project` is the
/// configured project ID, named in the permission hint.
pub fn map_message(raw: &str, kind: ErrorKind, project: Option<&str>) -> (r: (i64, String, Option<String>))
    ensures
        answers(r, map_message_spec(raw@, kind, opt_text(project))),
{
    if kind == ErrorKind::FailedPrecondition {
        match find_index_url(raw) {
            Some(url) => {
                let msg = prefixed("Missing Firestore index. Create it: ", url.as_str());
                return (INTERNAL_ERROR, msg, Some(url));
            },
            None => {},
        }
    }
    if kind == ErrorKind::Unauthenticated {
        return (
            INVALID_PARAMS,
            framed(
                "Auth failed: ",
                raw,
                ". Set service_account_path in plugin settings or run 'gcloud auth application-default login'.",
            ),
            None,
        );
    }
    if kind == ErrorKind::NotFound {
        return (INVALID_PARAMS, prefixed("Not found: ", raw), None);
    }
    if kind == ErrorKind::PermissionDenied {
        let label = match project {
            Some(p) => if p.unicode_len() > 0 {
                p
            } else {
                "the configured project"
            },
            None => "the configured project",
        };
        let mut m = framed(
            "Access denied: ",
            raw,
            ". Check the service account's IAM roles for project '",
        );
        push_str(&mut m, label);
        push_str(&mut m, "' (needs at minimum 'roles/datastore.viewer' for reads).");
        proof {
            reveal_strlit("the configured project");
        }
        return (INVALID_PARAMS, m, None);
    }
    if kind == ErrorKind::ResourceExhausted {
        return (
            INTERNAL_ERROR,
            framed(
                "Firestore quota exceeded: ",
                raw,
                ". Wait a minute and retry. If this persists, check the GCP Quotas page for your project.",
            ),
            None,
        );
    }
    if kind == ErrorKind::DeadlineExceeded {
        return (
            INTERNAL_ERROR,
            framed(
                "Request timed out: ",
                raw,
                ". The query may be missing an index or scanning a very large collection — try LIMIT to narrow the result set.",
            ),
            None,
        );
    }
    if kind == ErrorKind::Unavailable {
        return (
            INTERNAL_ERROR,
            framed(
                "Firestore temporarily unavailable: ",
                raw,
                ". This is usually transient — retry in a few seconds.",
            ),
            None,
        );
    }
    (INTERNAL_ERROR, prefixed("Firestore: ", raw), None)
}

/// `firestore::errors::FirestoreError`, carried through as an opaque value.
#[verifier::external_type_specification]
#[verifier::external_body]
pub struct ExFirestoreError(firestore::errors::FirestoreError);

/// The `Display` text of a `firestore::errors::FirestoreError`
/// (`to_string`). Nothing is stated of it: the text is built from the
/// error's contents, which are not visible here.
#[verifier::external_body]
fn error_text(err: &firestore::errors::FirestoreError) -> (r: String) {
    err.to_string()
}

/// Maps a Firestore error by its display text: the text is classified and
/// then mapped as `map_message` does.
pub fn map_error(err: &firestore::errors::FirestoreError, project: Option<&str>) -> (r: (
    i64,
    String,
    Option<String>,
))
    ensures
        exists|raw: Seq<char>|
            answers(r, #[trigger] map_message_spec(raw, classify_spec(raw), opt_text(project))),
{
    let raw = error_text(err);
    let kind = classify(raw.as_str());
    map_message(raw.as_str(), kind, project)
}

} // verus!
