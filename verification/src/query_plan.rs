//! The decisions `executeQuery` and `explainQuery` make around their
//! Firestore calls: the page to fetch, which cached cursor to resume from,
//! whether to count, the cache keys, and the column projection.
use vstd::prelude::*;
use crate::admin::{last_segment, last_segment_of};
use crate::ast::{ParsedQuery, SFilter, orders_view, strings_view};
use crate::canonical::{canon_filter, canon_orders, canonical_filter, canonical_order_by};
use crate::firestore_filter::{doc_prefix, rewrite, rewrite_doc_id, validate, validate_spec};
use crate::models::Settings;
use crate::state::{CountKey, QueryKey};

verus! {

/// Rows fetched when neither the host nor the query sets a page size.
pub const DEFAULT_PAGE_SIZE: u64 = 100;

/// The limit and offset to query with: the host's page size, else the
/// query's LIMIT, else 100. A page set by the host wins over the query's
/// OFFSET: page `p` (from 1 on) starts after the rows of the `p - 1`
/// pages before it. Without a page, or with page 0, the query's OFFSET,
/// else 0.
pub open spec fn paging_spec(page_size: Option<u64>, page: Option<u64>, limit: Option<u64>, offset: Option<u64>) -> (int, int) {
    let l: int = match page_size {
        Some(n) => n as int,
        None => match limit {
            Some(n) => n as int,
            None => 100,
        },
    };
    let o: int = match page {
        Some(p) if p >= 1 => (p - 1) * l,
        _ => match offset {
            Some(n) => n as int,
            None => 0,
        },
    };
    (l, o)
}

/// The effective limit and offset (see `paging_spec`).
pub fn effective_paging(page_size: Option<u64>, page: Option<u64>, limit: Option<u64>, offset: Option<u64>) -> (r: (u64, u64))
    requires
        paging_spec(page_size, page, limit, offset).1 <= u64::MAX,
    ensures
        r.0 == paging_spec(page_size, page, limit, offset).0,
        r.1 == paging_spec(page_size, page, limit, offset).1,
{
    let l: u64 = match page_size {
        Some(n) => n,
        None => match limit {
            Some(n) => n,
            None => DEFAULT_PAGE_SIZE,
        },
    };
    let o: u64 = match page {
        Some(p) if p >= 1 => (p - 1) * l,
        _ => match offset {
            Some(n) => n,
            None => 0,
        },
    };
    (l, o)
}

/// The cached cursor to resume from for `target`: the one at `target`
/// itself, else the largest before it, with the rows still to skip.
/// `None` at offset 0 or when no cursor lies before `target`.
pub fn choose_cursor(offsets: &Vec<u64>, target: u64) -> (r: (Option<u64>, u64))
    ensures
        target == 0 ==> r == (None::<u64>, 0u64),
        target > 0 && offsets@.contains(target) ==> r == (Some(target), 0u64),
        target > 0 && !offsets@.contains(target) ==> match r.0 {
            Some(k) => offsets@.contains(k) && k < target && r.1 == target - k && forall|j: int|
                0 <= j < offsets@.len() && offsets@[j] < target ==> offsets@[j] <= k,
            None => r.1 == target && forall|j: int| 0 <= j < offsets@.len() ==> offsets@[j] > target,
        },
{
    if target == 0 {
        return (None, 0);
    }
    let mut best: Option<u64> = None;
    let mut i: usize = 0;
    while i < offsets.len()
        invariant
            0 <= i <= offsets@.len(),
            target > 0,
            forall|j: int| 0 <= j < i ==> offsets@[j] != target,
            match best {
                Some(k) => offsets@.contains(k) && k < target && forall|j: int|
                    0 <= j < i && offsets@[j] < target ==> offsets@[j] <= k,
                None => forall|j: int| 0 <= j < i ==> offsets@[j] > target,
            },
        decreases offsets@.len() - i,
    {
        let x = offsets[i];
        if x == target {
            return (Some(target), 0);
        }
        if x < target {
            match best {
                Some(k) => if x > k {
                    best = Some(x);
                },
                None => {
                    best = Some(x);
                },
            }
        }
        i += 1;
    }
    match best {
        Some(k) => (Some(k), target - k),
        None => (None, target),
    }
}

/// Whether to run a COUNT: exactly when no count is cached for the
/// filter, whatever the page.
pub fn should_count(cached: Option<u64>) -> (r: bool)
    ensures
        r == cached is None,
{
    cached.is_none()
}

/// The limit handed to Firestore: the low 32 bits of `limit`, as the
/// integer cast gives them.
pub fn query_limit(limit: u64) -> (r: u32)
    ensures
        r == limit % 0x1_0000_0000,
{
    (limit % 0x1_0000_0000) as u32
}

/// An offset handed to Firestore, capped at `u32::MAX`.
pub fn capped_offset(n: u64) -> (r: u32)
    ensures
        r == if n > u32::MAX { u32::MAX as int } else { n as int },
{
    if n > 4294967295 {
        4294967295
    } else {
        n as u32
    }
}

/// The offset of the page after one of `rows` rows at `offset`, under
/// which its last document is cached as a cursor.
pub fn next_cursor_offset(offset: u64, rows: usize) -> (r: u64)
    requires
        offset + rows <= u64::MAX,
    ensures
        r == offset + rows,
{
    offset + rows as u64
}

/// The total reported: the count when there is one (and then it is
/// cached), else the number of rows returned.
pub fn total_count(count: Option<u64>, rows: usize) -> (r: (u64, bool))
    ensures
        r == match count {
            Some(n) => (n, true),
            None => (rows as u64, false),
        },
{
    match count {
        Some(n) => (n, true),
        None => (rows as u64, false),
    }
}

/// The ID of a document: the last segment of its resource name.
pub fn doc_short_id(name: &str) -> (r: String)
    ensures
        r@ == last_segment(name@),
{
    last_segment_of(name)
}

/// The position of the first `x` in `names`.
fn first_index(names: &[String], x: &String) -> (r: Option<usize>)
    ensures
        match r {
            Some(i) => i < names@.len() && names@[i as int]@ == x@ && forall|j: int|
                0 <= j < i ==> names@[j]@ != x@,
            None => forall|j: int| 0 <= j < names@.len() ==> names@[j]@ != x@,
        },
{
    let mut i: usize = 0;
    while i < names.len()
        invariant
            0 <= i <= names@.len(),
            forall|j: int| 0 <= j < i ==> names@[j]@ != x@,
        decreases names@.len() - i,
    {
        if names[i].eq(x) {
            return Some(i);
        }
        i += 1;
    }
    None
}

/// The columns of a projected result and, for each, the position of the
/// column it is read from (the first of that name), or `None` for a
/// requested column the schema does not have (filled with nulls).
pub fn project_columns(all_names: &[String], requested: &[String]) -> (r: (Vec<String>, Vec<Option<usize>>))
    ensures
        strings_view(r.0@) == strings_view(requested@),
        r.1@.len() == requested@.len(),
        forall|k: int| 0 <= k < requested@.len() ==> match #[trigger] r.1@[k] {
            Some(i) => i < all_names@.len() && all_names@[i as int]@ == requested@[k]@ && forall|j: int|
                0 <= j < i ==> all_names@[j]@ != requested@[k]@,
            None => forall|j: int| 0 <= j < all_names@.len() ==> all_names@[j]@ != requested@[k]@,
        },
{
    let mut names: Vec<String> = Vec::new();
    let mut idx: Vec<Option<usize>> = Vec::new();
    let mut k: usize = 0;
    while k < requested.len()
        invariant
            0 <= k <= requested@.len(),
            names@.len() == k,
            idx@.len() == k,
            forall|m: int| 0 <= m < k ==> #[trigger] names@[m]@ == requested@[m]@,
            forall|m: int| 0 <= m < k ==> match #[trigger] idx@[m] {
                Some(i) => i < all_names@.len() && all_names@[i as int]@ == requested@[m]@ && forall|j: int|
                    0 <= j < i ==> all_names@[j]@ != requested@[m]@,
                None => forall|j: int| 0 <= j < all_names@.len() ==> all_names@[j]@ != requested@[m]@,
            },
        decreases requested@.len() - k,
    {
        let found = first_index(all_names, &requested[k]);
        names.push(requested[k].clone());
        idx.push(found);
        k += 1;
    }
    assert(strings_view(names@) =~= strings_view(requested@));
    (names, idx)
}

/// The WHERE clause after the document-ID rewrite for the configured
/// project and database (unchanged without settings).
pub open spec fn prepared_where(q: crate::ast::SQuery, project_db: Option<(Seq<char>, Seq<char>)>) -> Option<SFilter> {
    match (q.where_clause, project_db) {
        (Some(e), Some((p, d))) => Some(rewrite(e, doc_prefix(q.table, p, d))),
        (w, _) => w,
    }
}

pub open spec fn settings_ids(s: Option<&Settings>) -> Option<(Seq<char>, Seq<char>)> {
    match s {
        Some(x) => Some((x.project_id@, x.database_id@)),
        None => None,
    }
}

/// The query with its WHERE clause prepared.
pub open spec fn prepared_query(q: crate::ast::SQuery, project_db: Option<(Seq<char>, Seq<char>)>) -> crate::ast::SQuery {
    crate::ast::SQuery { where_clause: prepared_where(q, project_db), ..q }
}

/// Whether `r` is what validating the optional filter `w` answers.
pub open spec fn answers_validation(r: Result<(), String>, w: Option<SFilter>) -> bool {
    match w {
        Some(e) => match validate_spec(e) {
            Ok(_) => r is Ok,
            Err(m) => r matches Err(x) && x@ == m,
        },
        None => r is Ok,
    }
}

/// Rewrites the document-ID column of the WHERE clause (when settings are
/// known) and checks the result against Firestore's restrictions; the
/// error is the validation message.
pub fn prepare_filter(parsed: &mut ParsedQuery, settings: Option<&Settings>) -> (r: Result<(), String>)
    ensures
        final(parsed)@ == prepared_query(old(parsed)@, settings_ids(settings)),
        answers_validation(r, prepared_where(old(parsed)@, settings_ids(settings))),
{
    match settings {
        Some(st) => {
            let w = parsed.where_clause.take();
            match w {
                Some(mut f) => {
                    rewrite_doc_id(
                        &mut f,
                        parsed.table.as_str(),
                        st.project_id.as_str(),
                        st.database_id.as_str(),
                    );
                    parsed.where_clause = Some(f);
                },
                None => {},
            }
        },
        None => {},
    }
    match &parsed.where_clause {
        Some(f) => validate(f),
        None => Ok(()),
    }
}

/// The canonical text of an optional WHERE clause (empty without one).
pub open spec fn where_key(w: Option<SFilter>) -> Seq<char> {
    match w {
        Some(e) => canon_filter(e),
        None => Seq::empty(),
    }
}

fn where_text(parsed: &ParsedQuery) -> (r: String)
    ensures
        r@ == where_key(parsed@.where_clause),
{
    match &parsed.where_clause {
        Some(f) => canonical_filter(f),
        None => String::new(),
    }
}

/// The row-count cache key of a query.
pub fn count_key(parsed: &ParsedQuery) -> (r: CountKey)
    ensures
        r@ == (parsed@.table, where_key(parsed@.where_clause)),
{
    CountKey { table: parsed.table.clone(), where_canonical: where_text(parsed) }
}

/// The cursor cache key of a query.
pub fn query_key(parsed: &ParsedQuery) -> (r: QueryKey)
    ensures
        r@ == (parsed@.table, where_key(parsed@.where_clause), canon_orders(parsed@.order_by)),
{
    QueryKey {
        table: parsed.table.clone(),
        where_canonical: where_text(parsed),
        order_by_canonical: canonical_order_by(parsed.order_by.as_slice()),
    }
}

/// What an explained plan reports of the query beyond Firestore's stats:
/// the canonical filter (with a WHERE clause), the canonical ordering
/// (with an ORDER BY) and the limit (with a LIMIT).
pub fn explain_details(parsed: &ParsedQuery) -> (r: (Option<String>, Option<String>, Option<u64>))
    ensures
        match parsed@.where_clause {
            Some(e) => r.0 matches Some(t) && t@ == canon_filter(e),
            None => r.0 is None,
        },
        if parsed@.order_by.len() > 0 {
            r.1 matches Some(t) && t@ == canon_orders(parsed@.order_by)
        } else {
            r.1 is None
        },
        r.2 == parsed.limit,
{
    let f = match &parsed.where_clause {
        Some(w) => Some(canonical_filter(w)),
        None => None,
    };
    let o = if parsed.order_by.len() > 0 {
        Some(canonical_order_by(parsed.order_by.as_slice()))
    } else {
        None
    };
    (f, o, parsed.limit)
}

} // verus!
