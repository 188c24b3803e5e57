//! Keys of the row-count and cursor caches.
use vstd::prelude::*;
use crate::cache::{CacheKey, TableKey};
use crate::text::same_text;

verus! {

/// Cached row counts are kept per table and canonical WHERE clause.
#[derive(Debug, Clone, PartialEq, Eq, Hash)]
pub struct CountKey {
    pub table: String,
    pub where_canonical: String,
}

/// Cached cursors are kept per table, canonical WHERE clause and canonical
/// ORDER BY.
#[derive(Debug, Clone, PartialEq, Eq, Hash)]
pub struct QueryKey {
    pub table: String,
    pub where_canonical: String,
    pub order_by_canonical: String,
}

impl View for CountKey {
    type V = (Seq<char>, Seq<char>);

    open spec fn view(&self) -> (Seq<char>, Seq<char>) {
        (self.table@, self.where_canonical@)
    }
}

impl View for QueryKey {
    type V = (Seq<char>, Seq<char>, Seq<char>);

    open spec fn view(&self) -> (Seq<char>, Seq<char>, Seq<char>) {
        (self.table@, self.where_canonical@, self.order_by_canonical@)
    }
}

impl CacheKey for CountKey {
    fn same_key(&self, other: &CountKey) -> (r: bool) {
        self.table.eq(&other.table) && self.where_canonical.eq(&other.where_canonical)
    }
}

impl CacheKey for QueryKey {
    fn same_key(&self, other: &QueryKey) -> (r: bool) {
        self.table.eq(&other.table) && self.where_canonical.eq(&other.where_canonical)
            && self.order_by_canonical.eq(&other.order_by_canonical)
    }
}

impl TableKey for CountKey {
    open spec fn key_table(v: (Seq<char>, Seq<char>)) -> Seq<char> {
        v.0
    }

    fn in_table(&self, table: &str) -> (r: bool) {
        same_text(self.table.as_str(), table)
    }
}

impl TableKey for QueryKey {
    open spec fn key_table(v: (Seq<char>, Seq<char>, Seq<char>)) -> Seq<char> {
        v.0
    }

    fn in_table(&self, table: &str) -> (r: bool) {
        same_text(self.table.as_str(), table)
    }
}

} // verus!
