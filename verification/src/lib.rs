//! Verified core of the Firestore driver plugin for Tabularis: the SQL-subset
//! parser, the filter checks Firestore imposes, schema inference and
//! overrides, the TTL/LRU cache, and the pure decisions of the RPC handlers.
pub mod text;
pub mod error;
pub mod ast;
pub mod utf8_slices;
pub mod lexer;
pub mod instant;
pub mod grammar;
pub mod query_parser;
pub mod order;
pub mod firestore_filter;
pub mod canonical;
pub mod firestore_error;
pub mod cache;
pub mod schema_infer;
pub mod schema_overrides;
pub mod models;
pub mod admin;
pub mod state;
pub mod query_plan;
pub mod crud;
pub mod coercion;
pub mod client;
