//! The grammar of the SQL subset, stated over token sequences.
//!
//!   SELECT (* | col [, col]*) FROM <table>
//!     [WHERE <expr>] [ORDER BY field [ASC|DESC] (, field [ASC|DESC])*]
//!     [LIMIT n] [OFFSET n]
//!
//! plus the wrapper `SELECT * FROM (<inner>) [AS alias] [ORDER BY ..]
//! [LIMIT n] [OFFSET n]`, whose outer clauses override the inner ones.
//! Each rule gives the value read and the number of tokens it consumed, or
//! the error message the parser reports.
use vstd::prelude::*;
use crate::ast::{CmpOp, SFilter, SLiteral, SOrder, SQuery};
use crate::instant::rfc3339_instant;
use crate::lexer::{lex, STok};
use crate::text::{debug_text, decimal, split_on, text_eq_ignore_case, upper_text};

verus! {

pub type Parsed<T> = Result<(T, nat), Seq<char>>;

pub open spec fn peek(t: Seq<STok>, p: int) -> Option<STok> {
    if 0 <= p < t.len() {
        Some(t[p])
    } else {
        None
    }
}

/// Tokens left from position `p`.
pub open spec fn rem(t: Seq<STok>, p: int) -> nat {
    if p < t.len() {
        (t.len() - p) as nat
    } else {
        0
    }
}

pub open spec fn is_kw(o: Option<STok>, kw: Seq<char>) -> bool {
    o matches Some(STok::Word(w)) && text_eq_ignore_case(w, kw)
}

pub open spec fn op_name(op: CmpOp) -> Seq<char> {
    match op {
        CmpOp::Eq => "Eq"@,
        CmpOp::Ne => "Ne"@,
        CmpOp::Lt => "Lt"@,
        CmpOp::Le => "Le"@,
        CmpOp::Gt => "Gt"@,
        CmpOp::Ge => "Ge"@,
    }
}

/// `{:?}` of a token; a fractional number shows as written.
pub open spec fn tok_debug(t: STok) -> Seq<char> {
    match t {
        STok::Word(s) => "Word("@ + debug_text(s) + ")"@,
        STok::Star => "Star"@,
        STok::Comma => "Comma"@,
        STok::Number(n) => "Number("@ + decimal(n as nat) + ")"@,
        STok::StringLit(s) => "StringLit("@ + debug_text(s) + ")"@,
        STok::LParen => "LParen"@,
        STok::RParen => "RParen"@,
        STok::Op(op) => "Op("@ + op_name(op) + ")"@,
        STok::Float(s) => "Float("@ + s + ")"@,
    }
}

/// `{:?}` of an optional token.
pub open spec fn opt_debug(o: Option<STok>) -> Seq<char> {
    match o {
        Some(t) => "Some("@ + tok_debug(t) + ")"@,
        None => "None"@,
    }
}

pub open spec fn got(t: Seq<STok>, p: int) -> Seq<char> {
    opt_debug(peek(t, p))
}

/// A one-token literal value.
pub open spec fn g_literal(t: Seq<STok>, p: int) -> Parsed<SLiteral> {
    match peek(t, p) {
        Some(STok::StringLit(s)) => Ok((SLiteral::Str(s), 1)),
        Some(STok::Number(n)) => Ok((SLiteral::Int(n as i64), 1)),
        Some(STok::Float(f)) => Ok((SLiteral::Float(f), 1)),
        Some(STok::Word(w)) => {
            let up = upper_text(w);
            if up == "TRUE"@ {
                Ok((SLiteral::Bool(true), 1))
            } else if up == "FALSE"@ {
                Ok((SLiteral::Bool(false), 1))
            } else if up == "NULL"@ {
                Ok((SLiteral::Null, 1))
            } else if up == "TIMESTAMP"@ {
                match peek(t, p + 1) {
                    Some(STok::StringLit(s)) => match rfc3339_instant(s) {
                        Ok((sec, ns)) => Ok((SLiteral::Timestamp(sec, ns), 2)),
                        Err(e) => Err("TIMESTAMP literal not RFC 3339: "@ + e),
                    },
                    o => Err("expected string after TIMESTAMP, got "@ + opt_debug(o)),
                }
            } else {
                Err("expected literal, got identifier '"@ + w + "'"@)
            }
        },
        o => Err("expected literal, got "@ + opt_debug(o)),
    }
}

/// Literals up to the closing parenthesis of a value list (`q` is past
/// the opening one).
pub open spec fn g_values(t: Seq<STok>, q: int) -> Parsed<Seq<SLiteral>>
    decreases rem(t, q),
{
    if peek(t, q) matches Some(STok::RParen) {
        Ok((Seq::empty(), 1))
    } else {
        match g_literal(t, q) {
            Ok((l, n)) => {
                let q2 = q + n;
                match peek(t, q2) {
                    Some(STok::Comma) => match g_values(t, q2 + 1) {
                        Ok((rest, m)) => Ok((seq![l] + rest, n + 1 + m)),
                        Err(e) => Err(e),
                    },
                    Some(STok::RParen) => Ok((seq![l], n + 1)),
                    o => Err("expected ',' or ')' in value list, got "@ + opt_debug(o)),
                }
            },
            Err(e) => Err(e),
        }
    }
}

/// `( lit [, lit]* )` with at least one value.
pub open spec fn g_value_list(t: Seq<STok>, p: int) -> Parsed<Seq<SLiteral>> {
    if peek(t, p) matches Some(STok::LParen) {
        match g_values(t, p + 1) {
            Ok((vs, n)) => if vs.len() == 0 {
                Err("IN/NOT IN/ARRAY_CONTAINS_ANY requires at least one value"@)
            } else {
                Ok((vs, n + 1))
            },
            Err(e) => Err(e),
        }
    } else {
        Err("expected '(' to start value list, got "@ + got(t, p))
    }
}

/// `ARRAY_CONTAINS(field, lit)` / `ARRAY_CONTAINS_ANY(field, (lits))`,
/// from the token after the function name.
pub open spec fn g_contains_call(t: Seq<STok>, p: int, any: bool) -> Parsed<SFilter> {
    if !(peek(t, p) matches Some(STok::LParen)) {
        if any {
            Err("expected '(' after ARRAY_CONTAINS_ANY, got "@ + got(t, p))
        } else {
            Err("expected '(' after ARRAY_CONTAINS, got "@ + got(t, p))
        }
    } else {
        match peek(t, p + 1) {
            Some(STok::Word(w)) => {
                let field = split_on(w, '.');
                if !(peek(t, p + 2) matches Some(STok::Comma)) {
                    Err("expected ',' after field name, got "@ + got(t, p + 2))
                } else {
                    let body: Parsed<SFilter> = if any {
                        match g_value_list(t, p + 3) {
                            Ok((vs, n)) => Ok((SFilter::ArrayContainsAny(field, vs), n)),
                            Err(e) => Err(e),
                        }
                    } else {
                        match g_literal(t, p + 3) {
                            Ok((v, n)) => Ok((SFilter::ArrayContains(field, v), n)),
                            Err(e) => Err(e),
                        }
                    };
                    match body {
                        Ok((e, n)) => if peek(t, p + 3 + n) matches Some(STok::RParen) {
                            Ok((e, n + 4))
                        } else {
                            Err("expected ')' to close function call, got "@ + got(t, p + 3 + n))
                        },
                        Err(e) => Err(e),
                    }
                }
            },
            o => Err("expected field name, got "@ + opt_debug(o)),
        }
    }
}

/// What follows a field name in a condition, from position `q`.
pub open spec fn g_condition(t: Seq<STok>, q: int, field: Seq<Seq<char>>) -> Parsed<SFilter> {
    let up = match peek(t, q) {
        Some(STok::Word(w)) => Some(upper_text(w)),
        _ => None,
    };
    if up == Some("NOT"@) {
        if is_kw(peek(t, q + 1), "IN"@) {
            match g_value_list(t, q + 2) {
                Ok((vs, n)) => Ok((SFilter::In(field, vs, true), n + 2)),
                Err(e) => Err(e),
            }
        } else {
            Err("expected 'IN' after 'NOT', got "@ + got(t, q + 1))
        }
    } else if up == Some("IN"@) {
        match g_value_list(t, q + 1) {
            Ok((vs, n)) => Ok((SFilter::In(field, vs, false), n + 1)),
            Err(e) => Err(e),
        }
    } else if up == Some("ARRAY_CONTAINS"@) {
        match g_literal(t, q + 1) {
            Ok((v, n)) => Ok((SFilter::ArrayContains(field, v), n + 1)),
            Err(e) => Err(e),
        }
    } else if up == Some("ARRAY_CONTAINS_ANY"@) {
        match g_value_list(t, q + 1) {
            Ok((vs, n)) => Ok((SFilter::ArrayContainsAny(field, vs), n + 1)),
            Err(e) => Err(e),
        }
    } else {
        match peek(t, q) {
            Some(STok::Op(op)) => match g_literal(t, q + 1) {
                Ok((v, n)) => Ok((SFilter::Compare(field, op, v), n + 1)),
                Err(e) => Err(e),
            },
            o => Err("expected comparison operator, got "@ + opt_debug(o)),
        }
    }
}

/// A parenthesised expression, an ARRAY_CONTAINS call or a condition.
pub open spec fn g_atom(t: Seq<STok>, p: int) -> Parsed<SFilter>
    decreases rem(t, p), 0nat,
{
    if peek(t, p) matches Some(STok::LParen) {
        match g_or(t, p + 1) {
            Ok((e, n)) => if peek(t, p + 1 + n) matches Some(STok::RParen) {
                Ok((e, n + 2))
            } else {
                Err("expected ')', got "@ + got(t, p + 1 + n))
            },
            Err(e) => Err(e),
        }
    } else if is_kw(peek(t, p), "ARRAY_CONTAINS"@) {
        match g_contains_call(t, p + 1, false) {
            Ok((e, n)) => Ok((e, n + 1)),
            Err(e) => Err(e),
        }
    } else if is_kw(peek(t, p), "ARRAY_CONTAINS_ANY"@) {
        match g_contains_call(t, p + 1, true) {
            Ok((e, n)) => Ok((e, n + 1)),
            Err(e) => Err(e),
        }
    } else {
        match peek(t, p) {
            Some(STok::Word(w)) => if peek(t, p + 1) matches Some(STok::LParen) {
                Err(
                    "unknown function '"@ + upper_text(w)
                        + "' (did you mean ARRAY_CONTAINS or ARRAY_CONTAINS_ANY?)"@,
                )
            } else {
                match g_condition(t, p + 1, split_on(w, '.')) {
                    Ok((e, n)) => Ok((e, n + 1)),
                    Err(e) => Err(e),
                }
            },
            o => Err("expected field name in WHERE, got "@ + opt_debug(o)),
        }
    }
}

/// `NOT` is only accepted as the start of `NOT IN`.
pub open spec fn g_not(t: Seq<STok>, p: int) -> Parsed<SFilter>
    decreases rem(t, p), 1nat,
{
    if is_kw(peek(t, p), "NOT"@) && !is_kw(peek(t, p + 1), "IN"@) {
        Err("Phase 2 supports NOT only in NOT IN; bare NOT expressions are not parseable yet"@)
    } else {
        g_atom(t, p)
    }
}

/// Further `AND <not>` terms from position `q`.
pub open spec fn g_and_tail(t: Seq<STok>, q: int) -> Parsed<Seq<SFilter>>
    decreases rem(t, q), 2nat,
{
    if is_kw(peek(t, q), "AND"@) {
        match g_not(t, q + 1) {
            Ok((e, n)) => match g_and_tail(t, q + 1 + n) {
                Ok((es, m)) => Ok((seq![e] + es, 1 + n + m)),
                Err(x) => Err(x),
            },
            Err(x) => Err(x),
        }
    } else {
        Ok((Seq::empty(), 0))
    }
}

pub open spec fn g_and(t: Seq<STok>, p: int) -> Parsed<SFilter>
    decreases rem(t, p), 3nat,
{
    match g_not(t, p) {
        Ok((e, n)) => match g_and_tail(t, p + n) {
            Ok((es, m)) => Ok(
                (
                    if es.len() == 0 {
                        e
                    } else {
                        SFilter::And(seq![e] + es)
                    },
                    n + m,
                ),
            ),
            Err(x) => Err(x),
        },
        Err(x) => Err(x),
    }
}

/// Further `OR <and>` terms from position `q`.
pub open spec fn g_or_tail(t: Seq<STok>, q: int) -> Parsed<Seq<SFilter>>
    decreases rem(t, q), 4nat,
{
    if is_kw(peek(t, q), "OR"@) {
        match g_and(t, q + 1) {
            Ok((e, n)) => match g_or_tail(t, q + 1 + n) {
                Ok((es, m)) => Ok((seq![e] + es, 1 + n + m)),
                Err(x) => Err(x),
            },
            Err(x) => Err(x),
        }
    } else {
        Ok((Seq::empty(), 0))
    }
}

/// A WHERE expression: OR binds weaker than AND.
pub open spec fn g_or(t: Seq<STok>, p: int) -> Parsed<SFilter>
    decreases rem(t, p), 5nat,
{
    match g_and(t, p) {
        Ok((e, n)) => match g_or_tail(t, p + n) {
            Ok((es, m)) => Ok(
                (
                    if es.len() == 0 {
                        e
                    } else {
                        SFilter::Or(seq![e] + es)
                    },
                    n + m,
                ),
            ),
            Err(x) => Err(x),
        },
        Err(x) => Err(x),
    }
}

/// `field [ASC|DESC] (, field [ASC|DESC])*`.
pub open spec fn g_order_items(t: Seq<STok>, p: int) -> Parsed<Seq<SOrder>>
    decreases rem(t, p),
{
    match peek(t, p) {
        Some(STok::Word(f)) => {
            let dir: (bool, nat) = if is_kw(peek(t, p + 1), "ASC"@) {
                (false, 1)
            } else if is_kw(peek(t, p + 1), "DESC"@) {
                (true, 1)
            } else {
                (false, 0)
            };
            let q = p + 1 + dir.1;
            if peek(t, q) matches Some(STok::Comma) {
                match g_order_items(t, q + 1) {
                    Ok((rest, n)) => Ok((seq![(f, dir.0)] + rest, 2 + dir.1 + n)),
                    Err(e) => Err(e),
                }
            } else {
                Ok((seq![(f, dir.0)], 1 + dir.1))
            }
        },
        o => Err("expected field name in ORDER BY, got "@ + opt_debug(o)),
    }
}

/// `col [, col]*` after SELECT.
pub open spec fn g_columns(t: Seq<STok>, p: int) -> Parsed<Seq<Seq<char>>>
    decreases rem(t, p),
{
    match peek(t, p) {
        Some(STok::Word(w)) => if peek(t, p + 1) matches Some(STok::Comma) {
            match g_columns(t, p + 2) {
                Ok((rest, n)) => Ok((seq![w] + rest, n + 2)),
                Err(e) => Err(e),
            }
        } else {
            Ok((seq![w], 1))
        },
        o => Err("expected column name, got "@ + opt_debug(o)),
    }
}

/// A non-negative integer after LIMIT / OFFSET.
pub open spec fn g_uint(t: Seq<STok>, p: int, ctx: Seq<char>) -> Result<u64, Seq<char>> {
    match peek(t, p) {
        Some(STok::Number(n)) => Ok(n),
        o => Err("expected non-negative integer after "@ + ctx + ", got "@ + opt_debug(o)),
    }
}

pub open spec fn g_keyword(t: Seq<STok>, p: int, kw: Seq<char>) -> Result<(), Seq<char>> {
    if is_kw(peek(t, p), kw) {
        Ok(())
    } else {
        Err("expected '"@ + kw + "', got "@ + got(t, p))
    }
}

pub open spec fn with_where(q: SQuery, e: SFilter) -> SQuery {
    SQuery { where_clause: Some(e), ..q }
}

pub open spec fn with_order(q: SQuery, o: Seq<SOrder>) -> SQuery {
    SQuery { order_by: o, ..q }
}

pub open spec fn with_limit(q: SQuery, n: u64) -> SQuery {
    SQuery { limit: Some(n), ..q }
}

pub open spec fn with_offset(q: SQuery, n: u64) -> SQuery {
    SQuery { offset: Some(n), ..q }
}

/// Shared by both clause loops: `ORDER BY`, `LIMIT` and `OFFSET` at `q`,
/// or `None` when the token there starts none of them.
pub open spec fn g_common_clause(t: Seq<STok>, q: int, acc: SQuery) -> Option<Parsed<SQuery>> {
    if is_kw(peek(t, q), "ORDER"@) {
        Some(
            match g_keyword(t, q + 1, "BY"@) {
                Err(e) => Err(e),
                Ok(_) => match g_order_items(t, q + 2) {
                    Ok((items, n)) => Ok((with_order(acc, items), n + 2)),
                    Err(e) => Err(e),
                },
            },
        )
    } else if is_kw(peek(t, q), "LIMIT"@) {
        Some(
            match g_uint(t, q + 1, "LIMIT"@) {
                Ok(n) => Ok((with_limit(acc, n), 2)),
                Err(e) => Err(e),
            },
        )
    } else if is_kw(peek(t, q), "OFFSET"@) {
        Some(
            match g_uint(t, q + 1, "OFFSET"@) {
                Ok(n) => Ok((with_offset(acc, n), 2)),
                Err(e) => Err(e),
            },
        )
    } else {
        None
    }
}

pub open spec fn unsupported_message(w: Seq<char>) -> Seq<char> {
    "'"@ + upper_text(w)
        + "' is not supported. Firestore has no joins or aggregations in the storage engine — use the EXPLAIN button on a per-collection query and post-process in your application."@
}

/// The clauses after `FROM <table>`, applied to `acc` in order; stops
/// before `)` or at the end.
pub open spec fn g_clauses(t: Seq<STok>, q: int, acc: SQuery) -> Parsed<SQuery>
    decreases rem(t, q),
{
    if is_kw(peek(t, q), "WHERE"@) {
        match g_or(t, q + 1) {
            Ok((e, n)) => match g_clauses(t, q + 1 + n, with_where(acc, e)) {
                Ok((r, m)) => Ok((r, 1 + n + m)),
                Err(x) => Err(x),
            },
            Err(x) => Err(x),
        }
    } else {
        match g_common_clause(t, q, acc) {
            Some(Ok((acc2, n))) => match g_clauses(t, q + n, acc2) {
                Ok((r, m)) => Ok((r, n + m)),
                Err(x) => Err(x),
            },
            Some(Err(x)) => Err(x),
            None => match peek(t, q) {
                Some(STok::Word(w)) => if text_eq_ignore_case(w, "JOIN"@) || text_eq_ignore_case(
                    w,
                    "GROUP"@,
                ) || text_eq_ignore_case(w, "HAVING"@) {
                    Err(unsupported_message(w))
                } else {
                    Err("unexpected token: "@ + tok_debug(STok::Word(w)))
                },
                Some(STok::RParen) => Ok((acc, 0)),
                None => Ok((acc, 0)),
                Some(other) => Err("unexpected token: "@ + tok_debug(other)),
            },
        }
    }
}

/// The clauses after the `) [AS alias]` of a wrapped query.
pub open spec fn g_outer_clauses(t: Seq<STok>, q: int, acc: SQuery) -> Parsed<SQuery>
    decreases rem(t, q),
{
    match g_common_clause(t, q, acc) {
        Some(Ok((acc2, n))) => match g_outer_clauses(t, q + n, acc2) {
            Ok((r, m)) => Ok((r, n + m)),
            Err(x) => Err(x),
        },
        Some(Err(x)) => Err(x),
        None => match peek(t, q) {
            None => Ok((acc, 0)),
            Some(other) => Err("unexpected token after subquery: "@ + tok_debug(other)),
        },
    }
}

/// The projection after SELECT: `None` for `*`.
pub open spec fn g_projection(t: Seq<STok>, p: int) -> Parsed<Option<Seq<Seq<char>>>> {
    match peek(t, p) {
        Some(STok::Star) => Ok((None, 1)),
        Some(STok::Word(_)) => match g_columns(t, p) {
            Ok((cols, n)) => Ok((Some(cols), n)),
            Err(e) => Err(e),
        },
        o => Err("expected '*' or column list after SELECT, got "@ + opt_debug(o)),
    }
}

pub open spec fn empty_query(table: Seq<char>, columns: Option<Seq<Seq<char>>>) -> SQuery {
    SQuery {
        table,
        columns,
        where_clause: None,
        order_by: Seq::empty(),
        limit: None,
        offset: None,
    }
}

/// Number of tokens an optional `AS alias` takes at `p`.
pub open spec fn g_alias(t: Seq<STok>, p: int) -> Result<nat, Seq<char>> {
    if is_kw(peek(t, p), "AS"@) {
        match peek(t, p + 1) {
            Some(STok::Word(_)) => Ok(2),
            o => Err("expected alias after AS, got "@ + opt_debug(o)),
        }
    } else {
        Ok(0)
    }
}

/// What follows a complete inner SELECT of a wrapped query at `pc`: the
/// closing `)`, an optional alias and the outer clauses.
pub open spec fn g_after_subquery(t: Seq<STok>, pc: int, inner: SQuery) -> Parsed<SQuery> {
    if !(peek(t, pc) matches Some(STok::RParen)) {
        Err("expected ')' to close subquery, got "@ + got(t, pc))
    } else {
        match g_alias(t, pc + 1) {
            Err(e) => Err(e),
            Ok(na) => match g_outer_clauses(t, pc + 1 + na, inner) {
                Ok((r, m)) => Ok((r, 1 + na + m)),
                Err(e) => Err(e),
            },
        }
    }
}

/// What follows FROM at `ps`: a wrapped `( SELECT .. )`, whose outer
/// projection (when not `*`) replaces the inner one, or a table name and
/// its clauses.
pub open spec fn g_source(t: Seq<STok>, ps: int, cols: Option<Seq<Seq<char>>>) -> Parsed<SQuery>
    decreases rem(t, ps), 0nat,
{
    if peek(t, ps) matches Some(STok::LParen) {
        match g_select(t, ps + 1) {
            Err(e) => Err(e),
            Ok((inner, ni)) => {
                let inner2 = if cols is Some {
                    SQuery { columns: cols, ..inner }
                } else {
                    inner
                };
                match g_after_subquery(t, ps + 1 + ni, inner2) {
                    Ok((r, m)) => Ok((r, 1 + ni + m)),
                    Err(e) => Err(e),
                }
            },
        }
    } else {
        match peek(t, ps) {
            Some(STok::Word(table)) => match g_clauses(t, ps + 1, empty_query(table, cols)) {
                Ok((r, m)) => Ok((r, 1 + m)),
                Err(e) => Err(e),
            },
            o => Err("expected table name after FROM, got "@ + opt_debug(o)),
        }
    }
}

/// A whole SELECT statement starting at `p`.
pub open spec fn g_select(t: Seq<STok>, p: int) -> Parsed<SQuery>
    decreases rem(t, p), 1nat,
{
    match g_keyword(t, p, "SELECT"@) {
        Err(e) => Err(e),
        Ok(_) => match g_projection(t, p + 1) {
            Err(e) => Err(e),
            Ok((cols, nc)) => match g_keyword(t, p + 1 + nc, "FROM"@) {
                Err(e) => Err(e),
                Ok(_) => match g_source(t, p + 2 + nc, cols) {
                    Ok((r, m)) => Ok((r, 2 + nc + m)),
                    Err(e) => Err(e),
                },
            },
        },
    }
}

/// The query a text parses to, or the parser's error message.
pub open spec fn parse_spec(bytes: Seq<u8>) -> Result<SQuery, Seq<char>> {
    match lex(bytes) {
        Err(e) => Err(e),
        Ok(t) => match g_select(t, 0) {
            Err(e) => Err(e),
            Ok((q, n)) => if n == t.len() {
                Ok(q)
            } else {
                Err("unexpected trailing tokens at position "@ + decimal(n))
            },
        },
    }
}

} // verus!
