//! Hand-rolled recursive-descent parser for the SQL subset Tabularis sends;
//! each function carries out the grammar rule of the same name.
use vstd::prelude::*;
pub use crate::ast::{CmpOp, FilterExpr, Literal, OrderItem, ParsedQuery, Timestamp};
use vstd::utf8::encode_utf8;
use crate::ast::{
    SFilter, SLiteral, SOrder, SQuery, filters_view, lemma_compound_view, literals_view,
    orders_view, strings_view,
};
use crate::grammar::{
    Parsed, g_after_subquery, g_alias, g_source, g_and, g_and_tail, g_atom, g_clauses, g_columns, g_common_clause,
    g_condition, g_contains_call, g_keyword, g_literal, g_not, g_or, g_or_tail, g_order_items,
    g_outer_clauses, g_projection, g_select, g_uint, g_value_list, g_values, got, is_kw, op_name,
    opt_debug, peek, rem, tok_debug, empty_query, unsupported_message, parse_spec,
};
use crate::instant::parse_rfc3339;
use crate::lexer::{STok, Token, tokenize, toks_result_view, toks_view};
use crate::text::{
    debug_str, eq_ignore_ascii_case, owned, push_decimal, push_str, split_text, texts, to_upper,
};

verus! {

/// The token at `p`, if any.
fn at(t: &Vec<Token>, p: usize) -> (r: Option<&Token>)
    ensures
        match peek(toks_view(t@), p as int) {
            Some(x) => r matches Some(y) && y@ == x,
            None => r is None,
        },
        r is Some ==> p < t@.len(),
        t@.len() <= usize::MAX,
{
    if p < t.len() {
        Some(&t[p])
    } else {
        None
    }
}

/// Whether the token at `p` is the keyword `kw` (ASCII case ignored).
fn kw_at(t: &Vec<Token>, p: usize, kw: &str) -> (r: bool)
    ensures
        r == is_kw(peek(toks_view(t@), p as int), kw@),
        r ==> p < t@.len() <= usize::MAX,
{
    match at(t, p) {
        Some(Token::Word(w)) => eq_ignore_ascii_case(w.as_str(), kw),
        _ => false,
    }
}

pub fn op_text(op: CmpOp) -> (r: String)
    ensures
        r@ == op_name(op),
{
    match op {
        CmpOp::Eq => owned("Eq"),
        CmpOp::Ne => owned("Ne"),
        CmpOp::Lt => owned("Lt"),
        CmpOp::Le => owned("Le"),
        CmpOp::Gt => owned("Gt"),
        CmpOp::Ge => owned("Ge"),
    }
}

/// `{:?}` of a token.
pub fn token_debug(x: &Token) -> (r: String)
    ensures
        r@ == tok_debug(x@),
{
    match x {
        Token::Word(s) => {
            let mut m = owned("Word(");
            let d = debug_str(s.as_str());
            push_str(&mut m, d.as_str());
            push_str(&mut m, ")");
            m
        },
        Token::Star => owned("Star"),
        Token::Comma => owned("Comma"),
        Token::Number(n) => {
            let mut m = owned("Number(");
            push_decimal(&mut m, *n);
            push_str(&mut m, ")");
            m
        },
        Token::StringLit(s) => {
            let mut m = owned("StringLit(");
            let d = debug_str(s.as_str());
            push_str(&mut m, d.as_str());
            push_str(&mut m, ")");
            m
        },
        Token::LParen => owned("LParen"),
        Token::RParen => owned("RParen"),
        Token::Op(op) => {
            let mut m = owned("Op(");
            let d = op_text(*op);
            push_str(&mut m, d.as_str());
            push_str(&mut m, ")");
            m
        },
        Token::Float(s) => {
            let mut m = owned("Float(");
            push_str(&mut m, s.as_str());
            push_str(&mut m, ")");
            m
        },
    }
}

/// `{:?}` of the optional token at `p`.
fn got_at(t: &Vec<Token>, p: usize) -> (r: String)
    ensures
        r@ == got(toks_view(t@), p as int),
{
    match at(t, p) {
        Some(x) => {
            let mut m = owned("Some(");
            let d = token_debug(x);
            push_str(&mut m, d.as_str());
            push_str(&mut m, ")");
            m
        },
        None => owned("None"),
    }
}

/// `prefix` followed by the `{:?}` of the token at `p`.
fn err_got(prefix: &str, t: &Vec<Token>, p: usize) -> (r: String)
    ensures
        r@ == prefix@ + got(toks_view(t@), p as int),
{
    let mut m = owned(prefix);
    let g = got_at(t, p);
    push_str(&mut m, g.as_str());
    m
}

pub open spec fn lit_res(r: Result<(Literal, usize), String>, g: Parsed<SLiteral>, p: usize) -> bool {
    match g {
        Ok((v, n)) => r matches Ok((x, q)) && x@ == v && q == p + n,
        Err(m) => r matches Err(e) && e@ == m,
    }
}

pub open spec fn lits_res(r: Result<(Vec<Literal>, usize), String>, g: Parsed<Seq<SLiteral>>, p: usize) -> bool {
    match g {
        Ok((v, n)) => r matches Ok((x, q)) && literals_view(x@) == v && q == p + n,
        Err(m) => r matches Err(e) && e@ == m,
    }
}

pub open spec fn filter_res(r: Result<(FilterExpr, usize), String>, g: Parsed<SFilter>, p: usize) -> bool {
    match g {
        Ok((v, n)) => r matches Ok((x, q)) && x@ == v && q == p + n,
        Err(m) => r matches Err(e) && e@ == m,
    }
}

pub open spec fn filters_res(r: Result<(Vec<FilterExpr>, usize), String>, g: Parsed<Seq<SFilter>>, p: usize) -> bool {
    match g {
        Ok((v, n)) => r matches Ok((x, q)) && filters_view(x@) == v && q == p + n,
        Err(m) => r matches Err(e) && e@ == m,
    }
}

/// A one-token literal (two for `TIMESTAMP '...'`).
fn parse_literal(t: &Vec<Token>, p: usize) -> (r: Result<(Literal, usize), String>)
    requires
        p <= t@.len(),
    ensures
        lit_res(r, g_literal(toks_view(t@), p as int), p),
        r matches Ok((_, e)) ==> p <= e <= t@.len(),
{
    match at(t, p) {
        Some(Token::StringLit(s)) => Ok((Literal::Str(s.clone()), p + 1)),
        Some(Token::Number(n)) => Ok((Literal::Int(#[verifier::truncate] (*n as i64)), p + 1)),
        Some(Token::Float(f)) => Ok((Literal::Float(f.clone()), p + 1)),
        Some(Token::Word(w)) => {
            let up = to_upper(w.as_str());
            if up.eq(&owned("TRUE")) {
                Ok((Literal::Bool(true), p + 1))
            } else if up.eq(&owned("FALSE")) {
                Ok((Literal::Bool(false), p + 1))
            } else if up.eq(&owned("NULL")) {
                Ok((Literal::Null, p + 1))
            } else if up.eq(&owned("TIMESTAMP")) {
                match at(t, p + 1) {
                    Some(Token::StringLit(s)) => match parse_rfc3339(s.as_str()) {
                        Ok(ts) => Ok((Literal::Timestamp(ts), p + 2)),
                        Err(e) => {
                            let mut m = owned("TIMESTAMP literal not RFC 3339: ");
                            push_str(&mut m, e.as_str());
                            Err(m)
                        },
                    },
                    _ => Err(err_got("expected string after TIMESTAMP, got ", t, p + 1)),
                }
            } else {
                let mut m = owned("expected literal, got identifier '");
                push_str(&mut m, w.as_str());
                push_str(&mut m, "'");
                Err(m)
            }
        },
        _ => Err(err_got("expected literal, got ", t, p)),
    }
}

/// Literals up to the closing `)` of a value list.
fn parse_values(t: &Vec<Token>, q: usize) -> (r: Result<(Vec<Literal>, usize), String>)
    requires
        q <= t@.len(),
    ensures
        lits_res(r, g_values(toks_view(t@), q as int), q),
        r matches Ok((_, e)) ==> q <= e <= t@.len(),
    decreases rem(toks_view(t@), q as int),
{
    if let Some(Token::RParen) = at(t, q) {
        let v: Vec<Literal> = Vec::new();
        assert(literals_view(v@) =~= Seq::<SLiteral>::empty());
        return Ok((v, q + 1));
    }
    match parse_literal(t, q) {
        Ok((l, q2)) => match at(t, q2) {
            Some(Token::Comma) => match parse_values(t, q2 + 1) {
                Ok((mut rest, q3)) => {
                    let ghost old_rest = literals_view(rest@);
                    let ghost lv = l@;
                    rest.insert(0, l);
                    proof {
                        assert(literals_view(rest@) =~= seq![lv] + old_rest);
                    }
                    Ok((rest, q3))
                },
                Err(e) => Err(e),
            },
            Some(Token::RParen) => {
                let mut v: Vec<Literal> = Vec::new();
                let ghost lv = l@;
                v.push(l);
                proof {
                    assert(literals_view(v@) =~= seq![lv]);
                }
                Ok((v, q2 + 1))
            },
            _ => Err(err_got("expected ',' or ')' in value list, got ", t, q2)),
        },
        Err(e) => Err(e),
    }
}

/// `( lit [, lit]* )`.
fn parse_value_list(t: &Vec<Token>, p: usize) -> (r: Result<(Vec<Literal>, usize), String>)
    requires
        p <= t@.len(),
    ensures
        lits_res(r, g_value_list(toks_view(t@), p as int), p),
        r matches Ok((_, e)) ==> p <= e <= t@.len(),
{
    if let Some(Token::LParen) = at(t, p) {
        match parse_values(t, p + 1) {
            Ok((vs, q)) => if vs.len() == 0 {
                Err(owned("IN/NOT IN/ARRAY_CONTAINS_ANY requires at least one value"))
            } else {
                Ok((vs, q))
            },
            Err(e) => Err(e),
        }
    } else {
        Err(err_got("expected '(' to start value list, got ", t, p))
    }
}

/// `ARRAY_CONTAINS(field, lit)` / `ARRAY_CONTAINS_ANY(field, (lits))`
/// after the function name.
fn parse_contains_call(t: &Vec<Token>, p: usize, any: bool) -> (r: Result<(FilterExpr, usize), String>)
    requires
        p <= t@.len(),
    ensures
        filter_res(r, g_contains_call(toks_view(t@), p as int, any), p),
        r matches Ok((_, e)) ==> p <= e <= t@.len(),
{
    match at(t, p) {
        Some(Token::LParen) => {},
        _ => {
            if any {
                return Err(err_got("expected '(' after ARRAY_CONTAINS_ANY, got ", t, p));
            } else {
                return Err(err_got("expected '(' after ARRAY_CONTAINS, got ", t, p));
            }
        },
    }
    let field = match at(t, p + 1) {
        Some(Token::Word(w)) => split_text(w.as_str(), '.'),
        _ => {
            return Err(err_got("expected field name, got ", t, p + 1));
        },
    };
    match at(t, p + 2) {
        Some(Token::Comma) => {},
        _ => {
            return Err(err_got("expected ',' after field name, got ", t, p + 2));
        },
    }
    let body: Result<(FilterExpr, usize), String> = if any {
        match parse_value_list(t, p + 3) {
            Ok((vs, q)) => Ok((FilterExpr::ArrayContainsAny { field, values: vs }, q)),
            Err(e) => Err(e),
        }
    } else {
        match parse_literal(t, p + 3) {
            Ok((v, q)) => Ok((FilterExpr::ArrayContains { field, value: v }, q)),
            Err(e) => Err(e),
        }
    };
    match body {
        Ok((e, q)) => match at(t, q) {
            Some(Token::RParen) => Ok((e, q + 1)),
            _ => Err(err_got("expected ')' to close function call, got ", t, q)),
        },
        Err(e) => Err(e),
    }
}

/// The upper-cased text of the word at `p`, if the token there is a word.
fn upper_word_at(t: &Vec<Token>, p: usize) -> (r: Option<String>)
    ensures
        match peek(toks_view(t@), p as int) {
            Some(STok::Word(w)) => r matches Some(u) && u@ == crate::text::upper_text(w),
            _ => r is None,
        },
        r is Some ==> p < t@.len() <= usize::MAX,
{
    match at(t, p) {
        Some(Token::Word(w)) => Some(to_upper(w.as_str())),
        _ => None,
    }
}

fn is_text(o: &Option<String>, lit: &str) -> (r: bool)
    ensures
        r == (o matches Some(u) && u@ == lit@),
{
    match o {
        Some(u) => u.eq(&owned(lit)),
        None => false,
    }
}

/// What follows a field name in a condition.
fn parse_condition(t: &Vec<Token>, q: usize, field: Vec<String>) -> (r: Result<(FilterExpr, usize), String>)
    requires
        q <= t@.len(),
    ensures
        filter_res(r, g_condition(toks_view(t@), q as int, strings_view(field@)), q),
        r matches Ok((_, e)) ==> q <= e <= t@.len(),
{
    let up = upper_word_at(t, q);
    if is_text(&up, "NOT") {
        if kw_at(t, q + 1, "IN") {
            match parse_value_list(t, q + 2) {
                Ok((vs, e)) => Ok((FilterExpr::In { field, values: vs, negated: true }, e)),
                Err(e) => Err(e),
            }
        } else {
            Err(err_got("expected 'IN' after 'NOT', got ", t, q + 1))
        }
    } else if is_text(&up, "IN") {
        match parse_value_list(t, q + 1) {
            Ok((vs, e)) => Ok((FilterExpr::In { field, values: vs, negated: false }, e)),
            Err(e) => Err(e),
        }
    } else if is_text(&up, "ARRAY_CONTAINS") {
        match parse_literal(t, q + 1) {
            Ok((v, e)) => Ok((FilterExpr::ArrayContains { field, value: v }, e)),
            Err(e) => Err(e),
        }
    } else if is_text(&up, "ARRAY_CONTAINS_ANY") {
        match parse_value_list(t, q + 1) {
            Ok((vs, e)) => Ok((FilterExpr::ArrayContainsAny { field, values: vs }, e)),
            Err(e) => Err(e),
        }
    } else {
        match at(t, q) {
            Some(Token::Op(op)) => match parse_literal(t, q + 1) {
                Ok((v, e)) => Ok((FilterExpr::Compare { field, op: *op, value: v }, e)),
                Err(e) => Err(e),
            },
            _ => Err(err_got("expected comparison operator, got ", t, q)),
        }
    }
}

fn prepend_filter(e: FilterExpr, rest: Vec<FilterExpr>) -> (r: Vec<FilterExpr>)
    ensures
        filters_view(r@) == seq![e@] + filters_view(rest@),
{
    let ghost old_rest = filters_view(rest@);
    let ghost ev = e@;
    let mut v = rest;
    v.insert(0, e);
    proof {
        assert forall|i: int| 0 <= i < v@.len() implies filters_view(v@)[i] == (seq![ev]
            + old_rest)[i] by {
            if i > 0 {
                assert(v@[i] == rest@[i - 1]);
            }
        }
        assert(filters_view(v@) =~= seq![ev] + old_rest);
    }
    v
}

/// A parenthesised expression, an ARRAY_CONTAINS call or a condition.
fn parse_atom(t: &Vec<Token>, p: usize) -> (r: Result<(FilterExpr, usize), String>)
    requires
        p <= t@.len(),
    ensures
        filter_res(r, g_atom(toks_view(t@), p as int), p),
        r matches Ok((_, e)) ==> p <= e <= t@.len(),
    decreases rem(toks_view(t@), p as int), 0nat,
{
    if let Some(Token::LParen) = at(t, p) {
        match parse_or(t, p + 1) {
            Ok((e, q)) => match at(t, q) {
                Some(Token::RParen) => {
                    return Ok((e, q + 1));
                },
                _ => {
                    return Err(err_got("expected ')', got ", t, q));
                },
            },
            Err(e) => {
                return Err(e);
            },
        }
    }
    if kw_at(t, p, "ARRAY_CONTAINS") {
        return parse_contains_call(t, p + 1, false);
    }
    if kw_at(t, p, "ARRAY_CONTAINS_ANY") {
        return parse_contains_call(t, p + 1, true);
    }
    match at(t, p) {
        Some(Token::Word(w)) => {
            if let Some(Token::LParen) = at(t, p + 1) {
                let mut m = owned("unknown function '");
                let up = to_upper(w.as_str());
                push_str(&mut m, up.as_str());
                push_str(&mut m, "' (did you mean ARRAY_CONTAINS or ARRAY_CONTAINS_ANY?)");
                return Err(m);
            }
            let field = split_text(w.as_str(), '.');
            parse_condition(t, p + 1, field)
        },
        _ => Err(err_got("expected field name in WHERE, got ", t, p)),
    }
}

/// `NOT` only as the start of `NOT IN`.
fn parse_not(t: &Vec<Token>, p: usize) -> (r: Result<(FilterExpr, usize), String>)
    requires
        p <= t@.len(),
    ensures
        filter_res(r, g_not(toks_view(t@), p as int), p),
        r matches Ok((_, e)) ==> p <= e <= t@.len(),
    decreases rem(toks_view(t@), p as int), 1nat,
{
    if kw_at(t, p, "NOT") && !kw_at(t, p + 1, "IN") {
        return Err(
            owned(
                "Phase 2 supports NOT only in NOT IN; bare NOT expressions are not parseable yet",
            ),
        );
    }
    parse_atom(t, p)
}

fn parse_and_tail(t: &Vec<Token>, q: usize) -> (r: Result<(Vec<FilterExpr>, usize), String>)
    requires
        q <= t@.len(),
    ensures
        filters_res(r, g_and_tail(toks_view(t@), q as int), q),
        r matches Ok((_, e)) ==> q <= e <= t@.len(),
    decreases rem(toks_view(t@), q as int), 2nat,
{
    if kw_at(t, q, "AND") {
        match parse_not(t, q + 1) {
            Ok((e, q2)) => match parse_and_tail(t, q2) {
                Ok((rest, q3)) => Ok((prepend_filter(e, rest), q3)),
                Err(x) => Err(x),
            },
            Err(x) => Err(x),
        }
    } else {
        let v: Vec<FilterExpr> = Vec::new();
        assert(filters_view(v@) =~= Seq::<SFilter>::empty());
        Ok((v, q))
    }
}

fn parse_and(t: &Vec<Token>, p: usize) -> (r: Result<(FilterExpr, usize), String>)
    requires
        p <= t@.len(),
    ensures
        filter_res(r, g_and(toks_view(t@), p as int), p),
        r matches Ok((_, e)) ==> p <= e <= t@.len(),
    decreases rem(toks_view(t@), p as int), 3nat,
{
    match parse_not(t, p) {
        Ok((e, q)) => match parse_and_tail(t, q) {
            Ok((rest, q2)) => if rest.len() == 0 {
                Ok((e, q2))
            } else {
                let all = prepend_filter(e, rest);
                proof {
                    lemma_compound_view(all);
                }
                Ok((FilterExpr::And(all), q2))
            },
            Err(x) => Err(x),
        },
        Err(x) => Err(x),
    }
}

fn parse_or_tail(t: &Vec<Token>, q: usize) -> (r: Result<(Vec<FilterExpr>, usize), String>)
    requires
        q <= t@.len(),
    ensures
        filters_res(r, g_or_tail(toks_view(t@), q as int), q),
        r matches Ok((_, e)) ==> q <= e <= t@.len(),
    decreases rem(toks_view(t@), q as int), 4nat,
{
    if kw_at(t, q, "OR") {
        match parse_and(t, q + 1) {
            Ok((e, q2)) => match parse_or_tail(t, q2) {
                Ok((rest, q3)) => Ok((prepend_filter(e, rest), q3)),
                Err(x) => Err(x),
            },
            Err(x) => Err(x),
        }
    } else {
        let v: Vec<FilterExpr> = Vec::new();
        assert(filters_view(v@) =~= Seq::<SFilter>::empty());
        Ok((v, q))
    }
}

/// A WHERE expression: OR binds weaker than AND.
fn parse_or(t: &Vec<Token>, p: usize) -> (r: Result<(FilterExpr, usize), String>)
    requires
        p <= t@.len(),
    ensures
        filter_res(r, g_or(toks_view(t@), p as int), p),
        r matches Ok((_, e)) ==> p <= e <= t@.len(),
    decreases rem(toks_view(t@), p as int), 5nat,
{
    match parse_and(t, p) {
        Ok((e, q)) => match parse_or_tail(t, q) {
            Ok((rest, q2)) => if rest.len() == 0 {
                Ok((e, q2))
            } else {
                let all = prepend_filter(e, rest);
                proof {
                    lemma_compound_view(all);
                }
                Ok((FilterExpr::Or(all), q2))
            },
            Err(x) => Err(x),
        },
        Err(x) => Err(x),
    }
}


/// `field [ASC|DESC] (, field [ASC|DESC])*` after ORDER BY.
fn parse_order_items(t: &Vec<Token>, p: usize) -> (r: Result<(Vec<OrderItem>, usize), String>)
    requires
        p <= t@.len(),
    ensures
        match g_order_items(toks_view(t@), p as int) {
            Ok((v, n)) => r matches Ok((x, q)) && orders_view(x@) == v && q == p + n,
            Err(m) => r matches Err(e) && e@ == m,
        },
        r matches Ok((_, e)) ==> p <= e <= t@.len(),
    decreases rem(toks_view(t@), p as int),
{
    match at(t, p) {
        Some(Token::Word(f)) => {
            let (desc, nd): (bool, usize) = if kw_at(t, p + 1, "ASC") {
                (false, 1)
            } else if kw_at(t, p + 1, "DESC") {
                (true, 1)
            } else {
                (false, 0)
            };
            let q = p + 1 + nd;
            let item = OrderItem { field: f.clone(), desc };
            let ghost iv = item@;
            if let Some(Token::Comma) = at(t, q) {
                match parse_order_items(t, q + 1) {
                    Ok((mut rest, q2)) => {
                        let ghost old_rest = orders_view(rest@);
                        rest.insert(0, item);
                        proof {
                            assert(orders_view(rest@) =~= seq![iv] + old_rest);
                        }
                        Ok((rest, q2))
                    },
                    Err(e) => Err(e),
                }
            } else {
                let mut v: Vec<OrderItem> = Vec::new();
                v.push(item);
                proof {
                    assert(orders_view(v@) =~= seq![iv]);
                }
                Ok((v, q))
            }
        },
        _ => Err(err_got("expected field name in ORDER BY, got ", t, p)),
    }
}

/// `col [, col]*` after SELECT.
fn parse_columns(t: &Vec<Token>, p: usize) -> (r: Result<(Vec<String>, usize), String>)
    requires
        p <= t@.len(),
    ensures
        match g_columns(toks_view(t@), p as int) {
            Ok((v, n)) => r matches Ok((x, q)) && strings_view(x@) == v && q == p + n,
            Err(m) => r matches Err(e) && e@ == m,
        },
        r matches Ok((_, e)) ==> p <= e <= t@.len(),
    decreases rem(toks_view(t@), p as int),
{
    match at(t, p) {
        Some(Token::Word(w)) => {
            let c = w.clone();
            let ghost cv = c@;
            if let Some(Token::Comma) = at(t, p + 1) {
                match parse_columns(t, p + 2) {
                    Ok((mut rest, q)) => {
                        let ghost old_rest = strings_view(rest@);
                        rest.insert(0, c);
                        proof {
                            assert(strings_view(rest@) =~= seq![cv] + old_rest);
                        }
                        Ok((rest, q))
                    },
                    Err(e) => Err(e),
                }
            } else {
                let mut v: Vec<String> = Vec::new();
                v.push(c);
                proof {
                    assert(strings_view(v@) =~= seq![cv]);
                }
                Ok((v, p + 1))
            }
        },
        _ => Err(err_got("expected column name, got ", t, p)),
    }
}

/// A non-negative integer after LIMIT / OFFSET (`ctx` names the clause).
fn parse_uint(t: &Vec<Token>, p: usize, ctx: &str) -> (r: Result<u64, String>)
    ensures
        match g_uint(toks_view(t@), p as int, ctx@) {
            Ok(n) => r == Ok::<u64, String>(n),
            Err(m) => r matches Err(e) && e@ == m,
        },
{
    match at(t, p) {
        Some(Token::Number(n)) => Ok(*n),
        _ => {
            let mut m = owned("expected non-negative integer after ");
            push_str(&mut m, ctx);
            push_str(&mut m, ", got ");
            let g = got_at(t, p);
            push_str(&mut m, g.as_str());
            Err(m)
        },
    }
}

/// The keyword `kw` at `p`, or the error naming what stands there.
fn expect_keyword(t: &Vec<Token>, p: usize, kw: &str) -> (r: Result<(), String>)
    ensures
        match g_keyword(toks_view(t@), p as int, kw@) {
            Ok(_) => r is Ok && p < t@.len() <= usize::MAX,
            Err(m) => r matches Err(e) && e@ == m,
        },
{
    if kw_at(t, p, kw) {
        Ok(())
    } else {
        let mut m = owned("expected '");
        push_str(&mut m, kw);
        push_str(&mut m, "', got ");
        let g = got_at(t, p);
        push_str(&mut m, g.as_str());
        Err(m)
    }
}

pub open spec fn query_res(r: Result<(ParsedQuery, usize), String>, g: Parsed<SQuery>, p: usize) -> bool {
    match g {
        Ok((v, n)) => r matches Ok((x, q)) && x@ == v && q == p + n,
        Err(m) => r matches Err(e) && e@ == m,
    }
}

/// ORDER BY / LIMIT / OFFSET at `q`, applied to `acc`; `None` when the
/// token there starts none of them (and `acc` is left as it was).
fn parse_common_clause(t: &Vec<Token>, q: usize, acc: &mut ParsedQuery) -> (r: Option<Result<usize, String>>)
    requires
        q <= t@.len(),
    ensures
        match g_common_clause(toks_view(t@), q as int, old(acc)@) {
            Some(Ok((v, n))) => r matches Some(Ok(e)) && e == q + n && final(acc)@ == v,
            Some(Err(m)) => r matches Some(Err(e)) && e@ == m,
            None => r is None && final(acc)@ == old(acc)@,
        },
        r matches Some(Ok(e)) ==> q < e <= t@.len(),
{
    if kw_at(t, q, "ORDER") {
        match expect_keyword(t, q + 1, "BY") {
            Err(e) => Some(Err(e)),
            Ok(_) => match parse_order_items(t, q + 2) {
                Ok((items, e)) => {
                    acc.order_by = items;
                    Some(Ok(e))
                },
                Err(e) => Some(Err(e)),
            },
        }
    } else if kw_at(t, q, "LIMIT") {
        match parse_uint(t, q + 1, "LIMIT") {
            Ok(n) => {
                acc.limit = Some(n);
                Some(Ok(q + 2))
            },
            Err(e) => Some(Err(e)),
        }
    } else if kw_at(t, q, "OFFSET") {
        match parse_uint(t, q + 1, "OFFSET") {
            Ok(n) => {
                acc.offset = Some(n);
                Some(Ok(q + 2))
            },
            Err(e) => Some(Err(e)),
        }
    } else {
        None
    }
}

/// The message for JOIN / GROUP / HAVING.
fn unsupported(w: &str) -> (r: String)
    ensures
        r@ == unsupported_message(w@),
{
    let mut m = owned("'");
    let up = to_upper(w);
    push_str(&mut m, up.as_str());
    push_str(
        &mut m,
        "' is not supported. Firestore has no joins or aggregations in the storage engine — use the EXPLAIN button on a per-collection query and post-process in your application.",
    );
    m
}

/// `prefix` followed by the `{:?}` of a token.
fn err_token(prefix: &str, x: &Token) -> (r: String)
    ensures
        r@ == prefix@ + tok_debug(x@),
{
    let mut m = owned(prefix);
    let d = token_debug(x);
    push_str(&mut m, d.as_str());
    m
}

/// The clauses after `FROM <table>`, applied to `acc` in order.
fn parse_clauses(t: &Vec<Token>, q: usize, acc: ParsedQuery) -> (r: Result<(ParsedQuery, usize), String>)
    requires
        q <= t@.len(),
    ensures
        query_res(r, g_clauses(toks_view(t@), q as int, acc@), q),
        r matches Ok((_, e)) ==> q <= e <= t@.len(),
    decreases rem(toks_view(t@), q as int),
{
    if kw_at(t, q, "WHERE") {
        match parse_or(t, q + 1) {
            Ok((e, q2)) => {
                let acc2 = ParsedQuery { where_clause: Some(e), ..acc };
                parse_clauses(t, q2, acc2)
            },
            Err(x) => Err(x),
        }
    } else {
        let mut acc = acc;
        match parse_common_clause(t, q, &mut acc) {
            Some(Ok(q2)) => parse_clauses(t, q2, acc),
            Some(Err(x)) => Err(x),
            None => match at(t, q) {
                Some(Token::Word(w)) => if eq_ignore_ascii_case(w.as_str(), "JOIN")
                    || eq_ignore_ascii_case(w.as_str(), "GROUP") || eq_ignore_ascii_case(
                    w.as_str(),
                    "HAVING",
                ) {
                    Err(unsupported(w.as_str()))
                } else {
                    Err(err_token("unexpected token: ", &Token::Word(w.clone())))
                },
                Some(Token::RParen) => Ok((acc, q)),
                None => Ok((acc, q)),
                Some(other) => Err(err_token("unexpected token: ", other)),
            },
        }
    }
}

/// The clauses after the `) [AS alias]` of a wrapped query.
fn parse_outer_clauses(t: &Vec<Token>, q: usize, acc: ParsedQuery) -> (r: Result<(ParsedQuery, usize), String>)
    requires
        q <= t@.len(),
    ensures
        query_res(r, g_outer_clauses(toks_view(t@), q as int, acc@), q),
        r matches Ok((_, e)) ==> q <= e <= t@.len(),
    decreases rem(toks_view(t@), q as int),
{
    let mut acc = acc;
    match parse_common_clause(t, q, &mut acc) {
        Some(Ok(q2)) => parse_outer_clauses(t, q2, acc),
        Some(Err(x)) => Err(x),
        None => match at(t, q) {
            None => Ok((acc, q)),
            Some(other) => Err(err_token("unexpected token after subquery: ", other)),
        },
    }
}

/// The projection after SELECT: `None` for `*`.
fn parse_projection(t: &Vec<Token>, p: usize) -> (r: Result<(Option<Vec<String>>, usize), String>)
    requires
        p <= t@.len(),
    ensures
        match g_projection(toks_view(t@), p as int) {
            Ok((v, n)) => r matches Ok((x, q)) && q == p + n && match v {
                Some(cols) => x matches Some(c) && strings_view(c@) == cols,
                None => x is None,
            },
            Err(m) => r matches Err(e) && e@ == m,
        },
        r matches Ok((_, e)) ==> p <= e <= t@.len(),
{
    match at(t, p) {
        Some(Token::Star) => Ok((None, p + 1)),
        Some(Token::Word(_)) => match parse_columns(t, p) {
            Ok((cols, q)) => Ok((Some(cols), q)),
            Err(e) => Err(e),
        },
        _ => Err(err_got("expected '*' or column list after SELECT, got ", t, p)),
    }
}

/// Where the clauses start after an optional `AS alias` at `p`.
fn parse_alias(t: &Vec<Token>, p: usize) -> (r: Result<usize, String>)
    requires
        p <= t@.len(),
    ensures
        match g_alias(toks_view(t@), p as int) {
            Ok(n) => r matches Ok(e) && e == p + n,
            Err(m) => r matches Err(e) && e@ == m,
        },
        r matches Ok(e) ==> p <= e <= t@.len(),
{
    if kw_at(t, p, "AS") {
        match at(t, p + 1) {
            Some(Token::Word(_)) => Ok(p + 2),
            _ => Err(err_got("expected alias after AS, got ", t, p + 1)),
        }
    } else {
        Ok(p)
    }
}

/// The closing `)`, optional alias and outer clauses of a wrapped query.
fn parse_after_subquery(t: &Vec<Token>, pc: usize, inner: ParsedQuery) -> (r: Result<(ParsedQuery, usize), String>)
    requires
        pc <= t@.len(),
    ensures
        query_res(r, g_after_subquery(toks_view(t@), pc as int, inner@), pc),
        r matches Ok((_, e)) ==> pc <= e <= t@.len(),
{
    match at(t, pc) {
        Some(Token::RParen) => {},
        _ => {
            return Err(err_got("expected ')' to close subquery, got ", t, pc));
        },
    }
    match parse_alias(t, pc + 1) {
        Err(e) => Err(e),
        Ok(pa) => parse_outer_clauses(t, pa, inner),
    }
}

/// What follows FROM at `ps`.
fn parse_source(t: &Vec<Token>, ps: usize, columns: Option<Vec<String>>) -> (r: Result<(ParsedQuery, usize), String>)
    requires
        ps <= t@.len(),
    ensures
        query_res(
            r,
            g_source(
                toks_view(t@),
                ps as int,
                match columns {
                    Some(c) => Some(strings_view(c@)),
                    None => None,
                },
            ),
            ps,
        ),
        r matches Ok((_, e)) ==> ps <= e <= t@.len(),
    decreases rem(toks_view(t@), ps as int), 0nat,
{
    if let Some(Token::LParen) = at(t, ps) {
        match parse_select(t, ps + 1) {
            Err(e) => Err(e),
            Ok((inner, pc)) => {
                let inner2 = if columns.is_some() {
                    ParsedQuery { columns, ..inner }
                } else {
                    inner
                };
                parse_after_subquery(t, pc, inner2)
            },
        }
    } else {
        match at(t, ps) {
            Some(Token::Word(table)) => {
                let acc = ParsedQuery {
                    table: table.clone(),
                    columns,
                    where_clause: None,
                    order_by: Vec::new(),
                    limit: None,
                    offset: None,
                };
                proof {
                    assert(orders_view(acc.order_by@) =~= Seq::<SOrder>::empty());
                }
                parse_clauses(t, ps + 1, acc)
            },
            _ => Err(err_got("expected table name after FROM, got ", t, ps)),
        }
    }
}

/// A whole SELECT statement starting at `p`.
fn parse_select(t: &Vec<Token>, p: usize) -> (r: Result<(ParsedQuery, usize), String>)
    requires
        p <= t@.len(),
    ensures
        query_res(r, g_select(toks_view(t@), p as int), p),
        r matches Ok((_, e)) ==> p <= e <= t@.len(),
    decreases rem(toks_view(t@), p as int), 1nat,
{
    match expect_keyword(t, p, "SELECT") {
        Err(e) => {
            return Err(e);
        },
        Ok(_) => {},
    }
    let (columns, pf) = match parse_projection(t, p + 1) {
        Err(e) => {
            return Err(e);
        },
        Ok(x) => x,
    };
    match expect_keyword(t, pf, "FROM") {
        Err(e) => {
            return Err(e);
        },
        Ok(_) => {},
    }
    parse_source(t, pf + 1, columns)
}

/// Parses one statement of the SQL subset; on failure the message says
/// what was expected and what was found.
pub fn parse(sql: &str) -> (r: Result<ParsedQuery, String>)
    ensures
        match parse_spec(encode_utf8(sql@)) {
            Ok(q) => r matches Ok(x) && x@ == q,
            Err(m) => r matches Err(e) && e@ == m,
        },
{
    let t = match tokenize(sql) {
        Ok(t) => t,
        Err(e) => {
            return Err(e);
        },
    };
    match parse_select(&t, 0) {
        Err(e) => Err(e),
        Ok((q, n)) => if n == t.len() {
            Ok(q)
        } else {
            let mut m = owned("unexpected trailing tokens at position ");
            push_decimal(&mut m, n as u64);
            Err(m)
        },
    }
}

} // verus!
