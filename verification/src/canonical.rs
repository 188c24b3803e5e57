//! Stable text forms of filters, literals and orderings, used as cache
//! keys: the same logical query gives the same key whatever order its
//! AND / OR terms and IN lists were written in.
use vstd::prelude::*;
use crate::ast::{
    CmpOp, FilterExpr, Literal, OrderItem, SFilter, SLiteral, SOrder, filters_view, lemma_compound_view,
    literals_view, orders_view, strings_view,
};
use crate::grammar::op_name;
use crate::instant::{format_rfc3339, rfc3339_text};
use crate::order::{join, join_strings, sort_strings, sorted_texts, lemma_sorted_texts_permutation};
use crate::text::{decimal, i64_text, owned, push_decimal, push_str, signed_decimal};

verus! {

/// The key text of a literal. A fractional number keeps the text it was
/// written with; an instant is written as RFC 3339 by `chrono` (an
/// instant `chrono` cannot represent, which the parser never produces, as
/// `seconds.nanos`).
pub open spec fn canon_literal(v: SLiteral) -> Seq<char> {
    match v {
        SLiteral::Str(s) => "'"@ + s + "'"@,
        SLiteral::Int(n) => signed_decimal(n as int),
        SLiteral::Float(s) => s,
        SLiteral::Bool(b) => if b {
            "true"@
        } else {
            "false"@
        },
        SLiteral::Null => "null"@,
        SLiteral::Timestamp(s, n) => "ts:"@ + match rfc3339_text(s, n) {
            Some(t) => t,
            None => signed_decimal(s as int) + "."@ + decimal(n as nat),
        },
        SLiteral::Reference(p) => "ref:"@ + p,
    }
}

pub open spec fn canon_literals(vs: Seq<SLiteral>) -> Seq<Seq<char>> {
    vs.map_values(|v: SLiteral| canon_literal(v))
}

/// A value list as `[a,b,..]`, its entries sorted.
pub open spec fn canon_list(vs: Seq<SLiteral>) -> Seq<char> {
    "["@ + join(sorted_texts(canon_literals(vs)), ","@) + "]"@
}

/// The key text of a filter; the terms of AND / OR and the values of
/// IN lists are sorted.
pub open spec fn canon_filter(e: SFilter) -> Seq<char>
    decreases e,
{
    match e {
        SFilter::Compare(field, op, v) => "(cmp "@ + join(field, "."@) + " "@ + op_name(op) + " "@
            + canon_literal(v) + ")"@,
        SFilter::In(field, vs, negated) => "("@ + (if negated {
            "not_in"@
        } else {
            "in"@
        }) + " "@ + join(field, "."@) + " "@ + canon_list(vs) + ")"@,
        SFilter::ArrayContains(field, v) => "(ac "@ + join(field, "."@) + " "@ + canon_literal(v)
            + ")"@,
        SFilter::ArrayContainsAny(field, vs) => "(aca "@ + join(field, "."@) + " "@ + canon_list(
            vs,
        ) + ")"@,
        SFilter::And(cs) => "(and "@ + join(sorted_texts(canon_all(cs)), " "@) + ")"@,
        SFilter::Or(cs) => "(or "@ + join(sorted_texts(canon_all(cs)), " "@) + ")"@,
    }
}

/// The key texts of a list of filters, in order.
pub open spec fn canon_all(cs: Seq<SFilter>) -> Seq<Seq<char>>
    decreases cs,
{
    if cs.len() == 0 {
        Seq::empty()
    } else {
        canon_all(cs.drop_last()).push(canon_filter(cs.last()))
    }
}

/// `field ASC|DESC, ...`.
pub open spec fn canon_order(o: SOrder) -> Seq<char> {
    o.0 + if o.1 {
        " DESC"@
    } else {
        " ASC"@
    }
}

pub open spec fn canon_orders(items: Seq<SOrder>) -> Seq<char> {
    join(items.map_values(|o: SOrder| canon_order(o)), ", "@)
}

/// The key text of a literal.
pub fn canonical_literal(lit: &Literal) -> (r: String)
    ensures
        r@ == canon_literal(lit@),
{
    match lit {
        Literal::Str(s) => {
            let mut m = owned("'");
            push_str(&mut m, s.as_str());
            push_str(&mut m, "'");
            m
        },
        Literal::Int(n) => i64_text(*n),
        Literal::Float(f) => owned(f.as_str()),
        Literal::Bool(b) => if *b {
            owned("true")
        } else {
            owned("false")
        },
        Literal::Null => owned("null"),
        Literal::Timestamp(t) => {
            let mut m = owned("ts:");
            match format_rfc3339(*t) {
                Some(text) => push_str(&mut m, text.as_str()),
                None => {
                    let s = i64_text(t.seconds);
                    push_str(&mut m, s.as_str());
                    push_str(&mut m, ".");
                    push_decimal(&mut m, t.nanos as u64);
                },
            }
            m
        },
        Literal::Reference(p) => {
            let mut m = owned("ref:");
            push_str(&mut m, p.as_str());
            m
        },
    }
}

fn canonical_list(values: &Vec<Literal>) -> (r: String)
    ensures
        r@ == canon_list(literals_view(values@)),
{
    let ghost vs = literals_view(values@);
    let mut keys: Vec<String> = Vec::new();
    let mut i: usize = 0;
    while i < values.len()
        invariant
            vs == literals_view(values@),
            0 <= i <= values@.len(),
            strings_view(keys@) == canon_literals(vs).subrange(0, i as int),
        decreases values@.len() - i,
    {
        let k = canonical_literal(&values[i]);
        let ghost before = strings_view(keys@);
        let ghost kv = k@;
        keys.push(k);
        assert(strings_view(keys@) =~= before.push(kv));
        assert(canon_literals(vs).subrange(0, i + 1) =~= before.push(kv));
        i += 1;
    }
    assert(canon_literals(vs).subrange(0, values@.len() as int) =~= canon_literals(vs));
    let sorted = sort_strings(&keys);
    let mut m = owned("[");
    let j = join_strings(&sorted, ",");
    push_str(&mut m, j.as_str());
    push_str(&mut m, "]");
    m
}

fn dotted(field: &Vec<String>) -> (r: String)
    ensures
        r@ == join(strings_view(field@), "."@),
{
    join_strings(field, ".")
}

/// The key text of a filter.
pub fn canonical_filter(expr: &FilterExpr) -> (r: String)
    ensures
        r@ == canon_filter(expr@),
    decreases expr,
{
    match expr {
        FilterExpr::Compare { field, op, value } => {
            let mut m = owned("(cmp ");
            let f = dotted(field);
            push_str(&mut m, f.as_str());
            push_str(&mut m, " ");
            let o = crate::query_parser::op_text(*op);
            push_str(&mut m, o.as_str());
            push_str(&mut m, " ");
            let v = canonical_literal(value);
            push_str(&mut m, v.as_str());
            push_str(&mut m, ")");
            m
        },
        FilterExpr::In { field, values, negated } => {
            let mut m = owned("(");
            if *negated {
                push_str(&mut m, "not_in");
            } else {
                push_str(&mut m, "in");
            }
            push_str(&mut m, " ");
            let f = dotted(field);
            push_str(&mut m, f.as_str());
            push_str(&mut m, " ");
            let l = canonical_list(values);
            push_str(&mut m, l.as_str());
            push_str(&mut m, ")");
            m
        },
        FilterExpr::ArrayContains { field, value } => {
            let mut m = owned("(ac ");
            let f = dotted(field);
            push_str(&mut m, f.as_str());
            push_str(&mut m, " ");
            let v = canonical_literal(value);
            push_str(&mut m, v.as_str());
            push_str(&mut m, ")");
            m
        },
        FilterExpr::ArrayContainsAny { field, values } => {
            let mut m = owned("(aca ");
            let f = dotted(field);
            push_str(&mut m, f.as_str());
            push_str(&mut m, " ");
            let l = canonical_list(values);
            push_str(&mut m, l.as_str());
            push_str(&mut m, ")");
            m
        },
        FilterExpr::And(children) => {
            let mut m = owned("(and ");
            let parts = canonical_parts(children);
            let sorted = sort_strings(&parts);
            let j = join_strings(&sorted, " ");
            push_str(&mut m, j.as_str());
            push_str(&mut m, ")");
            proof {
                lemma_compound_view(*children);
            }
            m
        },
        FilterExpr::Or(children) => {
            let mut m = owned("(or ");
            let parts = canonical_parts(children);
            let sorted = sort_strings(&parts);
            let j = join_strings(&sorted, " ");
            push_str(&mut m, j.as_str());
            push_str(&mut m, ")");
            proof {
                lemma_compound_view(*children);
            }
            m
        },
    }
}

/// The key texts of `children`, in order.
fn canonical_parts(children: &Vec<FilterExpr>) -> (r: Vec<String>)
    ensures
        strings_view(r@) == canon_all(filters_view(children@)),
    decreases children,
{
    let ghost cs = filters_view(children@);
    let mut out: Vec<String> = Vec::new();
    let mut i: usize = 0;
    assert(strings_view(out@) =~= canon_all(cs.subrange(0, 0)));
    while i < children.len()
        invariant
            cs == filters_view(children@),
            0 <= i <= children@.len(),
            strings_view(out@) == canon_all(cs.subrange(0, i as int)),
        decreases children@.len() - i,
    {
        assert(decreases_to!(children => children@[i as int]));
        let ghost before = strings_view(out@);
        let k = canonical_filter(&children[i]);
        let ghost kv = k@;
        out.push(k);
        proof {
            let pre = cs.subrange(0, i + 1);
            assert(pre.drop_last() =~= cs.subrange(0, i as int));
            assert(pre.last() == children@[i as int]@);
            assert(strings_view(out@) =~= before.push(kv));
        }
        i += 1;
    }
    assert(cs.subrange(0, children@.len() as int) =~= cs);
    out
}

/// `field ASC|DESC` items joined by `, `.
pub fn canonical_order_by(items: &[OrderItem]) -> (r: String)
    ensures
        r@ == canon_orders(orders_view(items@)),
{
    let ghost os = orders_view(items@);
    let mut parts: Vec<String> = Vec::new();
    let mut i: usize = 0;
    while i < items.len()
        invariant
            os == orders_view(items@),
            0 <= i <= items@.len(),
            strings_view(parts@) == os.map_values(|o: SOrder| canon_order(o)).subrange(0, i as int),
        decreases items@.len() - i,
    {
        let mut p = owned(items[i].field.as_str());
        if items[i].desc {
            push_str(&mut p, " DESC");
        } else {
            push_str(&mut p, " ASC");
        }
        let ghost before = strings_view(parts@);
        let ghost pv = p@;
        parts.push(p);
        assert(strings_view(parts@) =~= before.push(pv));
        assert(os.map_values(|o: SOrder| canon_order(o)).subrange(0, i + 1) =~= before.push(pv));
        i += 1;
    }
    assert(os.map_values(|o: SOrder| canon_order(o)).subrange(0, items@.len() as int)
        =~= os.map_values(|o: SOrder| canon_order(o)));
    join_strings(&parts, ", ")
}

proof fn lemma_canon_all_map(cs: Seq<SFilter>)
    ensures
        canon_all(cs) == cs.map_values(|e: SFilter| canon_filter(e)),
    decreases cs.len(),
{
    if cs.len() > 0 {
        lemma_canon_all_map(cs.drop_last());
        assert(canon_all(cs) =~= cs.map_values(|e: SFilter| canon_filter(e)));
    }
}

/// Mapping a function over two rearrangements of one list gives two
/// rearrangements of one list.
proof fn lemma_map_multiset<A, B>(a: Seq<A>, b: Seq<A>, f: spec_fn(A) -> B)
    requires
        a.to_multiset() == b.to_multiset(),
    ensures
        a.map_values(f).to_multiset() == b.map_values(f).to_multiset(),
    decreases a.len(),
{
    broadcast use vstd::seq_lib::group_to_multiset_ensures;
    broadcast use vstd::multiset::group_multiset_axioms;

    if a.len() == 0 {
        assert(a.to_multiset().len() == 0);
        assert(b.to_multiset().len() == b.len());
        assert(a.map_values(f) =~= b.map_values(f));
    } else {
        let x = a.last();
        let a2 = a.drop_last();
        assert(a =~= a2.push(x));
        assert(a.to_multiset() == a2.to_multiset().insert(x));
        assert(b.to_multiset().count(x) > 0);
        assert(b.contains(x));
        let k = choose|k: int| 0 <= k < b.len() && b[k] == x;
        let b2 = b.remove(k);
        assert(b2.to_multiset() == b.to_multiset().remove(x));
        assert(a2.to_multiset() =~= b2.to_multiset());
        lemma_map_multiset(a2, b2, f);
        let mb = b.map_values(f);
        assert(b2.map_values(f) =~= mb.remove(k));
        assert(mb.remove(k).to_multiset() == mb.to_multiset().remove(mb[k]));
        assert(mb.to_multiset().count(f(x)) > 0) by {
            assert(mb.contains(f(x))) by {
                assert(mb[k] == f(x));
            }
        }
        assert(a.map_values(f) =~= a2.map_values(f).push(f(x)));
        assert(a.map_values(f).to_multiset() == a2.map_values(f).to_multiset().insert(f(x)));
        assert(a.map_values(f).to_multiset() =~= mb.to_multiset());
    }
}

/// The key of an AND or an OR does not depend on the order of its terms:
/// two lists holding the same terms, each as often, give the same key.
pub proof fn law_canonical_filter_ignores_term_order(a: Seq<SFilter>, b: Seq<SFilter>)
    requires
        a.to_multiset() == b.to_multiset(),
    ensures
        canon_filter(SFilter::And(a)) == canon_filter(SFilter::And(b)),
        canon_filter(SFilter::Or(a)) == canon_filter(SFilter::Or(b)),
{
    lemma_canon_all_map(a);
    lemma_canon_all_map(b);
    lemma_map_multiset(a, b, |e: SFilter| canon_filter(e));
    lemma_sorted_texts_permutation(canon_all(a), canon_all(b));
}

/// The key of an IN / NOT IN or ARRAY_CONTAINS_ANY test does not depend on
/// the order of its values.
pub proof fn law_canonical_filter_ignores_value_order(
    field: Seq<Seq<char>>,
    a: Seq<SLiteral>,
    b: Seq<SLiteral>,
    negated: bool,
)
    requires
        a.to_multiset() == b.to_multiset(),
    ensures
        canon_filter(SFilter::In(field, a, negated)) == canon_filter(SFilter::In(field, b, negated)),
        canon_filter(SFilter::ArrayContainsAny(field, a)) == canon_filter(
            SFilter::ArrayContainsAny(field, b),
        ),
{
    lemma_map_multiset(a, b, |v: SLiteral| canon_literal(v));
    lemma_sorted_texts_permutation(canon_literals(a), canon_literals(b));
}

/// Whether `e2` is `e1` with the terms of any of its ANDs and ORs, and the
/// values of any of its IN / NOT IN and ARRAY_CONTAINS_ANY lists,
/// rearranged, at any depth.
pub open spec fn reorders(e1: SFilter, e2: SFilter) -> bool
    decreases e1,
{
    match e1 {
        SFilter::And(a) => match e2 {
            SFilter::And(b) => exists|c: Seq<SFilter>|
                terms_reorder(a, c) && #[trigger] c.to_multiset() == b.to_multiset(),
            _ => false,
        },
        SFilter::Or(a) => match e2 {
            SFilter::Or(b) => exists|c: Seq<SFilter>|
                terms_reorder(a, c) && #[trigger] c.to_multiset() == b.to_multiset(),
            _ => false,
        },
        SFilter::In(f, a, n) => match e2 {
            SFilter::In(g, b, m) => f == g && n == m && a.to_multiset() == b.to_multiset(),
            _ => false,
        },
        SFilter::ArrayContainsAny(f, a) => match e2 {
            SFilter::ArrayContainsAny(g, b) => f == g && a.to_multiset() == b.to_multiset(),
            _ => false,
        },
        _ => e1 == e2,
    }
}

/// Whether each term of `c` rearranges the term of `a` at its place.
pub open spec fn terms_reorder(a: Seq<SFilter>, c: Seq<SFilter>) -> bool
    decreases a,
{
    if a.len() == 0 {
        c.len() == 0
    } else {
        c.len() == a.len() && reorders(a.last(), c.last()) && terms_reorder(
            a.drop_last(),
            c.drop_last(),
        )
    }
}

proof fn lemma_terms_reorder(a: Seq<SFilter>, c: Seq<SFilter>)
    requires
        terms_reorder(a, c),
    ensures
        canon_all(a) == canon_all(c),
    decreases a,
{
    if a.len() > 0 {
        lemma_terms_reorder(a.drop_last(), c.drop_last());
        law_canonical_filter_ignores_reordering(a.last(), c.last());
    }
}

/// The key of a filter does not depend on the order in which the terms of
/// its ANDs and ORs, or the values of its IN and ARRAY_CONTAINS_ANY lists,
/// were written, at any depth.
pub proof fn law_canonical_filter_ignores_reordering(e1: SFilter, e2: SFilter)
    requires
        reorders(e1, e2),
    ensures
        canon_filter(e1) == canon_filter(e2),
    decreases e1,
{
    match e1 {
        SFilter::And(a) => {
            if let SFilter::And(b) = e2 {
                let c = choose|c: Seq<SFilter>|
                    terms_reorder(a, c) && #[trigger] c.to_multiset() == b.to_multiset();
                lemma_terms_reorder(a, c);
                law_canonical_filter_ignores_term_order(c, b);
                assert(canon_filter(SFilter::And(a)) == canon_filter(SFilter::And(c)));
            }
        },
        SFilter::Or(a) => {
            if let SFilter::Or(b) = e2 {
                let c = choose|c: Seq<SFilter>|
                    terms_reorder(a, c) && #[trigger] c.to_multiset() == b.to_multiset();
                lemma_terms_reorder(a, c);
                law_canonical_filter_ignores_term_order(c, b);
                assert(canon_filter(SFilter::Or(a)) == canon_filter(SFilter::Or(c)));
            }
        },
        SFilter::In(f, a, n) => {
            law_canonical_filter_ignores_value_order(f, a, e2->In_1, n);
        },
        SFilter::ArrayContainsAny(f, a) => {
            law_canonical_filter_ignores_value_order(f, a, e2->ArrayContainsAny_1, false);
        },
        _ => {},
    }
}

/// Which test a filter is, counting IN and NOT IN apart.
pub open spec fn filter_kind(e: SFilter) -> int {
    match e {
        SFilter::Compare(..) => 0,
        SFilter::In(_, _, negated) => if negated {
            2
        } else {
            1
        },
        SFilter::ArrayContains(..) => 3,
        SFilter::ArrayContainsAny(..) => 4,
        SFilter::And(..) => 5,
        SFilter::Or(..) => 6,
    }
}

/// The first four characters of the key of each kind of test.
spec fn kind_tag(k: int) -> Seq<char> {
    if k == 0 {
        "(cmp"@
    } else if k == 1 {
        "(in "@
    } else if k == 2 {
        "(not"@
    } else if k == 3 {
        "(ac "@
    } else if k == 4 {
        "(aca"@
    } else if k == 5 {
        "(and"@
    } else {
        "(or "@
    }
}

proof fn lemma_key_head(e: SFilter)
    ensures
        canon_filter(e).len() >= 4,
        canon_filter(e).subrange(0, 4) == kind_tag(filter_kind(e)),
{
    reveal_strlit("(cmp ");
    reveal_strlit("(cmp");
    reveal_strlit("(");
    reveal_strlit(" ");
    reveal_strlit("in");
    reveal_strlit("not_in");
    reveal_strlit("(in ");
    reveal_strlit("(not");
    reveal_strlit("(ac ");
    reveal_strlit("(aca ");
    reveal_strlit("(aca");
    reveal_strlit("(and ");
    reveal_strlit("(and");
    reveal_strlit("(or ");
    let k = canon_filter(e);
    match e {
        SFilter::Compare(field, op, v) => {
            let a = "(cmp "@;
            assert(k == a + (join(field, "."@) + " "@ + op_name(op) + " "@ + canon_literal(v) + ")"@));
            assert(k.subrange(0, 4) =~= a.subrange(0, 4));
        },
        SFilter::In(field, vs, negated) => {
            let a = "("@ + (if negated {
                "not_in"@
            } else {
                "in"@
            });
            assert(k == a + (" "@ + join(field, "."@) + " "@ + canon_list(vs) + ")"@));
            if negated {
                assert(k.subrange(0, 4) =~= a.subrange(0, 4));
            } else {
                let a2 = "("@ + "in"@ + " "@;
                assert(a2 =~= "(in "@);
                assert(k == a2 + (join(field, "."@) + " "@ + canon_list(vs) + ")"@));
                assert(k.subrange(0, 4) =~= a2);
            }
        },
        SFilter::ArrayContains(field, v) => {
            let a = "(ac "@;
            assert(k == a + (join(field, "."@) + " "@ + canon_literal(v) + ")"@));
            assert(k.subrange(0, 4) =~= a);
        },
        SFilter::ArrayContainsAny(field, vs) => {
            let a = "(aca "@;
            assert(k == a + (join(field, "."@) + " "@ + canon_list(vs) + ")"@));
            assert(k.subrange(0, 4) =~= a.subrange(0, 4));
        },
        SFilter::And(cs) => {
            let a = "(and "@;
            assert(k == a + (join(sorted_texts(canon_all(cs)), " "@) + ")"@));
            assert(k.subrange(0, 4) =~= a.subrange(0, 4));
        },
        SFilter::Or(cs) => {
            let a = "(or "@;
            assert(k == a + (join(sorted_texts(canon_all(cs)), " "@) + ")"@));
            assert(k.subrange(0, 4) =~= a);
        },
    }
}

/// Different kinds of test never share a key: a comparison, an IN, a NOT
/// IN, an ARRAY_CONTAINS, an ARRAY_CONTAINS_ANY, an AND and an OR are told
/// apart by their keys.
pub proof fn law_key_tells_kind(e1: SFilter, e2: SFilter)
    requires
        filter_kind(e1) != filter_kind(e2),
    ensures
        canon_filter(e1) != canon_filter(e2),
{
    lemma_key_head(e1);
    lemma_key_head(e2);
    reveal_strlit("(cmp");
    reveal_strlit("(in ");
    reveal_strlit("(not");
    reveal_strlit("(ac ");
    reveal_strlit("(aca");
    reveal_strlit("(and");
    reveal_strlit("(or ");
    let t1 = kind_tag(filter_kind(e1));
    let t2 = kind_tag(filter_kind(e2));
    assert(t1[1] != t2[1] || t1[2] != t2[2] || t1[3] != t2[3]);
}

/// Texts that agree around parts of one length agree on those parts.
proof fn lemma_same_around(a: Seq<char>, x: Seq<char>, y: Seq<char>, b: Seq<char>, c: Seq<char>)
    requires
        a + x + b == a + y + c,
        x.len() == y.len(),
    ensures
        x == y,
        b == c,
{
    let k1 = a + x + b;
    let k2 = a + y + c;
    assert(x =~= k1.subrange(a.len() as int, (a.len() + x.len()) as int));
    assert(y =~= k2.subrange(a.len() as int, (a.len() + y.len()) as int));
    assert(b =~= k1.subrange((a.len() + x.len()) as int, k1.len() as int));
    assert(c =~= k2.subrange((a.len() + y.len()) as int, k2.len() as int));
}

/// Texts that agree around two middles agree on the middles.
proof fn lemma_same_middle(a: Seq<char>, x: Seq<char>, y: Seq<char>, b: Seq<char>)
    requires
        a + x + b == a + y + b,
    ensures
        x == y,
{
    assert((a + x + b).len() == a.len() + x.len() + b.len());
    assert((a + y + b).len() == a.len() + y.len() + b.len());
    lemma_same_around(a, x, y, b, b);
}

/// The two letters of an operator's name.
spec fn op_letters(o: CmpOp) -> Seq<char> {
    match o {
        CmpOp::Eq => seq!['E', 'q'],
        CmpOp::Ne => seq!['N', 'e'],
        CmpOp::Lt => seq!['L', 't'],
        CmpOp::Le => seq!['L', 'e'],
        CmpOp::Gt => seq!['G', 't'],
        CmpOp::Ge => seq!['G', 'e'],
    }
}

proof fn lemma_op_name_injective(o1: CmpOp, o2: CmpOp)
    requires
        op_name(o1) == op_name(o2),
    ensures
        o1 == o2,
{
    reveal_strlit("Eq");
    reveal_strlit("Ne");
    reveal_strlit("Lt");
    reveal_strlit("Le");
    reveal_strlit("Gt");
    reveal_strlit("Ge");
    assert(op_name(o1) =~= op_letters(o1));
    assert(op_name(o2) =~= op_letters(o2));
    assert(op_letters(o1)[0] == op_letters(o2)[0] && op_letters(o1)[1] == op_letters(o2)[1]);
}

/// Two comparisons on one field with the same key have the same operator
/// and literals with the same key; two comparisons with the same operator
/// and literal and the same key are on the same (dotted) field.
pub proof fn law_compare_key_parts(
    f1: Seq<Seq<char>>,
    o1: CmpOp,
    v1: SLiteral,
    f2: Seq<Seq<char>>,
    o2: CmpOp,
    v2: SLiteral,
)
    requires
        canon_filter(SFilter::Compare(f1, o1, v1)) == canon_filter(SFilter::Compare(f2, o2, v2)),
    ensures
        join(f1, "."@) == join(f2, "."@) ==> o1 == o2 && canon_literal(v1) == canon_literal(v2),
        o1 == o2 && canon_literal(v1) == canon_literal(v2) ==> join(f1, "."@) == join(f2, "."@),
{
    reveal_strlit("Eq");
    reveal_strlit("Ne");
    reveal_strlit("Lt");
    reveal_strlit("Le");
    reveal_strlit("Gt");
    reveal_strlit("Ge");
    let h = "(cmp "@;
    let d1 = join(f1, "."@);
    let d2 = join(f2, "."@);
    let n1 = op_name(o1);
    let n2 = op_name(o2);
    let l1 = canon_literal(v1);
    let l2 = canon_literal(v2);
    assert(n1.len() == 2 && n2.len() == 2);
    if d1 == d2 {
        let a = h + d1 + " "@;
        assert(canon_filter(SFilter::Compare(f1, o1, v1)) =~= a + n1 + (" "@ + l1 + ")"@));
        assert(canon_filter(SFilter::Compare(f2, o2, v2)) =~= a + n2 + (" "@ + l2 + ")"@));
        lemma_same_around(a, n1, n2, " "@ + l1 + ")"@, " "@ + l2 + ")"@);
        lemma_op_name_injective(o1, o2);
        lemma_same_middle(" "@, l1, l2, ")"@);
    }
    if o1 == o2 && l1 == l2 {
        let rest = " "@ + n1 + " "@ + l1 + ")"@;
        assert(canon_filter(SFilter::Compare(f1, o1, v1)) =~= h + d1 + rest);
        assert(canon_filter(SFilter::Compare(f2, o2, v2)) =~= h + d2 + rest);
        lemma_same_middle(h, d1, d2, rest);
    }
}

/// Two ARRAY_CONTAINS tests with the same key and the same (dotted) field
/// have literals with the same key, and with the same literal key they are
/// on the same field.
pub proof fn law_array_contains_key_parts(f1: Seq<Seq<char>>, v1: SLiteral, f2: Seq<Seq<char>>, v2: SLiteral)
    requires
        canon_filter(SFilter::ArrayContains(f1, v1)) == canon_filter(SFilter::ArrayContains(f2, v2)),
    ensures
        join(f1, "."@) == join(f2, "."@) ==> canon_literal(v1) == canon_literal(v2),
        canon_literal(v1) == canon_literal(v2) ==> join(f1, "."@) == join(f2, "."@),
{
    let h = "(ac "@;
    let d1 = join(f1, "."@);
    let d2 = join(f2, "."@);
    let l1 = canon_literal(v1);
    let l2 = canon_literal(v2);
    if d1 == d2 {
        assert(canon_filter(SFilter::ArrayContains(f1, v1)) =~= (h + d1 + " "@) + l1 + ")"@);
        assert(canon_filter(SFilter::ArrayContains(f2, v2)) =~= (h + d1 + " "@) + l2 + ")"@);
        lemma_same_middle(h + d1 + " "@, l1, l2, ")"@);
    }
    if l1 == l2 {
        let rest = " "@ + l1 + ")"@;
        assert(canon_filter(SFilter::ArrayContains(f1, v1)) =~= h + d1 + rest);
        assert(canon_filter(SFilter::ArrayContains(f2, v2)) =~= h + d2 + rest);
        lemma_same_middle(h, d1, d2, rest);
    }
}

} // verus!
