//! Checks of a filter against Firestore's compound-filter restrictions, run
//! before any Firestore call so the user gets a clear message, and the
//! rewrite of the synthetic document-ID column to `__name__`.
use vstd::prelude::*;
use crate::ast::{
    CmpOp, FilterExpr, Literal, SFilter, SLiteral, copy_literals, copy_strings,
    filters_view, lemma_compound_view, literals_view, strings_view,
};
use crate::order::{
    distinct_sorted_texts, join, join_strings, lemma_distinct_sorted_texts, sorted_distinct_strings,
};
use crate::text::{decimal, owned, push_decimal, push_str};

verus! {

/// The synthetic column that carries a document's ID.
pub const ID_COLUMN: &'static str = "id";

/// What validation reads off a filter: the fields under an inequality and
/// under ARRAY_CONTAINS (dotted, once per occurrence), the longest IN /
/// NOT IN and ARRAY_CONTAINS_ANY lists, and whether each kind of array
/// test occurs.
pub struct FilterFacts {
    pub inequality_fields: Seq<Seq<char>>,
    pub in_max: nat,
    pub any_max: nat,
    pub has_array_contains: bool,
    pub has_array_contains_any: bool,
    pub array_contains_fields: Seq<Seq<char>>,
}

pub open spec fn no_facts() -> FilterFacts {
    FilterFacts {
        inequality_fields: Seq::empty(),
        in_max: 0,
        any_max: 0,
        has_array_contains: false,
        has_array_contains_any: false,
        array_contains_fields: Seq::empty(),
    }
}

pub open spec fn max_nat(a: nat, b: nat) -> nat {
    if a >= b {
        a
    } else {
        b
    }
}

/// The facts of two parts of one filter together.
pub open spec fn merge(a: FilterFacts, b: FilterFacts) -> FilterFacts {
    FilterFacts {
        inequality_fields: a.inequality_fields + b.inequality_fields,
        in_max: max_nat(a.in_max, b.in_max),
        any_max: max_nat(a.any_max, b.any_max),
        has_array_contains: a.has_array_contains || b.has_array_contains,
        has_array_contains_any: a.has_array_contains_any || b.has_array_contains_any,
        array_contains_fields: a.array_contains_fields + b.array_contains_fields,
    }
}

pub open spec fn is_inequality(op: CmpOp) -> bool {
    op != CmpOp::Eq
}

/// The facts of a filter.
pub open spec fn facts(e: SFilter) -> FilterFacts
    decreases e,
{
    match e {
        SFilter::Compare(field, op, _) => if is_inequality(op) {
            FilterFacts { inequality_fields: seq![join(field, "."@)], ..no_facts() }
        } else {
            no_facts()
        },
        SFilter::In(_, values, _) => FilterFacts { in_max: values.len(), ..no_facts() },
        SFilter::ArrayContains(field, _) => FilterFacts {
            has_array_contains: true,
            array_contains_fields: seq![join(field, "."@)],
            ..no_facts()
        },
        SFilter::ArrayContainsAny(_, values) => FilterFacts {
            has_array_contains_any: true,
            any_max: values.len(),
            ..no_facts()
        },
        SFilter::And(children) => facts_all(children),
        SFilter::Or(children) => facts_all(children),
    }
}

/// The facts of a list of sub-filters, read left to right.
pub open spec fn facts_all(cs: Seq<SFilter>) -> FilterFacts
    decreases cs,
{
    if cs.len() == 0 {
        no_facts()
    } else {
        merge(facts_all(cs.drop_last()), facts(cs.last()))
    }
}

/// Whether `x` occurs at least twice in `s`.
pub open spec fn occurs_twice(s: Seq<Seq<char>>, x: Seq<char>) -> bool {
    exists|i: int, j: int| 0 <= i < j < s.len() && s[i] == x && s[j] == x
}

/// The entries of `s` that occur in it at least twice.
pub open spec fn repeated(s: Seq<Seq<char>>) -> Seq<Seq<char>> {
    s.filter(|x: Seq<char>| occurs_twice(s, x))
}

/// What `validate` answers for a filter.
pub open spec fn validate_spec(e: SFilter) -> Result<(), Seq<char>> {
    let f = facts(e);
    let ineq = distinct_sorted_texts(f.inequality_fields);
    let twice = distinct_sorted_texts(repeated(f.array_contains_fields));
    if ineq.len() > 1 {
        Err(
            "Firestore allows inequality on at most one field per query (saw "@ + join(
                ineq,
                ", "@,
            ) + "). Adjust the filter or split into multiple queries."@,
        )
    } else if f.in_max > 30 {
        Err("Firestore limits IN/NOT IN to 30 values per query (saw "@ + decimal(f.in_max) + ")."@)
    } else if f.any_max > 30 {
        Err(
            "Firestore limits ARRAY_CONTAINS_ANY to 30 values per query (saw "@ + decimal(
                f.any_max,
            ) + ")."@,
        )
    } else if f.has_array_contains && f.has_array_contains_any {
        Err("Firestore disallows ARRAY_CONTAINS and ARRAY_CONTAINS_ANY in the same query."@)
    } else if twice.len() > 0 {
        Err(
            "Firestore allows at most one ARRAY_CONTAINS per field (saw multiple on: "@ + join(
                twice,
                ", "@,
            ) + ")."@,
        )
    } else {
        Ok(())
    }
}

/// The facts gathered while walking a filter.
pub struct ValidationState {
    pub inequality_fields: Vec<String>,
    pub in_max_size: usize,
    pub array_contains_any_max_size: usize,
    pub has_array_contains: bool,
    pub has_array_contains_any: bool,
    pub array_contains_fields: Vec<String>,
}

impl View for ValidationState {
    type V = FilterFacts;

    open spec fn view(&self) -> FilterFacts {
        FilterFacts {
            inequality_fields: strings_view(self.inequality_fields@),
            in_max: self.in_max_size as nat,
            any_max: self.array_contains_any_max_size as nat,
            has_array_contains: self.has_array_contains,
            has_array_contains_any: self.has_array_contains_any,
            array_contains_fields: strings_view(self.array_contains_fields@),
        }
    }
}

proof fn lemma_merge_assoc(a: FilterFacts, b: FilterFacts, c: FilterFacts)
    ensures
        merge(merge(a, b), c) == merge(a, merge(b, c)),
{
    assert(merge(merge(a, b), c).inequality_fields =~= merge(a, merge(b, c)).inequality_fields);
    assert(merge(merge(a, b), c).array_contains_fields =~= merge(
        a,
        merge(b, c),
    ).array_contains_fields);
}

proof fn lemma_merge_none(a: FilterFacts)
    ensures
        merge(a, no_facts()) == a,
{
    assert(merge(a, no_facts()).inequality_fields =~= a.inequality_fields);
    assert(merge(a, no_facts()).array_contains_fields =~= a.array_contains_fields);
}

fn push_joined(out: &mut Vec<String>, field: &Vec<String>)
    ensures
        strings_view(final(out)@) == strings_view(old(out)@).push(join(strings_view(field@), "."@)),
{
    let j = join_strings(field, ".");
    let ghost before = strings_view(out@);
    out.push(j);
    assert(strings_view(out@) =~= before.push(join(strings_view(field@), "."@)));
}

/// Adds the facts of `expr` to `state`.
fn walk(expr: &FilterExpr, state: &mut ValidationState)
    ensures
        final(state)@ == merge(old(state)@, facts(expr@)),
    decreases expr,
{
    let ghost s0 = state@;
    match expr {
        FilterExpr::Compare { field, op, .. } => {
            if *op != CmpOp::Eq {
                push_joined(&mut state.inequality_fields, field);
                assert(state@.inequality_fields =~= merge(s0, facts(expr@)).inequality_fields);
            } else {
                proof {
                    lemma_merge_none(s0);
                }
            }
        },
        FilterExpr::In { values, .. } => {
            if values.len() > state.in_max_size {
                state.in_max_size = values.len();
            }
            assert(literals_view(values@).len() == values@.len());
            proof {
                lemma_merge_none(s0);
            }
            assert(state@.inequality_fields =~= merge(s0, facts(expr@)).inequality_fields);
            assert(state@.array_contains_fields =~= merge(s0, facts(expr@)).array_contains_fields);
        },
        FilterExpr::ArrayContains { field, .. } => {
            state.has_array_contains = true;
            push_joined(&mut state.array_contains_fields, field);
            assert(state@.inequality_fields =~= merge(s0, facts(expr@)).inequality_fields);
            assert(state@.array_contains_fields =~= merge(s0, facts(expr@)).array_contains_fields);
        },
        FilterExpr::ArrayContainsAny { values, .. } => {
            state.has_array_contains_any = true;
            if values.len() > state.array_contains_any_max_size {
                state.array_contains_any_max_size = values.len();
            }
            assert(literals_view(values@).len() == values@.len());
            assert(state@.inequality_fields =~= merge(s0, facts(expr@)).inequality_fields);
            assert(state@.array_contains_fields =~= merge(s0, facts(expr@)).array_contains_fields);
        },
        FilterExpr::And(children) => {
            walk_all(children, state);
            proof {
                lemma_compound_view(*children);
            }
        },
        FilterExpr::Or(children) => {
            walk_all(children, state);
            proof {
                lemma_compound_view(*children);
            }
        },
    }
}

/// Adds the facts of each of `children`, in order.
fn walk_all(children: &Vec<FilterExpr>, state: &mut ValidationState)
    ensures
        final(state)@ == merge(old(state)@, facts_all(filters_view(children@))),
    decreases children,
{
    let ghost s0 = state@;
    let ghost cs = filters_view(children@);
    let mut i: usize = 0;
    proof {
        assert(cs.subrange(0, 0) =~= Seq::<SFilter>::empty());
        lemma_merge_none(s0);
    }
    while i < children.len()
        invariant
            cs == filters_view(children@),
            0 <= i <= children@.len(),
            state@ == merge(s0, facts_all(cs.subrange(0, i as int))),
        decreases children@.len() - i,
    {
        assert(decreases_to!(children => children@[i as int]));
        let ghost before = state@;
        walk(&children[i], state);
        proof {
            let pre = cs.subrange(0, i + 1);
            assert(pre.drop_last() =~= cs.subrange(0, i as int));
            assert(pre.last() == children@[i as int]@);
            lemma_merge_assoc(s0, facts_all(cs.subrange(0, i as int)), facts(pre.last()));
        }
        i += 1;
    }
    assert(cs.subrange(0, children@.len() as int) =~= cs);
}

/// The fields that occur at least twice in `v`, in the order of `v`.
fn repeated_strings(v: &Vec<String>) -> (r: Vec<String>)
    ensures
        strings_view(r@) == repeated(strings_view(v@)),
{
    let ghost s = strings_view(v@);
    let ghost pred = |x: Seq<char>| occurs_twice(s, x);
    let mut out: Vec<String> = Vec::new();
    let mut i: usize = 0;
    while i < v.len()
        invariant
            s == strings_view(v@),
            pred == (|x: Seq<char>| occurs_twice(s, x)),
            0 <= i <= v@.len(),
            strings_view(out@) == s.subrange(0, i as int).filter(pred),
        decreases v@.len() - i,
    {
        let mut twice = false;
        let mut j: usize = 0;
        while j < v.len()
            invariant
                s == strings_view(v@),
                0 <= i < v@.len(),
                0 <= j <= v@.len(),
                twice ==> occurs_twice(s, s[i as int]),
                !twice ==> forall|k: int| 0 <= k < j && k != i ==> s[k] != s[i as int],
            decreases v@.len() - j,
        {
            if j != i && v[j] == v[i] {
                twice = true;
                proof {
                    if j < i {
                        assert(s[j as int] == s[i as int] && s[i as int] == s[i as int]);
                    } else {
                        assert(s[i as int] == s[i as int] && s[j as int] == s[i as int]);
                    }
                }
            }
            j += 1;
        }
        proof {
            if !twice && occurs_twice(s, s[i as int]) {
                let (a, b) = choose|a: int, b: int|
                    0 <= a < b < s.len() && s[a] == s[i as int] && s[b] == s[i as int];
                assert(a == i || b == i);
            }
            assert(s.subrange(0, i + 1) =~= s.subrange(0, i as int).push(s[i as int]));
            s.subrange(0, i as int).lemma_filter_push(s[i as int], pred);
        }
        if twice {
            let ghost before = strings_view(out@);
            out.push(v[i].clone());
            assert(strings_view(out@) =~= before.push(s[i as int]));
        }
        i += 1;
    }
    assert(s.subrange(0, v@.len() as int) =~= s);
    out
}

/// Checks `expr` against Firestore's compound-filter restrictions.
pub fn validate(expr: &FilterExpr) -> (r: Result<(), String>)
    ensures
        match validate_spec(expr@) {
            Ok(_) => r is Ok,
            Err(m) => r matches Err(e) && e@ == m,
        },
{
    let mut state = ValidationState {
        inequality_fields: Vec::new(),
        in_max_size: 0,
        array_contains_any_max_size: 0,
        has_array_contains: false,
        has_array_contains_any: false,
        array_contains_fields: Vec::new(),
    };
    assert(state@.inequality_fields =~= Seq::<Seq<char>>::empty());
    assert(state@.array_contains_fields =~= Seq::<Seq<char>>::empty());
    walk(expr, &mut state);
    proof {
        let f = facts(expr@);
        assert(merge(no_facts(), f).inequality_fields =~= f.inequality_fields);
        assert(merge(no_facts(), f).array_contains_fields =~= f.array_contains_fields);
    }
    let fields = sorted_distinct_strings(&state.inequality_fields);
    if fields.len() > 1 {
        let mut m = owned("Firestore allows inequality on at most one field per query (saw ");
        let j = join_strings(&fields, ", ");
        push_str(&mut m, j.as_str());
        push_str(&mut m, "). Adjust the filter or split into multiple queries.");
        return Err(m);
    }
    if state.in_max_size > 30 {
        let mut m = owned("Firestore limits IN/NOT IN to 30 values per query (saw ");
        push_decimal(&mut m, state.in_max_size as u64);
        push_str(&mut m, ").");
        return Err(m);
    }
    if state.array_contains_any_max_size > 30 {
        let mut m = owned("Firestore limits ARRAY_CONTAINS_ANY to 30 values per query (saw ");
        push_decimal(&mut m, state.array_contains_any_max_size as u64);
        push_str(&mut m, ").");
        return Err(m);
    }
    if state.has_array_contains && state.has_array_contains_any {
        return Err(
            owned("Firestore disallows ARRAY_CONTAINS and ARRAY_CONTAINS_ANY in the same query."),
        );
    }
    let twice = repeated_strings(&state.array_contains_fields);
    let listed = sorted_distinct_strings(&twice);
    if listed.len() > 0 {
        let mut m = owned("Firestore allows at most one ARRAY_CONTAINS per field (saw multiple on: ");
        let j = join_strings(&listed, ", ");
        push_str(&mut m, j.as_str());
        push_str(&mut m, ").");
        return Err(m);
    }
    Ok(())
}

/// Whether a field path is the synthetic document-ID column.
pub open spec fn is_doc_id_spec(field: Seq<Seq<char>>) -> bool {
    field.len() == 1 && field[0] == ID_COLUMN@
}

/// The resource-path prefix of the documents of `table`.
pub open spec fn doc_prefix(table: Seq<char>, project: Seq<char>, database: Seq<char>) -> Seq<char> {
    "projects/"@ + project + "/databases/"@ + database + "/documents/"@ + table + "/"@
}

/// A string literal becomes a reference to the document it names.
pub open spec fn promote(v: SLiteral, prefix: Seq<char>) -> SLiteral {
    match v {
        SLiteral::Str(s) => SLiteral::Reference(prefix + s),
        other => other,
    }
}

pub open spec fn promote_all(vs: Seq<SLiteral>, prefix: Seq<char>) -> Seq<SLiteral> {
    vs.map_values(|v: SLiteral| promote(v, prefix))
}

/// `e` with every comparison and IN list on the document ID moved to
/// `__name__`, its string values turned into document references.
pub open spec fn rewrite(e: SFilter, prefix: Seq<char>) -> SFilter
    decreases e,
{
    match e {
        SFilter::Compare(field, op, v) => if is_doc_id_spec(field) {
            SFilter::Compare(seq!["__name__"@], op, promote(v, prefix))
        } else {
            e
        },
        SFilter::In(field, vs, negated) => if is_doc_id_spec(field) {
            SFilter::In(seq!["__name__"@], promote_all(vs, prefix), negated)
        } else {
            e
        },
        SFilter::And(cs) => SFilter::And(rewrite_all(cs, prefix)),
        SFilter::Or(cs) => SFilter::Or(rewrite_all(cs, prefix)),
        _ => e,
    }
}

pub open spec fn rewrite_all(cs: Seq<SFilter>, prefix: Seq<char>) -> Seq<SFilter>
    decreases cs,
{
    if cs.len() == 0 {
        Seq::empty()
    } else {
        rewrite_all(cs.drop_last(), prefix).push(rewrite(cs.last(), prefix))
    }
}

/// Whether a field path is `[id]`.
pub fn is_doc_id(field: &Vec<String>) -> (r: bool)
    ensures
        r == is_doc_id_spec(strings_view(field@)),
{
    field.len() == 1 && field[0].eq(&owned(ID_COLUMN))
}

fn promote_to_reference(lit: &Literal, prefix: &str) -> (r: Literal)
    ensures
        r@ == promote(lit@, prefix@),
{
    match lit {
        Literal::Str(s) => {
            let mut path = owned(prefix);
            push_str(&mut path, s.as_str());
            Literal::Reference(path)
        },
        other => other.clone(),
    }
}

fn name_field() -> (r: Vec<String>)
    ensures
        strings_view(r@) == seq!["__name__"@],
{
    let mut v: Vec<String> = Vec::new();
    v.push(owned("__name__"));
    assert(strings_view(v@) =~= seq!["__name__"@]);
    v
}

fn rewritten(e: &FilterExpr, prefix: &str) -> (r: FilterExpr)
    ensures
        r@ == rewrite(e@, prefix@),
    decreases e,
{
    match e {
        FilterExpr::Compare { field, op, value } => if is_doc_id(field) {
            FilterExpr::Compare {
                field: name_field(),
                op: *op,
                value: promote_to_reference(value, prefix),
            }
        } else {
            FilterExpr::Compare { field: copy_strings(field), op: *op, value: value.clone() }
        },
        FilterExpr::In { field, values, negated } => if is_doc_id(field) {
            let mut out: Vec<Literal> = Vec::new();
            let mut i: usize = 0;
            while i < values.len()
                invariant
                    0 <= i <= values@.len(),
                    literals_view(out@) == promote_all(literals_view(values@), prefix@).subrange(
                        0,
                        i as int,
                    ),
                decreases values@.len() - i,
            {
                let ghost before = literals_view(out@);
                let l = promote_to_reference(&values[i], prefix);
                let ghost lv = l@;
                out.push(l);
                assert(literals_view(out@) =~= before.push(lv));
                assert(literals_view(out@) =~= promote_all(literals_view(values@), prefix@).subrange(
                    0,
                    i + 1,
                ));
                i += 1;
            }
            assert(literals_view(out@) =~= promote_all(literals_view(values@), prefix@));
            FilterExpr::In { field: name_field(), values: out, negated: *negated }
        } else {
            FilterExpr::In {
                field: copy_strings(field),
                values: copy_literals(values),
                negated: *negated,
            }
        },
        FilterExpr::ArrayContains { field, value } => FilterExpr::ArrayContains {
            field: copy_strings(field),
            value: value.clone(),
        },
        FilterExpr::ArrayContainsAny { field, values } => FilterExpr::ArrayContainsAny {
            field: copy_strings(field),
            values: copy_literals(values),
        },
        FilterExpr::And(children) => {
            let c = rewritten_all(children, prefix);
            proof {
                lemma_compound_view(c);
                lemma_compound_view(*children);
            }
            FilterExpr::And(c)
        },
        FilterExpr::Or(children) => {
            let c = rewritten_all(children, prefix);
            proof {
                lemma_compound_view(c);
                lemma_compound_view(*children);
            }
            FilterExpr::Or(c)
        },
    }
}

fn rewritten_all(children: &Vec<FilterExpr>, prefix: &str) -> (r: Vec<FilterExpr>)
    ensures
        filters_view(r@) == rewrite_all(filters_view(children@), prefix@),
    decreases children,
{
    let ghost cs = filters_view(children@);
    let mut out: Vec<FilterExpr> = Vec::new();
    let mut i: usize = 0;
    assert(filters_view(out@) =~= rewrite_all(cs.subrange(0, 0), prefix@));
    while i < children.len()
        invariant
            cs == filters_view(children@),
            0 <= i <= children@.len(),
            filters_view(out@) == rewrite_all(cs.subrange(0, i as int), prefix@),
        decreases children@.len() - i,
    {
        assert(decreases_to!(children => children@[i as int]));
        let ghost before = filters_view(out@);
        let x = rewritten(&children[i], prefix);
        out.push(x);
        proof {
            let pre = cs.subrange(0, i + 1);
            assert(pre.drop_last() =~= cs.subrange(0, i as int));
            assert(pre.last() == children@[i as int]@);
            assert(filters_view(out@) =~= before.push(x@));
        }
        i += 1;
    }
    assert(cs.subrange(0, children@.len() as int) =~= cs);
    out
}

/// Moves comparisons and IN lists on the synthetic `id` column to
/// Firestore's `__name__` field, with each string value made the full
/// resource path of the document in `table`; Firestore rejects field paths
/// that start with `__`, so the column cannot pass through as it is.
pub fn rewrite_doc_id(expr: &mut FilterExpr, table: &str, project: &str, database: &str)
    ensures
        final(expr)@ == rewrite(old(expr)@, doc_prefix(table@, project@, database@)),
{
    let mut prefix = owned("projects/");
    push_str(&mut prefix, project);
    push_str(&mut prefix, "/databases/");
    push_str(&mut prefix, database);
    push_str(&mut prefix, "/documents/");
    push_str(&mut prefix, table);
    push_str(&mut prefix, "/");
    let r = rewritten(expr, prefix.as_str());
    *expr = r;
}

/// Whether a filter compares or lists values of the document-ID column.
pub open spec fn mentions_doc_id(e: SFilter) -> bool
    decreases e,
{
    match e {
        SFilter::Compare(field, _, _) => is_doc_id_spec(field),
        SFilter::In(field, _, _) => is_doc_id_spec(field),
        SFilter::And(cs) => exists|i: int| 0 <= i < cs.len() && mentions_doc_id(#[trigger] cs[i]),
        SFilter::Or(cs) => exists|i: int| 0 <= i < cs.len() && mentions_doc_id(#[trigger] cs[i]),
        _ => false,
    }
}

proof fn lemma_name_is_not_id()
    ensures
        !is_doc_id_spec(seq!["__name__"@]),
{
    reveal_strlit("__name__");
    reveal_strlit("id");
    assert(ID_COLUMN@ == "id"@);
    assert("__name__"@.len() != "id"@.len());
}

/// A filter that never mentions the document ID is left as it is.
pub proof fn law_rewrite_leaves_other_filters(e: SFilter, prefix: Seq<char>)
    requires
        !mentions_doc_id(e),
    ensures
        rewrite(e, prefix) == e,
    decreases e,
{
    match e {
        SFilter::And(cs) => {
            lemma_rewrite_all_identity(cs, prefix);
        },
        SFilter::Or(cs) => {
            lemma_rewrite_all_identity(cs, prefix);
        },
        _ => {},
    }
}

proof fn lemma_rewrite_all_identity(cs: Seq<SFilter>, prefix: Seq<char>)
    requires
        forall|i: int| 0 <= i < cs.len() ==> !mentions_doc_id(#[trigger] cs[i]),
    ensures
        rewrite_all(cs, prefix) == cs,
    decreases cs,
{
    if cs.len() > 0 {
        let d = cs.drop_last();
        assert forall|i: int| 0 <= i < d.len() implies !mentions_doc_id(#[trigger] d[i]) by {
            assert(d[i] == cs[i]);
        }
        lemma_rewrite_all_identity(d, prefix);
        assert(!mentions_doc_id(cs[cs.len() - 1]));
        law_rewrite_leaves_other_filters(cs.last(), prefix);
        assert(rewrite_all(cs, prefix) =~= cs);
    }
}

/// Rewriting twice is rewriting once: the rewritten filter names
/// `__name__`, never the ID column.
pub proof fn law_rewrite_idempotent(e: SFilter, prefix: Seq<char>)
    ensures
        rewrite(rewrite(e, prefix), prefix) == rewrite(e, prefix),
    decreases e,
{
    lemma_name_is_not_id();
    match e {
        SFilter::And(cs) => {
            lemma_rewrite_all_idempotent(cs, prefix);
        },
        SFilter::Or(cs) => {
            lemma_rewrite_all_idempotent(cs, prefix);
        },
        _ => {},
    }
}

proof fn lemma_rewrite_all_idempotent(cs: Seq<SFilter>, prefix: Seq<char>)
    ensures
        rewrite_all(rewrite_all(cs, prefix), prefix) == rewrite_all(cs, prefix),
    decreases cs,
{
    if cs.len() > 0 {
        lemma_rewrite_all_idempotent(cs.drop_last(), prefix);
        law_rewrite_idempotent(cs.last(), prefix);
        let r = rewrite_all(cs, prefix);
        assert(r.drop_last() =~= rewrite_all(cs.drop_last(), prefix));
        assert(r.last() == rewrite(cs.last(), prefix));
        assert(rewrite_all(r, prefix) =~= r);
    }
}

/// Whether every test in a filter is an equality.
pub open spec fn only_equalities(e: SFilter) -> bool
    decreases e,
{
    match e {
        SFilter::Compare(_, op, _) => op == CmpOp::Eq,
        SFilter::And(cs) => forall|i: int| 0 <= i < cs.len() ==> only_equalities(#[trigger] cs[i]),
        SFilter::Or(cs) => forall|i: int| 0 <= i < cs.len() ==> only_equalities(#[trigger] cs[i]),
        _ => false,
    }
}

proof fn lemma_equalities_no_facts(e: SFilter)
    requires
        only_equalities(e),
    ensures
        facts(e) == no_facts(),
    decreases e,
{
    match e {
        SFilter::And(cs) => {
            lemma_equalities_no_facts_all(cs);
        },
        SFilter::Or(cs) => {
            lemma_equalities_no_facts_all(cs);
        },
        _ => {},
    }
}

proof fn lemma_equalities_no_facts_all(cs: Seq<SFilter>)
    requires
        forall|i: int| 0 <= i < cs.len() ==> only_equalities(#[trigger] cs[i]),
    ensures
        facts_all(cs) == no_facts(),
    decreases cs,
{
    if cs.len() > 0 {
        let d = cs.drop_last();
        assert forall|i: int| 0 <= i < d.len() implies only_equalities(#[trigger] d[i]) by {
            assert(d[i] == cs[i]);
        }
        lemma_equalities_no_facts_all(d);
        assert(only_equalities(cs[cs.len() - 1]));
        lemma_equalities_no_facts(cs.last());
        lemma_merge_none(no_facts());
    }
}

/// A filter built from equalities alone, combined by AND and OR in any
/// way, always passes validation.
pub proof fn law_equalities_always_pass(e: SFilter)
    requires
        only_equalities(e),
    ensures
        validate_spec(e) is Ok,
{
    lemma_equalities_no_facts(e);
    crate::order::lemma_distinct_sorted_texts(Seq::<Seq<char>>::empty());
    let r = repeated(Seq::<Seq<char>>::empty());
    assert(r =~= Seq::<Seq<char>>::empty()) by {
        reveal_with_fuel(Seq::filter, 1);
    }
    assert(Seq::<Seq<char>>::empty().to_set() =~= Set::<Seq<char>>::empty());
    let l = distinct_sorted_texts(Seq::<Seq<char>>::empty());
    assert(l.len() == 0) by {
        if l.len() > 0 {
            assert(l.to_set().contains(l[0]));
        }
    }
}

/// The connective does not matter to validation: the restrictions hold
/// across OR branches as across AND terms.
pub proof fn law_validation_ignores_connective(cs: Seq<SFilter>)
    ensures
        validate_spec(SFilter::And(cs)) == validate_spec(SFilter::Or(cs)),
{
}

/// Whether `e` holds, at any depth, a comparison other than an equality
/// (`!=`, `<`, `<=`, `>`, `>=`) on the field with dotted name `name`.
pub open spec fn compares_unequal_on(e: SFilter, name: Seq<char>) -> bool
    decreases e,
{
    match e {
        SFilter::Compare(field, op, _) => op != CmpOp::Eq && join(field, "."@) == name,
        SFilter::And(cs) => exists|i: int| 0 <= i < cs.len() && compares_unequal_on(#[trigger] cs[i], name),
        SFilter::Or(cs) => exists|i: int| 0 <= i < cs.len() && compares_unequal_on(#[trigger] cs[i], name),
        _ => false,
    }
}

proof fn lemma_unequal_recorded(e: SFilter, name: Seq<char>)
    requires
        compares_unequal_on(e, name),
    ensures
        facts(e).inequality_fields.contains(name),
    decreases e,
{
    match e {
        SFilter::Compare(field, op, _) => {
            assert(facts(e).inequality_fields[0] == name);
        },
        SFilter::And(cs) => {
            lemma_unequal_recorded_all(cs, name);
        },
        SFilter::Or(cs) => {
            lemma_unequal_recorded_all(cs, name);
        },
        _ => {},
    }
}

proof fn lemma_unequal_recorded_all(cs: Seq<SFilter>, name: Seq<char>)
    requires
        exists|i: int| 0 <= i < cs.len() && compares_unequal_on(#[trigger] cs[i], name),
    ensures
        facts_all(cs).inequality_fields.contains(name),
    decreases cs,
{
    let i = choose|i: int| 0 <= i < cs.len() && compares_unequal_on(#[trigger] cs[i], name);
    let d = cs.drop_last();
    let a = facts_all(d).inequality_fields;
    let b = facts(cs.last()).inequality_fields;
    assert(facts_all(cs).inequality_fields == a + b);
    if i < cs.len() - 1 {
        assert(d[i] == cs[i]);
        lemma_unequal_recorded_all(d, name);
        let k = choose|k: int| 0 <= k < a.len() && a[k] == name;
        assert((a + b)[k] == name);
    } else {
        lemma_unequal_recorded(cs.last(), name);
        let k = choose|k: int| 0 <= k < b.len() && b[k] == name;
        assert((a + b)[a.len() + k] == name);
    }
}

/// A filter with comparisons other than equalities (including `!=`) on two
/// different fields is refused, with the one-inequality-field error.
pub proof fn law_two_inequality_fields_refused(e: SFilter, x: Seq<char>, y: Seq<char>)
    requires
        compares_unequal_on(e, x),
        compares_unequal_on(e, y),
        x != y,
    ensures
        validate_spec(e) matches Err(m) && m.take(58) == "Firestore allows inequality on at most one field per query"@,
{
    lemma_unequal_recorded(e, x);
    lemma_unequal_recorded(e, y);
    let f = facts(e).inequality_fields;
    let ineq = distinct_sorted_texts(f);
    lemma_distinct_sorted_texts(f);
    assert(f.to_set().contains(x) && f.to_set().contains(y));
    assert(ineq.to_set().contains(x) && ineq.to_set().contains(y));
    let i = choose|i: int| 0 <= i < ineq.len() && ineq[i] == x;
    let j = choose|j: int| 0 <= j < ineq.len() && ineq[j] == y;
    assert(i != j);
    assert(ineq.len() > 1);
    reveal_strlit("Firestore allows inequality on at most one field per query (saw ");
    reveal_strlit("Firestore allows inequality on at most one field per query");
    let m = "Firestore allows inequality on at most one field per query (saw "@ + join(ineq, ", "@)
        + "). Adjust the filter or split into multiple queries."@;
    assert(m.take(58) =~= "Firestore allows inequality on at most one field per query"@);
}

proof fn lemma_rewrite_all_terms(cs: Seq<SFilter>, prefix: Seq<char>)
    ensures
        rewrite_all(cs, prefix).len() == cs.len(),
        forall|i: int| 0 <= i < cs.len() ==> #[trigger] rewrite_all(cs, prefix)[i] == rewrite(cs[i], prefix),
    decreases cs,
{
    if cs.len() > 0 {
        lemma_rewrite_all_terms(cs.drop_last(), prefix);
        assert forall|i: int| 0 <= i < cs.len() implies #[trigger] rewrite_all(cs, prefix)[i] == rewrite(
            cs[i],
            prefix,
        ) by {
            if i < cs.len() - 1 {
                assert(cs.drop_last()[i] == cs[i]);
            }
        }
    }
}

/// After the rewrite no comparison or IN test, at any depth, is on the
/// document-ID column.
pub proof fn law_rewrite_removes_doc_id(e: SFilter, prefix: Seq<char>)
    ensures
        !mentions_doc_id(rewrite(e, prefix)),
    decreases e,
{
    lemma_name_is_not_id();
    match e {
        SFilter::And(cs) => {
            lemma_rewrite_all_terms(cs, prefix);
            let r = rewrite_all(cs, prefix);
            assert forall|i: int| 0 <= i < r.len() implies !mentions_doc_id(#[trigger] r[i]) by {
                law_rewrite_removes_doc_id(cs[i], prefix);
            }
        },
        SFilter::Or(cs) => {
            lemma_rewrite_all_terms(cs, prefix);
            let r = rewrite_all(cs, prefix);
            assert forall|i: int| 0 <= i < r.len() implies !mentions_doc_id(#[trigger] r[i]) by {
                law_rewrite_removes_doc_id(cs[i], prefix);
            }
        },
        _ => {},
    }
}

/// The value a document-ID test compares with after the rewrite: a string
/// names the document `prefix + s`; other values stay.
pub open spec fn id_value(v: SLiteral, prefix: Seq<char>) -> SLiteral {
    match v {
        SLiteral::Str(s) => SLiteral::Reference(prefix + s),
        _ => v,
    }
}

/// A comparison on `[id]`, with any operator, becomes the same comparison
/// on `__name__` with its string made a document reference; an IN / NOT
/// IN list on `[id]` likewise, value by value; AND and OR are rewritten
/// term by term.
pub proof fn law_rewrite_doc_id_tests(
    op: CmpOp,
    v: SLiteral,
    vs: Seq<SLiteral>,
    negated: bool,
    cs: Seq<SFilter>,
    prefix: Seq<char>,
)
    ensures
        rewrite(SFilter::Compare(seq![ID_COLUMN@], op, v), prefix) == SFilter::Compare(
            seq!["__name__"@],
            op,
            id_value(v, prefix),
        ),
        rewrite(SFilter::In(seq![ID_COLUMN@], vs, negated), prefix) matches SFilter::In(f, ws, n) && f
            == seq!["__name__"@] && n == negated && ws.len() == vs.len() && forall|i: int|
            0 <= i < vs.len() ==> #[trigger] ws[i] == id_value(vs[i], prefix),
        rewrite(SFilter::And(cs), prefix) matches SFilter::And(ds) && ds.len() == cs.len() && forall|
            i: int,
        | 0 <= i < cs.len() ==> #[trigger] ds[i] == rewrite(cs[i], prefix),
        rewrite(SFilter::Or(cs), prefix) matches SFilter::Or(ds) && ds.len() == cs.len() && forall|
            i: int,
        | 0 <= i < cs.len() ==> #[trigger] ds[i] == rewrite(cs[i], prefix),
{
    lemma_rewrite_all_terms(cs, prefix);
    let id = seq![ID_COLUMN@];
    assert(is_doc_id_spec(id));
    assert(promote(v, prefix) == id_value(v, prefix));
    let ws = promote_all(vs, prefix);
    assert forall|i: int| 0 <= i < vs.len() implies #[trigger] ws[i] == id_value(vs[i], prefix) by {}
}

/// Whether some test of `e` that is not an AND or an OR, at any depth,
/// satisfies `p`.
pub open spec fn has_test(e: SFilter, p: spec_fn(SFilter) -> bool) -> bool
    decreases e,
{
    match e {
        SFilter::And(cs) => exists|i: int| 0 <= i < cs.len() && has_test(#[trigger] cs[i], p),
        SFilter::Or(cs) => exists|i: int| 0 <= i < cs.len() && has_test(#[trigger] cs[i], p),
        _ => p(e),
    }
}

/// An IN / NOT IN list of more than `n` values.
pub open spec fn long_in(n: nat) -> spec_fn(SFilter) -> bool {
    |t: SFilter| t matches SFilter::In(_, vs, _) && vs.len() > n
}

/// An ARRAY_CONTAINS_ANY list of more than `n` values.
pub open spec fn long_any(n: nat) -> spec_fn(SFilter) -> bool {
    |t: SFilter| t matches SFilter::ArrayContainsAny(_, vs) && vs.len() > n
}

pub open spec fn is_array_contains() -> spec_fn(SFilter) -> bool {
    |t: SFilter| t is ArrayContains
}

pub open spec fn is_array_contains_any() -> spec_fn(SFilter) -> bool {
    |t: SFilter| t is ArrayContainsAny
}

proof fn lemma_test_recorded(e: SFilter, n: nat)
    ensures
        has_test(e, long_in(n)) ==> facts(e).in_max > n,
        has_test(e, long_any(n)) ==> facts(e).any_max > n,
        has_test(e, is_array_contains()) ==> facts(e).has_array_contains,
        has_test(e, is_array_contains_any()) ==> facts(e).has_array_contains_any,
    decreases e,
{
    match e {
        SFilter::And(cs) => {
            lemma_test_recorded_all(cs, n);
        },
        SFilter::Or(cs) => {
            lemma_test_recorded_all(cs, n);
        },
        _ => {},
    }
}

proof fn lemma_test_recorded_all(cs: Seq<SFilter>, n: nat)
    ensures
        (exists|i: int| 0 <= i < cs.len() && has_test(#[trigger] cs[i], long_in(n)))
            ==> facts_all(cs).in_max > n,
        (exists|i: int| 0 <= i < cs.len() && has_test(#[trigger] cs[i], long_any(n)))
            ==> facts_all(cs).any_max > n,
        (exists|i: int| 0 <= i < cs.len() && has_test(#[trigger] cs[i], is_array_contains()))
            ==> facts_all(cs).has_array_contains,
        (exists|i: int| 0 <= i < cs.len() && has_test(#[trigger] cs[i], is_array_contains_any()))
            ==> facts_all(cs).has_array_contains_any,
    decreases cs,
{
    if cs.len() > 0 {
        let d = cs.drop_last();
        lemma_test_recorded_all(d, n);
        lemma_test_recorded(cs.last(), n);
        assert forall|i: int| 0 <= i < cs.len() - 1 implies cs[i] == d[i] by {}
        assert(cs.last() == cs[cs.len() - 1]);
    }
}

/// Firestore's limits on one query are enforced: a filter is refused when
/// it holds, anywhere, an IN / NOT IN list of more than 30 values, an
/// ARRAY_CONTAINS_ANY list of more than 30 values, or both an
/// ARRAY_CONTAINS and an ARRAY_CONTAINS_ANY.
pub proof fn law_query_limits_refused(e: SFilter)
    ensures
        has_test(e, long_in(30)) ==> validate_spec(e) is Err,
        has_test(e, long_any(30)) ==> validate_spec(e) is Err,
        has_test(e, is_array_contains()) && has_test(e, is_array_contains_any()) ==> validate_spec(
            e,
        ) is Err,
{
    lemma_test_recorded(e, 30);
}

} // verus!
