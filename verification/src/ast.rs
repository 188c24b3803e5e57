//! The query AST produced by the parser, and its mathematical view.
use vstd::prelude::*;

verus! {

#[derive(Debug, Clone, Copy, PartialEq, Eq, Structural)]
pub enum CmpOp {
    Eq,
    Ne,
    Lt,
    Le,
    Gt,
    Ge,
}

/// A point in time as Firestore stores it: seconds since the Unix epoch
/// and the sub-second nanoseconds.
#[derive(Debug, Clone, Copy, PartialEq, Eq, Structural)]
pub struct Timestamp {
    pub seconds: i64,
    pub nanos: u32,
}

#[derive(Debug, PartialEq)]
pub enum Literal {
    Str(String),
    Int(i64),
    /// A fractional number, kept as written in the query (digits, `.`,
    /// digits); callers read it with `str::parse::<f64>`.
    Float(String),
    Bool(bool),
    Null,
    Timestamp(Timestamp),
    /// Full Firestore document resource path
    /// (`projects/<p>/databases/<d>/documents/<col>/<doc>`), produced by the
    /// doc-ID rewrite; not reachable via SQL syntax directly.
    Reference(String),
}

#[derive(Debug, Clone, PartialEq, Eq)]
pub struct OrderItem {
    pub field: String,
    pub desc: bool,
}

#[derive(Debug, PartialEq)]
pub enum FilterExpr {
    Compare { field: Vec<String>, op: CmpOp, value: Literal },
    In { field: Vec<String>, values: Vec<Literal>, negated: bool },
    ArrayContains { field: Vec<String>, value: Literal },
    ArrayContainsAny { field: Vec<String>, values: Vec<Literal> },
    And(Vec<FilterExpr>),
    Or(Vec<FilterExpr>),
}

#[derive(Debug, PartialEq)]
pub struct ParsedQuery {
    pub table: String,
    /// `None` = `SELECT *`; `Some(cols)` = explicit column list, projected
    /// client-side after Firestore returns the full document.
    pub columns: Option<Vec<String>>,
    pub where_clause: Option<FilterExpr>,
    pub order_by: Vec<OrderItem>,
    pub limit: Option<u64>,
    pub offset: Option<u64>,
}

/// Mathematical view of a literal.
pub enum SLiteral {
    Str(Seq<char>),
    Int(i64),
    Float(Seq<char>),
    Bool(bool),
    Null,
    Timestamp(i64, u32),
    Reference(Seq<char>),
}

/// Mathematical view of a filter expression.
pub enum SFilter {
    Compare(Seq<Seq<char>>, CmpOp, SLiteral),
    In(Seq<Seq<char>>, Seq<SLiteral>, bool),
    ArrayContains(Seq<Seq<char>>, SLiteral),
    ArrayContainsAny(Seq<Seq<char>>, Seq<SLiteral>),
    And(Seq<SFilter>),
    Or(Seq<SFilter>),
}

/// Mathematical view of an `ORDER BY` item: field and descending flag.
pub type SOrder = (Seq<char>, bool);

/// Mathematical view of a parsed query.
pub struct SQuery {
    pub table: Seq<char>,
    pub columns: Option<Seq<Seq<char>>>,
    pub where_clause: Option<SFilter>,
    pub order_by: Seq<SOrder>,
    pub limit: Option<u64>,
    pub offset: Option<u64>,
}

pub open spec fn strings_view(v: Seq<String>) -> Seq<Seq<char>> {
    v.map_values(|s: String| s@)
}

impl View for Literal {
    type V = SLiteral;

    open spec fn view(&self) -> SLiteral {
        match self {
            Literal::Str(s) => SLiteral::Str(s@),
            Literal::Int(n) => SLiteral::Int(*n),
            Literal::Float(s) => SLiteral::Float(s@),
            Literal::Bool(b) => SLiteral::Bool(*b),
            Literal::Null => SLiteral::Null,
            Literal::Timestamp(t) => SLiteral::Timestamp(t.seconds, t.nanos),
            Literal::Reference(s) => SLiteral::Reference(s@),
        }
    }
}

pub open spec fn literals_view(v: Seq<Literal>) -> Seq<SLiteral> {
    v.map_values(|l: Literal| l@)
}

pub open spec fn filter_view(e: FilterExpr) -> SFilter
    decreases e,
{
    match e {
        FilterExpr::Compare { field, op, value } => SFilter::Compare(
            strings_view(field@),
            op,
            value@,
        ),
        FilterExpr::In { field, values, negated } => SFilter::In(
            strings_view(field@),
            literals_view(values@),
            negated,
        ),
        FilterExpr::ArrayContains { field, value } => SFilter::ArrayContains(
            strings_view(field@),
            value@,
        ),
        FilterExpr::ArrayContainsAny { field, values } => SFilter::ArrayContainsAny(
            strings_view(field@),
            literals_view(values@),
        ),
        FilterExpr::And(children) => SFilter::And(
            Seq::new(
                children@.len(),
                |i: int|
                    if 0 <= i < children@.len() {
                        filter_view(children@[i])
                    } else {
                        SFilter::And(Seq::empty())
                    },
            ),
        ),
        FilterExpr::Or(children) => SFilter::Or(
            Seq::new(
                children@.len(),
                |i: int|
                    if 0 <= i < children@.len() {
                        filter_view(children@[i])
                    } else {
                        SFilter::And(Seq::empty())
                    },
            ),
        ),
    }
}

impl View for FilterExpr {
    type V = SFilter;

    open spec fn view(&self) -> SFilter {
        filter_view(*self)
    }
}

pub open spec fn filters_view(v: Seq<FilterExpr>) -> Seq<SFilter> {
    Seq::new(
        v.len(),
        |i: int|
            if 0 <= i < v.len() {
                filter_view(v[i])
            } else {
                SFilter::And(Seq::empty())
            },
    )
}

/// The view of a conjunction or disjunction is built from its children's views.
pub proof fn lemma_compound_view(children: Vec<FilterExpr>)
    ensures
        FilterExpr::And(children)@ == SFilter::And(filters_view(children@)),
        FilterExpr::Or(children)@ == SFilter::Or(filters_view(children@)),
{
    let a = FilterExpr::And(children);
    let o = FilterExpr::Or(children);
    match filter_view(a) {
        SFilter::And(s) => {
            assert(s =~= filters_view(children@));
        },
        _ => {},
    }
    match filter_view(o) {
        SFilter::Or(s) => {
            assert(s =~= filters_view(children@));
        },
        _ => {},
    }
}

impl View for OrderItem {
    type V = SOrder;

    open spec fn view(&self) -> SOrder {
        (self.field@, self.desc)
    }
}

pub open spec fn orders_view(v: Seq<OrderItem>) -> Seq<SOrder> {
    v.map_values(|o: OrderItem| o@)
}

impl View for ParsedQuery {
    type V = SQuery;

    open spec fn view(&self) -> SQuery {
        SQuery {
            table: self.table@,
            columns: match &self.columns {
                Some(c) => Some(strings_view(c@)),
                None => None,
            },
            where_clause: match &self.where_clause {
                Some(w) => Some(w@),
                None => None,
            },
            order_by: orders_view(self.order_by@),
            limit: self.limit,
            offset: self.offset,
        }
    }
}

/// A copy of `s` with the same text.
pub fn copy_string(s: &String) -> (r: String)
    ensures
        r@ == s@,
{
    s.clone()
}

/// A copy of a list of strings with the same texts.
pub fn copy_strings(v: &Vec<String>) -> (r: Vec<String>)
    ensures
        strings_view(r@) == strings_view(v@),
{
    let mut out: Vec<String> = Vec::new();
    let mut i: usize = 0;
    while i < v.len()
        invariant
            0 <= i <= v@.len(),
            out@.len() == i,
            forall|k: int| 0 <= k < i ==> #[trigger] out@[k]@ == v@[k]@,
        decreases v@.len() - i,
    {
        out.push(copy_string(&v[i]));
        i += 1;
    }
    assert(strings_view(out@) =~= strings_view(v@));
    out
}

impl Clone for Literal {
    fn clone(&self) -> (r: Literal)
        ensures
            r@ == self@,
    {
        match self {
            Literal::Str(s) => Literal::Str(copy_string(s)),
            Literal::Int(n) => Literal::Int(*n),
            Literal::Float(s) => Literal::Float(copy_string(s)),
            Literal::Bool(b) => Literal::Bool(*b),
            Literal::Null => Literal::Null,
            Literal::Timestamp(t) => Literal::Timestamp(*t),
            Literal::Reference(s) => Literal::Reference(copy_string(s)),
        }
    }
}

/// A copy of a list of literals with the same views.
pub fn copy_literals(v: &Vec<Literal>) -> (r: Vec<Literal>)
    ensures
        literals_view(r@) == literals_view(v@),
{
    let mut out: Vec<Literal> = Vec::new();
    let mut i: usize = 0;
    while i < v.len()
        invariant
            0 <= i <= v@.len(),
            out@.len() == i,
            forall|k: int| 0 <= k < i ==> #[trigger] out@[k]@ == v@[k]@,
        decreases v@.len() - i,
    {
        out.push(v[i].clone());
        i += 1;
    }
    assert(literals_view(out@) =~= literals_view(v@));
    out
}

/// A copy of a filter expression with the same view.
pub fn copy_filter(e: &FilterExpr) -> (r: FilterExpr)
    ensures
        r@ == e@,
    decreases e,
{
    match e {
        FilterExpr::Compare { field, op, value } => FilterExpr::Compare {
            field: copy_strings(field),
            op: *op,
            value: value.clone(),
        },
        FilterExpr::In { field, values, negated } => FilterExpr::In {
            field: copy_strings(field),
            values: copy_literals(values),
            negated: *negated,
        },
        FilterExpr::ArrayContains { field, value } => FilterExpr::ArrayContains {
            field: copy_strings(field),
            value: value.clone(),
        },
        FilterExpr::ArrayContainsAny { field, values } => FilterExpr::ArrayContainsAny {
            field: copy_strings(field),
            values: copy_literals(values),
        },
        FilterExpr::And(children) => {
            let c = copy_filters(children);
            let r = FilterExpr::And(c);
            proof {
                lemma_compound_view(c);
                lemma_compound_view(*children);
            }
            r
        },
        FilterExpr::Or(children) => {
            let c = copy_filters(children);
            let r = FilterExpr::Or(c);
            proof {
                lemma_compound_view(c);
                lemma_compound_view(*children);
            }
            r
        },
    }
}

/// A copy of a list of filter expressions with the same views.
pub fn copy_filters(v: &Vec<FilterExpr>) -> (r: Vec<FilterExpr>)
    ensures
        filters_view(r@) == filters_view(v@),
    decreases v,
{
    let mut out: Vec<FilterExpr> = Vec::new();
    let mut i: usize = 0;
    while i < v.len()
        invariant
            0 <= i <= v@.len(),
            out@.len() == i,
            forall|k: int| 0 <= k < i ==> #[trigger] out@[k]@ == v@[k]@,
        decreases v@.len() - i,
    {
        assert(decreases_to!(v => v@[i as int]));
        out.push(copy_filter(&v[i]));
        i += 1;
    }
    assert forall|k: int| 0 <= k < out@.len() implies filters_view(out@)[k] == filters_view(
        v@,
    )[k] by {
        assert(out@[k]@ == v@[k]@);
    }
    assert(filters_view(out@) =~= filters_view(v@));
    out
}

impl Clone for FilterExpr {
    fn clone(&self) -> (r: FilterExpr)
        ensures
            r@ == self@,
    {
        copy_filter(self)
    }
}

} // verus!
