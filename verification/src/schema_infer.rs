//! Sample-based column inference: the columns of a collection are the
//! synthetic ID column followed by every field seen in the sample, in
//! ascending order, each typed by the Firestore types observed for it.
use vstd::prelude::*;
use crate::ast::{copy_string, strings_view};
use crate::order::{
    distinct_sorted_texts, lemma_distinct_sorted_texts, sorted_distinct_strings, text_le, text_order,
};
use crate::text::{owned, push_str, same_text};

verus! {

#[derive(Debug, Clone, Copy, PartialEq, Eq, Structural, PartialOrd, Ord)]
pub enum FieldType {
    String,
    Integer,
    Double,
    Boolean,
    Timestamp,
    Bytes,
    GeoPoint,
    Reference,
    Array,
    NestedMap,
    Null,
}

/// The fields of one document with the Firestore type of each; no field
/// name occurs twice.
pub type DocumentTypes = Vec<(String, FieldType)>;

#[derive(Debug, Clone, PartialEq, Eq)]
pub struct ColumnInfo {
    pub name: String,
    pub data_type: String,
    pub is_nullable: bool,
    /// The collection this column points into, for reference fields.
    pub references: Option<String>,
    /// Free-form description surfaced in tooltips.
    pub comment: Option<String>,
}

/// Mathematical view of a column: name, type, nullability, referenced
/// collection and comment.
pub struct SColumn {
    pub name: Seq<char>,
    pub data_type: Seq<char>,
    pub is_nullable: bool,
    pub references: Option<Seq<char>>,
    pub comment: Option<Seq<char>>,
}

pub open spec fn opt_view(o: Option<String>) -> Option<Seq<char>> {
    match o {
        Some(s) => Some(s@),
        None => None,
    }
}

impl View for ColumnInfo {
    type V = SColumn;

    open spec fn view(&self) -> SColumn {
        SColumn {
            name: self.name@,
            data_type: self.data_type@,
            is_nullable: self.is_nullable,
            references: opt_view(self.references),
            comment: opt_view(self.comment),
        }
    }
}

pub open spec fn columns_view(v: Seq<ColumnInfo>) -> Seq<SColumn> {
    v.map_values(|c: ColumnInfo| c@)
}

/// The name of the synthetic document-ID column that `infer` puts first.
pub open spec fn id_column_name() -> Seq<char> {
    "__id__"@
}

pub open spec fn doc_view(d: Seq<(String, FieldType)>) -> Seq<(Seq<char>, FieldType)> {
    d.map_values(|p: (String, FieldType)| (p.0@, p.1))
}

pub open spec fn sample_view(s: Seq<DocumentTypes>) -> Seq<Seq<(Seq<char>, FieldType)>> {
    s.map_values(|d: DocumentTypes| doc_view(d@))
}

/// Every field name of every document, in order.
pub open spec fn all_names(s: Seq<Seq<(Seq<char>, FieldType)>>) -> Seq<Seq<char>>
    decreases s.len(),
{
    if s.len() == 0 {
        Seq::empty()
    } else {
        all_names(s.drop_last()) + s.last().map_values(|p: (Seq<char>, FieldType)| p.0)
    }
}

/// Whether a document has the field `name` with type `t`.
pub open spec fn has_pair(d: Seq<(Seq<char>, FieldType)>, name: Seq<char>, t: FieldType) -> bool {
    exists|j: int| 0 <= j < d.len() && d[j] == (name, t)
}

pub open spec fn has_field(d: Seq<(Seq<char>, FieldType)>, name: Seq<char>) -> bool {
    exists|j: int| 0 <= j < d.len() && d[j].0 == name
}

/// The types observed for `name` across the sample.
pub open spec fn types_of(s: Seq<Seq<(Seq<char>, FieldType)>>, name: Seq<char>) -> Set<FieldType> {
    Set::new(|t: FieldType| exists|i: int| 0 <= i < s.len() && has_pair(s[i], name, t))
}

/// How many documents of the sample have the field `name`.
pub open spec fn seen_count(s: Seq<Seq<(Seq<char>, FieldType)>>, name: Seq<char>) -> nat {
    s.filter(|d: Seq<(Seq<char>, FieldType)>| has_field(d, name)).len()
}

/// Whether every non-null type in `ts` lies in `allowed`.
pub open spec fn non_null_within(ts: Set<FieldType>, allowed: Set<FieldType>) -> bool {
    forall|t: FieldType| ts.contains(t) && t != FieldType::Null ==> allowed.contains(t)
}

pub open spec fn has_non_null(ts: Set<FieldType>) -> bool {
    exists|t: FieldType| ts.contains(t) && t != FieldType::Null
}

/// The column type for a set of observed types: `null` when only nulls
/// were seen, the one type's name when a single non-null type was seen
/// (integers and doubles together count as `number`), `mixed` otherwise.
pub open spec fn classify_types(ts: Set<FieldType>) -> Seq<char> {
    if !has_non_null(ts) {
        "null"@
    } else if non_null_within(ts, set![FieldType::String]) {
        "string"@
    } else if non_null_within(ts, set![FieldType::Integer, FieldType::Double]) {
        "number"@
    } else if non_null_within(ts, set![FieldType::Boolean]) {
        "boolean"@
    } else if non_null_within(ts, set![FieldType::Timestamp]) {
        "timestamp"@
    } else if non_null_within(ts, set![FieldType::Bytes]) {
        "binary"@
    } else if non_null_within(ts, set![FieldType::GeoPoint]) {
        "geopoint"@
    } else if non_null_within(ts, set![FieldType::Reference]) {
        "reference"@
    } else if non_null_within(ts, set![FieldType::Array]) {
        "array"@
    } else if non_null_within(ts, set![FieldType::NestedMap]) {
        "map"@
    } else {
        "mixed"@
    }
}

/// The column inferred for the field `name`: nullable when a null was
/// seen or some document lacks the field.
pub open spec fn column_for(s: Seq<Seq<(Seq<char>, FieldType)>>, name: Seq<char>) -> SColumn {
    SColumn {
        name,
        data_type: classify_types(types_of(s, name)),
        is_nullable: types_of(s, name).contains(FieldType::Null) || seen_count(s, name) < s.len(),
        references: None,
        comment: None,
    }
}

/// The ID column every inferred schema starts with.
pub open spec fn id_column() -> SColumn {
    SColumn {
        name: id_column_name(),
        data_type: "string"@,
        is_nullable: false,
        references: None,
        comment: None,
    }
}

/// The columns inferred from a sample.
pub open spec fn infer_spec(s: Seq<Seq<(Seq<char>, FieldType)>>) -> Seq<SColumn> {
    seq![id_column()] + distinct_sorted_texts(all_names(s)).map_values(
        |n: Seq<char>| column_for(s, n),
    )
}

/// Whether `t` occurs in `v`.
fn has_type(v: &Vec<FieldType>, t: FieldType) -> (r: bool)
    ensures
        r == v@.contains(t),
{
    let mut i: usize = 0;
    while i < v.len()
        invariant
            0 <= i <= v@.len(),
            forall|k: int| 0 <= k < i ==> v@[k] != t,
        decreases v@.len() - i,
    {
        if v[i] == t {
            return true;
        }
        i += 1;
    }
    false
}

/// The column type for the observed types, and whether a null was among
/// them.
pub fn classify_set(types: &Vec<FieldType>) -> (r: (String, bool))
    ensures
        r.0@ == classify_types(types@.to_set()),
        r.1 == types@.contains(FieldType::Null),
{
    let ghost ts = types@.to_set();
    let s = has_type(types, FieldType::String);
    let i = has_type(types, FieldType::Integer);
    let d = has_type(types, FieldType::Double);
    let b = has_type(types, FieldType::Boolean);
    let tm = has_type(types, FieldType::Timestamp);
    let by = has_type(types, FieldType::Bytes);
    let g = has_type(types, FieldType::GeoPoint);
    let rf = has_type(types, FieldType::Reference);
    let a = has_type(types, FieldType::Array);
    let m = has_type(types, FieldType::NestedMap);
    let n = has_type(types, FieldType::Null);
    proof {
        assert forall|t: FieldType| ts.contains(t) <==> types@.contains(t) by {}
    }
    let name = if !(s || i || d || b || tm || by || g || rf || a || m) {
        proof {
            assert(!has_non_null(ts)) by {
                assert forall|t: FieldType| !(ts.contains(t) && t != FieldType::Null) by {
                    match t {
                        FieldType::Null => {},
                        _ => {},
                    }
                }
            }
        }
        "null"
    } else {
        proof {
            assert(has_non_null(ts)) by {
                if s {
                    assert(ts.contains(FieldType::String));
                } else if i {
                    assert(ts.contains(FieldType::Integer));
                } else if d {
                    assert(ts.contains(FieldType::Double));
                } else if b {
                    assert(ts.contains(FieldType::Boolean));
                } else if tm {
                    assert(ts.contains(FieldType::Timestamp));
                } else if by {
                    assert(ts.contains(FieldType::Bytes));
                } else if g {
                    assert(ts.contains(FieldType::GeoPoint));
                } else if rf {
                    assert(ts.contains(FieldType::Reference));
                } else if a {
                    assert(ts.contains(FieldType::Array));
                } else {
                    assert(ts.contains(FieldType::NestedMap));
                }
            }
        }
        classify_present(s, i, d, b, tm, by, g, rf, a, m, Ghost(ts))
    };
    (owned(name), n)
}

/// The type name once the non-null types present are known.
fn classify_present(
    s: bool,
    i: bool,
    d: bool,
    b: bool,
    tm: bool,
    by: bool,
    g: bool,
    rf: bool,
    a: bool,
    m: bool,
    Ghost(ts): Ghost<Set<FieldType>>,
) -> (r: &'static str)
    requires
        has_non_null(ts),
        s == ts.contains(FieldType::String),
        i == ts.contains(FieldType::Integer),
        d == ts.contains(FieldType::Double),
        b == ts.contains(FieldType::Boolean),
        tm == ts.contains(FieldType::Timestamp),
        by == ts.contains(FieldType::Bytes),
        g == ts.contains(FieldType::GeoPoint),
        rf == ts.contains(FieldType::Reference),
        a == ts.contains(FieldType::Array),
        m == ts.contains(FieldType::NestedMap),
    ensures
        r@ == classify_types(ts),
{
    let others_than_string = i || d || b || tm || by || g || rf || a || m;
    let others_than_number = s || b || tm || by || g || rf || a || m;
    proof {
        reveal_strlit("string");
        reveal_strlit("number");
        reveal_strlit("boolean");
        reveal_strlit("timestamp");
        reveal_strlit("binary");
        reveal_strlit("geopoint");
        reveal_strlit("reference");
        reveal_strlit("array");
        reveal_strlit("map");
        reveal_strlit("mixed");
    }
    if s && !others_than_string {
        assert(non_null_within(ts, set![FieldType::String]));
        "string"
    } else if (i || d) && !others_than_number {
        assert(!non_null_within(ts, set![FieldType::String]));
        assert(non_null_within(ts, set![FieldType::Integer, FieldType::Double]));
        "number"
    } else {
        assert(!non_null_within(ts, set![FieldType::String]));
        assert(!non_null_within(ts, set![FieldType::Integer, FieldType::Double]));
        if b && !(s || i || d || tm || by || g || rf || a || m) {
            assert(non_null_within(ts, set![FieldType::Boolean]));
            "boolean"
        } else if tm && !(s || i || d || b || by || g || rf || a || m) {
            assert(!non_null_within(ts, set![FieldType::Boolean]));
            assert(non_null_within(ts, set![FieldType::Timestamp]));
            "timestamp"
        } else if by && !(s || i || d || b || tm || g || rf || a || m) {
            assert(!non_null_within(ts, set![FieldType::Boolean]));
            assert(!non_null_within(ts, set![FieldType::Timestamp]));
            assert(non_null_within(ts, set![FieldType::Bytes]));
            "binary"
        } else if g && !(s || i || d || b || tm || by || rf || a || m) {
            assert(!non_null_within(ts, set![FieldType::Boolean]));
            assert(!non_null_within(ts, set![FieldType::Timestamp]));
            assert(!non_null_within(ts, set![FieldType::Bytes]));
            assert(non_null_within(ts, set![FieldType::GeoPoint]));
            "geopoint"
        } else if rf && !(s || i || d || b || tm || by || g || a || m) {
            assert(!non_null_within(ts, set![FieldType::Boolean]));
            assert(!non_null_within(ts, set![FieldType::Timestamp]));
            assert(!non_null_within(ts, set![FieldType::Bytes]));
            assert(!non_null_within(ts, set![FieldType::GeoPoint]));
            assert(non_null_within(ts, set![FieldType::Reference]));
            "reference"
        } else if a && !(s || i || d || b || tm || by || g || rf || m) {
            assert(!non_null_within(ts, set![FieldType::Boolean]));
            assert(!non_null_within(ts, set![FieldType::Timestamp]));
            assert(!non_null_within(ts, set![FieldType::Bytes]));
            assert(!non_null_within(ts, set![FieldType::GeoPoint]));
            assert(!non_null_within(ts, set![FieldType::Reference]));
            assert(non_null_within(ts, set![FieldType::Array]));
            "array"
        } else if m && !(s || i || d || b || tm || by || g || rf || a) {
            assert(!non_null_within(ts, set![FieldType::Boolean]));
            assert(!non_null_within(ts, set![FieldType::Timestamp]));
            assert(!non_null_within(ts, set![FieldType::Bytes]));
            assert(!non_null_within(ts, set![FieldType::GeoPoint]));
            assert(!non_null_within(ts, set![FieldType::Reference]));
            assert(!non_null_within(ts, set![FieldType::Array]));
            assert(non_null_within(ts, set![FieldType::NestedMap]));
            "map"
        } else {
            assert(!non_null_within(ts, set![FieldType::Boolean]));
            assert(!non_null_within(ts, set![FieldType::Timestamp]));
            assert(!non_null_within(ts, set![FieldType::Bytes]));
            assert(!non_null_within(ts, set![FieldType::GeoPoint]));
            assert(!non_null_within(ts, set![FieldType::Reference]));
            assert(!non_null_within(ts, set![FieldType::Array]));
            assert(!non_null_within(ts, set![FieldType::NestedMap]));
            "mixed"
        }
    }
}

/// Every field name of every document, in order.
fn collect_names(sample: &[DocumentTypes]) -> (r: Vec<String>)
    ensures
        strings_view(r@) == all_names(sample_view(sample@)),
{
    let ghost sv = sample_view(sample@);
    let mut out: Vec<String> = Vec::new();
    let mut i: usize = 0;
    assert(sv.subrange(0, 0) =~= Seq::<Seq<(Seq<char>, FieldType)>>::empty());
    while i < sample.len()
        invariant
            sv == sample_view(sample@),
            0 <= i <= sample@.len(),
            strings_view(out@) == all_names(sv.subrange(0, i as int)),
        decreases sample@.len() - i,
    {
        let doc = &sample[i];
        let ghost d = doc_view(doc@);
        let ghost base = strings_view(out@);
        let mut j: usize = 0;
        while j < doc.len()
            invariant
                d == doc_view(doc@),
                0 <= j <= doc@.len(),
                strings_view(out@) == base + d.subrange(0, j as int).map_values(
                    |p: (Seq<char>, FieldType)| p.0,
                ),
            decreases doc@.len() - j,
        {
            let ghost before = strings_view(out@);
            let nm = doc[j].0.clone();
            let ghost nv = nm@;
            out.push(nm);
            proof {
                assert(d[j as int].0 == nv);
                assert(strings_view(out@) =~= before.push(nv));
                assert(d.subrange(0, j + 1).map_values(|p: (Seq<char>, FieldType)| p.0)
                    =~= d.subrange(0, j as int).map_values(|p: (Seq<char>, FieldType)| p.0).push(
                    nv,
                ));
            }
            j += 1;
        }
        proof {
            let pre = sv.subrange(0, i + 1);
            assert(pre.drop_last() =~= sv.subrange(0, i as int));
            assert(pre.last() == d);
            assert(d.subrange(0, doc@.len() as int) =~= d);
        }
        i += 1;
    }
    assert(sv.subrange(0, sample@.len() as int) =~= sv);
    out
}

spec fn in_prefix(d: Seq<(Seq<char>, FieldType)>, name: Seq<char>, t: FieldType, j: int) -> bool {
    exists|q: int| 0 <= q < j && #[trigger] d[q] == (name, t)
}

spec fn name_in_prefix(d: Seq<(Seq<char>, FieldType)>, name: Seq<char>, j: int) -> bool {
    exists|q: int| 0 <= q < j && #[trigger] d[q].0 == name
}

spec fn seen_before(s: Seq<Seq<(Seq<char>, FieldType)>>, name: Seq<char>, t: FieldType, i: int) -> bool {
    exists|k: int| 0 <= k < i && #[trigger] has_pair(s[k], name, t)
}

proof fn lemma_prefix_step(d: Seq<(Seq<char>, FieldType)>, name: Seq<char>, j: int)
    requires
        0 <= j < d.len(),
    ensures
        forall|t: FieldType| #[trigger] in_prefix(d, name, t, j + 1) == (in_prefix(d, name, t, j)
            || d[j] == (name, t)),
        name_in_prefix(d, name, j + 1) == (name_in_prefix(d, name, j) || d[j].0 == name),
{
    assert forall|t: FieldType| #[trigger] in_prefix(d, name, t, j + 1) == (in_prefix(
        d,
        name,
        t,
        j,
    ) || d[j] == (name, t)) by {
        if in_prefix(d, name, t, j + 1) {
            let q = choose|q: int| 0 <= q < j + 1 && #[trigger] d[q] == (name, t);
            if q < j {
                assert(in_prefix(d, name, t, j));
            }
        }
        if in_prefix(d, name, t, j) {
            let q = choose|q: int| 0 <= q < j && #[trigger] d[q] == (name, t);
            assert(0 <= q < j + 1 && d[q] == (name, t));
        }
        if d[j] == (name, t) {
            assert(0 <= j < j + 1 && d[j] == (name, t));
        }
    }
    if name_in_prefix(d, name, j + 1) {
        let q = choose|q: int| 0 <= q < j + 1 && #[trigger] d[q].0 == name;
        if q < j {
            assert(name_in_prefix(d, name, j));
        }
    }
    if name_in_prefix(d, name, j) {
        let q = choose|q: int| 0 <= q < j && #[trigger] d[q].0 == name;
        assert(0 <= q < j + 1 && d[q].0 == name);
    }
    if d[j].0 == name {
        assert(0 <= j < j + 1 && d[j].0 == name);
    }
}

proof fn lemma_seen_step(s: Seq<Seq<(Seq<char>, FieldType)>>, name: Seq<char>, i: int)
    requires
        0 <= i < s.len(),
    ensures
        forall|t: FieldType| #[trigger] seen_before(s, name, t, i + 1) == (seen_before(s, name, t, i)
            || in_prefix(s[i], name, t, s[i].len() as int)),
{
    assert forall|t: FieldType| #[trigger] seen_before(s, name, t, i + 1) == (seen_before(
        s,
        name,
        t,
        i,
    ) || in_prefix(s[i], name, t, s[i].len() as int)) by {
        assert(has_pair(s[i], name, t) == in_prefix(s[i], name, t, s[i].len() as int));
        if seen_before(s, name, t, i + 1) {
            let k = choose|k: int| 0 <= k < i + 1 && #[trigger] has_pair(s[k], name, t);
            if k < i {
                assert(seen_before(s, name, t, i));
            }
        }
        if seen_before(s, name, t, i) {
            let k = choose|k: int| 0 <= k < i && #[trigger] has_pair(s[k], name, t);
            assert(0 <= k < i + 1 && has_pair(s[k], name, t));
        }
        if has_pair(s[i], name, t) {
            assert(0 <= i < i + 1 && has_pair(s[i], name, t));
        }
    }
}

/// The types seen for `name` across the sample (repeats allowed), and the
/// number of documents that have the field.
fn field_stats(sample: &[DocumentTypes], name: &String) -> (r: (Vec<FieldType>, usize))
    ensures
        r.0@.to_set() == types_of(sample_view(sample@), name@),
        r.1 == seen_count(sample_view(sample@), name@),
{
    let ghost sv = sample_view(sample@);
    let ghost pred = |d: Seq<(Seq<char>, FieldType)>| has_field(d, name@);
    let mut types: Vec<FieldType> = Vec::new();
    let mut count: usize = 0;
    let mut i: usize = 0;
    assert(sv.subrange(0, 0).filter(pred) =~= Seq::<Seq<(Seq<char>, FieldType)>>::empty()) by {
        reveal_with_fuel(Seq::filter, 1);
    }
    while i < sample.len()
        invariant
            sv == sample_view(sample@),
            pred == (|d: Seq<(Seq<char>, FieldType)>| has_field(d, name@)),
            0 <= i <= sample@.len(),
            count == sv.subrange(0, i as int).filter(pred).len(),
            count <= i,
            forall|t: FieldType| #[trigger] types@.contains(t) == seen_before(sv, name@, t, i as int),
        decreases sample@.len() - i,
    {
        let doc = &sample[i];
        let ghost d = doc_view(doc@);
        assert(d == sv[i as int]);
        let ghost before = types@;
        let mut found = false;
        let mut j: usize = 0;
        while j < doc.len()
            invariant
                d == doc_view(doc@),
                0 <= j <= doc@.len(),
                found == name_in_prefix(d, name@, j as int),
                forall|t: FieldType| #[trigger]
                    types@.contains(t) == (before.contains(t) || in_prefix(d, name@, t, j as int)),
            decreases doc@.len() - j,
        {
            proof {
                lemma_prefix_step(d, name@, j as int);
            }
            let ghost prev = types@;
            if doc[j].0.eq(name) {
                let x = doc[j].1;
                types.push(x);
                found = true;
                proof {
                    assert(d[j as int] == (name@, x));
                    assert forall|t: FieldType| #[trigger] types@.contains(t) == (prev.contains(t)
                        || t == x) by {
                        if types@.contains(t) {
                            let k = choose|k: int| 0 <= k < types@.len() && types@[k] == t;
                            if k < prev.len() {
                                assert(prev[k] == t);
                            }
                        }
                        if prev.contains(t) {
                            let k = choose|k: int| 0 <= k < prev.len() && prev[k] == t;
                            assert(types@[k] == t);
                        }
                        if t == x {
                            assert(types@[prev.len() as int] == t);
                        }
                    }
                }
            }
            j += 1;
        }
        proof {
            lemma_seen_step(sv, name@, i as int);
            let pre = sv.subrange(0, i + 1);
            assert(pre =~= sv.subrange(0, i as int).push(d));
            sv.subrange(0, i as int).lemma_filter_push(d, pred);
            assert(name_in_prefix(d, name@, d.len() as int) == has_field(d, name@));
        }
        if found {
            count += 1;
        }
        i += 1;
    }
    proof {
        assert(sv.subrange(0, sample@.len() as int) =~= sv);
        assert forall|t: FieldType| types@.to_set().contains(t) == types_of(sv, name@).contains(t) by {
            assert(types@.to_set().contains(t) == types@.contains(t));
            assert(seen_before(sv, name@, t, sv.len() as int) == types_of(sv, name@).contains(t));
        }
        assert(types@.to_set() =~= types_of(sv, name@));
    }
    (types, count)
}

/// Columns for a sample of documents: the synthetic `__id__` column
/// (string, never null) first, then one column per field name seen, in
/// ascending order. A field is `number` when only integers and doubles
/// were seen, `mixed` when several other types were, and nullable when a
/// null was seen or some sampled document lacks it.
pub fn infer(sample: &[DocumentTypes]) -> (r: Vec<ColumnInfo>)
    ensures
        columns_view(r@) == infer_spec(sample_view(sample@)),
{
    let ghost sv = sample_view(sample@);
    let names = collect_names(sample);
    let sorted = sorted_distinct_strings(&names);
    let ghost keys = strings_view(sorted@);
    let mut out: Vec<ColumnInfo> = Vec::new();
    out.push(
        ColumnInfo {
            name: owned("__id__"),
            data_type: owned("string"),
            is_nullable: false,
            references: None,
            comment: None,
        },
    );
    proof {
        reveal_strlit("__id__");
        reveal_strlit("string");
    }
    let total = sample.len();
    let mut k: usize = 0;
    while k < sorted.len()
        invariant
            sv == sample_view(sample@),
            total == sv.len(),
            keys == strings_view(sorted@),
            keys == distinct_sorted_texts(all_names(sv)),
            0 <= k <= sorted@.len(),
            columns_view(out@) == seq![id_column()] + keys.subrange(0, k as int).map_values(
                |n: Seq<char>| column_for(sv, n),
            ),
        decreases sorted@.len() - k,
    {
        let name = &sorted[k];
        let (types, seen) = field_stats(sample, name);
        let (data_type, has_null) = classify_set(&types);
        let col = ColumnInfo {
            name: name.clone(),
            data_type,
            is_nullable: has_null || seen < total,
            references: None,
            comment: None,
        };
        let ghost before = columns_view(out@);
        let ghost cv = col@;
        out.push(col);
        proof {
            assert(types@.to_set().contains(FieldType::Null) == types@.contains(FieldType::Null));
            assert(cv == column_for(sv, keys[k as int]));
            assert(columns_view(out@) =~= before.push(cv));
            assert(keys.subrange(0, k + 1).map_values(|n: Seq<char>| column_for(sv, n))
                =~= keys.subrange(0, k as int).map_values(|n: Seq<char>| column_for(sv, n)).push(
                cv,
            ));
        }
        k += 1;
    }
    assert(keys.subrange(0, sorted@.len() as int) =~= keys);
    out
}

/// The inferred schema starts with the ID column; the other columns are
/// named by the field names of the sample, each once, in strictly
/// ascending order, and each is the column inferred for its name.
pub proof fn law_infer_shape(s: Seq<Seq<(Seq<char>, FieldType)>>)
    ensures
        infer_spec(s)[0] == id_column(),
        forall|a: int, b: int|
            1 <= a < b < infer_spec(s).len() ==> text_le(infer_spec(s)[a].name, infer_spec(s)[b].name)
                && infer_spec(s)[a].name != infer_spec(s)[b].name,
        forall|x: Seq<char>|
            all_names(s).contains(x) <==> exists|i: int|
                1 <= i < infer_spec(s).len() && #[trigger] infer_spec(s)[i].name == x,
        forall|i: int| 1 <= i < infer_spec(s).len() ==> #[trigger] infer_spec(s)[i] == column_for(
            s,
            infer_spec(s)[i].name,
        ),
{
    let keys = distinct_sorted_texts(all_names(s));
    lemma_distinct_sorted_texts(all_names(s));
    let r = infer_spec(s);
    assert forall|i: int| 1 <= i < r.len() implies r[i].name == keys[i - 1] && r[i] == column_for(
        s,
        keys[i - 1],
    ) by {}
    assert forall|a: int, b: int| 1 <= a < b < r.len() implies text_le(r[a].name, r[b].name)
        && r[a].name != r[b].name by {
        assert(text_order()(keys[a - 1], keys[b - 1]));
    }
    assert forall|x: Seq<char>| all_names(s).contains(x) <==> exists|i: int|
        1 <= i < r.len() && #[trigger] r[i].name == x by {
        assert(all_names(s).to_set().contains(x) == all_names(s).contains(x));
        assert(keys.to_set().contains(x) == keys.contains(x));
        if keys.contains(x) {
            let k = choose|k: int| 0 <= k < keys.len() && keys[k] == x;
            assert(r[k + 1].name == x);
        }
        if exists|i: int| 1 <= i < r.len() && #[trigger] r[i].name == x {
            let i = choose|i: int| 1 <= i < r.len() && #[trigger] r[i].name == x;
            assert(keys[i - 1] == x);
        }
    }
}

/// Rearranging a sequence keeps the number of its items that satisfy `p`.
proof fn lemma_filter_len_rearranged<A>(a: Seq<A>, b: Seq<A>, p: spec_fn(A) -> bool)
    requires
        a.to_multiset() == b.to_multiset(),
    ensures
        a.filter(p).len() == b.filter(p).len(),
    decreases a.len(),
{
    broadcast use vstd::seq_lib::group_to_multiset_ensures;
    broadcast use vstd::multiset::group_multiset_axioms;

    vstd::seq_lib::to_multiset_len(a);
    vstd::seq_lib::to_multiset_len(b);
    if a.len() == 0 {
        assert(b.len() == 0);
        assert(a =~= b);
    } else {
        let x = a.last();
        let a1 = a.drop_last();
        assert(a1.push(x) =~= a);
        vstd::seq_lib::to_multiset_contains(a, x);
        vstd::seq_lib::to_multiset_contains(b, x);
        assert(a.contains(x));
        assert(b.contains(x));
        let j = b.index_of(x);
        let b1 = b.remove(j);
        assert(a1.to_multiset() =~= a.to_multiset().remove(x));
        assert(b1.to_multiset() =~= b.to_multiset().remove(x));
        lemma_filter_len_rearranged(a1, b1, p);
        a1.lemma_filter_push(x, p);
        let u = b.subrange(0, j);
        let w = b.subrange(j + 1, b.len() as int);
        assert(b =~= u + seq![x] + w);
        assert(b1 =~= u + w);
        Seq::filter_distributes_over_add(u + seq![x], w, p);
        Seq::filter_distributes_over_add(u, seq![x], p);
        Seq::filter_distributes_over_add(u, w, p);
        assert(seq![x] =~= Seq::<A>::empty().push(x));
        Seq::<A>::empty().lemma_filter_push(x, p);
        assert(Seq::<A>::empty().filter(p) =~= Seq::<A>::empty()) by {
            reveal(Seq::filter);
        }
    }
}

/// A name occurs in `all_names(s)` exactly when some document has it.
proof fn lemma_all_names_contains(s: Seq<Seq<(Seq<char>, FieldType)>>, x: Seq<char>)
    ensures
        all_names(s).contains(x) <==> exists|i: int| 0 <= i < s.len() && has_field(s[i], x),
    decreases s.len(),
{
    if s.len() > 0 {
        let t = s.drop_last();
        lemma_all_names_contains(t, x);
        let last = s.last().map_values(|p: (Seq<char>, FieldType)| p.0);
        let n = all_names(s);
        assert(n == all_names(t) + last);
        if n.contains(x) {
            let k = choose|k: int| 0 <= k < n.len() && n[k] == x;
            if k < all_names(t).len() {
                assert(all_names(t)[k] == x);
                let i = choose|i: int| 0 <= i < t.len() && has_field(t[i], x);
                assert(s[i] == t[i]);
            } else {
                let j = k - all_names(t).len();
                assert(last[j] == x);
                assert(s[s.len() - 1][j].0 == x);
                assert(has_field(s[s.len() - 1], x));
            }
        }
        if exists|i: int| 0 <= i < s.len() && has_field(s[i], x) {
            let i = choose|i: int| 0 <= i < s.len() && has_field(s[i], x);
            if i < s.len() - 1 {
                assert(t[i] == s[i]);
                assert(all_names(t).contains(x));
                let k = choose|k: int| 0 <= k < all_names(t).len() && all_names(t)[k] == x;
                assert(n[k] == x);
            } else {
                let j = choose|j: int| 0 <= j < s[i].len() && s[i][j].0 == x;
                assert(last[j] == x);
                assert(n[all_names(t).len() + j] == x);
            }
        }
    }
}

/// The inferred schema does not depend on the order of the sample: two
/// samples holding the same documents, as many times each, give the same
/// columns.
pub proof fn law_infer_ignores_sample_order(
    s1: Seq<Seq<(Seq<char>, FieldType)>>,
    s2: Seq<Seq<(Seq<char>, FieldType)>>,
)
    requires
        s1.to_multiset() == s2.to_multiset(),
    ensures
        infer_spec(s1) == infer_spec(s2),
{
    broadcast use vstd::seq_lib::group_to_multiset_ensures;

    vstd::seq_lib::to_multiset_len(s1);
    vstd::seq_lib::to_multiset_len(s2);
    assert(s1.len() == s2.len());
    assert forall|d: Seq<(Seq<char>, FieldType)>| s1.contains(d) <==> s2.contains(d) by {
        vstd::seq_lib::to_multiset_contains(s1, d);
        vstd::seq_lib::to_multiset_contains(s2, d);
    }
    assert forall|x: Seq<char>| #[trigger] all_names(s1).contains(x) <==> all_names(s2).contains(x) by {
        lemma_all_names_contains(s1, x);
        lemma_all_names_contains(s2, x);
        if exists|i: int| 0 <= i < s1.len() && has_field(s1[i], x) {
            let i = choose|i: int| 0 <= i < s1.len() && has_field(s1[i], x);
            assert(s1.contains(s1[i]));
            let k = choose|k: int| 0 <= k < s2.len() && s2[k] == s1[i];
            assert(has_field(s2[k], x));
        }
        if exists|i: int| 0 <= i < s2.len() && has_field(s2[i], x) {
            let i = choose|i: int| 0 <= i < s2.len() && has_field(s2[i], x);
            assert(s2.contains(s2[i]));
            let k = choose|k: int| 0 <= k < s1.len() && s1[k] == s2[i];
            assert(has_field(s1[k], x));
        }
    }
    assert(all_names(s1).to_set() =~= all_names(s2).to_set());
    let keys = distinct_sorted_texts(all_names(s1));
    assert(keys == distinct_sorted_texts(all_names(s2)));
    assert forall|n: Seq<char>| #[trigger] column_for(s1, n) == column_for(s2, n) by {
        assert forall|t: FieldType| types_of(s1, n).contains(t) <==> types_of(s2, n).contains(t) by {
            if exists|i: int| 0 <= i < s1.len() && has_pair(s1[i], n, t) {
                let i = choose|i: int| 0 <= i < s1.len() && has_pair(s1[i], n, t);
                assert(s1.contains(s1[i]));
                let k = choose|k: int| 0 <= k < s2.len() && s2[k] == s1[i];
                assert(has_pair(s2[k], n, t));
            }
            if exists|i: int| 0 <= i < s2.len() && has_pair(s2[i], n, t) {
                let i = choose|i: int| 0 <= i < s2.len() && has_pair(s2[i], n, t);
                assert(s2.contains(s2[i]));
                let k = choose|k: int| 0 <= k < s1.len() && s1[k] == s2[i];
                assert(has_pair(s1[k], n, t));
            }
        }
        assert(types_of(s1, n) =~= types_of(s2, n));
        lemma_filter_len_rearranged(s1, s2, |d: Seq<(Seq<char>, FieldType)>| has_field(d, n));
    }
    assert(infer_spec(s1) =~= infer_spec(s2));
}

/// A foreign key declared by a reference column: its name, the column and
/// the collection it points into (whose document-ID column it refers to).
#[derive(Debug, Clone, PartialEq, Eq)]
pub struct ForeignKey {
    pub name: String,
    pub column_name: String,
    pub ref_table: String,
}

pub open spec fn foreign_keys_view(v: Seq<ForeignKey>) -> Seq<(Seq<char>, Seq<char>, Seq<char>)> {
    v.map_values(|k: ForeignKey| (k.name@, k.column_name@, k.ref_table@))
}

/// The foreign keys of `table`: one per column that references a
/// collection, in column order, named `fk_<table>_<column>`.
pub open spec fn foreign_keys_spec(table: Seq<char>, cols: Seq<SColumn>) -> Seq<(Seq<char>, Seq<char>, Seq<char>)>
    decreases cols.len(),
{
    if cols.len() == 0 {
        Seq::empty()
    } else {
        let prev = foreign_keys_spec(table, cols.drop_last());
        let c = cols.last();
        match c.references {
            Some(t) => prev.push(("fk_"@ + table + "_"@ + c.name, c.name, t)),
            None => prev,
        }
    }
}

/// The foreign keys the reference columns of `table` declare.
pub fn foreign_keys(table: &str, columns: &Vec<ColumnInfo>) -> (r: Vec<ForeignKey>)
    ensures
        foreign_keys_view(r@) == foreign_keys_spec(table@, columns_view(columns@)),
{
    let ghost cv = columns_view(columns@);
    let mut out: Vec<ForeignKey> = Vec::new();
    let mut i: usize = 0;
    while i < columns.len()
        invariant
            cv == columns_view(columns@),
            0 <= i <= columns@.len(),
            foreign_keys_view(out@) == foreign_keys_spec(table@, cv.take(i as int)),
        decreases columns@.len() - i,
    {
        let c = &columns[i];
        proof {
            assert(cv.take(i + 1).drop_last() =~= cv.take(i as int));
            assert(cv.take(i + 1).last() == c@);
        }
        match &c.references {
            Some(t) => {
                let mut name = owned("fk_");
                push_str(&mut name, table);
                push_str(&mut name, "_");
                push_str(&mut name, c.name.as_str());
                let ghost before = out@;
                out.push(ForeignKey { name, column_name: copy_string(&c.name), ref_table: copy_string(t) });
                proof {
                    assert(foreign_keys_view(out@) =~= foreign_keys_view(before).push(
                        ("fk_"@ + table@ + "_"@ + c.name@, c.name@, t@),
                    ));
                }
            },
            None => {},
        }
        i += 1;
    }
    assert(cv.take(columns@.len() as int) =~= cv);
    out
}

/// The name of the synthetic column that carries a document's ID in the
/// inferred columns.
pub const INFERRED_ID_COLUMN: &'static str = "__id__";

/// What comes before a reference's collection in its resource path
/// `projects/<p>/databases/<d>/documents/<collection>/<doc>[/...]`.
pub open spec fn documents_marker() -> Seq<char> {
    "/documents/"@
}

/// The first position, at `i` or later, where `t` occurs in `s`; -1 when
/// there is none.
pub open spec fn first_match_from(s: Seq<char>, t: Seq<char>, i: int) -> int
    decreases s.len() + 1 - i,
{
    if i < 0 || i + t.len() > s.len() {
        -1
    } else if s.subrange(i, i + t.len()) == t {
        i
    } else {
        first_match_from(s, t, i + 1)
    }
}

/// The text of `s` from position `j` up to the next `/` or the end.
pub open spec fn segment_from(s: Seq<char>, j: int) -> Seq<char>
    decreases s.len() - j,
{
    if j < 0 || j >= s.len() || s[j] == '/' {
        Seq::empty()
    } else {
        seq![s[j]] + segment_from(s, j + 1)
    }
}

/// The collection a reference points into: the path segment right after
/// the first `/documents/`; none when the path has no `/documents/`.
pub open spec fn reference_target_spec(path: Seq<char>) -> Option<Seq<char>> {
    let i = first_match_from(path, documents_marker(), 0);
    if i >= 0 {
        Some(segment_from(path, i + documents_marker().len()))
    } else {
        None
    }
}

/// The collection the reference with resource path `path` points into.
pub fn reference_target(path: &str) -> (r: Option<String>)
    ensures
        opt_view(r) == reference_target_spec(path@),
{
    let marker = "/documents/";
    proof {
        reveal_strlit("/documents/");
    }
    let n = path.unicode_len();
    let m: usize = 11;
    let mut i: usize = 0;
    while i <= n && n - i >= m
        invariant
            n == path@.len(),
            m == 11,
            m == marker@.len(),
            marker@ == documents_marker(),
            0 <= i <= n,
            first_match_from(path@, documents_marker(), 0) == first_match_from(
                path@,
                documents_marker(),
                i as int,
            ),
        decreases n - i,
    {
        if same_text(path.substring_char(i, i + m), marker) {
            let j = i + m;
            let mut k = j;
            assert(path@.subrange(j as int, j as int) + segment_from(path@, j as int) =~= segment_from(
                path@,
                j as int,
            ));
            while k < n && path.get_char(k) != '/'
                invariant
                    n == path@.len(),
                    j <= k <= n,
                    segment_from(path@, j as int) == path@.subrange(j as int, k as int) + segment_from(
                        path@,
                        k as int,
                    ),
                decreases n - k,
            {
                assert(path@.subrange(j as int, k as int) + seq![path@[k as int]] =~= path@.subrange(
                    j as int,
                    k + 1,
                ));
                assert(path@.subrange(j as int, k + 1) + segment_from(path@, k + 1) =~= path@.subrange(
                    j as int,
                    k as int,
                ) + (seq![path@[k as int]] + segment_from(path@, k + 1)));
                k += 1;
            }
            assert(segment_from(path@, k as int) =~= Seq::<char>::empty());
            assert(path@.subrange(j as int, k as int) + Seq::<char>::empty() =~= path@.subrange(
                j as int,
                k as int,
            ));
            return Some(owned(path.substring_char(j, k)));
        }
        i += 1;
    }
    None
}

/// The field names and resource paths of one document's reference values.
pub type DocumentReferences = Vec<(String, String)>;

pub open spec fn pairs_view(d: Seq<(String, String)>) -> Seq<(Seq<char>, Seq<char>)> {
    d.map_values(|p: (String, String)| (p.0@, p.1@))
}

pub open spec fn refs_view(refs: Seq<DocumentReferences>) -> Seq<Seq<(Seq<char>, Seq<char>)>> {
    refs.map_values(|d: DocumentReferences| pairs_view(d@))
}

/// The (field, collection) pairs of a document's references, in order,
/// leaving out paths with no collection.
pub open spec fn doc_refs_spec(pairs: Seq<(Seq<char>, Seq<char>)>) -> Seq<(Seq<char>, Seq<char>)>
    decreases pairs.len(),
{
    if pairs.len() == 0 {
        Seq::empty()
    } else {
        let prev = doc_refs_spec(pairs.drop_last());
        match reference_target_spec(pairs.last().1) {
            Some(t) => prev.push((pairs.last().0, t)),
            None => prev,
        }
    }
}

/// The collections one document's reference fields point into, from the
/// (field, resource path) pairs of its reference values.
pub fn document_references(paths: &Vec<(String, String)>) -> (r: DocumentReferences)
    ensures
        pairs_view(r@) == doc_refs_spec(pairs_view(paths@)),
{
    let ghost pv = pairs_view(paths@);
    let mut out: DocumentReferences = Vec::new();
    let mut i: usize = 0;
    while i < paths.len()
        invariant
            pv == pairs_view(paths@),
            0 <= i <= paths@.len(),
            pairs_view(out@) == doc_refs_spec(pv.take(i as int)),
        decreases paths@.len() - i,
    {
        proof {
            assert(pv.take(i + 1).drop_last() =~= pv.take(i as int));
            assert(pv.take(i + 1).last() == pv[i as int]);
        }
        match reference_target(paths[i].1.as_str()) {
            Some(t) => {
                let ghost before = out@;
                out.push((copy_string(&paths[i].0), t));
                proof {
                    assert(pairs_view(out@) =~= pairs_view(before).push(out@.last()@));
                    assert(pairs_view(out@) =~= pairs_view(before).push((pv[i as int].0, t@)));
                }
            },
            None => {},
        }
        i += 1;
    }
    assert(pv.take(paths@.len() as int) =~= pv);
    out
}

/// Whether some document of `refs` has the field `name` pointing into `t`.
pub open spec fn has_target(refs: Seq<Seq<(Seq<char>, Seq<char>)>>, name: Seq<char>, t: Seq<char>) -> bool {
    exists|i: int, j: int| 0 <= i < refs.len() && 0 <= j < refs[i].len() && refs[i][j] == (name, t)
}

/// The collection the field `name` references: the one collection its
/// references point into when they all point into the same one; none when
/// it has no references or they point into several collections.
pub open spec fn ref_for(refs: Seq<Seq<(Seq<char>, Seq<char>)>>, name: Seq<char>) -> Option<Seq<char>> {
    if (exists|t: Seq<char>| #[trigger] has_target(refs, name, t)) && (forall|a: Seq<char>, b: Seq<char>|
        #[trigger] has_target(refs, name, a) && #[trigger] has_target(refs, name, b) ==> a == b) {
        Some(choose|t: Seq<char>| #[trigger] has_target(refs, name, t))
    } else {
        None
    }
}

pub open spec fn with_ref(c: SColumn, r: Option<Seq<char>>) -> SColumn {
    SColumn { references: r, ..c }
}

/// The columns inferred from a sample, each field column marked with the
/// collection its references point into (see `ref_for`).
pub open spec fn infer_refs_spec(
    s: Seq<Seq<(Seq<char>, FieldType)>>,
    refs: Seq<Seq<(Seq<char>, Seq<char>)>>,
) -> Seq<SColumn> {
    let base = infer_spec(s);
    Seq::new(
        base.len(),
        |i: int|
            if i == 0 {
                base[0]
            } else {
                with_ref(base[i], ref_for(refs, base[i].name))
            },
    )
}

/// Whether (a, b) comes before (i, j) in a walk of the pairs of `refs`.
spec fn walked(refs: Seq<Seq<(Seq<char>, Seq<char>)>>, a: int, b: int, i: int, j: int) -> bool {
    (0 <= a < i && 0 <= b < refs[a].len()) || (a == i && 0 <= b < j)
}

/// What a walk up to (i, j) has found for `name`: the first collection
/// seen, and whether another one was seen too.
spec fn scan_state(
    rv: Seq<Seq<(Seq<char>, Seq<char>)>>,
    name: Seq<char>,
    first: Option<Seq<char>>,
    conflict: bool,
    i: int,
    j: int,
) -> bool {
    match first {
        None => !conflict && forall|a: int, b: int|
            #[trigger] walked(rv, a, b, i, j) ==> rv[a][b].0 != name,
        Some(f) => (exists|a: int, b: int| #[trigger] walked(rv, a, b, i, j) && rv[a][b] == (name, f))
            && (conflict ==> exists|a: int, b: int|
            #[trigger] walked(rv, a, b, i, j) && rv[a][b].0 == name && rv[a][b].1 != f) && (!conflict
            ==> forall|a: int, b: int|
            #[trigger] walked(rv, a, b, i, j) && rv[a][b].0 == name ==> rv[a][b].1 == f),
    }
}

spec fn scan_next(first: Option<Seq<char>>, conflict: bool, name: Seq<char>, p: (Seq<char>, Seq<char>)) -> (Option<Seq<char>>, bool) {
    if p.0 == name {
        match first {
            None => (Some(p.1), false),
            Some(f) => (Some(f), conflict || p.1 != f),
        }
    } else {
        (first, conflict)
    }
}

proof fn lemma_scan_step(
    rv: Seq<Seq<(Seq<char>, Seq<char>)>>,
    name: Seq<char>,
    first: Option<Seq<char>>,
    conflict: bool,
    i: int,
    j: int,
)
    requires
        0 <= i < rv.len(),
        0 <= j < rv[i].len(),
        scan_state(rv, name, first, conflict, i, j),
    ensures
        scan_state(
            rv,
            name,
            scan_next(first, conflict, name, rv[i][j]).0,
            scan_next(first, conflict, name, rv[i][j]).1,
            i,
            j + 1,
        ),
{
    let p = rv[i][j];
    let (f2, c2) = scan_next(first, conflict, name, p);
    assert forall|a: int, b: int| #[trigger] walked(rv, a, b, i, j + 1) <==> (walked(rv, a, b, i, j)
        || (a == i && b == j)) by {}
    assert(walked(rv, i, j, i, j + 1));
    match first {
        None => {
            if p.0 == name {
                assert(walked(rv, i, j, i, j + 1) && rv[i][j] == (name, p.1));
            }
        },
        Some(f) => {
            let (a0, b0) = choose|a: int, b: int| #[trigger] walked(rv, a, b, i, j) && rv[a][b] == (name, f);
            assert(walked(rv, a0, b0, i, j + 1));
            if conflict {
                let (a1, b1) = choose|a: int, b: int|
                    #[trigger] walked(rv, a, b, i, j) && rv[a][b].0 == name && rv[a][b].1 != f;
                assert(walked(rv, a1, b1, i, j + 1));
            } else if c2 {
                assert(walked(rv, i, j, i, j + 1) && rv[i][j].0 == name && rv[i][j].1 != f);
            }
        },
    }
}

proof fn lemma_scan_next_row(
    rv: Seq<Seq<(Seq<char>, Seq<char>)>>,
    name: Seq<char>,
    first: Option<Seq<char>>,
    conflict: bool,
    i: int,
)
    requires
        0 <= i < rv.len(),
        scan_state(rv, name, first, conflict, i, rv[i].len() as int),
    ensures
        scan_state(rv, name, first, conflict, i + 1, 0),
{
    let n = rv[i].len() as int;
    assert forall|a: int, b: int| #[trigger] walked(rv, a, b, i + 1, 0) <==> walked(rv, a, b, i, n) by {}
    match first {
        None => {},
        Some(f) => {
            let (a0, b0) = choose|a: int, b: int| #[trigger] walked(rv, a, b, i, n) && rv[a][b] == (name, f);
            assert(walked(rv, a0, b0, i + 1, 0));
            if conflict {
                let (a1, b1) = choose|a: int, b: int|
                    #[trigger] walked(rv, a, b, i, n) && rv[a][b].0 == name && rv[a][b].1 != f;
                assert(walked(rv, a1, b1, i + 1, 0));
            }
        },
    }
}

/// The one collection the field `name` references across `refs`.
fn single_target(refs: &[DocumentReferences], name: &String) -> (r: Option<String>)
    ensures
        opt_view(r) == ref_for(refs_view(refs@), name@),
{
    let ghost rv = refs_view(refs@);
    let mut first: Option<String> = None;
    let mut conflict = false;
    let mut i: usize = 0;
    while i < refs.len()
        invariant
            rv == refs_view(refs@),
            0 <= i <= refs@.len(),
            scan_state(rv, name@, opt_view(first), conflict, i as int, 0),
        decreases refs@.len() - i,
    {
        let d = &refs[i];
        let mut j: usize = 0;
        assert(rv[i as int] == pairs_view(d@));
        while j < d.len()
            invariant
                rv == refs_view(refs@),
                0 <= i < refs@.len(),
                d == refs@[i as int],
                rv[i as int] == pairs_view(d@),
                0 <= j <= d@.len(),
                scan_state(rv, name@, opt_view(first), conflict, i as int, j as int),
            decreases d@.len() - j,
        {
            proof {
                lemma_scan_step(rv, name@, opt_view(first), conflict, i as int, j as int);
            }
            assert(rv[i as int][j as int] == (d@[j as int].0@, d@[j as int].1@));
            if same_text(d[j].0.as_str(), name.as_str()) {
                match &first {
                    None => {
                        first = Some(copy_string(&d[j].1));
                    },
                    Some(f) => {
                        if !same_text(d[j].1.as_str(), f.as_str()) {
                            conflict = true;
                        }
                    },
                }
            }
            j += 1;
        }
        proof {
            lemma_scan_next_row(rv, name@, opt_view(first), conflict, i as int);
        }
        i += 1;
    }
    let ghost n = refs@.len() as int;
    proof {
        assert forall|a: int, b: int| #[trigger] walked(rv, a, b, n, 0) <==> (0 <= a < rv.len() && 0
            <= b < rv[a].len()) by {}
        match opt_view(first) {
            None => {
                assert forall|t: Seq<char>| !has_target(rv, name@, t) by {
                    if has_target(rv, name@, t) {
                        let (a, b) = choose|a: int, b: int|
                            0 <= a < rv.len() && 0 <= b < rv[a].len() && rv[a][b] == (name@, t);
                        assert(walked(rv, a, b, n, 0));
                    }
                }
            },
            Some(f) => {
                let (a0, b0) = choose|a: int, b: int| #[trigger] walked(rv, a, b, n, 0) && rv[a][b] == (name@, f);
                assert(has_target(rv, name@, f));
                if conflict {
                    let (a1, b1) = choose|a: int, b: int|
                        #[trigger] walked(rv, a, b, n, 0) && rv[a][b].0 == name@ && rv[a][b].1 != f;
                    assert(has_target(rv, name@, rv[a1][b1].1));
                } else {
                    assert forall|t: Seq<char>| has_target(rv, name@, t) implies t == f by {
                        let (a, b) = choose|a: int, b: int|
                            0 <= a < rv.len() && 0 <= b < rv[a].len() && rv[a][b] == (name@, t);
                        assert(walked(rv, a, b, n, 0));
                    }
                    let t = choose|t: Seq<char>| #[trigger] has_target(rv, name@, t);
                    assert(t == f);
                }
            },
        }
    }
    if conflict {
        None
    } else {
        first
    }
}

/// A copy of an optional text.
fn copy_text_opt(o: &Option<String>) -> (r: Option<String>)
    ensures
        opt_view(r) == opt_view(*o),
{
    match o {
        Some(s) => Some(copy_string(s)),
        None => None,
    }
}

/// Columns for a sample of documents, as `infer` gives them, with each
/// field column marked with the collection its references point into:
/// `refs` holds, per document, the (field, collection) pairs of its
/// reference values. A field whose references point into several
/// collections, or that has none, references no collection.
pub fn infer_with_references(sample: &[DocumentTypes], refs: &[DocumentReferences]) -> (r: Vec<ColumnInfo>)
    ensures
        columns_view(r@) == infer_refs_spec(sample_view(sample@), refs_view(refs@)),
{
    let base = infer(sample);
    let ghost target = infer_refs_spec(sample_view(sample@), refs_view(refs@));
    let mut out: Vec<ColumnInfo> = Vec::new();
    let mut i: usize = 0;
    while i < base.len()
        invariant
            columns_view(base@) == infer_spec(sample_view(sample@)),
            target == infer_refs_spec(sample_view(sample@), refs_view(refs@)),
            target.len() == base@.len(),
            0 <= i <= base@.len(),
            out@.len() == i,
            forall|k: int| 0 <= k < i ==> #[trigger] out@[k]@ == target[k],
        decreases base@.len() - i,
    {
        let c = &base[i];
        assert(c@ == columns_view(base@)[i as int]);
        let r = if i == 0 {
            copy_text_opt(&c.references)
        } else {
            single_target(refs, &c.name)
        };
        out.push(
            ColumnInfo {
                name: copy_string(&c.name),
                data_type: copy_string(&c.data_type),
                is_nullable: c.is_nullable,
                references: r,
                comment: copy_text_opt(&c.comment),
            },
        );
        i += 1;
    }
    assert(columns_view(out@) =~= target);
    out
}

/// Reference inference does not depend on the order of the sample either:
/// the same documents, and the same per-document references, each as many
/// times, give the same columns with the same referenced collections.
pub proof fn law_infer_refs_ignores_sample_order(
    s1: Seq<Seq<(Seq<char>, FieldType)>>,
    s2: Seq<Seq<(Seq<char>, FieldType)>>,
    r1: Seq<Seq<(Seq<char>, Seq<char>)>>,
    r2: Seq<Seq<(Seq<char>, Seq<char>)>>,
)
    requires
        s1.to_multiset() == s2.to_multiset(),
        r1.to_multiset() == r2.to_multiset(),
    ensures
        infer_refs_spec(s1, r1) == infer_refs_spec(s2, r2),
{
    law_infer_ignores_sample_order(s1, s2);
    assert forall|d: Seq<(Seq<char>, Seq<char>)>| r1.contains(d) <==> r2.contains(d) by {
        vstd::seq_lib::to_multiset_contains(r1, d);
        vstd::seq_lib::to_multiset_contains(r2, d);
    }
    assert forall|name: Seq<char>, t: Seq<char>| has_target(r1, name, t) <==> has_target(r2, name, t) by {
        if has_target(r1, name, t) {
            let (i, j) = choose|i: int, j: int|
                0 <= i < r1.len() && 0 <= j < r1[i].len() && r1[i][j] == (name, t);
            assert(r1.contains(r1[i]));
            let k = choose|k: int| 0 <= k < r2.len() && r2[k] == r1[i];
            assert(r2[k][j] == (name, t));
        }
        if has_target(r2, name, t) {
            let (i, j) = choose|i: int, j: int|
                0 <= i < r2.len() && 0 <= j < r2[i].len() && r2[i][j] == (name, t);
            assert(r2.contains(r2[i]));
            let k = choose|k: int| 0 <= k < r1.len() && r1[k] == r2[i];
            assert(r1[k][j] == (name, t));
        }
    }
    assert forall|name: Seq<char>| #[trigger] ref_for(r1, name) == ref_for(r2, name) by {
        if exists|t: Seq<char>| #[trigger] has_target(r1, name, t) {
            let t1 = choose|t: Seq<char>| #[trigger] has_target(r1, name, t);
            let t2 = choose|t: Seq<char>| #[trigger] has_target(r2, name, t);
            assert(has_target(r2, name, t1));
            assert(has_target(r1, name, t2));
        }
    }
    assert(infer_refs_spec(s1, r1) =~= infer_refs_spec(s2, r2));
}

} // verus!
