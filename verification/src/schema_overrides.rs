//! Per-collection schema overrides: a user-supplied file declares, per
//! field, that it is required, its type, that it is hidden, or a comment,
//! and lists extra fields the sample does not show. Overrides are checked
//! once when loaded and applied to every inferred column list.
use vstd::prelude::*;
use crate::ast::strings_view;
use crate::order::{join, join_strings};
use crate::schema_infer::{ColumnInfo, SColumn, columns_view, opt_view};
use crate::text::{owned, push_str, same_text};

verus! {

#[derive(Debug, Clone)]
pub struct FieldOverride {
    /// `Some(true)` makes the column not nullable, `Some(false)` nullable;
    /// `None` leaves the inferred default.
    pub required: Option<bool>,
    /// Replaces the inferred type; checked against the known types.
    pub data_type: Option<String>,
    /// Drops the column.
    pub hidden: Option<bool>,
    /// Free-form description surfaced in tooltips.
    pub comment: Option<String>,
}

/// Overrides for one collection, each list keyed by field name.
#[derive(Debug, Clone)]
pub struct CollectionOverride {
    pub fields: Vec<(String, FieldOverride)>,
    /// Fields not present in the sample that should appear in the grid.
    pub extra_fields: Vec<(String, FieldOverride)>,
}

/// Overrides keyed by collection name.
#[derive(Debug, Clone)]
pub struct SchemaOverrides {
    pub collections: Vec<(String, CollectionOverride)>,
}

impl Default for FieldOverride {
    fn default() -> (r: FieldOverride)
        ensures
            r.required is None,
            r.data_type is None,
            r.hidden is None,
            r.comment is None,
    {
        FieldOverride { required: None, data_type: None, hidden: None, comment: None }
    }
}

impl Default for CollectionOverride {
    fn default() -> (r: CollectionOverride)
        ensures
            r.fields@.len() == 0,
            r.extra_fields@.len() == 0,
    {
        CollectionOverride { fields: Vec::new(), extra_fields: Vec::new() }
    }
}

impl Default for SchemaOverrides {
    fn default() -> (r: SchemaOverrides)
        ensures
            r.collections@.len() == 0,
    {
        SchemaOverrides { collections: Vec::new() }
    }
}

pub struct SFieldOverride {
    pub required: Option<bool>,
    pub data_type: Option<Seq<char>>,
    pub hidden: Option<bool>,
    pub comment: Option<Seq<char>>,
}

impl View for FieldOverride {
    type V = SFieldOverride;

    open spec fn view(&self) -> SFieldOverride {
        SFieldOverride {
            required: self.required,
            data_type: opt_view(self.data_type),
            hidden: self.hidden,
            comment: opt_view(self.comment),
        }
    }
}

pub type SEntries = Seq<(Seq<char>, SFieldOverride)>;

pub open spec fn entries_view(v: Seq<(String, FieldOverride)>) -> SEntries {
    v.map_values(|p: (String, FieldOverride)| (p.0@, p.1@))
}

pub struct SCollection {
    pub fields: SEntries,
    pub extra_fields: SEntries,
}

impl View for CollectionOverride {
    type V = SCollection;

    open spec fn view(&self) -> SCollection {
        SCollection {
            fields: entries_view(self.fields@),
            extra_fields: entries_view(self.extra_fields@),
        }
    }
}

impl View for SchemaOverrides {
    type V = Seq<(Seq<char>, SCollection)>;

    open spec fn view(&self) -> Seq<(Seq<char>, SCollection)> {
        self.collections@.map_values(|p: (String, CollectionOverride)| (p.0@, p.1@))
    }
}

/// The entry for `k`: the first one with that key.
pub open spec fn find_entry<T>(m: Seq<(Seq<char>, T)>, k: Seq<char>) -> Option<T>
    decreases m.len(),
{
    if m.len() == 0 {
        None
    } else if m[0].0 == k {
        Some(m[0].1)
    } else {
        find_entry(m.drop_first(), k)
    }
}

/// The column types an override may name.
pub open spec fn allowed_types() -> Seq<Seq<char>> {
    seq![
        "string"@,
        "number"@,
        "boolean"@,
        "timestamp"@,
        "binary"@,
        "geopoint"@,
        "reference"@,
        "array"@,
        "map"@,
        "null"@,
        "mixed"@,
    ]
}

pub open spec fn unknown_type_message(c: Seq<char>, f: Seq<char>, t: Seq<char>) -> Seq<char> {
    "schema_overrides: collection '"@ + c + "' field '"@ + f + "' has unknown type '"@ + t
        + "'. Allowed: "@ + join(allowed_types(), ", "@)
}

/// The message for the first entry of collection `c` whose type is not
/// allowed.
pub open spec fn first_bad_entry(c: Seq<char>, es: SEntries) -> Option<Seq<char>>
    decreases es.len(),
{
    if es.len() == 0 {
        None
    } else {
        match es[0].1.data_type {
            Some(t) => if !allowed_types().contains(t) {
                Some(unknown_type_message(c, es[0].0, t))
            } else {
                first_bad_entry(c, es.drop_first())
            },
            None => first_bad_entry(c, es.drop_first()),
        }
    }
}

/// The message for the first field or extra field, collection by
/// collection, with a type that is not allowed.
pub open spec fn first_bad(cs: Seq<(Seq<char>, SCollection)>) -> Option<Seq<char>>
    decreases cs.len(),
{
    if cs.len() == 0 {
        None
    } else {
        match first_bad_entry(cs[0].0, cs[0].1.fields + cs[0].1.extra_fields) {
            Some(m) => Some(m),
            None => first_bad(cs.drop_first()),
        }
    }
}

/// Position of the first entry of `m` keyed `k`.
fn find_key<T>(m: &Vec<(String, T)>, k: &str) -> (r: Option<usize>)
    ensures
        match r {
            Some(i) => i < m@.len() && m@[i as int].0@ == k@ && forall|j: int|
                0 <= j < i ==> m@[j].0@ != k@,
            None => forall|j: int| 0 <= j < m@.len() ==> m@[j].0@ != k@,
        },
{
    let mut i: usize = 0;
    while i < m.len()
        invariant
            0 <= i <= m@.len(),
            forall|j: int| 0 <= j < i ==> m@[j].0@ != k@,
        decreases m@.len() - i,
    {
        if same_text(m[i].0.as_str(), k) {
            return Some(i);
        }
        i += 1;
    }
    None
}

/// `find_entry` finds the first entry with the key.
proof fn lemma_find_entry<T>(v: Seq<(Seq<char>, T)>, k: Seq<char>, i: int)
    requires
        -1 <= i < v.len(),
        i >= 0 ==> v[i].0 == k,
        forall|j: int| 0 <= j < (if i >= 0 { i } else { v.len() as int }) ==> v[j].0 != k,
    ensures
        find_entry(v, k) == if i >= 0 {
            Some(v[i].1)
        } else {
            None::<T>
        },
    decreases v.len(),
{
    if v.len() > 0 && i != 0 {
        let i2 = if i > 0 {
            i - 1
        } else {
            -1
        };
        assert forall|j: int| 0 <= j < (if i2 >= 0 { i2 } else { v.drop_first().len() as int }) implies v.drop_first()[j].0 != k by {
            assert(v.drop_first()[j] == v[j + 1]);
        }
        lemma_find_entry(v.drop_first(), k, i2);
    }
}

/// The allowed column types, in the order messages list them.
fn allowed_type_list() -> (r: Vec<String>)
    ensures
        strings_view(r@) == allowed_types(),
{
    let mut v: Vec<String> = Vec::new();
    v.push(owned("string"));
    v.push(owned("number"));
    v.push(owned("boolean"));
    v.push(owned("timestamp"));
    v.push(owned("binary"));
    v.push(owned("geopoint"));
    v.push(owned("reference"));
    v.push(owned("array"));
    v.push(owned("map"));
    v.push(owned("null"));
    v.push(owned("mixed"));
    assert(strings_view(v@) =~= allowed_types());
    v
}

/// Whether `t` is one of `list`.
fn is_listed(list: &Vec<String>, t: &String) -> (r: bool)
    ensures
        r == strings_view(list@).contains(t@),
{
    let ghost a = strings_view(list@);
    let mut i: usize = 0;
    while i < list.len()
        invariant
            a == strings_view(list@),
            0 <= i <= list@.len(),
            forall|k: int| 0 <= k < i ==> a[k] != t@,
        decreases list@.len() - i,
    {
        if list[i].eq(t) {
            assert(a[i as int] == t@);
            return true;
        }
        i += 1;
    }
    false
}

fn bad_entry(c: &String, es: &Vec<(String, FieldOverride)>) -> (r: Option<String>)
    ensures
        first_bad_entry(c@, entries_view(es@)) is None ==> r is None,
        first_bad_entry(c@, entries_view(es@)) matches Some(m) ==> r matches Some(x) && x@ == m,
{
    let ghost ev = entries_view(es@);
    let allowed = allowed_type_list();
    let mut i: usize = 0;
    assert(ev.skip(0) =~= ev);
    while i < es.len()
        invariant
            ev == entries_view(es@),
            strings_view(allowed@) == allowed_types(),
            0 <= i <= es@.len(),
            first_bad_entry(c@, ev) == first_bad_entry(c@, ev.skip(i as int)),
        decreases es@.len() - i,
    {
        assert(ev.skip(i as int)[0] == ev[i as int]);
        assert(ev.skip(i as int).drop_first() =~= ev.skip(i + 1));
        match &es[i].1.data_type {
            Some(t) => if !is_listed(&allowed, t) {
                let mut m = owned("schema_overrides: collection '");
                push_str(&mut m, c.as_str());
                push_str(&mut m, "' field '");
                push_str(&mut m, es[i].0.as_str());
                push_str(&mut m, "' has unknown type '");
                push_str(&mut m, t.as_str());
                push_str(&mut m, "'. Allowed: ");
                let list = join_strings(&allowed, ", ");
                push_str(&mut m, list.as_str());
                proof {
                    assert(ev[i as int] == (es@[i as int].0@, es@[i as int].1@));
                    assert(ev[i as int].1.data_type == Some(t@));
                    assert(m@ =~= unknown_type_message(c@, es@[i as int].0@, t@));
                }
                return Some(m);
            },
            None => {},
        }
        i += 1;
    }
    assert(ev.skip(es@.len() as int) =~= Seq::<(Seq<char>, SFieldOverride)>::empty());
    None
}

/// Checks that every type an override names is a known column type; the
/// error names the first collection, field and type that is not.
pub fn validate(ov: &SchemaOverrides) -> (r: Result<(), String>)
    ensures
        first_bad(ov@) is None ==> r is Ok,
        first_bad(ov@) matches Some(m) ==> r matches Err(e) && e@ == m,
{
    let ghost cs = ov@;
    let mut i: usize = 0;
    assert(cs.skip(0) =~= cs);
    while i < ov.collections.len()
        invariant
            cs == ov@,
            0 <= i <= ov.collections@.len(),
            first_bad(cs) == first_bad(cs.skip(i as int)),
        decreases ov.collections@.len() - i,
    {
        let name = &ov.collections[i].0;
        let c = &ov.collections[i].1;
        assert(cs.skip(i as int)[0] == cs[i as int]);
        assert(cs.skip(i as int).drop_first() =~= cs.skip(i + 1));
        match bad_entry(name, &c.fields) {
            Some(m) => {
                proof {
                    lemma_first_bad_entry_concat(name@, c@.fields, c@.extra_fields);
                }
                return Err(m);
            },
            None => {},
        }
        match bad_entry(name, &c.extra_fields) {
            Some(m) => {
                proof {
                    lemma_first_bad_entry_concat(name@, c@.fields, c@.extra_fields);
                }
                return Err(m);
            },
            None => {},
        }
        proof {
            lemma_first_bad_entry_concat(name@, c@.fields, c@.extra_fields);
        }
        i += 1;
    }
    assert(cs.skip(ov.collections@.len() as int) =~= Seq::<(Seq<char>, SCollection)>::empty());
    Ok(())
}

proof fn lemma_first_bad_entry_concat(c: Seq<char>, a: SEntries, b: SEntries)
    ensures
        first_bad_entry(c, a + b) == match first_bad_entry(c, a) {
            Some(m) => Some(m),
            None => first_bad_entry(c, b),
        },
    decreases a.len(),
{
    if a.len() == 0 {
        assert(a + b =~= b);
    } else {
        assert((a + b).drop_first() =~= a.drop_first() + b);
        assert((a + b)[0] == a[0]);
        lemma_first_bad_entry_concat(c, a.drop_first(), b);
    }
}

/// Whether the field override for `name` hides it.
pub open spec fn is_hidden(fields: SEntries, name: Seq<char>) -> bool {
    find_entry(fields, name) matches Some(f) && f.hidden == Some(true)
}

/// A column with the field override for its name applied: `required`
/// sets nullability, `type` the data type, `comment` the comment.
pub open spec fn adjust(fields: SEntries, col: SColumn) -> SColumn {
    match find_entry(fields, col.name) {
        None => col,
        Some(f) => SColumn {
            is_nullable: match f.required {
                Some(req) => !req,
                None => col.is_nullable,
            },
            data_type: match f.data_type {
                Some(t) => t,
                None => col.data_type,
            },
            comment: match f.comment {
                Some(c) => Some(c),
                None => col.comment,
            },
            ..col
        },
    }
}

pub open spec fn shown(fields: SEntries) -> spec_fn(SColumn) -> bool {
    |c: SColumn| !is_hidden(fields, c.name)
}

/// The columns not hidden, each with its override applied, in order.
pub open spec fn kept_adjusted(cols: Seq<SColumn>, fields: SEntries) -> Seq<SColumn> {
    cols.filter(shown(fields)).map_values(|c: SColumn| adjust(fields, c))
}

pub open spec fn has_name(cols: Seq<SColumn>, name: Seq<char>) -> bool {
    exists|i: int| 0 <= i < cols.len() && #[trigger] cols[i].name == name
}

/// The column an extra field adds: type `string` unless given, nullable
/// unless required.
pub open spec fn extra_column(name: Seq<char>, f: SFieldOverride) -> SColumn {
    SColumn {
        name,
        data_type: match f.data_type {
            Some(t) => t,
            None => "string"@,
        },
        is_nullable: !(f.required == Some(true)),
        references: None,
        comment: f.comment,
    }
}

/// `cols` with the extra field `e` appended, unless a column of that name
/// is already there or the extra field is hidden.
pub open spec fn with_extra(cols: Seq<SColumn>, e: (Seq<char>, SFieldOverride)) -> Seq<SColumn> {
    if has_name(cols, e.0) || e.1.hidden == Some(true) {
        cols
    } else {
        cols.push(extra_column(e.0, e.1))
    }
}

/// The extra fields appended one after another, in order.
pub open spec fn with_extras(cols: Seq<SColumn>, es: SEntries) -> Seq<SColumn>
    decreases es.len(),
{
    if es.len() == 0 {
        cols
    } else {
        with_extra(with_extras(cols, es.drop_last()), es.last())
    }
}

/// The columns after applying the overrides of `collection`: unchanged
/// when it has none; otherwise hidden fields dropped, the others adjusted,
/// and the extra fields appended.
pub open spec fn apply_spec(cols: Seq<SColumn>, ov: Seq<(Seq<char>, SCollection)>, collection: Seq<char>) -> Seq<SColumn> {
    match find_entry(ov, collection) {
        None => cols,
        Some(c) => with_extras(kept_adjusted(cols, c.fields), c.extra_fields),
    }
}

fn copy_opt(o: &Option<String>) -> (r: Option<String>)
    ensures
        opt_view(r) == opt_view(*o),
{
    match o {
        Some(s) => Some(s.clone()),
        None => None,
    }
}

fn entry_at<'a>(fields: &'a Vec<(String, FieldOverride)>, name: &str) -> (r: Option<&'a FieldOverride>)
    ensures
        match find_entry(entries_view(fields@), name@) {
            Some(f) => r matches Some(x) && x@ == f,
            None => r is None,
        },
{
    let ghost ev = entries_view(fields@);
    let found = find_key(fields, name);
    match found {
        Some(i) => {
            proof {
                assert forall|j: int| 0 <= j < i implies ev[j].0 != name@ by {
                    assert(ev[j].0 == fields@[j].0@);
                }
                lemma_find_entry(ev, name@, i as int);
            }
            Some(&fields[i].1)
        },
        None => {
            proof {
                assert forall|j: int| 0 <= j < ev.len() implies ev[j].0 != name@ by {
                    assert(ev[j].0 == fields@[j].0@);
                }
                lemma_find_entry(ev, name@, -1);
            }
            None
        },
    }
}

fn adjusted_column(c: &ColumnInfo, f: Option<&FieldOverride>) -> (r: ColumnInfo)
    ensures
        r@ == match f {
            None => c@,
            Some(o) => SColumn {
                is_nullable: match o.required {
                    Some(req) => !req,
                    None => c.is_nullable,
                },
                data_type: match o.data_type {
                    Some(t) => t@,
                    None => c.data_type@,
                },
                comment: match o.comment {
                    Some(x) => Some(x@),
                    None => opt_view(c.comment),
                },
                ..c@
            },
        },
{
    let mut out = ColumnInfo {
        name: c.name.clone(),
        data_type: c.data_type.clone(),
        is_nullable: c.is_nullable,
        references: copy_opt(&c.references),
        comment: copy_opt(&c.comment),
    };
    match f {
        None => {},
        Some(o) => {
            match o.required {
                Some(req) => {
                    out.is_nullable = !req;
                },
                None => {},
            }
            match &o.data_type {
                Some(t) => {
                    out.data_type = t.clone();
                },
                None => {},
            }
            match &o.comment {
                Some(x) => {
                    out.comment = Some(x.clone());
                },
                None => {},
            }
        },
    }
    out
}

fn column_named(cols: &Vec<ColumnInfo>, name: &str) -> (r: bool)
    ensures
        r == has_name(columns_view(cols@), name@),
{
    let ghost cv = columns_view(cols@);
    let mut i: usize = 0;
    while i < cols.len()
        invariant
            cv == columns_view(cols@),
            0 <= i <= cols@.len(),
            forall|j: int| 0 <= j < i ==> cv[j].name != name@,
        decreases cols@.len() - i,
    {
        if same_text(cols[i].name.as_str(), name) {
            assert(cv[i as int].name == name@);
            return true;
        }
        i += 1;
    }
    false
}

/// Applies the overrides of `collection` to freshly inferred columns:
/// hidden fields are dropped first, then the field overrides (required,
/// type, comment) applied, then the extra fields not already present
/// appended in the order they are listed.
pub fn apply(columns: &mut Vec<ColumnInfo>, overrides: &SchemaOverrides, collection: &str)
    ensures
        columns_view(final(columns)@) == apply_spec(columns_view(old(columns)@), overrides@, collection@),
{
    let ghost ov = overrides@;
    let ghost cols0 = columns_view(columns@);
    let found = find_key(&overrides.collections, collection);
    let ci = match found {
        None => {
            proof {
                assert forall|j: int| 0 <= j < ov.len() implies ov[j].0 != collection@ by {
                    assert(ov[j].0 == overrides.collections@[j].0@);
                }
                lemma_find_entry(ov, collection@, -1);
            }
            return;
        },
        Some(i) => i,
    };
    proof {
        assert forall|j: int| 0 <= j < ci implies ov[j].0 != collection@ by {
            assert(ov[j].0 == overrides.collections@[j].0@);
        }
        lemma_find_entry(ov, collection@, ci as int);
    }
    let c = &overrides.collections[ci].1;
    let ghost fv = entries_view(c.fields@);
    let ghost pred = shown(fv);
    let ghost adj = |x: SColumn| adjust(fv, x);
    let mut out: Vec<ColumnInfo> = Vec::new();
    let mut i: usize = 0;
    assert(cols0.subrange(0, 0).filter(pred) =~= Seq::<SColumn>::empty()) by {
        reveal_with_fuel(Seq::filter, 1);
    }
    while i < columns.len()
        invariant
            cols0 == columns_view(columns@),
            fv == entries_view(c.fields@),
            pred == shown(fv),
            adj == (|x: SColumn| adjust(fv, x)),
            0 <= i <= columns@.len(),
            columns_view(out@) == cols0.subrange(0, i as int).filter(pred).map_values(adj),
        decreases columns@.len() - i,
    {
        let col = &columns[i];
        let f = entry_at(&c.fields, col.name.as_str());
        let hidden = match f {
            Some(o) => match o.hidden {
                Some(h) => h,
                None => false,
            },
            None => false,
        };
        let ghost before = columns_view(out@);
        proof {
            assert(cols0.subrange(0, i + 1) =~= cols0.subrange(0, i as int).push(col@));
            cols0.subrange(0, i as int).lemma_filter_push(col@, pred);
            assert(hidden == is_hidden(fv, col@.name));
        }
        if !hidden {
            let a = adjusted_column(col, f);
            let ghost av = a@;
            out.push(a);
            proof {
                assert(av == adjust(fv, col@));
                assert(columns_view(out@) =~= before.push(av));
                assert(cols0.subrange(0, i as int).filter(pred).push(col@).map_values(adj)
                    =~= cols0.subrange(0, i as int).filter(pred).map_values(adj).push(av));
            }
        }
        i += 1;
    }
    assert(cols0.subrange(0, columns@.len() as int) =~= cols0);
    let ghost base = columns_view(out@);
    let ghost ev = entries_view(c.extra_fields@);
    let mut k: usize = 0;
    assert(ev.subrange(0, 0) =~= Seq::<(Seq<char>, SFieldOverride)>::empty());
    while k < c.extra_fields.len()
        invariant
            ev == entries_view(c.extra_fields@),
            0 <= k <= c.extra_fields@.len(),
            columns_view(out@) == with_extras(base, ev.subrange(0, k as int)),
        decreases c.extra_fields@.len() - k,
    {
        let name = &c.extra_fields[k].0;
        let f = &c.extra_fields[k].1;
        let ghost before = columns_view(out@);
        let present = column_named(&out, name.as_str());
        let hidden = match f.hidden {
            Some(h) => h,
            None => false,
        };
        proof {
            let pre = ev.subrange(0, k + 1);
            assert(pre.drop_last() =~= ev.subrange(0, k as int));
            assert(pre.last() == (name@, f@));
        }
        if !present && !hidden {
            let col = ColumnInfo {
                name: name.clone(),
                data_type: match &f.data_type {
                    Some(t) => t.clone(),
                    None => owned("string"),
                },
                is_nullable: !match f.required {
                    Some(r) => r,
                    None => false,
                },
                references: None,
                comment: copy_opt(&f.comment),
            };
            let ghost cv = col@;
            out.push(col);
            proof {
                assert(cv == extra_column(name@, f@));
                assert(columns_view(out@) =~= before.push(cv));
            }
        }
        k += 1;
    }
    assert(ev.subrange(0, c.extra_fields@.len() as int) =~= ev);
    *columns = out;
}

pub open spec fn is_paren(c: char) -> bool {
    c == '(' || c == ')'
}

/// `s` without leading parentheses.
pub open spec fn strip_front(s: Seq<char>) -> Seq<char>
    decreases s.len(),
{
    if s.len() > 0 && is_paren(s[0]) {
        strip_front(s.drop_first())
    } else {
        s
    }
}

/// `s` without trailing parentheses.
pub open spec fn strip_back(s: Seq<char>) -> Seq<char>
    decreases s.len(),
{
    if s.len() > 0 && is_paren(s.last()) {
        strip_back(s.drop_last())
    } else {
        s
    }
}

/// `s.trim_matches(|c| c == '(' || c == ')')`.
pub open spec fn trim_parens(s: Seq<char>) -> Seq<char> {
    strip_back(strip_front(s))
}

fn trim_parens_exec(s: &str) -> (r: String)
    ensures
        r@ == trim_parens(s@),
{
    let n = s.unicode_len();
    let mut a: usize = 0;
    assert(s@.subrange(0, n as int) =~= s@);
    while a < n && (s.get_char(a) == '(' || s.get_char(a) == ')')
        invariant
            n == s@.len(),
            0 <= a <= n,
            strip_front(s@) == strip_front(s@.subrange(a as int, n as int)),
        decreases n - a,
    {
        assert(s@.subrange(a as int, n as int).drop_first() =~= s@.subrange(a + 1, n as int));
        a += 1;
    }
    let mut b: usize = n;
    assert(strip_front(s@.subrange(a as int, n as int)) == s@.subrange(a as int, n as int));
    while b > a && (s.get_char(b - 1) == '(' || s.get_char(b - 1) == ')')
        invariant
            n == s@.len(),
            0 <= a <= b <= n,
            trim_parens(s@) == strip_back(s@.subrange(a as int, b as int)),
        decreases b - a,
    {
        assert(s@.subrange(a as int, b as int).drop_last() =~= s@.subrange(a as int, b - 1));
        b -= 1;
    }
    let t = s.substring_char(a, b);
    owned(t)
}

/// The override files that may apply to `(project, database)`, most
/// specific first: `{project}_{database}.json`, with the parentheses of
/// `(default)` stripped from the database, then `{project}.json`.
pub fn override_file_names(project: &str, database: &str) -> (r: (String, String))
    ensures
        r.0@ == project@ + "_"@ + trim_parens(database@) + ".json"@,
        r.1@ == project@ + ".json"@,
{
    let db = trim_parens_exec(database);
    let mut primary = owned(project);
    push_str(&mut primary, "_");
    push_str(&mut primary, db.as_str());
    push_str(&mut primary, ".json");
    let mut fallback = owned(project);
    push_str(&mut fallback, ".json");
    (primary, fallback)
}

/// No two columns share a name.
pub open spec fn distinct_names(cols: Seq<SColumn>) -> bool {
    forall|i: int, j: int| 0 <= i < j < cols.len() ==> cols[i].name != cols[j].name
}

proof fn lemma_filter_distinct(cols: Seq<SColumn>, p: spec_fn(SColumn) -> bool)
    requires
        distinct_names(cols),
    ensures
        distinct_names(cols.filter(p)),
        forall|i: int| 0 <= i < cols.filter(p).len() ==> has_name(cols, #[trigger] cols.filter(p)[i].name),
    decreases cols.len(),
{
    if cols.len() > 0 {
        let rest = cols.drop_last();
        assert(distinct_names(rest));
        lemma_filter_distinct(rest, p);
        assert(cols =~= rest.push(cols.last()));
        rest.lemma_filter_push(cols.last(), p);
        let fr = rest.filter(p);
        assert forall|i: int| 0 <= i < fr.len() implies has_name(cols, #[trigger] fr[i].name) by {
            let k = choose|k: int| 0 <= k < rest.len() && #[trigger] rest[k].name == fr[i].name;
            assert(cols[k].name == fr[i].name);
        }
        if p(cols.last()) {
            let f = cols.filter(p);
            assert(f == fr.push(cols.last()));
            assert forall|i: int| 0 <= i < fr.len() implies fr[i].name != cols.last().name by {
                let k = choose|k: int| 0 <= k < rest.len() && #[trigger] rest[k].name == fr[i].name;
                assert(cols[k].name != cols[cols.len() - 1].name);
            }
            assert(has_name(cols, cols.last().name)) by {
                assert(cols[cols.len() - 1].name == cols.last().name);
            }
        }
    }
}

proof fn lemma_extras_distinct(cols: Seq<SColumn>, es: SEntries)
    requires
        distinct_names(cols),
    ensures
        distinct_names(with_extras(cols, es)),
    decreases es.len(),
{
    if es.len() > 0 {
        lemma_extras_distinct(cols, es.drop_last());
        let prev = with_extras(cols, es.drop_last());
        let e = es.last();
        if !(has_name(prev, e.0) || e.1.hidden == Some(true)) {
            let n = prev.push(extra_column(e.0, e.1));
            assert forall|i: int, j: int| 0 <= i < j < n.len() implies n[i].name != n[j].name by {
                if j == prev.len() {
                    assert(prev[i].name != e.0);
                }
            }
        }
    }
}

/// Applying overrides to columns with distinct names gives columns with
/// distinct names: an extra field never duplicates a column.
pub proof fn law_apply_keeps_names_distinct(
    cols: Seq<SColumn>,
    ov: Seq<(Seq<char>, SCollection)>,
    collection: Seq<char>,
)
    requires
        distinct_names(cols),
    ensures
        distinct_names(apply_spec(cols, ov, collection)),
{
    match find_entry(ov, collection) {
        None => {},
        Some(c) => {
            let p = shown(c.fields);
            lemma_filter_distinct(cols, p);
            let k = kept_adjusted(cols, c.fields);
            assert(distinct_names(k)) by {
                let f = cols.filter(p);
                assert forall|i: int, j: int| 0 <= i < j < k.len() implies k[i].name != k[j].name by {
                    assert(k[i].name == f[i].name && k[j].name == f[j].name);
                }
            }
            lemma_extras_distinct(k, c.extra_fields);
        },
    }
}

/// `with_extras` keeps `cols` as its prefix, and each column it appends is
/// the column of an extra field that is not hidden.
proof fn lemma_with_extras_prefix(cols: Seq<SColumn>, es: SEntries)
    ensures
        with_extras(cols, es).len() >= cols.len(),
        forall|i: int| 0 <= i < cols.len() ==> #[trigger] with_extras(cols, es)[i] == cols[i],
        forall|i: int|
            cols.len() <= i < with_extras(cols, es).len() ==> exists|k: int|
                0 <= k < es.len() && #[trigger] with_extras(cols, es)[i] == extra_column(
                    es[k].0,
                    es[k].1,
                ) && es[k].1.hidden != Some(true),
    decreases es.len(),
{
    if es.len() > 0 {
        let d = es.drop_last();
        lemma_with_extras_prefix(cols, d);
        let prev = with_extras(cols, d);
        let r = with_extras(cols, es);
        assert forall|i: int| cols.len() <= i < r.len() implies exists|k: int|
            0 <= k < es.len() && #[trigger] r[i] == extra_column(es[k].0, es[k].1) && es[k].1.hidden
                != Some(true) by {
            if i < prev.len() {
                assert(r[i] == prev[i]);
                let k = choose|k: int|
                    0 <= k < d.len() && #[trigger] prev[i] == extra_column(d[k].0, d[k].1)
                        && d[k].1.hidden != Some(true);
                assert(d[k] == es[k]);
            } else {
                assert(r[i] == extra_column(es[es.len() - 1].0, es[es.len() - 1].1));
            }
        }
    }
}

/// After `with_extras`, every extra field is hidden or names a column.
proof fn lemma_with_extras_covers(cols: Seq<SColumn>, es: SEntries)
    ensures
        forall|k: int|
            0 <= k < es.len() ==> has_name(with_extras(cols, es), #[trigger] es[k].0)
                || es[k].1.hidden == Some(true),
    decreases es.len(),
{
    if es.len() > 0 {
        let d = es.drop_last();
        lemma_with_extras_covers(cols, d);
        lemma_with_extras_prefix(cols, d);
        let prev = with_extras(cols, d);
        let r = with_extras(cols, es);
        assert forall|k: int| 0 <= k < es.len() implies has_name(r, #[trigger] es[k].0)
            || es[k].1.hidden == Some(true) by {
            if k < d.len() {
                assert(d[k] == es[k]);
                if has_name(prev, d[k].0) {
                    let j = choose|j: int| 0 <= j < prev.len() && #[trigger] prev[j].name == d[k].0;
                    assert(r[j] == prev[j]);
                }
            } else {
                if !has_name(prev, es[k].0) && es[k].1.hidden != Some(true) {
                    assert(r[prev.len() as int].name == es[k].0);
                }
            }
        }
    }
}

/// `with_extras` adds nothing when every extra field is hidden or already
/// names a column.
proof fn lemma_with_extras_noop(cols: Seq<SColumn>, es: SEntries)
    requires
        forall|k: int|
            0 <= k < es.len() ==> has_name(cols, #[trigger] es[k].0) || es[k].1.hidden == Some(true),
    ensures
        with_extras(cols, es) == cols,
    decreases es.len(),
{
    if es.len() > 0 {
        let d = es.drop_last();
        assert forall|k: int| 0 <= k < d.len() implies has_name(cols, #[trigger] d[k].0)
            || d[k].1.hidden == Some(true) by {
            assert(d[k] == es[k]);
        }
        lemma_with_extras_noop(cols, d);
        assert(es.last() == es[es.len() - 1]);
    }
}

/// Filtering by a predicate every item satisfies keeps the sequence.
proof fn lemma_filter_all<A>(s: Seq<A>, p: spec_fn(A) -> bool)
    requires
        forall|i: int| 0 <= i < s.len() ==> p(#[trigger] s[i]),
    ensures
        s.filter(p) == s,
    decreases s.len(),
{
    if s.len() == 0 {
        assert(s.filter(p) =~= s) by {
            reveal(Seq::filter);
        }
    } else {
        let d = s.drop_last();
        lemma_filter_all(d, p);
        assert(d.push(s.last()) =~= s);
        d.lemma_filter_push(s.last(), p);
        assert(p(s[s.len() - 1]));
    }
}

/// Applying a collection's overrides a second time changes nothing, as
/// long as no extra field of the collection also has a field override.
pub proof fn law_apply_idempotent(
    cols: Seq<SColumn>,
    ov: Seq<(Seq<char>, SCollection)>,
    collection: Seq<char>,
)
    requires
        find_entry(ov, collection) matches Some(c) ==> forall|k: int|
            0 <= k < c.extra_fields.len() ==> find_entry(c.fields, #[trigger] c.extra_fields[k].0)
                is None,
    ensures
        apply_spec(apply_spec(cols, ov, collection), ov, collection) == apply_spec(
            cols,
            ov,
            collection,
        ),
{
    match find_entry(ov, collection) {
        None => {},
        Some(c) => {
            let fs = c.fields;
            let es = c.extra_fields;
            let p = shown(fs);
            let f = cols.filter(p);
            let k = kept_adjusted(cols, fs);
            let r = with_extras(k, es);
            lemma_with_extras_prefix(k, es);
            lemma_with_extras_covers(k, es);
            assert forall|i: int| 0 <= i < f.len() implies p(#[trigger] f[i]) by {
                cols.lemma_filter_pred(p, i);
            }
            assert forall|i: int| 0 <= i < r.len() implies p(#[trigger] r[i]) && adjust(fs, r[i])
                == r[i] by {
                if i < k.len() {
                    assert(r[i] == k[i]);
                    assert(k[i] == adjust(fs, f[i]));
                    assert(p(f[i]));
                } else {
                    let j = choose|j: int|
                        0 <= j < es.len() && #[trigger] r[i] == extra_column(es[j].0, es[j].1)
                            && es[j].1.hidden != Some(true);
                    assert(find_entry(fs, es[j].0) is None);
                }
            }
            lemma_filter_all(r, p);
            assert(kept_adjusted(r, fs) =~= r);
            assert forall|j: int| 0 <= j < es.len() implies has_name(r, #[trigger] es[j].0)
                || es[j].1.hidden == Some(true) by {}
            lemma_with_extras_noop(r, es);
        },
    }
}

/// A column `with_extras` appends has a name no column of `cols` has.
proof fn lemma_with_extras_fresh(cols: Seq<SColumn>, es: SEntries)
    ensures
        forall|k: int|
            cols.len() <= k < with_extras(cols, es).len() ==> !has_name(
                cols,
                #[trigger] with_extras(cols, es)[k].name,
            ),
    decreases es.len(),
{
    if es.len() > 0 {
        let d = es.drop_last();
        lemma_with_extras_fresh(cols, d);
        lemma_with_extras_prefix(cols, d);
        let prev = with_extras(cols, d);
        let r = with_extras(cols, es);
        let e = es.last();
        assert forall|k: int| cols.len() <= k < r.len() implies !has_name(cols, #[trigger] r[k].name) by {
            if k < prev.len() {
                assert(r[k] == prev[k]);
            } else {
                assert(r[k].name == e.0);
                assert(!has_name(prev, e.0));
                if has_name(cols, e.0) {
                    let j = choose|j: int| 0 <= j < cols.len() && #[trigger] cols[j].name == e.0;
                    assert(prev[j] == cols[j]);
                }
            }
        }
    }
}

/// A field override of a collection shapes the column of that name: when
/// it is not hidden, the column stays, and every column of that name
/// after `apply` has the override's type when it gives one, is nullable
/// exactly when `required` is false when that is given, and has the
/// override's comment when it gives one, whatever else the override sets.
pub proof fn law_field_override_shapes_column(
    cols: Seq<SColumn>,
    ov: Seq<(Seq<char>, SCollection)>,
    collection: Seq<char>,
    name: Seq<char>,
)
    requires
        find_entry(ov, collection) matches Some(c) && find_entry(c.fields, name) matches Some(f) && f.hidden
            != Some(true),
        has_name(cols, name),
    ensures
        has_name(apply_spec(cols, ov, collection), name),
        forall|k: int|
            0 <= k < apply_spec(cols, ov, collection).len() && #[trigger] apply_spec(
                cols,
                ov,
                collection,
            )[k].name == name ==> {
                let col = apply_spec(cols, ov, collection)[k];
                let f = find_entry(find_entry(ov, collection)->0.fields, name)->0;
                &&& (f.data_type matches Some(t) ==> col.data_type == t)
                &&& (f.required matches Some(req) ==> col.is_nullable == !req)
                &&& (f.comment matches Some(cm) ==> col.comment == Some(cm))
            },
{
    let c = find_entry(ov, collection)->0;
    let fs = c.fields;
    let f = find_entry(fs, name)->0;
    let p = shown(fs);
    let filtered = cols.filter(p);
    let kept = kept_adjusted(cols, fs);
    let r = with_extras(kept, c.extra_fields);
    lemma_with_extras_prefix(kept, c.extra_fields);
    lemma_with_extras_fresh(kept, c.extra_fields);
    let i = choose|i: int| 0 <= i < cols.len() && #[trigger] cols[i].name == name;
    assert(p(cols[i]));
    cols.lemma_filter_contains(p, i);
    let j = choose|j: int| 0 <= j < filtered.len() && filtered[j] == cols[i];
    assert(kept[j] == adjust(fs, filtered[j]));
    assert(kept[j].name == name);
    assert(has_name(kept, name));
    assert(r[j] == kept[j]);
    assert forall|k: int| 0 <= k < r.len() && #[trigger] r[k].name == name implies {
        &&& (f.data_type matches Some(t) ==> r[k].data_type == t)
        &&& (f.required matches Some(req) ==> r[k].is_nullable == !req)
        &&& (f.comment matches Some(cm) ==> r[k].comment == Some(cm))
    } by {
        if k < kept.len() {
            assert(r[k] == kept[k]);
            assert(kept[k] == adjust(fs, filtered[k]));
        } else {
            assert(!has_name(kept, r[k].name));
        }
    }
}

/// A field a collection's overrides hide has no column after `apply`,
/// unless an extra field of that name adds one back.
pub proof fn law_hidden_field_dropped(
    cols: Seq<SColumn>,
    ov: Seq<(Seq<char>, SCollection)>,
    collection: Seq<char>,
    name: Seq<char>,
)
    requires
        find_entry(ov, collection) matches Some(c) && find_entry(c.fields, name) matches Some(f) && f.hidden
            == Some(true) && forall|k: int| 0 <= k < c.extra_fields.len() ==> #[trigger] c.extra_fields[k].0
            != name,
    ensures
        !has_name(apply_spec(cols, ov, collection), name),
{
    let c = find_entry(ov, collection)->0;
    let fs = c.fields;
    let p = shown(fs);
    let filtered = cols.filter(p);
    let kept = kept_adjusted(cols, fs);
    let r = with_extras(kept, c.extra_fields);
    lemma_with_extras_prefix(kept, c.extra_fields);
    assert forall|k: int| 0 <= k < r.len() implies #[trigger] r[k].name != name by {
        if k < kept.len() {
            assert(r[k] == kept[k]);
            assert(kept[k] == adjust(fs, filtered[k]));
            cols.lemma_filter_pred(p, k);
        } else {
            let j = choose|j: int|
                0 <= j < c.extra_fields.len() && #[trigger] r[k] == extra_column(
                    c.extra_fields[j].0,
                    c.extra_fields[j].1,
                ) && c.extra_fields[j].1.hidden != Some(true);
            assert(c.extra_fields[j].0 != name);
        }
    }
}

/// An extra field that is not hidden, named once among the extra fields
/// and by no column, is a column after `apply`: of its declared type, else
/// `string`; nullable unless it is required; with its comment.
pub proof fn law_extra_field_added(
    cols: Seq<SColumn>,
    ov: Seq<(Seq<char>, SCollection)>,
    collection: Seq<char>,
    k: int,
)
    requires
        find_entry(ov, collection) matches Some(c) && 0 <= k < c.extra_fields.len()
            && c.extra_fields[k].1.hidden != Some(true) && !has_name(cols, c.extra_fields[k].0) && forall|
            j: int,
        | 0 <= j < c.extra_fields.len() && j != k ==> #[trigger] c.extra_fields[j].0
            != c.extra_fields[k].0,
    ensures
        ({
            let c = find_entry(ov, collection)->0;
            let e = c.extra_fields[k];
            let r = apply_spec(cols, ov, collection);
            &&& has_name(r, e.0)
            &&& forall|i: int|
                0 <= i < r.len() && #[trigger] r[i].name == e.0 ==> r[i].data_type == (match e.1.data_type {
                    Some(t) => t,
                    None => "string"@,
                }) && r[i].is_nullable == (e.1.required != Some(true)) && r[i].comment == e.1.comment
        }),
{
    let c = find_entry(ov, collection)->0;
    let es = c.extra_fields;
    let e = es[k];
    let fs = c.fields;
    let p = shown(fs);
    let filtered = cols.filter(p);
    let kept = kept_adjusted(cols, fs);
    let r = with_extras(kept, es);
    lemma_with_extras_prefix(kept, es);
    lemma_with_extras_covers(kept, es);
    assert(!has_name(kept, e.0)) by {
        if has_name(kept, e.0) {
            let i = choose|i: int| 0 <= i < kept.len() && #[trigger] kept[i].name == e.0;
            assert(kept[i] == adjust(fs, filtered[i]));
            let f = filtered[i];
            assert(filtered.contains(f));
            cols.lemma_filter_contains_rev(p, f);
            let j = choose|j: int| 0 <= j < cols.len() && cols[j] == f;
            assert(cols[j].name == e.0);
        }
    }
    assert(has_name(r, e.0));
    assert forall|i: int| 0 <= i < r.len() && #[trigger] r[i].name == e.0 implies r[i].data_type == (
    match e.1.data_type {
        Some(t) => t,
        None => "string"@,
    }) && r[i].is_nullable == (e.1.required != Some(true)) && r[i].comment == e.1.comment by {
        if i < kept.len() {
            assert(r[i] == kept[i]);
        } else {
            let j = choose|j: int|
                0 <= j < es.len() && #[trigger] r[i] == extra_column(es[j].0, es[j].1) && es[j].1.hidden
                    != Some(true);
            assert(j == k);
        }
    }
}

} // verus!
