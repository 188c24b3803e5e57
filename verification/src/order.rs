//! The order `str` compares by (lexicographic over Unicode scalar values,
//! which is the byte order of their UTF-8 encodings), sorting and joining
//! lists of texts.
use vstd::prelude::*;
use vstd::multiset::Multiset;
use vstd::relations::{sorted_by, total_ordering};
use vstd::string::*;
use crate::ast::strings_view;

verus! {

/// `a <= b` for texts, as `str`'s `Ord` orders them.
pub open spec fn text_le(a: Seq<char>, b: Seq<char>) -> bool
    decreases a.len(),
{
    if a.len() == 0 {
        true
    } else if b.len() == 0 {
        false
    } else if a[0] != b[0] {
        (a[0] as int) < (b[0] as int)
    } else {
        text_le(a.drop_first(), b.drop_first())
    }
}

/// `text_le` as a relation.
pub open spec fn text_order() -> spec_fn(Seq<char>, Seq<char>) -> bool {
    |a: Seq<char>, b: Seq<char>| text_le(a, b)
}

/// `v.sort()` for a list of texts.
pub open spec fn sorted_texts(v: Seq<Seq<char>>) -> Seq<Seq<char>> {
    v.sort_by(text_order())
}

/// The distinct texts of `v`, in order.
pub open spec fn distinct_sorted_texts(v: Seq<Seq<char>>) -> Seq<Seq<char>> {
    v.to_set().to_sorted_seq(text_order())
}

/// `pieces.join(sep)`.
pub open spec fn join(pieces: Seq<Seq<char>>, sep: Seq<char>) -> Seq<char>
    decreases pieces.len(),
{
    if pieces.len() == 0 {
        Seq::empty()
    } else if pieces.len() == 1 {
        pieces[0]
    } else {
        join(pieces.drop_last(), sep) + sep + pieces.last()
    }
}

proof fn lemma_le_reflexive(a: Seq<char>)
    ensures
        text_le(a, a),
    decreases a.len(),
{
    if a.len() > 0 {
        lemma_le_reflexive(a.drop_first());
    }
}

proof fn lemma_le_antisymmetric(a: Seq<char>, b: Seq<char>)
    requires
        text_le(a, b),
        text_le(b, a),
    ensures
        a == b,
    decreases a.len(),
{
    if a.len() > 0 && b.len() > 0 {
        lemma_le_antisymmetric(a.drop_first(), b.drop_first());
        assert(a =~= seq![a[0]] + a.drop_first());
        assert(b =~= seq![b[0]] + b.drop_first());
    }
}

proof fn lemma_le_transitive(a: Seq<char>, b: Seq<char>, c: Seq<char>)
    requires
        text_le(a, b),
        text_le(b, c),
    ensures
        text_le(a, c),
    decreases a.len(),
{
    if a.len() > 0 && b.len() > 0 && c.len() > 0 && a[0] == b[0] && b[0] == c[0] {
        lemma_le_transitive(a.drop_first(), b.drop_first(), c.drop_first());
    }
}

proof fn lemma_le_total(a: Seq<char>, b: Seq<char>)
    ensures
        text_le(a, b) || text_le(b, a),
    decreases a.len(),
{
    if a.len() > 0 && b.len() > 0 && a[0] == b[0] {
        lemma_le_total(a.drop_first(), b.drop_first());
    }
}

/// `text_le` is a total order.
pub proof fn lemma_text_order_total()
    ensures
        total_ordering(text_order()),
{
    let r = text_order();
    assert forall|x: Seq<char>| #[trigger] r(x, x) by {
        lemma_le_reflexive(x);
    }
    assert forall|x: Seq<char>, y: Seq<char>| #[trigger] r(x, y) && #[trigger] r(y, x) implies x
        == y by {
        lemma_le_antisymmetric(x, y);
    }
    assert forall|x: Seq<char>, y: Seq<char>, z: Seq<char>| #[trigger] r(x, y) && #[trigger] r(
        y,
        z,
    ) implies r(x, z) by {
        lemma_le_transitive(x, y, z);
    }
    assert forall|x: Seq<char>, y: Seq<char>| #[trigger] r(x, y) || #[trigger] r(y, x) by {
        lemma_le_total(x, y);
    }
}

/// Sorting depends only on which texts occur how often, not on their order.
pub proof fn lemma_sorted_texts_permutation(a: Seq<Seq<char>>, b: Seq<Seq<char>>)
    requires
        a.to_multiset() == b.to_multiset(),
    ensures
        sorted_texts(a) == sorted_texts(b),
{
    lemma_text_order_total();
    a.lemma_sort_by_ensures(text_order());
    b.lemma_sort_by_ensures(text_order());
    vstd::seq_lib::lemma_sorted_unique(sorted_texts(a), sorted_texts(b), text_order());
}

/// A sorted rearrangement of `v` is `sorted_texts(v)`.
proof fn lemma_sorted_is_sort(v: Seq<Seq<char>>, l: Seq<Seq<char>>)
    requires
        sorted_by(l, text_order()),
        l.to_multiset() == v.to_multiset(),
    ensures
        l == sorted_texts(v),
{
    lemma_text_order_total();
    v.lemma_sort_by_ensures(text_order());
    vstd::seq_lib::lemma_sorted_unique(l, sorted_texts(v), text_order());
}

/// A set's listing has no repeats.
proof fn lemma_to_seq_no_duplicates(s: Set<Seq<char>>)
    requires
        s.finite(),
    ensures
        s.to_seq().no_duplicates(),
    decreases s.len(),
{
    if s.len() > 0 {
        let x = s.choose();
        let rest = s.remove(x);
        lemma_to_seq_no_duplicates(rest);
        rest.lemma_to_seq_to_set_id();
        let l = s.to_seq();
        assert(l =~= seq![x] + rest.to_seq());
        assert(!rest.to_seq().to_set().contains(x));
        assert forall|i: int, j: int| 0 <= i < l.len() && 0 <= j < l.len() && i != j implies l[i]
            != l[j] by {
            if i == 0 {
                assert(rest.to_seq().to_set().contains(l[j]));
            } else if j == 0 {
                assert(rest.to_seq().to_set().contains(l[i]));
            }
        }
    }
}

/// Two repeat-free lists with the same elements hold each element once.
proof fn lemma_same_set_same_multiset(a: Seq<Seq<char>>, b: Seq<Seq<char>>)
    requires
        a.no_duplicates(),
        b.no_duplicates(),
        a.to_set() == b.to_set(),
    ensures
        a.to_multiset() == b.to_multiset(),
{
    broadcast use vstd::seq_lib::group_to_multiset_ensures;

    a.lemma_multiset_has_no_duplicates();
    b.lemma_multiset_has_no_duplicates();
    assert forall|x: Seq<char>| a.to_multiset().count(x) == b.to_multiset().count(x) by {
        if a.contains(x) {
            assert(a.to_set().contains(x));
            assert(b.contains(x));
        } else if b.contains(x) {
            assert(b.to_set().contains(x));
            assert(a.contains(x));
        }
    }
    assert(a.to_multiset() =~= b.to_multiset());
}

/// A sorted repeat-free list of the texts of `v` is their distinct listing.
proof fn lemma_distinct_sorted_is_listing(v: Seq<Seq<char>>, l: Seq<Seq<char>>)
    requires
        sorted_by(l, text_order()),
        l.no_duplicates(),
        l.to_set() == v.to_set(),
    ensures
        l == distinct_sorted_texts(v),
{
    let s = v.to_set();
    vstd::seq_lib::seq_to_set_is_finite(v);
    lemma_to_seq_no_duplicates(s);
    s.lemma_to_seq_to_set_id();
    lemma_same_set_same_multiset(l, s.to_seq());
    lemma_sorted_is_sort(s.to_seq(), l);
}

/// `a <= b` for texts.
pub fn text_le_exec(a: &str, b: &str) -> (r: bool)
    ensures
        r == text_le(a@, b@),
{
    let n = a.unicode_len();
    let m = b.unicode_len();
    let mut i: usize = 0;
    assert(a@.skip(0) =~= a@ && b@.skip(0) =~= b@);
    while i < n && i < m
        invariant
            n == a@.len(),
            m == b@.len(),
            0 <= i <= n,
            i <= m,
            text_le(a@, b@) == text_le(a@.skip(i as int), b@.skip(i as int)),
        decreases n - i,
    {
        let x = a.get_char(i);
        let y = b.get_char(i);
        if x != y {
            return (x as u32) < (y as u32);
        }
        assert(a@.skip(i as int).drop_first() =~= a@.skip(i + 1));
        assert(b@.skip(i as int).drop_first() =~= b@.skip(i + 1));
        i += 1;
    }
    i == n
}

/// The elements of `l` before position `k` are `<= x`, those from `k` on are
/// not.
spec fn split_at_text(l: Seq<Seq<char>>, x: Seq<char>, k: int) -> bool {
    &&& 0 <= k <= l.len()
    &&& forall|i: int| 0 <= i < k ==> text_le(#[trigger] l[i], x)
    &&& forall|i: int| k <= i < l.len() ==> !text_le(#[trigger] l[i], x)
}

/// The first position of a sorted `out` whose text is not `<= x`.
fn upper_position(out: &Vec<String>, x: &str) -> (k: usize)
    requires
        sorted_by(strings_view(out@), text_order()),
    ensures
        split_at_text(strings_view(out@), x@, k as int),
{
    let ghost l = strings_view(out@);
    let mut k: usize = 0;
    while k < out.len() && text_le_exec(out[k].as_str(), x)
        invariant
            l == strings_view(out@),
            sorted_by(l, text_order()),
            0 <= k <= out@.len(),
            forall|i: int| 0 <= i < k ==> text_le(#[trigger] l[i], x@),
        decreases out@.len() - k,
    {
        k += 1;
    }
    proof {
        lemma_text_order_total();
        if k < out@.len() {
            assert forall|i: int| k <= i < l.len() implies !text_le(#[trigger] l[i], x@) by {
                if text_le(l[i], x@) {
                    assert(text_order()(l[k as int], l[i]));
                    lemma_le_transitive(l[k as int], l[i], x@);
                }
            }
        }
    }
    k
}

/// Inserting `x` where `split_at_text` puts it keeps the list sorted.
proof fn lemma_insert_sorted(l: Seq<Seq<char>>, x: Seq<char>, k: int)
    requires
        sorted_by(l, text_order()),
        split_at_text(l, x, k),
    ensures
        sorted_by(l.insert(k, x), text_order()),
{
    lemma_text_order_total();
    let n = l.insert(k, x);
    assert forall|i: int, j: int| 0 <= i < j < n.len() implies #[trigger] text_order()(
        n[i],
        n[j],
    ) by {
        if j < k {
            assert(text_order()(l[i], l[j]));
        } else if j == k {
            assert(text_le(l[i], x));
        } else if i < k {
            assert(text_order()(l[i], l[j - 1]));
        } else if i == k {
            lemma_le_total(l[j - 1], x);
        } else {
            assert(text_order()(l[i - 1], l[j - 1]));
        }
    }
}

/// Inserting one text adds one copy of it.
proof fn lemma_insert_multiset(l: Seq<Seq<char>>, k: int, x: Seq<char>)
    requires
        0 <= k <= l.len(),
    ensures
        l.insert(k, x).to_multiset() =~= l.to_multiset().insert(x),
{
    broadcast use vstd::seq_lib::group_to_multiset_ensures;
    broadcast use vstd::multiset::group_multiset_axioms;

    let n = l.insert(k, x);
    l.insert_ensures(k, x);
    assert(n.remove(k) =~= l);
    assert(n.contains(x)) by {
        assert(n[k] == x);
    }
    assert forall|y: Seq<char>| n.to_multiset().count(y) == l.to_multiset().insert(x).count(y) by {
        assert(l.to_multiset() == n.to_multiset().remove(x));
    }
}

/// `v.sort()` for strings.
pub fn sort_strings(v: &Vec<String>) -> (r: Vec<String>)
    ensures
        strings_view(r@) == sorted_texts(strings_view(v@)),
{
    broadcast use vstd::seq_lib::group_to_multiset_ensures;

    let ghost src = strings_view(v@);
    let mut out: Vec<String> = Vec::new();
    let mut i: usize = 0;
    while i < v.len()
        invariant
            src == strings_view(v@),
            0 <= i <= v@.len(),
            sorted_by(strings_view(out@), text_order()),
            strings_view(out@).to_multiset() == src.subrange(0, i as int).to_multiset(),
        decreases v@.len() - i,
    {
        let x = v[i].clone();
        let ghost xv = x@;
        proof {
            assert(src.subrange(0, i + 1) =~= src.subrange(0, i as int).push(xv));
        }
        let k = upper_position(&out, x.as_str());
        let ghost old_out = strings_view(out@);
        out.insert(k, x);
        proof {
            assert(strings_view(out@) =~= old_out.insert(k as int, xv));
            lemma_insert_sorted(old_out, xv, k as int);
            lemma_insert_multiset(old_out, k as int, xv);
            src.subrange(0, i as int).to_multiset_ensures();
            assert(src.subrange(0, i as int).push(xv).to_multiset() =~= src.subrange(
                0,
                i as int,
            ).to_multiset().insert(xv));
            assert(strings_view(out@).to_multiset() =~= old_out.to_multiset().insert(xv));
        }
        i += 1;
    }
    proof {
        assert(src.subrange(0, v@.len() as int) =~= src);
        lemma_sorted_is_sort(src, strings_view(out@));
    }
    out
}

/// The distinct texts of `v` in ascending order.
pub fn sorted_distinct_strings(v: &Vec<String>) -> (r: Vec<String>)
    ensures
        strings_view(r@) == distinct_sorted_texts(strings_view(v@)),
{
    let ghost src = strings_view(v@);
    let mut out: Vec<String> = Vec::new();
    let mut i: usize = 0;
    while i < v.len()
        invariant
            src == strings_view(v@),
            0 <= i <= v@.len(),
            sorted_by(strings_view(out@), text_order()),
            strings_view(out@).no_duplicates(),
            strings_view(out@).to_set() == src.subrange(0, i as int).to_set(),
        decreases v@.len() - i,
    {
        let x = &v[i];
        let ghost xv = x@;
        let ghost old_out = strings_view(out@);
        let k = upper_position(&out, x.as_str());
        proof {
            assert(src.subrange(0, i + 1) =~= src.subrange(0, i as int).push(xv));
            src.subrange(0, i as int).lemma_push_to_set_commute(xv);
        }
        let dup = k > 0 && text_le_exec(x.as_str(), out[k - 1].as_str());
        if dup {
            proof {
                lemma_le_antisymmetric(old_out[k - 1], xv);
                assert(old_out.to_set().contains(xv));
                assert(old_out.to_set() =~= old_out.to_set().insert(xv));
            }
        } else {
            out.insert(k, x.clone());
            proof {
                assert(strings_view(out@) =~= old_out.insert(k as int, xv));
                lemma_insert_sorted(old_out, xv, k as int);
                old_out.insert_ensures(k as int, xv);
                assert(!old_out.contains(xv)) by {
                    if old_out.contains(xv) {
                        let j = choose|j: int| 0 <= j < old_out.len() && old_out[j] == xv;
                        lemma_le_reflexive(xv);
                        if j >= k {
                        } else {
                            lemma_text_order_total();
                            assert(text_order()(old_out[j], old_out[k - 1]));
                            assert(text_le(old_out[k - 1], xv));
                            lemma_le_antisymmetric(old_out[k - 1], xv);
                        }
                    }
                }
                let n = old_out.insert(k as int, xv);
                assert forall|a: int, b: int| 0 <= a < n.len() && 0 <= b < n.len() && a != b implies n[a]
                    != n[b] by {
                    if a == k {
                        assert(old_out.contains(n[b]) || b == k);
                    } else if b == k {
                        assert(old_out.contains(n[a]) || a == k);
                    }
                }
                assert(n.to_set() =~= old_out.to_set().insert(xv)) by {
                    assert forall|y: Seq<char>| n.to_set().contains(y) <==> old_out.to_set().insert(
                        xv,
                    ).contains(y) by {
                        if n.to_set().contains(y) {
                            let j = choose|j: int| 0 <= j < n.len() && n[j] == y;
                            if j < k {
                                assert(old_out[j] == y);
                            } else if j > k {
                                assert(old_out[j - 1] == y);
                            }
                        }
                        if old_out.to_set().contains(y) {
                            let j = choose|j: int| 0 <= j < old_out.len() && old_out[j] == y;
                            if j < k {
                                assert(n[j] == y);
                            } else {
                                assert(n[j + 1] == y);
                            }
                        }
                        if y == xv {
                            assert(n[k as int] == y);
                        }
                    }
                }
            }
        }
        i += 1;
    }
    proof {
        assert(src.subrange(0, v@.len() as int) =~= src);
        lemma_distinct_sorted_is_listing(src, strings_view(out@));
    }
    out
}

/// `pieces.join(sep)`.
pub fn join_strings(pieces: &Vec<String>, sep: &str) -> (r: String)
    ensures
        r@ == join(strings_view(pieces@), sep@),
{
    let ghost l = strings_view(pieces@);
    let mut out = String::new();
    let mut i: usize = 0;
    while i < pieces.len()
        invariant
            l == strings_view(pieces@),
            0 <= i <= pieces@.len(),
            out@ == join(l.subrange(0, i as int), sep@),
        decreases pieces@.len() - i,
    {
        if i > 0 {
            out.append(sep);
        }
        out.append(pieces[i].as_str());
        proof {
            let pre = l.subrange(0, i + 1);
            assert(pre.drop_last() =~= l.subrange(0, i as int));
            if i == 0 {
                assert(join(l.subrange(0, 0), sep@) =~= Seq::<char>::empty());
            }
        }
        i += 1;
    }
    proof {
        assert(l.subrange(0, pieces@.len() as int) =~= l);
    }
    out
}

/// The distinct listing of `v` is sorted, holds each text once, and holds
/// exactly the texts of `v`.
pub proof fn lemma_distinct_sorted_texts(v: Seq<Seq<char>>)
    ensures
        sorted_by(distinct_sorted_texts(v), text_order()),
        distinct_sorted_texts(v).no_duplicates(),
        distinct_sorted_texts(v).to_set() == v.to_set(),
{
    broadcast use vstd::seq_lib::group_to_multiset_ensures;
    broadcast use vstd::multiset::group_multiset_axioms;

    let s = v.to_set();
    vstd::seq_lib::seq_to_set_is_finite(v);
    lemma_to_seq_no_duplicates(s);
    s.lemma_to_seq_to_set_id();
    lemma_text_order_total();
    let l0 = s.to_seq();
    l0.lemma_sort_by_ensures(text_order());
    let l = distinct_sorted_texts(v);
    assert(l.to_multiset() == l0.to_multiset());
    l0.lemma_multiset_has_no_duplicates();
    assert forall|i: int, j: int| 0 <= i < l.len() && 0 <= j < l.len() && i != j implies l[i] != l[j] by {
        if l[i] == l[j] {
            assert(l.remove(i).contains(l[j])) by {
                let k = if j < i { j } else { j - 1 };
                assert(l.remove(i)[k] == l[j]);
            }
            assert(l.remove(i).to_multiset() == l.to_multiset().remove(l[i]));
            assert(l.remove(i).to_multiset().count(l[i]) > 0);
            assert(l.to_multiset().count(l[i]) >= 2);
            assert(l0.to_multiset().contains(l[i]));
            assert(false);
        }
    }
    assert forall|x: Seq<char>| l.to_set().contains(x) == s.contains(x) by {
        assert(l.to_multiset().count(x) == l0.to_multiset().count(x));
        assert(l.contains(x) == l0.contains(x));
    }
    assert(l.to_set() =~= s);
}

} // verus!
