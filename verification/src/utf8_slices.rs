//! Facts about slices of UTF-8 text cut next to ASCII bytes, and the one
//! call into `std::str::from_utf8` the lexer makes.
use vstd::prelude::*;
use vstd::utf8::*;

verus! {

/// Encoding a concatenation encodes each part in turn.
pub proof fn lemma_encode_concat(a: Seq<char>, b: Seq<char>)
    ensures
        encode_utf8(a + b) == encode_utf8(a) + encode_utf8(b),
    decreases a.len(),
{
    if a.len() == 0 {
        assert(a + b =~= b);
        assert(encode_utf8(a) =~= Seq::<u8>::empty());
        assert(encode_utf8(a) + encode_utf8(b) =~= encode_utf8(b));
    } else {
        assert((a + b).drop_first() =~= a.drop_first() + b);
        assert((a + b)[0] == a[0]);
        lemma_encode_concat(a.drop_first(), b);
        assert(encode_utf8(a + b) =~= encode_scalar(a[0] as u32) + (encode_utf8(a.drop_first())
            + encode_utf8(b)));
    }
}

proof fn lemma_multibyte_high(c: u32)
    requires
        !has_width_1_encoding(c),
        is_scalar(c),
    ensures
        forall|k: int| 0 <= k < encode_scalar(c).len() ==> encode_scalar(c)[k] >= 128,
        encode_scalar(c).len() >= 2,
{
    if has_width_2_encoding(c) {
        assert(leading_byte_width_2(c) >= 128) by (bit_vector)
            requires
                has_width_2_encoding(c),
        ;
        assert(last_continuation_byte(c) >= 128) by (bit_vector);
    } else if has_width_3_encoding(c) {
        assert(leading_byte_width_3(c) >= 128) by (bit_vector)
            requires
                has_width_3_encoding(c),
        ;
        assert(second_last_continuation_byte(c) >= 128) by (bit_vector);
        assert(last_continuation_byte(c) >= 128) by (bit_vector);
    } else {
        assert(leading_byte_width_4(c) >= 128) by (bit_vector)
            requires
                !has_width_1_encoding(c),
                !has_width_2_encoding(c),
                !has_width_3_encoding(c),
                is_scalar(c),
        ;
        assert(third_last_continuation_byte(c) >= 128) by (bit_vector);
        assert(second_last_continuation_byte(c) >= 128) by (bit_vector);
        assert(last_continuation_byte(c) >= 128) by (bit_vector);
    }
}

proof fn lemma_width1(c: u32)
    requires
        has_width_1_encoding(c),
    ensures
        encode_scalar(c).len() == 1,
        encode_scalar(c)[0] == c,
        c < 128,
{
    assert(leading_byte_width_1(c) == c) by (bit_vector)
        requires
            has_width_1_encoding(c),
    ;
    assert(c < 128) by (bit_vector)
        requires
            has_width_1_encoding(c),
    ;
}

/// An ASCII byte of an encoding sits on a character boundary and is that
/// character.
pub proof fn lemma_ascii_boundary(cs: Seq<char>, k: int) -> (j: int)
    requires
        0 <= k < encode_utf8(cs).len(),
        encode_utf8(cs)[k] < 128,
    ensures
        0 <= j < cs.len(),
        encode_utf8(cs.take(j)).len() == k,
        encode_utf8(cs.take(j + 1)).len() == k + 1,
    decreases cs.len(),
{
    let c = cs[0] as u32;
    char_is_scalar(cs[0]);
    let w = encode_scalar(c).len() as int;
    let rest = cs.drop_first();
    assert(encode_utf8(cs) == encode_scalar(c) + encode_utf8(rest));
    assert(cs.take(0) =~= Seq::<char>::empty());
    assert(encode_utf8(cs.take(0)) =~= Seq::<u8>::empty());
    if has_width_1_encoding(c) {
        lemma_width1(c);
    } else {
        lemma_multibyte_high(c);
    }
    if k < w {
        if !has_width_1_encoding(c) {
            assert(encode_utf8(cs)[k] == encode_scalar(c)[k]);
            assert(false);
        }
        assert(cs.take(1) =~= seq![cs[0]]);
        assert(cs.take(1).drop_first() =~= Seq::<char>::empty());
        assert(encode_utf8(cs.take(1)) =~= encode_scalar(c) + encode_utf8(Seq::<char>::empty()));
        0
    } else {
        assert(encode_utf8(rest)[k - w] == encode_utf8(cs)[k]);
        let j0 = lemma_ascii_boundary(rest, k - w);
        assert(cs.take(j0 + 1) =~= seq![cs[0]] + rest.take(j0));
        assert(cs.take(j0 + 2) =~= seq![cs[0]] + rest.take(j0 + 1));
        lemma_encode_concat(seq![cs[0]], rest.take(j0));
        lemma_encode_concat(seq![cs[0]], rest.take(j0 + 1));
        assert(seq![cs[0]].drop_first() =~= Seq::<char>::empty());
        assert(encode_utf8(seq![cs[0]]) =~= encode_scalar(c) + encode_utf8(Seq::<char>::empty()));
        j0 + 1
    }
}

/// A position next to an ASCII byte, or at either end, is a character
/// boundary of the encoding.
pub open spec fn clean_cut(b: Seq<u8>, k: int) -> bool {
    ||| k == 0
    ||| k == b.len()
    ||| (0 <= k < b.len() && b[k] < 128)
    ||| (0 < k <= b.len() && b[k - 1] < 128)
}

pub proof fn lemma_clean_cut(cs: Seq<char>, k: int) -> (j: int)
    requires
        0 <= k <= encode_utf8(cs).len(),
        clean_cut(encode_utf8(cs), k),
    ensures
        0 <= j <= cs.len(),
        encode_utf8(cs.take(j)).len() == k,
{
    let b = encode_utf8(cs);
    if k == 0 {
        assert(cs.take(0) =~= Seq::<char>::empty());
        assert(encode_utf8(cs.take(0)) =~= Seq::<u8>::empty());
        0
    } else if k == b.len() {
        assert(cs.take(cs.len() as int) =~= cs);
        cs.len() as int
    } else if b[k] < 128 {
        lemma_ascii_boundary(cs, k)
    } else {
        let j = lemma_ascii_boundary(cs, k - 1);
        j + 1
    }
}

/// The bytes between two clean cuts are valid UTF-8.
pub proof fn lemma_valid_slice(cs: Seq<char>, s: int, e: int)
    requires
        0 <= s <= e <= encode_utf8(cs).len(),
        clean_cut(encode_utf8(cs), s),
        clean_cut(encode_utf8(cs), e),
    ensures
        valid_utf8(encode_utf8(cs).subrange(s, e)),
{
    let j0 = lemma_clean_cut(cs, s);
    let j1 = lemma_clean_cut(cs, e);
    if j1 < j0 {
        assert(cs.take(j0) =~= cs.take(j1) + cs.subrange(j1, j0));
        lemma_encode_concat(cs.take(j1), cs.subrange(j1, j0));
        lemma_nonempty_encoding(cs.subrange(j1, j0));
        assert(false);
    }
    assert(cs =~= cs.take(j0) + cs.subrange(j0, j1) + cs.skip(j1));
    lemma_encode_concat(cs.take(j0) + cs.subrange(j0, j1), cs.skip(j1));
    lemma_encode_concat(cs.take(j0), cs.subrange(j0, j1));
    assert(cs.take(j0) + cs.subrange(j0, j1) =~= cs.take(j1));
    assert(encode_utf8(cs).subrange(s, e) =~= encode_utf8(cs.subrange(j0, j1)));
    encode_utf8_valid_utf8(cs.subrange(j0, j1));
}

proof fn lemma_nonempty_encoding(cs: Seq<char>)
    requires
        cs.len() > 0,
    ensures
        encode_utf8(cs).len() > 0,
{
    char_is_scalar(cs[0]);
    let c = cs[0] as u32;
    if has_width_1_encoding(c) {
        lemma_width1(c);
    } else {
        lemma_multibyte_high(c);
    }
}

/// `std::str::from_utf8` on `b[start..end]`, copied into an owned `String`:
/// `Some` exactly when the bytes are valid UTF-8, holding their decoding.
#[verifier::external_body]
pub(crate) fn utf8_piece(b: &[u8], start: usize, end: usize) -> (r: Option<String>)
    requires
        start <= end <= b@.len(),
    ensures
        r is Some <==> valid_utf8(b@.subrange(start as int, end as int)),
        r matches Some(s) ==> s@ == decode_utf8(b@.subrange(start as int, end as int)),
{
    match std::str::from_utf8(&b[start..end]) {
        Ok(s) => Some(s.to_string()),
        Err(_) => None,
    }
}

} // verus!
