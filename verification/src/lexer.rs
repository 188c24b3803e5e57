//! Tokenizer for the SQL subset: a function on the UTF-8 bytes of the query.
use vstd::prelude::*;
use vstd::utf8::*;
use crate::ast::CmpOp;
use crate::text::{decimal, owned, push_decimal};
use crate::utf8_slices::{clean_cut, lemma_valid_slice, utf8_piece};

verus! {

#[derive(Debug)]
pub enum Token {
    Word(String),
    Star,
    Comma,
    Number(u64),
    /// String literal in single quotes, with `\'` and `''` read as a quote.
    StringLit(String),
    LParen,
    RParen,
    Op(CmpOp),
    /// Numeric literal with a fractional part, as written.
    Float(String),
}

/// Mathematical view of a token.
pub enum STok {
    Word(Seq<char>),
    Star,
    Comma,
    Number(u64),
    StringLit(Seq<char>),
    LParen,
    RParen,
    Op(CmpOp),
    Float(Seq<char>),
}

impl View for Token {
    type V = STok;

    open spec fn view(&self) -> STok {
        match self {
            Token::Word(s) => STok::Word(s@),
            Token::Star => STok::Star,
            Token::Comma => STok::Comma,
            Token::Number(n) => STok::Number(*n),
            Token::StringLit(s) => STok::StringLit(s@),
            Token::LParen => STok::LParen,
            Token::RParen => STok::RParen,
            Token::Op(o) => STok::Op(*o),
            Token::Float(s) => STok::Float(s@),
        }
    }
}

impl Clone for Token {
    fn clone(&self) -> (r: Token)
        ensures
            r@ == self@,
    {
        match self {
            Token::Word(s) => Token::Word(s.clone()),
            Token::Star => Token::Star,
            Token::Comma => Token::Comma,
            Token::Number(n) => Token::Number(*n),
            Token::StringLit(s) => Token::StringLit(s.clone()),
            Token::LParen => Token::LParen,
            Token::RParen => Token::RParen,
            Token::Op(o) => Token::Op(*o),
            Token::Float(s) => Token::Float(s.clone()),
        }
    }
}

pub open spec fn toks_view(v: Seq<Token>) -> Seq<STok> {
    v.map_values(|t: Token| t@)
}

/// `char::is_whitespace` for the character a single byte stands for.
pub open spec fn is_space(c: u8) -> bool {
    c == 32 || (9 <= c <= 13) || c == 0x85 || c == 0xA0
}

pub open spec fn is_digit(c: u8) -> bool {
    48 <= c <= 57
}

pub open spec fn is_alpha(c: u8) -> bool {
    (65 <= c <= 90) || (97 <= c <= 122)
}

pub open spec fn is_word_start(c: u8) -> bool {
    is_alpha(c) || c == 95
}

pub open spec fn is_word_char(c: u8) -> bool {
    is_alpha(c) || is_digit(c) || c == 95 || c == 46
}

/// End of the run of digits starting at `i`.
pub open spec fn scan_digits(b: Seq<u8>, i: int) -> int
    decreases b.len() - i,
{
    if 0 <= i < b.len() && is_digit(b[i]) {
        scan_digits(b, i + 1)
    } else {
        i
    }
}

/// End of the run of identifier characters starting at `i`.
pub open spec fn scan_word(b: Seq<u8>, i: int) -> int
    decreases b.len() - i,
{
    if 0 <= i < b.len() && is_word_char(b[i]) {
        scan_word(b, i + 1)
    } else {
        i
    }
}

/// First position at or after `i` holding byte `q`, or the length.
pub open spec fn find_byte(b: Seq<u8>, i: int, q: u8) -> int
    decreases b.len() - i,
{
    if 0 <= i < b.len() && b[i] != q {
        find_byte(b, i + 1, q)
    } else {
        i
    }
}

/// Reads a single-quoted string body from `i` (after the opening quote):
/// the text and the position of the closing quote, or `None` when the
/// quote never closes.
pub open spec fn scan_string(b: Seq<u8>, i: int, buf: Seq<char>) -> Option<(Seq<char>, int)>
    decreases b.len() - i,
{
    if i < 0 || i >= b.len() {
        None
    } else if b[i] == 92 && i + 1 < b.len() && b[i + 1] == 39 {
        scan_string(b, i + 2, buf.push('\''))
    } else if b[i] == 39 {
        if i + 1 < b.len() && b[i + 1] == 39 {
            scan_string(b, i + 2, buf.push('\''))
        } else {
            Some((buf, i))
        }
    } else {
        scan_string(b, i + 1, buf.push(b[i] as char))
    }
}

/// Value of a run of ASCII digits.
pub open spec fn digits_value(s: Seq<u8>) -> nat
    decreases s.len(),
{
    if s.len() == 0 {
        0
    } else {
        digits_value(s.drop_last()) * 10 + (s.last() - 48) as nat
    }
}

/// One step of the lexer at byte `i`.
pub enum LexStep {
    Skip(int),
    Tok(STok, int),
    Fail(Seq<char>),
}

pub open spec fn lex_step(b: Seq<u8>, i: int) -> LexStep {
    let c = b[i];
    let has_next = i + 1 < b.len();
    if is_space(c) {
        LexStep::Skip(i + 1)
    } else if c == 42 {
        LexStep::Tok(STok::Star, i + 1)
    } else if c == 44 {
        LexStep::Tok(STok::Comma, i + 1)
    } else if c == 40 {
        LexStep::Tok(STok::LParen, i + 1)
    } else if c == 41 {
        LexStep::Tok(STok::RParen, i + 1)
    } else if c == 61 {
        if has_next && b[i + 1] == 61 {
            LexStep::Tok(STok::Op(CmpOp::Eq), i + 2)
        } else {
            LexStep::Tok(STok::Op(CmpOp::Eq), i + 1)
        }
    } else if c == 60 {
        if has_next && b[i + 1] == 61 {
            LexStep::Tok(STok::Op(CmpOp::Le), i + 2)
        } else if has_next && b[i + 1] == 62 {
            LexStep::Tok(STok::Op(CmpOp::Ne), i + 2)
        } else {
            LexStep::Tok(STok::Op(CmpOp::Lt), i + 1)
        }
    } else if c == 62 {
        if has_next && b[i + 1] == 61 {
            LexStep::Tok(STok::Op(CmpOp::Ge), i + 2)
        } else {
            LexStep::Tok(STok::Op(CmpOp::Gt), i + 1)
        }
    } else if c == 33 && has_next && b[i + 1] == 61 {
        LexStep::Tok(STok::Op(CmpOp::Ne), i + 2)
    } else if c == 34 || c == 96 {
        let j = find_byte(b, i + 1, c);
        if j >= b.len() {
            LexStep::Fail("unterminated identifier starting with "@ + seq![c as char])
        } else {
            LexStep::Tok(STok::Word(decode_utf8(b.subrange(i + 1, j))), j + 1)
        }
    } else if c == 39 {
        match scan_string(b, i + 1, Seq::empty()) {
            None => LexStep::Fail(
                "unterminated string literal starting at "@ + decimal((i + 1) as nat),
            ),
            Some((s, j)) => LexStep::Tok(STok::StringLit(s), j + 1),
        }
    } else if is_digit(c) {
        let j = scan_digits(b, i);
        if j < b.len() && b[j] == 46 {
            let k = scan_digits(b, j + 1);
            LexStep::Tok(STok::Float(decode_utf8(b.subrange(i, k))), k)
        } else {
            let v = digits_value(b.subrange(i, j));
            if v > u64::MAX {
                LexStep::Fail("number too large to fit in target type"@)
            } else {
                LexStep::Tok(STok::Number(v as u64), j)
            }
        }
    } else if is_word_start(c) {
        let j = scan_word(b, i);
        LexStep::Tok(STok::Word(decode_utf8(b.subrange(i, j))), j)
    } else {
        LexStep::Fail("unexpected character: "@ + seq![c as char])
    }
}

pub proof fn lemma_scans(b: Seq<u8>, i: int, q: u8)
    requires
        0 <= i <= b.len(),
    ensures
        i <= scan_digits(b, i) <= b.len(),
        i <= scan_word(b, i) <= b.len(),
        i <= find_byte(b, i, q) <= b.len(),
    decreases b.len() - i,
{
    if i < b.len() {
        lemma_scans(b, i + 1, q);
    }
}

pub proof fn lemma_scan_string(b: Seq<u8>, i: int, buf: Seq<char>)
    ensures
        scan_string(b, i, buf) matches Some((s, j)) ==> i <= j < b.len() && b[j] == 39,
    decreases b.len() - i,
{
    if 0 <= i < b.len() {
        lemma_scan_string(b, i + 1, buf.push(b[i] as char));
        if i + 1 < b.len() {
            lemma_scan_string(b, i + 2, buf.push('\''));
        }
    }
}

pub proof fn lemma_step_advances(b: Seq<u8>, i: int)
    requires
        0 <= i < b.len(),
    ensures
        lex_step(b, i) matches LexStep::Skip(j) ==> i < j <= b.len(),
        lex_step(b, i) matches LexStep::Tok(_, j) ==> i < j <= b.len(),
{
    lemma_scans(b, i, b[i]);
    lemma_scans(b, i + 1, b[i]);
    lemma_scan_string(b, i + 1, Seq::empty());
    let j = scan_digits(b, i);
    if j < b.len() {
        lemma_scans(b, j + 1, 0);
    }
}

/// Result of lexing from `i` to the end: the tokens, or the first failure.
pub open spec fn lex_from(b: Seq<u8>, i: int) -> Result<Seq<STok>, Seq<char>>
    decreases b.len() - i,
    via lex_from_decreases
{
    if i < 0 || i >= b.len() {
        Ok(Seq::empty())
    } else {
        match lex_step(b, i) {
            LexStep::Skip(j) => lex_from(b, j),
            LexStep::Tok(t, j) => match lex_from(b, j) {
                Ok(ts) => Ok(seq![t] + ts),
                Err(e) => Err(e),
            },
            LexStep::Fail(m) => Err(m),
        }
    }
}

#[via_fn]
proof fn lex_from_decreases(b: Seq<u8>, i: int) {
    if 0 <= i < b.len() {
        lemma_step_advances(b, i);
    }
}

/// The token list of a whole query text.
pub open spec fn lex(b: Seq<u8>) -> Result<Seq<STok>, Seq<char>> {
    lex_from(b, 0)
}

pub open spec fn prepend(p: Seq<STok>, r: Result<Seq<STok>, Seq<char>>) -> Result<
    Seq<STok>,
    Seq<char>,
> {
    match r {
        Ok(ts) => Ok(p + ts),
        Err(e) => Err(e),
    }
}

fn scan_digits_exec(b: &[u8], i: usize) -> (r: usize)
    requires
        i <= b@.len(),
    ensures
        r == scan_digits(b@, i as int),
        i <= r <= b@.len(),
{
    let mut j = i;
    while j < b.len() && 48 <= b[j] && b[j] <= 57
        invariant
            i <= j <= b@.len(),
            scan_digits(b@, i as int) == scan_digits(b@, j as int),
        decreases b@.len() - j,
    {
        j += 1;
    }
    j
}

fn scan_word_exec(b: &[u8], i: usize) -> (r: usize)
    requires
        i <= b@.len(),
    ensures
        r == scan_word(b@, i as int),
        i <= r <= b@.len(),
{
    let mut j = i;
    while j < b.len() && ((65 <= b[j] && b[j] <= 90) || (97 <= b[j] && b[j] <= 122) || (48
        <= b[j] && b[j] <= 57) || b[j] == 95 || b[j] == 46)
        invariant
            i <= j <= b@.len(),
            scan_word(b@, i as int) == scan_word(b@, j as int),
        decreases b@.len() - j,
    {
        j += 1;
    }
    j
}

fn find_byte_exec(b: &[u8], i: usize, q: u8) -> (r: usize)
    requires
        i <= b@.len(),
    ensures
        r == find_byte(b@, i as int, q),
        i <= r <= b@.len(),
        r < b@.len() ==> b@[r as int] == q,
{
    let mut j = i;
    while j < b.len() && b[j] != q
        invariant
            i <= j <= b@.len(),
            find_byte(b@, i as int, q) == find_byte(b@, j as int, q),
        decreases b@.len() - j,
    {
        j += 1;
    }
    j
}

fn scan_string_exec(b: &[u8], i: usize) -> (r: Option<(String, usize)>)
    requires
        i <= b@.len(),
    ensures
        match scan_string(b@, i as int, Seq::empty()) {
            None => r is None,
            Some((s, j)) => r matches Some((t, k)) && t@ == s && k == j,
        },
{
    let mut buf = String::new();
    let mut j = i;
    loop
        invariant
            i <= j <= b@.len(),
            scan_string(b@, i as int, Seq::empty()) == scan_string(b@, j as int, buf@),
        decreases b@.len() - j,
    {
        if j >= b.len() {
            return None;
        }
        let c = b[j];
        if c == 92 && j + 1 < b.len() && b[j + 1] == 39 {
            buf.push('\'');
            j += 2;
        } else if c == 39 {
            if j + 1 < b.len() && b[j + 1] == 39 {
                buf.push('\'');
                j += 2;
            } else {
                return Some((buf, j));
            }
        } else {
            buf.push(c as char);
            j += 1;
        }
    }
}

fn digits_u64(b: &[u8], i: usize, j: usize) -> (r: Option<u64>)
    requires
        i <= j <= b@.len(),
        forall|k: int| i <= k < j ==> is_digit(#[trigger] b@[k]),
    ensures
        r matches Some(v) ==> v == digits_value(b@.subrange(i as int, j as int)),
        r is None ==> digits_value(b@.subrange(i as int, j as int)) > u64::MAX,
{
    let mut acc: u64 = 0;
    let mut over = false;
    let mut k = i;
    assert(b@.subrange(i as int, i as int) =~= Seq::<u8>::empty());
    while k < j
        invariant
            i <= k <= j <= b@.len(),
            forall|m: int| i <= m < j ==> is_digit(#[trigger] b@[m]),
            !over ==> acc == digits_value(b@.subrange(i as int, k as int)),
            over ==> digits_value(b@.subrange(i as int, k as int)) > u64::MAX,
        decreases j - k,
    {
        let ghost prev = b@.subrange(i as int, k as int);
        assert(b@.subrange(i as int, k + 1).drop_last() =~= prev);
        assert(is_digit(b@[k as int]));
        let d: u64 = (b[k] - 48) as u64;
        if !over {
            match acc.checked_mul(10) {
                Some(m) => match m.checked_add(d) {
                    Some(v) => {
                        acc = v;
                    },
                    None => {
                        over = true;
                    },
                },
                None => {
                    over = true;
                },
            }
        }
        k += 1;
    }
    if over {
        None
    } else {
        Some(acc)
    }
}

/// A lexer step carried out on real values.
pub enum ExecStep {
    Skip(usize),
    Tok(Token, usize),
    Fail(String),
}

pub open spec fn step_matches(r: ExecStep, s: LexStep) -> bool {
    match (r, s) {
        (ExecStep::Skip(j), LexStep::Skip(k)) => j == k,
        (ExecStep::Tok(t, j), LexStep::Tok(u, k)) => t@ == u && j == k,
        (ExecStep::Fail(m), LexStep::Fail(n)) => m@ == n,
        _ => false,
    }
}

fn word_piece(b: &[u8], s: usize, e: usize, Ghost(cs): Ghost<Seq<char>>) -> (r: String)
    requires
        s <= e <= b@.len(),
        b@ == encode_utf8(cs),
        clean_cut(b@, s as int),
        clean_cut(b@, e as int),
    ensures
        r@ == decode_utf8(b@.subrange(s as int, e as int)),
{
    proof {
        lemma_valid_slice(cs, s as int, e as int);
    }
    match utf8_piece(b, s, e) {
        Some(w) => w,
        None => {
            assert(false);
            String::new()
        },
    }
}

fn step_exec(b: &[u8], i: usize, Ghost(cs): Ghost<Seq<char>>) -> (r: ExecStep)
    requires
        i < b@.len(),
        b@ == encode_utf8(cs),
    ensures
        step_matches(r, lex_step(b@, i as int)),
{
    let c = b[i];
    let has_next = i + 1 < b.len();
    if c == 32 || (9 <= c && c <= 13) || c == 0x85 || c == 0xA0 {
        ExecStep::Skip(i + 1)
    } else if c == 42 {
        ExecStep::Tok(Token::Star, i + 1)
    } else if c == 44 {
        ExecStep::Tok(Token::Comma, i + 1)
    } else if c == 40 {
        ExecStep::Tok(Token::LParen, i + 1)
    } else if c == 41 {
        ExecStep::Tok(Token::RParen, i + 1)
    } else if c == 61 {
        if has_next && b[i + 1] == 61 {
            ExecStep::Tok(Token::Op(CmpOp::Eq), i + 2)
        } else {
            ExecStep::Tok(Token::Op(CmpOp::Eq), i + 1)
        }
    } else if c == 60 {
        if has_next && b[i + 1] == 61 {
            ExecStep::Tok(Token::Op(CmpOp::Le), i + 2)
        } else if has_next && b[i + 1] == 62 {
            ExecStep::Tok(Token::Op(CmpOp::Ne), i + 2)
        } else {
            ExecStep::Tok(Token::Op(CmpOp::Lt), i + 1)
        }
    } else if c == 62 {
        if has_next && b[i + 1] == 61 {
            ExecStep::Tok(Token::Op(CmpOp::Ge), i + 2)
        } else {
            ExecStep::Tok(Token::Op(CmpOp::Gt), i + 1)
        }
    } else if c == 33 && has_next && b[i + 1] == 61 {
        ExecStep::Tok(Token::Op(CmpOp::Ne), i + 2)
    } else if c == 34 || c == 96 {
        let j = find_byte_exec(b, i + 1, c);
        if j >= b.len() {
            let mut m = owned("unterminated identifier starting with ");
            m.push(c as char);
            assert(m@ =~= "unterminated identifier starting with "@ + seq![c as char]);
            ExecStep::Fail(m)
        } else {
            let w = word_piece(b, i + 1, j, Ghost(cs));
            ExecStep::Tok(Token::Word(w), j + 1)
        }
    } else if c == 39 {
        proof {
            lemma_scan_string(b@, i + 1, Seq::empty());
        }
        match scan_string_exec(b, i + 1) {
            None => {
                let mut m = owned("unterminated string literal starting at ");
                push_decimal(&mut m, (i + 1) as u64);
                ExecStep::Fail(m)
            },
            Some((s, j)) => ExecStep::Tok(Token::StringLit(s), j + 1),
        }
    } else if 48 <= c && c <= 57 {
        let j = scan_digits_exec(b, i);
        if j < b.len() && b[j] == 46 {
            let k = scan_digits_exec(b, j + 1);
            proof {
                lemma_digit_run(b@, j + 1);
            }
            let w = word_piece(b, i, k, Ghost(cs));
            ExecStep::Tok(Token::Float(w), k)
        } else {
            proof {
                lemma_digit_run(b@, i as int);
            }
            match digits_u64(b, i, j) {
                Some(v) => ExecStep::Tok(Token::Number(v), j),
                None => {
                    ExecStep::Fail(owned("number too large to fit in target type"))
                },
            }
        }
    } else if (65 <= c && c <= 90) || (97 <= c && c <= 122) || c == 95 {
        let j = scan_word_exec(b, i);
        proof {
            lemma_word_run(b@, i as int);
        }
        let w = word_piece(b, i, j, Ghost(cs));
        ExecStep::Tok(Token::Word(w), j)
    } else {
        let mut m = owned("unexpected character: ");
        m.push(c as char);
        assert(m@ =~= "unexpected character: "@ + seq![c as char]);
        ExecStep::Fail(m)
    }
}

proof fn lemma_digit_run(b: Seq<u8>, i: int)
    requires
        0 <= i <= b.len(),
    ensures
        forall|k: int| i <= k < scan_digits(b, i) ==> is_digit(#[trigger] b[k]),
        scan_digits(b, i) > i ==> 0 < scan_digits(b, i) && b[scan_digits(b, i) - 1] < 128,
    decreases b.len() - i,
{
    if i < b.len() && is_digit(b[i]) {
        lemma_digit_run(b, i + 1);
    }
}

proof fn lemma_word_run(b: Seq<u8>, i: int)
    requires
        0 <= i <= b.len(),
    ensures
        scan_word(b, i) > i ==> b[scan_word(b, i) - 1] < 128,
    decreases b.len() - i,
{
    if i < b.len() && is_word_char(b[i]) {
        lemma_word_run(b, i + 1);
    }
}

pub open spec fn toks_result_view(r: Result<Vec<Token>, String>) -> Result<Seq<STok>, Seq<char>> {
    match r {
        Ok(v) => Ok(toks_view(v@)),
        Err(e) => Err(e@),
    }
}

/// Splits the query text into tokens; on failure the error of the first
/// byte that cannot start a token.
pub fn tokenize(sql: &str) -> (r: Result<Vec<Token>, String>)
    ensures
        toks_result_view(r) == lex(encode_utf8(sql@)),
{
    let b = sql.as_bytes();
    let ghost cs = sql@;
    let mut out: Vec<Token> = Vec::new();
    let mut i: usize = 0;
    while i < b.len()
        invariant
            b@ == encode_utf8(cs),
            cs == sql@,
            0 <= i <= b@.len(),
            lex(b@) == prepend(toks_view(out@), lex_from(b@, i as int)),
        decreases b@.len() - i,
    {
        proof {
            lemma_step_advances(b@, i as int);
        }
        let step = step_exec(b, i, Ghost(cs));
        match step {
            ExecStep::Skip(j) => {
                i = j;
            },
            ExecStep::Tok(t, j) => {
                let ghost before = toks_view(out@);
                let ghost tv = t@;
                out.push(t);
                proof {
                    assert(toks_view(out@) =~= before.push(tv));
                    match lex_from(b@, j as int) {
                        Ok(ts) => {
                            assert(before + (seq![tv] + ts) =~= before.push(tv) + ts);
                        },
                        Err(_) => {},
                    }
                }
                i = j;
            },
            ExecStep::Fail(m) => {
                return Err(m);
            },
        }
    }
    proof {
        assert(toks_view(out@) + Seq::<STok>::empty() =~= toks_view(out@));
    }
    Ok(out)
}

/// Each comparison symbol is read as its own operator, wherever it stands
/// in the text: `=` and `==` as `Eq`, `!=` and `<>` as `Ne`, `<` as `Lt`,
/// `<=` as `Le`, `>` as `Gt`, `>=` as `Ge` (bytes 33 `!`, 60 `<`, 61 `=`,
/// 62 `>`); the tokens after it are those of the text after the symbol.
pub proof fn law_operator_symbols(b: Seq<u8>, i: int)
    requires
        0 <= i < b.len(),
    ensures
        b[i] == 62 && i + 1 < b.len() && b[i + 1] == 61 ==> lex_from(b, i) == prepend(
            seq![STok::Op(CmpOp::Ge)],
            lex_from(b, i + 2),
        ),
        b[i] == 62 && !(i + 1 < b.len() && b[i + 1] == 61) ==> lex_from(b, i) == prepend(
            seq![STok::Op(CmpOp::Gt)],
            lex_from(b, i + 1),
        ),
        b[i] == 60 && i + 1 < b.len() && b[i + 1] == 61 ==> lex_from(b, i) == prepend(
            seq![STok::Op(CmpOp::Le)],
            lex_from(b, i + 2),
        ),
        b[i] == 60 && i + 1 < b.len() && b[i + 1] == 62 ==> lex_from(b, i) == prepend(
            seq![STok::Op(CmpOp::Ne)],
            lex_from(b, i + 2),
        ),
        b[i] == 60 && !(i + 1 < b.len() && (b[i + 1] == 61 || b[i + 1] == 62)) ==> lex_from(b, i)
            == prepend(seq![STok::Op(CmpOp::Lt)], lex_from(b, i + 1)),
        b[i] == 33 && i + 1 < b.len() && b[i + 1] == 61 ==> lex_from(b, i) == prepend(
            seq![STok::Op(CmpOp::Ne)],
            lex_from(b, i + 2),
        ),
        b[i] == 61 && i + 1 < b.len() && b[i + 1] == 61 ==> lex_from(b, i) == prepend(
            seq![STok::Op(CmpOp::Eq)],
            lex_from(b, i + 2),
        ),
        b[i] == 61 && !(i + 1 < b.len() && b[i + 1] == 61) ==> lex_from(b, i) == prepend(
            seq![STok::Op(CmpOp::Eq)],
            lex_from(b, i + 1),
        ),
{
    lemma_step_advances(b, i);
}

/// Spaces (byte 32, and tab, newline and carriage return: 9, 10, 13)
/// separate tokens and give none; `*`, `,`, `(` and `)` (42, 44, 40, 41)
/// are tokens of their own.
pub proof fn law_spaces_and_punctuation(b: Seq<u8>, i: int)
    requires
        0 <= i < b.len(),
    ensures
        b[i] == 32 || b[i] == 9 || b[i] == 10 || b[i] == 13 ==> lex_from(b, i) == lex_from(b, i + 1),
        b[i] == 42 ==> lex_from(b, i) == prepend(seq![STok::Star], lex_from(b, i + 1)),
        b[i] == 44 ==> lex_from(b, i) == prepend(seq![STok::Comma], lex_from(b, i + 1)),
        b[i] == 40 ==> lex_from(b, i) == prepend(seq![STok::LParen], lex_from(b, i + 1)),
        b[i] == 41 ==> lex_from(b, i) == prepend(seq![STok::RParen], lex_from(b, i + 1)),
{
    lemma_step_advances(b, i);
}

} // verus!
