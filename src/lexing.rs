//! The lexer: source text to a flat sequence of tokens.
use vstd::prelude::*;

use crate::token::{
    char_token, digit_char, keyword_at, keyword_of, keyword_text, nat_text, tok_text, toks, KeyWord,
    Number, Tok, TokenType,
};

verus! {

/// Why lexing stopped.
#[derive(Debug, Clone, Copy, PartialEq, Eq, Structural)]
pub enum LexError {
    /// The input ended inside a string literal.
    UnterminatedString,
    /// A number literal holds a second decimal point.
    DoubleDot,
    /// An integer literal does not fit in 64 bits.
    NumberTooLarge,
    /// A character that starts no token.
    UnexpectedChar(char),
}

pub open spec fn is_digit(c: char) -> bool {
    '0' <= c && c <= '9'
}

pub open spec fn is_ident_start(c: char) -> bool {
    ('a' <= c && c <= 'z') || ('A' <= c && c <= 'Z') || c == '_'
}

pub open spec fn is_ident_char(c: char) -> bool {
    is_ident_start(c) || is_digit(c)
}

/// The character classes that a run of the lexer extends over.
#[derive(Debug, Clone, Copy, PartialEq, Eq, Structural)]
pub enum Class {
    Digit,
    IdentChar,
    NotQuote,
    NotNewLine,
}

pub open spec fn in_class(c: char, k: Class) -> bool {
    match k {
        Class::Digit => is_digit(c),
        Class::IdentChar => is_ident_char(c),
        Class::NotQuote => c != '"',
        Class::NotNewLine => c != '\n',
    }
}

/// The first position at or after `i` whose character is not in class `k`
/// (or the length of `s`).
pub open spec fn scan_while(s: Seq<char>, i: int, k: Class) -> int
    decreases s.len() - i,
{
    if 0 <= i < s.len() && in_class(s[i], k) {
        scan_while(s, i + 1, k)
    } else {
        i
    }
}

/// The value of a run of decimal digits.
pub open spec fn digits_value(d: Seq<char>) -> int
    decreases d.len(),
{
    if d.len() == 0 {
        0
    } else {
        digits_value(d.drop_last()) * 10 + (d.last() as u32 - '0' as u32)
    }
}

/// What one scanning step at a position does.
pub enum Scan {
    /// Emit a token and go on at the position given.
    Emit(Tok, int),
    /// Emit nothing (a comment) and go on at the position given.
    Skip(int),
    /// Stop with an error.
    Fail(LexError),
}

/// The token that `c` forms alone, or with a following `=` as `with_eq`.
pub open spec fn one_or_two(s: Seq<char>, i: int, alone: Tok, with_eq: Tok) -> Scan {
    if i + 1 < s.len() && s[i + 1] == '=' {
        Scan::Emit(with_eq, i + 2)
    } else {
        Scan::Emit(alone, i + 1)
    }
}

/// The number literal starting at `i`, a digit: leading digits, then at most
/// one `.` followed by digits. `read_float` gives the value of a float literal.
pub open spec fn scan_number(s: Seq<char>, i: int, read_float: spec_fn(Seq<char>) -> u64) -> Scan {
    let d1 = scan_while(s, i, Class::Digit);
    if d1 < s.len() && s[d1] == '.' {
        let d2 = scan_while(s, d1 + 1, Class::Digit);
        if d2 < s.len() && s[d2] == '.' {
            Scan::Fail(LexError::DoubleDot)
        } else {
            Scan::Emit(Tok::Number(Number::Float(read_float(s.subrange(i, d2)))), d2)
        }
    } else {
        let v = digits_value(s.subrange(i, d1));
        if v <= i64::MAX {
            Scan::Emit(Tok::Number(Number::Integer(v as i64)), d1)
        } else {
            Scan::Fail(LexError::NumberTooLarge)
        }
    }
}

/// One scanning step at position `i` of `s`.
pub open spec fn scan(s: Seq<char>, i: int, read_float: spec_fn(Seq<char>) -> u64) -> Scan {
    let c = s[i];
    if c == '=' {
        one_or_two(s, i, Tok::Equal, Tok::EqualEqual)
    } else if c == '!' {
        one_or_two(s, i, Tok::Bang, Tok::BangEqual)
    } else if c == '>' {
        one_or_two(s, i, Tok::Greater, Tok::GreaterEqual)
    } else if c == '<' {
        one_or_two(s, i, Tok::Less, Tok::LessEqual)
    } else if c == '/' {
        if i + 1 < s.len() && s[i + 1] == '/' {
            Scan::Skip(scan_while(s, i + 2, Class::NotNewLine))
        } else {
            Scan::Emit(Tok::Slash, i + 1)
        }
    } else if c == '"' {
        let e = scan_while(s, i + 1, Class::NotQuote);
        if e < s.len() {
            Scan::Emit(Tok::Str(s.subrange(i + 1, e)), e + 1)
        } else {
            Scan::Fail(LexError::UnterminatedString)
        }
    } else if is_digit(c) {
        scan_number(s, i, read_float)
    } else if is_ident_start(c) {
        let e = scan_while(s, i, Class::IdentChar);
        let w = s.subrange(i, e);
        match keyword_of(w) {
            Some(k) => Scan::Emit(Tok::KeyWord(k), e),
            None => Scan::Emit(Tok::Identifier(w), e),
        }
    } else {
        match char_token(c) {
            Some(t) => Scan::Emit(t, i + 1),
            None => Scan::Fail(LexError::UnexpectedChar(c)),
        }
    }
}

/// The tokens of `s` from position `i` on, or the first error.
pub open spec fn lex_from(s: Seq<char>, i: int, read_float: spec_fn(Seq<char>) -> u64) -> Result<Seq<Tok>, LexError>
    decreases s.len() - i,
{
    if i < 0 || i >= s.len() {
        Ok(Seq::empty())
    } else {
        match scan(s, i, read_float) {
            Scan::Emit(t, j) => if i < j <= s.len() {
                match lex_from(s, j, read_float) {
                    Ok(rest) => Ok(seq![t] + rest),
                    Err(e) => Err(e),
                }
            } else {
                Ok(Seq::empty())
            },
            Scan::Skip(j) => if i < j <= s.len() {
                lex_from(s, j, read_float)
            } else {
                Ok(Seq::empty())
            },
            Scan::Fail(e) => Err(e),
        }
    }
}

/// The tokens of the source text `s`, or the first error.
pub open spec fn lex(s: Seq<char>, read_float: spec_fn(Seq<char>) -> u64) -> Result<Seq<Tok>, LexError> {
    lex_from(s, 0, read_float)
}

/// Whether `f` reads float literals as a function of their text: it accepts
/// any text and gives equal results on equal texts.
pub open spec fn reads_floats<F: Fn(String) -> u64>(f: F) -> bool {
    &&& forall|s: String| #[trigger] f.requires((s,))
    &&& forall|s1: String, s2: String, r1: u64, r2: u64|
        #![trigger f.ensures((s1,), r1), f.ensures((s2,), r2)]
        s1@ == s2@ && f.ensures((s1,), r1) && f.ensures((s2,), r2) ==> r1 == r2
}

/// Whether `f` may give `r` for the text `t`.
pub open spec fn reads_as<F: Fn(String) -> u64>(f: F, t: Seq<char>, r: u64) -> bool {
    exists|s: String| s@ == t && #[trigger] f.ensures((s,), r)
}

/// The bit pattern that `f` gives for a float literal's text.
pub open spec fn float_reader<F: Fn(String) -> u64>(f: F) -> spec_fn(Seq<char>) -> u64 {
    |t: Seq<char>| choose|r: u64| #[trigger] reads_as(f, t, r)
}

/// Whether the exec result `r` of one scanning step is the step `sc`.
pub open spec fn scanned(r: Result<(Option<TokenType>, usize), LexError>, sc: Scan) -> bool {
    match sc {
        Scan::Emit(t, j) => r is Ok && r->Ok_0.0 is Some && r->Ok_0.0->Some_0@ == t && r->Ok_0.1 == j,
        Scan::Skip(j) => r is Ok && r->Ok_0.0 is None && r->Ok_0.1 == j,
        Scan::Fail(e) => r == Err::<(Option<TokenType>, usize), LexError>(e),
    }
}

fn in_class_exec(c: char, k: Class) -> (r: bool)
    ensures
        r == in_class(c, k),
{
    match k {
        Class::Digit => '0' <= c && c <= '9',
        Class::IdentChar => ('a' <= c && c <= 'z') || ('A' <= c && c <= 'Z') || c == '_' || ('0' <= c
            && c <= '9'),
        Class::NotQuote => c != '"',
        Class::NotNewLine => c != '\n',
    }
}

/// The end of the run of class `k` that starts at `i`.
fn skip_class(s: &Vec<char>, i: usize, k: Class) -> (r: usize)
    requires
        i <= s@.len(),
    ensures
        r == scan_while(s@, i as int, k),
        i <= r <= s@.len(),
{
    let mut j = i;
    while j < s.len() && in_class_exec(s[j], k)
        invariant
            i <= j <= s@.len(),
            scan_while(s@, i as int, k) == scan_while(s@, j as int, k),
        decreases s@.len() - j,
    {
        j += 1;
    }
    j
}

proof fn lemma_scan_while_bounds(s: Seq<char>, i: int, k: Class)
    requires
        0 <= i <= s.len(),
    ensures
        i <= scan_while(s, i, k) <= s.len(),
        scan_while(s, i, k) < s.len() ==> !in_class(s[scan_while(s, i, k)], k),
        forall|j: int| i <= j < scan_while(s, i, k) ==> in_class(#[trigger] s[j], k),
    decreases s.len() - i,
{
    if i < s.len() && in_class(s[i], k) {
        lemma_scan_while_bounds(s, i + 1, k);
    }
}

proof fn lemma_digits_value_nonneg(d: Seq<char>)
    requires
        forall|j: int| 0 <= j < d.len() ==> is_digit(#[trigger] d[j]),
    ensures
        digits_value(d) >= 0,
    decreases d.len(),
{
    if d.len() > 0 {
        lemma_digits_value_nonneg(d.drop_last());
    }
}

proof fn lemma_digits_value_prefix(d: Seq<char>, k: int)
    requires
        0 <= k <= d.len(),
        forall|j: int| 0 <= j < d.len() ==> is_digit(#[trigger] d[j]),
    ensures
        digits_value(d.subrange(0, k)) <= digits_value(d),
    decreases d.len(),
{
    if k < d.len() {
        let p = d.drop_last();
        assert(p.subrange(0, k) =~= d.subrange(0, k));
        lemma_digits_value_prefix(p, k);
        lemma_digits_value_nonneg(p);
    } else {
        assert(d.subrange(0, k) =~= d);
    }
}

/// The value of the digits `s[start..end]`, if it fits in an `i64`.
fn integer_value(s: &Vec<char>, start: usize, end: usize) -> (r: Option<i64>)
    requires
        start <= end <= s@.len(),
        forall|j: int| start <= j < end ==> is_digit(#[trigger] s@[j]),
    ensures
        r == (if digits_value(s@.subrange(start as int, end as int)) <= i64::MAX {
            Some(digits_value(s@.subrange(start as int, end as int)) as i64)
        } else {
            None::<i64>
        }),
{
    let ghost d = s@.subrange(start as int, end as int);
    let mut v: i64 = 0;
    let mut k: usize = start;
    while k < end
        invariant
            start <= k <= end <= s@.len(),
            d == s@.subrange(start as int, end as int),
            forall|j: int| start <= j < end ==> is_digit(#[trigger] s@[j]),
            v as int == digits_value(d.subrange(0, k - start)),
            v >= 0,
        decreases end - k,
    {
        let c = s[k];
        let digit = (c as u32 - '0' as u32) as i128;
        let next = (v as i128) * 10 + digit;
        proof {
            assert(d.subrange(0, k + 1 - start).drop_last() =~= d.subrange(0, k - start));
            assert(d.subrange(0, k + 1 - start).last() == c);
        }
        if next > i64::MAX as i128 {
            proof {
                assert forall|j: int| 0 <= j < d.len() implies is_digit(#[trigger] d[j]) by {
                    assert(d[j] == s@[start + j]);
                }
                lemma_digits_value_prefix(d, k + 1 - start);
            }
            return None;
        }
        v = next as i64;
        k += 1;
    }
    assert(d.subrange(0, end - start) =~= d);
    Some(v)
}

/// One scanning step at position `i`: what [`scan`] says.
fn scan_at<F: Fn(String) -> u64>(source: &str, s: &Vec<char>, i: usize, read_float: &F) -> (r: Result<
    (Option<TokenType>, usize),
    LexError,
>)
    requires
        s@ == source@,
        i < s@.len(),
        reads_floats(*read_float),
    ensures
        scanned(r, scan(s@, i as int, float_reader(*read_float))),
        r is Ok ==> i < r->Ok_0.1 <= s@.len(),
{
    let c = s[i];
    let n = s.len();
    if c == '=' || c == '!' || c == '>' || c == '<' {
        let two = i + 1 < n && s[i + 1] == '=';
        let t = if c == '=' {
            if two { TokenType::EqualEqual } else { TokenType::Equal }
        } else if c == '!' {
            if two { TokenType::BangEqual } else { TokenType::Bang }
        } else if c == '>' {
            if two { TokenType::GreaterEqual } else { TokenType::Greater }
        } else {
            if two { TokenType::LessEqual } else { TokenType::Less }
        };
        Ok((Some(t), if two { i + 2 } else { i + 1 }))
    } else if c == '/' {
        if i + 1 < n && s[i + 1] == '/' {
            let e = skip_class(s, i + 2, Class::NotNewLine);
            Ok((None, e))
        } else {
            Ok((Some(TokenType::Slash), i + 1))
        }
    } else if c == '"' {
        let e = skip_class(s, i + 1, Class::NotQuote);
        if e < n {
            let text = source.substring_char(i + 1, e).to_owned();
            Ok((Some(TokenType::String(text)), e + 1))
        } else {
            Err(LexError::UnterminatedString)
        }
    } else if '0' <= c && c <= '9' {
        let d1 = skip_class(s, i, Class::Digit);
        proof {
            lemma_scan_while_bounds(s@, i as int, Class::Digit);
            lemma_scan_while_bounds(s@, i + 1, Class::Digit);
        }
        if d1 < n && s[d1] == '.' {
            let d2 = skip_class(s, d1 + 1, Class::Digit);
            if d2 < n && s[d2] == '.' {
                Err(LexError::DoubleDot)
            } else {
                let text = source.substring_char(i, d2).to_owned();
                let ghost t = s@.subrange(i as int, d2 as int);
                let ghost text_model = text@;
                let bits = read_float(text);
                proof {
                    assert(reads_as(*read_float, t, bits));
                    let r = float_reader(*read_float)(t);
                    assert(reads_as(*read_float, t, r));
                    let w = choose|w: String| w@ == t && read_float.ensures((w,), r);
                    let w2 = choose|w2: String| w2@ == t && read_float.ensures((w2,), bits);
                    assert(read_float.ensures((w,), r) && read_float.ensures((w2,), bits));
                }
                Ok((Some(TokenType::Number(Number::Float(bits))), d2))
            }
        } else {
            match integer_value(s, i, d1) {
                Some(v) => Ok((Some(TokenType::Number(Number::Integer(v))), d1)),
                None => Err(LexError::NumberTooLarge),
            }
        }
    } else if ('a' <= c && c <= 'z') || ('A' <= c && c <= 'Z') || c == '_' {
        let e = skip_class(s, i, Class::IdentChar);
        proof {
            assert(in_class(c, Class::IdentChar));
            lemma_scan_while_bounds(s@, i + 1, Class::IdentChar);
        }
        match keyword_at(s, i, e) {
            Some(k) => Ok((Some(TokenType::KeyWord(k)), e)),
            None => Ok((Some(TokenType::Identifier(source.substring_char(i, e).to_owned())), e)),
        }
    } else {
        match TokenType::from_char(c) {
            Some(t) => Ok((Some(t), i + 1)),
            None => Err(LexError::UnexpectedChar(c)),
        }
    }
}

/// The tokens in `p` followed by those of `r`, or the error of `r`.
pub open spec fn prepend(p: Seq<Tok>, r: Result<Seq<Tok>, LexError>) -> Result<Seq<Tok>, LexError> {
    match r {
        Ok(t) => Ok(p + t),
        Err(e) => Err(e),
    }
}

/// Splits the source text into tokens. Whitespace characters become
/// whitespace tokens; comments produce none. A float literal's bit pattern
/// is what `read_float` gives for its text.
pub fn lexing<F: Fn(String) -> u64>(source: &str, read_float: &F) -> (r: Result<Vec<TokenType>, LexError>)
    requires
        reads_floats(*read_float),
    ensures
        match r {
            Ok(ts) => lex(source@, float_reader(*read_float)) == Ok::<Seq<Tok>, LexError>(toks(ts@)),
            Err(e) => lex(source@, float_reader(*read_float)) == Err::<Seq<Tok>, LexError>(e),
        },
{
    let ghost rf = float_reader(*read_float);
    let n = source.unicode_len();
    let mut s: Vec<char> = Vec::new();
    let mut k: usize = 0;
    while k < n
        invariant
            n == source@.len(),
            k <= n,
            s@ == source@.subrange(0, k as int),
        decreases n - k,
    {
        s.push(source.get_char(k));
        k += 1;
        assert(s@ =~= source@.subrange(0, k as int));
    }
    assert(s@ =~= source@);
    let mut out: Vec<TokenType> = Vec::new();
    let mut i: usize = 0;
    while i < n
        invariant
            n == s@.len(),
            s@ == source@,
            i <= n,
            reads_floats(*read_float),
            rf == float_reader(*read_float),
            lex(s@, rf) == prepend(toks(out@), lex_from(s@, i as int, rf)),
        decreases n - i,
    {
        let step = scan_at(source, &s, i, read_float);
        match step {
            Ok((tok, j)) => {
                match tok {
                    Some(t) => {
                        let ghost before = out@;
                        let ghost tm = t@;
                        out.push(t);
                        proof {
                            assert(toks(out@) =~= toks(before).push(tm));
                            match lex_from(s@, j as int, rf) {
                                Ok(rest) => {
                                    assert(toks(before) + (seq![tm] + rest) =~= toks(out@) + rest);
                                },
                                Err(_) => {},
                            }
                        }
                    },
                    None => {},
                }
                i = j;
            },
            Err(e) => {
                return Err(e);
            },
        }
    }
    assert(toks(out@) + Seq::<Tok>::empty() =~= toks(out@));
    Ok(out)
}

/// The source texts of a sequence of tokens, joined.
pub open spec fn joined(ts: Seq<Tok>) -> Seq<char>
    decreases ts.len(),
{
    if ts.len() == 0 {
        Seq::empty()
    } else {
        tok_text(ts[0]) + joined(ts.drop_first())
    }
}

/// Whether every scanning step from `i` on emits a token written exactly as
/// it was read: no comment is skipped, no float literal is read (its text is
/// written outside this library), and no integer literal has a leading zero.
pub open spec fn plain_from(s: Seq<char>, i: int, read_float: spec_fn(Seq<char>) -> u64) -> bool
    decreases s.len() - i,
{
    if i < 0 || i >= s.len() {
        true
    } else {
        match scan(s, i, read_float) {
            Scan::Emit(t, j) => i < j <= s.len() && !(t matches Tok::Number(Number::Float(_))) && (
            t is Number ==> (s[i] != '0' || j == i + 1)) && plain_from(s, j, read_float),
            _ => false,
        }
    }
}

proof fn lemma_digit_char(c: char)
    requires
        is_digit(c),
    ensures
        digit_char((c as u32 - '0' as u32) as int) == c,
        0 <= (c as u32 - '0' as u32) < 10,
{
    let n = c as u32 - '0' as u32;
    if c == '0' {} else if c == '1' {} else if c == '2' {} else if c == '3' {} else if c == '4' {}
    else if c == '5' {} else if c == '6' {} else if c == '7' {} else if c == '8' {} else {
        assert(c == '9');
    }
}

proof fn lemma_decimal(d: Seq<char>)
    requires
        d.len() >= 1,
        forall|j: int| 0 <= j < d.len() ==> is_digit(#[trigger] d[j]),
        d.len() == 1 || d[0] != '0',
    ensures
        digits_value(d) >= 0,
        nat_text(digits_value(d) as nat) == d,
        d.len() > 1 ==> digits_value(d) >= 10,
        d[0] != '0' ==> digits_value(d) >= 1,
    decreases d.len(),
{
    let c = d.last();
    lemma_digit_char(c);
    let n = (c as u32 - '0' as u32) as int;
    if d.len() == 1 {
        assert(d.drop_last() =~= Seq::<char>::empty());
        assert(digits_value(d.drop_last()) == 0);
        assert(digits_value(d) == n);
        assert(nat_text(n as nat) =~= d);
        if d[0] != '0' {
            assert(c == d[0]);
        }
    } else {
        let p = d.drop_last();
        assert(p[0] == d[0]);
        lemma_decimal(p);
        let vp = digits_value(p);
        let v = digits_value(d);
        assert(v == vp * 10 + n);
        assert(v / 10 == vp && v % 10 == n) by (nonlinear_arith)
            requires
                v == vp * 10 + n,
                0 <= n < 10,
                vp >= 0,
        ;
        assert(nat_text(v as nat) == nat_text(vp as nat).push(digit_char(n)));
        assert(p.push(c) =~= d);
    }
}

proof fn lemma_keyword_text(w: Seq<char>)
    requires
        keyword_of(w) is Some,
    ensures
        keyword_text(keyword_of(w)->Some_0) == w,
{
}

proof fn lemma_char_token_text(c: char)
    requires
        char_token(c) is Some,
    ensures
        tok_text(char_token(c)->Some_0) == seq![c],
{
}

/// One scanning step of a plain source emits the text it consumed.
proof fn lemma_scan_text(s: Seq<char>, i: int, rf: spec_fn(Seq<char>) -> u64)
    requires
        0 <= i < s.len(),
        plain_from(s, i, rf),
    ensures
        tok_text(scan(s, i, rf)->Emit_0) == s.subrange(i, scan(s, i, rf)->Emit_1),
{
    let c = s[i];
    let sc = scan(s, i, rf);
    let t = sc->Emit_0;
    let j = sc->Emit_1;
    if c == '=' || c == '!' || c == '>' || c == '<' {
        if i + 1 < s.len() && s[i + 1] == '=' {
            assert(s.subrange(i, j) =~= seq![c, '=']);
        } else {
            assert(s.subrange(i, j) =~= seq![c]);
        }
    } else if c == '/' {
        assert(s.subrange(i, j) =~= seq![c]);
    } else if c == '"' {
        let e = scan_while(s, i + 1, Class::NotQuote);
        lemma_scan_while_bounds(s, i + 1, Class::NotQuote);
        assert(s.subrange(i, j) =~= seq!['"'] + s.subrange(i + 1, e) + seq!['"']);
    } else if is_digit(c) {
        let d1 = scan_while(s, i, Class::Digit);
        lemma_scan_while_bounds(s, i, Class::Digit);
        lemma_scan_while_bounds(s, i + 1, Class::Digit);
        let d = s.subrange(i, d1);
        assert forall|k: int| 0 <= k < d.len() implies is_digit(#[trigger] d[k]) by {
            assert(d[k] == s[i + k]);
        }
        lemma_decimal(d);
    } else if is_ident_start(c) {
        let e = scan_while(s, i, Class::IdentChar);
        let w = s.subrange(i, e);
        if keyword_of(w) is Some {
            lemma_keyword_text(w);
        }
    } else {
        lemma_char_token_text(c);
        assert(s.subrange(i, j) =~= seq![c]);
    }
}

proof fn lemma_lossless_from(s: Seq<char>, i: int, rf: spec_fn(Seq<char>) -> u64)
    requires
        0 <= i <= s.len(),
        plain_from(s, i, rf),
    ensures
        lex_from(s, i, rf) is Ok,
        joined(lex_from(s, i, rf)->Ok_0) == s.subrange(i, s.len() as int),
    decreases s.len() - i,
{
    if i == s.len() {
        assert(s.subrange(i, i) =~= Seq::<char>::empty());
    } else {
        let sc = scan(s, i, rf);
        let t = sc->Emit_0;
        let j = sc->Emit_1;
        lemma_scan_text(s, i, rf);
        lemma_lossless_from(s, j, rf);
        let rest = lex_from(s, j, rf)->Ok_0;
        let all = seq![t] + rest;
        assert(all.drop_first() =~= rest);
        assert(all[0] == t);
        assert(joined(all) == tok_text(t) + joined(rest));
        assert(s.subrange(i, s.len() as int) =~= s.subrange(i, j) + s.subrange(j, s.len() as int));
    }
}

/// Lexing is lossless: when every step of lexing `s` emits a token written
/// exactly as it was read (no comment, no float literal, no integer literal
/// with a leading zero), lexing succeeds and the texts of the tokens,
/// whitespace tokens included, joined in order, give back `s`.
pub proof fn lemma_lexing_lossless(s: Seq<char>, read_float: spec_fn(Seq<char>) -> u64)
    requires
        plain_from(s, 0, read_float),
    ensures
        lex(s, read_float) is Ok,
        joined(lex(s, read_float)->Ok_0) == s,
{
    lemma_lossless_from(s, 0, read_float);
    assert(s.subrange(0, s.len() as int) =~= s);
}

} // verus!
