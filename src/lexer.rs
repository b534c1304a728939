//! Splits source text into tokens: words, unsigned integer literals,
//! punctuation and comments. Whitespace separates tokens and is dropped.
use vstd::prelude::*;

verus! {

/// Unicode white space.
pub open spec fn is_space(c: char) -> bool {
    let u = c as u32;
    ||| 0x09 <= u <= 0x0D
    ||| u == 0x20
    ||| u == 0x85
    ||| u == 0xA0
    ||| u == 0x1680
    ||| 0x2000 <= u <= 0x200A
    ||| u == 0x2028
    ||| u == 0x2029
    ||| u == 0x202F
    ||| u == 0x205F
    ||| u == 0x3000
}

pub open spec fn is_ident_start(c: char) -> bool {
    ('a' <= c <= 'z') || ('A' <= c <= 'Z') || c == '_'
}

pub open spec fn is_ident_char(c: char) -> bool {
    is_ident_start(c) || ('0' <= c <= '9')
}

/// `c` is a digit in base `radix` (2, 10 or 16).
pub open spec fn is_digit_in(c: char, radix: u64) -> bool {
    if radix == 2 {
        c == '0' || c == '1'
    } else if radix == 16 {
        ('0' <= c <= '9') || ('a' <= c <= 'f') || ('A' <= c <= 'F')
    } else {
        '0' <= c <= '9'
    }
}

pub open spec fn digit_value(c: char) -> nat {
    if '0' <= c <= '9' {
        (c as u32 - '0' as u32) as nat
    } else if 'a' <= c <= 'f' {
        (c as u32 - 'a' as u32 + 10) as nat
    } else {
        (c as u32 - 'A' as u32 + 10) as nat
    }
}

/// The number of identifier characters from `i` on.
pub open spec fn ident_run(s: Seq<char>, i: int) -> nat
    decreases s.len() - i,
{
    if 0 <= i < s.len() && is_ident_char(s[i]) {
        1 + ident_run(s, i + 1)
    } else {
        0
    }
}

/// The number of digits in base `radix` from `i` on.
pub open spec fn digit_run(s: Seq<char>, i: int, radix: u64) -> nat
    decreases s.len() - i,
{
    if 0 <= i < s.len() && is_digit_in(s[i], radix) {
        1 + digit_run(s, i + 1, radix)
    } else {
        0
    }
}

/// The number of characters from `i` on before the end of the line.
pub open spec fn line_run(s: Seq<char>, i: int) -> nat
    decreases s.len() - i,
{
    if 0 <= i < s.len() && s[i] != '\n' && s[i] != '\r' {
        1 + line_run(s, i + 1)
    } else {
        0
    }
}

/// The value of the digits `s[a..b]` in base `radix`.
pub open spec fn digits_value(s: Seq<char>, a: int, b: int, radix: u64) -> nat
    decreases b - a,
{
    if b <= a {
        0
    } else {
        (digits_value(s, a, b - 1, radix) * radix + digit_value(s[b - 1])) as nat
    }
}

#[derive(Debug, PartialEq, Eq, Structural, Clone, Copy)]
pub enum TokenKind {
    /// An identifier or a keyword.
    Word,
    /// An unsigned integer literal, with its value, or `None` when the value
    /// does not fit in 64 bits.
    Number(Option<u64>),
    LeftBrace,
    RightBrace,
    LeftBracket,
    RightBracket,
    Semicolon,
    Colon,
    MapsTo,
    Equal,
    Comma,
    DoubleDot,
    /// `#` and the rest of its line.
    Comment,
    /// A character that starts no token.
    Invalid,
}

/// A token and the characters `start..end` it spans.
#[derive(Debug, PartialEq, Eq, Structural, Clone, Copy)]
pub struct Token {
    pub kind: TokenKind,
    pub start: usize,
    pub end: usize,
}

/// A number literal starting at `i`: its digits run from `d` in base `radix`.
pub open spec fn number_at(s: Seq<char>, i: int, d: int, radix: u64) -> (TokenKind, int) {
    let end = d + 1 + digit_run(s, d + 1, radix);
    let v = digits_value(s, d, end, radix);
    (TokenKind::Number(if v <= u64::MAX { Some(v as u64) } else { None }), end)
}

/// The kind and end of the token that starts at `i`, a character that is
/// not white space.
pub open spec fn token_at(s: Seq<char>, i: int) -> (TokenKind, int) {
    let c = s[i];
    let has_next = i + 1 < s.len();
    if is_ident_start(c) {
        (TokenKind::Word, i + 1 + ident_run(s, i + 1))
    } else if c == '0' && i + 2 < s.len() && s[i + 1] == 'x' && is_digit_in(s[i + 2], 16) {
        number_at(s, i, i + 2, 16)
    } else if c == '0' && i + 2 < s.len() && s[i + 1] == 'b' && is_digit_in(s[i + 2], 2) {
        number_at(s, i, i + 2, 2)
    } else if is_digit_in(c, 10) {
        number_at(s, i, i, 10)
    } else if c == '{' {
        (TokenKind::LeftBrace, i + 1)
    } else if c == '}' {
        (TokenKind::RightBrace, i + 1)
    } else if c == '[' {
        (TokenKind::LeftBracket, i + 1)
    } else if c == ']' {
        (TokenKind::RightBracket, i + 1)
    } else if c == ';' {
        (TokenKind::Semicolon, i + 1)
    } else if c == ':' {
        (TokenKind::Colon, i + 1)
    } else if c == ',' {
        (TokenKind::Comma, i + 1)
    } else if c == '=' && has_next && s[i + 1] == '>' {
        (TokenKind::MapsTo, i + 2)
    } else if c == '=' {
        (TokenKind::Equal, i + 1)
    } else if c == '.' && has_next && s[i + 1] == '.' {
        (TokenKind::DoubleDot, i + 2)
    } else if c == '#' {
        (TokenKind::Comment, i + 1 + line_run(s, i + 1))
    } else {
        (TokenKind::Invalid, i + 1)
    }
}

/// The tokens of `s` from position `i` on.
pub open spec fn lex(s: Seq<char>, i: int) -> Seq<Token>
    decreases s.len() - i via lex_decreases
{
    if i < 0 || i >= s.len() {
        Seq::empty()
    } else if is_space(s[i]) {
        lex(s, i + 1)
    } else {
        let (kind, end) = token_at(s, i);
        seq![Token { kind, start: i as usize, end: end as usize }] + lex(s, end)
    }
}

proof fn lemma_runs_bounded(s: Seq<char>, i: int, radix: u64)
    requires
        0 <= i <= s.len(),
    ensures
        i + ident_run(s, i) <= s.len(),
        i + digit_run(s, i, radix) <= s.len(),
        i + line_run(s, i) <= s.len(),
    decreases s.len() - i,
{
    if i < s.len() {
        lemma_runs_bounded(s, i + 1, radix);
    }
}

/// A token ends after its start and no later than the text.
pub proof fn lemma_token_at_bounds(s: Seq<char>, i: int)
    requires
        0 <= i < s.len(),
    ensures
        i < token_at(s, i).1 <= s.len(),
{
    lemma_runs_bounded(s, i + 1, 16);
    lemma_runs_bounded(s, i + 1, 10);
    lemma_runs_bounded(s, i + 1, 2);
    if i + 3 <= s.len() {
        lemma_runs_bounded(s, i + 3, 16);
        lemma_runs_bounded(s, i + 3, 2);
    }
}

#[via_fn]
proof fn lex_decreases(s: Seq<char>, i: int) {
    if 0 <= i < s.len() && !is_space(s[i]) {
        lemma_token_at_bounds(s, i);
    }
}

fn is_space_char(c: char) -> (r: bool)
    ensures
        r == is_space(c),
{
    let u = c as u32;
    (0x09 <= u && u <= 0x0D) || u == 0x20 || u == 0x85 || u == 0xA0 || u == 0x1680 || (0x2000
        <= u && u <= 0x200A) || u == 0x2028 || u == 0x2029 || u == 0x202F || u == 0x205F || u
        == 0x3000
}

fn is_ident_start_char(c: char) -> (r: bool)
    ensures
        r == is_ident_start(c),
{
    ('a' <= c && c <= 'z') || ('A' <= c && c <= 'Z') || c == '_'
}

fn is_ident_char_exec(c: char) -> (r: bool)
    ensures
        r == is_ident_char(c),
{
    is_ident_start_char(c) || ('0' <= c && c <= '9')
}

fn is_digit_char(c: char, radix: u64) -> (r: bool)
    ensures
        r == is_digit_in(c, radix),
{
    if radix == 2 {
        c == '0' || c == '1'
    } else if radix == 16 {
        ('0' <= c && c <= '9') || ('a' <= c && c <= 'f') || ('A' <= c && c <= 'F')
    } else {
        '0' <= c && c <= '9'
    }
}

fn digit_value_exec(c: char) -> (r: u64)
    requires
        is_digit_in(c, 16),
    ensures
        r == digit_value(c),
        r < 16,
{
    if '0' <= c && c <= '9' {
        (c as u32 - '0' as u32) as u64
    } else if 'a' <= c && c <= 'f' {
        (c as u32 - 'a' as u32 + 10) as u64
    } else {
        (c as u32 - 'A' as u32 + 10) as u64
    }
}

proof fn lemma_digits_value_grows(s: Seq<char>, a: int, b: int, radix: u64)
    requires
        a <= b,
        radix >= 1,
    ensures
        digits_value(s, a, b + 1, radix) >= digits_value(s, a, b, radix),
{
    let v = digits_value(s, a, b, radix);
    assert(v * radix >= v) by (nonlinear_arith)
        requires
            radix >= 1,
    ;
}

/// Scans a number literal whose digits start at `d`.
fn scan_number(s: &Vec<char>, i: usize, d: usize, radix: u64) -> (r: (TokenKind, usize))
    requires
        d < s@.len(),
        is_digit_in(s@[d as int], radix),
        radix == 2 || radix == 10 || radix == 16,
    ensures
        r.0 == number_at(s@, i as int, d as int, radix).0,
        r.1 as int == number_at(s@, i as int, d as int, radix).1,
{
    let ghost end = d + 1 + digit_run(s@, d + 1, radix);
    let mut k: usize = d;
    let mut acc: u64 = 0;
    let mut overflow = false;
    assert(digits_value(s@, d as int, d as int, radix) == 0);
    while k < s.len() && is_digit_char(s[k], radix)
        invariant
            d <= k <= s@.len(),
            radix == 2 || radix == 10 || radix == 16,
            end == d + 1 + digit_run(s@, d + 1, radix),
            k == d || (k > d && k + digit_run(s@, k as int, radix) == end),
            k == d ==> is_digit_in(s@[d as int], radix),
            overflow <==> digits_value(s@, d as int, k as int, radix) > u64::MAX,
            !overflow ==> acc == digits_value(s@, d as int, k as int, radix),
        decreases s@.len() - k,
    {
        let dv = digit_value_exec(s[k]);
        proof {
            lemma_digits_value_grows(s@, d as int, k as int, radix);
            assert(digits_value(s@, d as int, k + 1, radix) == digits_value(
                s@,
                d as int,
                k as int,
                radix,
            ) * radix + dv);
        }
        if !overflow {
            match acc.checked_mul(radix) {
                Some(m) => match m.checked_add(dv) {
                    Some(v) => {
                        acc = v;
                    },
                    None => {
                        overflow = true;
                    },
                },
                None => {
                    proof {
                        let v = digits_value(s@, d as int, k as int, radix);
                        assert(v * radix + dv >= v * radix);
                    }
                    overflow = true;
                },
            }
        }
        k = k + 1;
    }
    proof {
        if k == d {
            assert(false);
        }
    }
    let kind = if overflow {
        TokenKind::Number(None)
    } else {
        TokenKind::Number(Some(acc))
    };
    (kind, k)
}

fn continues_run(c: char, ident: bool) -> (r: bool)
    ensures
        r == if ident {
            is_ident_char(c)
        } else {
            c != '\n' && c != '\r'
        },
{
    if ident {
        is_ident_char_exec(c)
    } else {
        c != '\n' && c != '\r'
    }
}

/// Counts the run of characters from `i` on that `ident`, or else `line`,
/// selects: identifier characters, or characters before a line end.
fn scan_run(s: &Vec<char>, i: usize, ident: bool) -> (r: usize)
    requires
        i <= s@.len(),
    ensures
        ident ==> r == i + ident_run(s@, i as int),
        !ident ==> r == i + line_run(s@, i as int),
{
    let mut k: usize = i;
    while k < s.len() && continues_run(s[k], ident)
        invariant
            i <= k <= s@.len(),
            ident ==> k + ident_run(s@, k as int) == i + ident_run(s@, i as int),
            !ident ==> k + line_run(s@, k as int) == i + line_run(s@, i as int),
        decreases s@.len() - k,
    {
        k = k + 1;
    }
    k
}

/// The kind and end of the token that starts at `i`.
fn token_kind_at(s: &Vec<char>, i: usize) -> (r: (TokenKind, usize))
    requires
        i < s@.len(),
    ensures
        r.0 == token_at(s@, i as int).0,
        r.1 as int == token_at(s@, i as int).1,
{
    let c = s[i];
    let n = s.len();
    let has_next = n - i > 1;
    if is_ident_start_char(c) {
        (TokenKind::Word, scan_run(s, i + 1, true))
    } else if c == '0' && n - i > 2 && s[i + 1] == 'x' && is_digit_char(s[i + 2], 16) {
        scan_number(s, i, i + 2, 16)
    } else if c == '0' && n - i > 2 && s[i + 1] == 'b' && is_digit_char(s[i + 2], 2) {
        scan_number(s, i, i + 2, 2)
    } else if is_digit_char(c, 10) {
        scan_number(s, i, i, 10)
    } else if c == '{' {
        (TokenKind::LeftBrace, i + 1)
    } else if c == '}' {
        (TokenKind::RightBrace, i + 1)
    } else if c == '[' {
        (TokenKind::LeftBracket, i + 1)
    } else if c == ']' {
        (TokenKind::RightBracket, i + 1)
    } else if c == ';' {
        (TokenKind::Semicolon, i + 1)
    } else if c == ':' {
        (TokenKind::Colon, i + 1)
    } else if c == ',' {
        (TokenKind::Comma, i + 1)
    } else if c == '=' && has_next && s[i + 1] == '>' {
        (TokenKind::MapsTo, i + 2)
    } else if c == '=' {
        (TokenKind::Equal, i + 1)
    } else if c == '.' && has_next && s[i + 1] == '.' {
        (TokenKind::DoubleDot, i + 2)
    } else if c == '#' {
        (TokenKind::Comment, scan_run(s, i + 1, false))
    } else {
        (TokenKind::Invalid, i + 1)
    }
}

/// The tokens of the text `s`, in order.
pub fn tokenize(s: &Vec<char>) -> (r: Vec<Token>)
    ensures
        r@ == lex(s@, 0),
{
    let mut tokens: Vec<Token> = Vec::new();
    let mut i: usize = 0;
    while i < s.len()
        invariant
            i <= s@.len(),
            tokens@ + lex(s@, i as int) == lex(s@, 0),
        decreases s@.len() - i,
    {
        if is_space_char(s[i]) {
            i = i + 1;
        } else {
            let (kind, end) = token_kind_at(s, i);
            proof {
                lemma_token_at_bounds(s@, i as int);
            }
            let ghost before = tokens@;
            tokens.push(Token { kind, start: i, end });
            proof {
                assert(tokens@ + lex(s@, end as int) =~= before + lex(s@, i as int));
            }
            i = end;
        }
    }
    assert(tokens@ =~= lex(s@, 0));
    tokens
}

} // verus!
