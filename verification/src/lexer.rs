//! The lexer: source text to tokens.
//!
//! Whitespace (space, tab, line feed, carriage return) separates tokens. At
//! each position the longest token wins; a keyword wins over an identifier of
//! the same length. Numbers are decimal; a number followed by `.` must go on
//! with a digit, as a fraction. A byte that starts no token is an error, whose
//! span covers the whole character it begins.
use vstd::prelude::*;
use vstd::string::StringSliceAdditionalSpecFns;
use vstd::utf8::*;

use crate::error::{BengalError, Span};
use crate::text::push_str;

verus! {

/// A token of the Bengal language.
#[derive(Debug, Clone, PartialEq, Eq)]
pub enum Token {
    /// A decimal integer that fits in `i64`.
    Number(i64),
    /// A decimal fraction `<digits>.<digits>`, kept as its source text.
    Float(String),
    Plus,
    Minus,
    Star,
    Slash,
    LParen,
    RParen,
    Func,
    Let,
    Var,
    Return,
    Yield,
    True,
    False,
    If,
    Else,
    While,
    Break,
    Continue,
    As,
    Nobreak,
    Struct,
    Init,
    SelfKw,
    Protocol,
    Module,
    Import,
    Public,
    Package,
    Internal,
    Fileprivate,
    Private,
    Super,
    Arrow,
    Colon,
    ColonColon,
    Semicolon,
    Comma,
    LBrace,
    RBrace,
    Eq,
    EqEq,
    NotEq,
    LtEq,
    GtEq,
    Lt,
    Gt,
    Dot,
    AmpAmp,
    PipePipe,
    Bang,
    Ident(String),
    Eof,
}

/// What a token stands for: its number, its text, or the token itself when it carries nothing.
pub enum Lexeme {
    Number(i64),
    Float(Seq<char>),
    Ident(Seq<char>),
    Fixed(Token),
}

impl View for Token {
    type V = Lexeme;

    open spec fn view(&self) -> Lexeme {
        match self {
            Token::Number(n) => Lexeme::Number(*n),
            Token::Float(s) => Lexeme::Float(s@),
            Token::Ident(s) => Lexeme::Ident(s@),
            _ => Lexeme::Fixed(*self),
        }
    }
}

/// A value with the span of source text it came from.
#[derive(Debug, Clone)]
pub struct Spanned<T> {
    pub node: T,
    pub span: Span,
}

/// Space, tab, line feed or carriage return.
pub open spec fn is_space(c: u8) -> bool {
    c == 0x20 || c == 0x09 || c == 0x0A || c == 0x0D
}

/// `0` to `9`.
pub open spec fn is_digit_byte(c: u8) -> bool {
    0x30 <= c <= 0x39
}

/// A letter or `_`.
pub open spec fn is_ident_start(c: u8) -> bool {
    (0x41 <= c <= 0x5A) || (0x61 <= c <= 0x7A) || c == 0x5F
}

/// A letter, a digit or `_`.
pub open spec fn is_ident_byte(c: u8) -> bool {
    is_ident_start(c) || is_digit_byte(c)
}

/// The end of the run of whitespace that starts at `i`.
pub open spec fn space_end(b: Seq<u8>, i: int) -> int
    decreases b.len() - i,
{
    if 0 <= i < b.len() && is_space(b[i]) {
        space_end(b, i + 1)
    } else {
        i
    }
}

/// The end of the run of digits that starts at `i`.
pub open spec fn digits_end(b: Seq<u8>, i: int) -> int
    decreases b.len() - i,
{
    if 0 <= i < b.len() && is_digit_byte(b[i]) {
        digits_end(b, i + 1)
    } else {
        i
    }
}

/// The end of the run of identifier bytes that starts at `i`.
pub open spec fn ident_end(b: Seq<u8>, i: int) -> int
    decreases b.len() - i,
{
    if 0 <= i < b.len() && is_ident_byte(b[i]) {
        ident_end(b, i + 1)
    } else {
        i
    }
}

/// The first character boundary at or after `i`: the end of the text, or a
/// byte that is not a UTF-8 continuation byte.
pub open spec fn char_end(b: Seq<u8>, i: int) -> int
    decreases b.len() - i,
{
    if 0 <= i < b.len() && is_continuation_byte(b[i]) {
        char_end(b, i + 1)
    } else {
        i
    }
}

/// The value of the decimal digits `b[i..e]`.
pub open spec fn digits_value(b: Seq<u8>, i: int, e: int) -> int
    decreases e - i,
{
    if e <= i {
        0
    } else {
        digits_value(b, i, e - 1) * 10 + (b[e - 1] - 0x30)
    }
}

/// The bytes `b[i..e]` as characters.
pub open spec fn text(b: Seq<u8>, i: int, e: int) -> Seq<char> {
    Seq::new((e - i) as nat, |k: int| b[i + k] as char)
}

/// The keyword spelled by a word, if any.
pub open spec fn keyword(w: Seq<u8>) -> Option<Token> {
    if w == "func".spec_bytes() {
        Some(Token::Func)
    } else if w == "let".spec_bytes() {
        Some(Token::Let)
    } else if w == "var".spec_bytes() {
        Some(Token::Var)
    } else if w == "return".spec_bytes() {
        Some(Token::Return)
    } else if w == "yield".spec_bytes() {
        Some(Token::Yield)
    } else if w == "true".spec_bytes() {
        Some(Token::True)
    } else if w == "false".spec_bytes() {
        Some(Token::False)
    } else if w == "if".spec_bytes() {
        Some(Token::If)
    } else if w == "else".spec_bytes() {
        Some(Token::Else)
    } else if w == "while".spec_bytes() {
        Some(Token::While)
    } else if w == "break".spec_bytes() {
        Some(Token::Break)
    } else if w == "continue".spec_bytes() {
        Some(Token::Continue)
    } else if w == "as".spec_bytes() {
        Some(Token::As)
    } else if w == "nobreak".spec_bytes() {
        Some(Token::Nobreak)
    } else if w == "struct".spec_bytes() {
        Some(Token::Struct)
    } else if w == "init".spec_bytes() {
        Some(Token::Init)
    } else if w == "self".spec_bytes() {
        Some(Token::SelfKw)
    } else if w == "protocol".spec_bytes() {
        Some(Token::Protocol)
    } else if w == "module".spec_bytes() {
        Some(Token::Module)
    } else if w == "import".spec_bytes() {
        Some(Token::Import)
    } else if w == "public".spec_bytes() {
        Some(Token::Public)
    } else if w == "package".spec_bytes() {
        Some(Token::Package)
    } else if w == "internal".spec_bytes() {
        Some(Token::Internal)
    } else if w == "fileprivate".spec_bytes() {
        Some(Token::Fileprivate)
    } else if w == "private".spec_bytes() {
        Some(Token::Private)
    } else if w == "super".spec_bytes() {
        Some(Token::Super)
    } else {
        None
    }
}

/// The operator or punctuation token at `i` and its length in bytes, if any;
/// the two-byte operators win over their one-byte prefixes.
pub open spec fn symbol(b: Seq<u8>, i: int) -> Option<(Token, int)> {
    let c = b[i];
    let next: int = if i + 1 < b.len() { b[i + 1] as int } else { -1 };
    if c == 0x2D {
        if next == 0x3E { Some((Token::Arrow, 2)) } else { Some((Token::Minus, 1)) }
    } else if c == 0x3A {
        if next == 0x3A { Some((Token::ColonColon, 2)) } else { Some((Token::Colon, 1)) }
    } else if c == 0x3D {
        if next == 0x3D { Some((Token::EqEq, 2)) } else { Some((Token::Eq, 1)) }
    } else if c == 0x21 {
        if next == 0x3D { Some((Token::NotEq, 2)) } else { Some((Token::Bang, 1)) }
    } else if c == 0x3C {
        if next == 0x3D { Some((Token::LtEq, 2)) } else { Some((Token::Lt, 1)) }
    } else if c == 0x3E {
        if next == 0x3D { Some((Token::GtEq, 2)) } else { Some((Token::Gt, 1)) }
    } else if c == 0x26 {
        if next == 0x26 { Some((Token::AmpAmp, 2)) } else { None }
    } else if c == 0x7C {
        if next == 0x7C { Some((Token::PipePipe, 2)) } else { None }
    } else if c == 0x2B {
        Some((Token::Plus, 1))
    } else if c == 0x2A {
        Some((Token::Star, 1))
    } else if c == 0x2F {
        Some((Token::Slash, 1))
    } else if c == 0x28 {
        Some((Token::LParen, 1))
    } else if c == 0x29 {
        Some((Token::RParen, 1))
    } else if c == 0x3B {
        Some((Token::Semicolon, 1))
    } else if c == 0x2C {
        Some((Token::Comma, 1))
    } else if c == 0x7B {
        Some((Token::LBrace, 1))
    } else if c == 0x7D {
        Some((Token::RBrace, 1))
    } else if c == 0x2E {
        Some((Token::Dot, 1))
    } else {
        None
    }
}

/// What the lexer finds at a position that is not whitespace: a token and
/// where it ends, or a failure and where the offending text ends.
pub enum Scan {
    Token(Lexeme, int),
    Fail(int),
}

/// The token at `i`, which is not whitespace.
pub open spec fn scan(b: Seq<u8>, i: int) -> Scan {
    let c = b[i];
    if is_digit_byte(c) {
        let e = digits_end(b, i);
        if e < b.len() && b[e] == 0x2E {
            if e + 1 < b.len() && is_digit_byte(b[e + 1]) {
                let f = digits_end(b, e + 1);
                Scan::Token(Lexeme::Float(text(b, i, f)), f)
            } else {
                Scan::Fail(char_end(b, e + 1))
            }
        } else if digits_value(b, i, e) <= i64::MAX {
            Scan::Token(Lexeme::Number(digits_value(b, i, e) as i64), e)
        } else {
            Scan::Fail(char_end(b, e))
        }
    } else if is_ident_start(c) {
        let e = ident_end(b, i);
        match keyword(b.subrange(i, e)) {
            Some(t) => Scan::Token(Lexeme::Fixed(t), e),
            None => Scan::Token(Lexeme::Ident(text(b, i, e)), e),
        }
    } else {
        match symbol(b, i) {
            Some((t, n)) => Scan::Token(Lexeme::Fixed(t), i + n),
            None => Scan::Fail(char_end(b, i + 1)),
        }
    }
}


/// The bytes `b[i..e]` are all ASCII.
pub open spec fn ascii_run(b: Seq<u8>, i: int, e: int) -> bool {
    forall|k: int| i <= k < e ==> #[trigger] b[k] < 0x80
}

/// Where a run of whitespace ends.
pub proof fn lemma_space_end(b: Seq<u8>, i: int)
    requires
        0 <= i <= b.len(),
    ensures
        i <= space_end(b, i) <= b.len(),
        space_end(b, i) == b.len() || !is_space(b[space_end(b, i)]),
        ascii_run(b, i, space_end(b, i)),
    decreases b.len() - i,
{
    if i < b.len() && is_space(b[i]) {
        lemma_space_end(b, i + 1);
    }
}

/// Where a run of digits ends.
pub proof fn lemma_digits_end(b: Seq<u8>, i: int)
    requires
        0 <= i <= b.len(),
    ensures
        i <= digits_end(b, i) <= b.len(),
        digits_end(b, i) == b.len() || !is_digit_byte(b[digits_end(b, i)]),
        forall|k: int| i <= k < digits_end(b, i) ==> is_digit_byte(#[trigger] b[k]),
    decreases b.len() - i,
{
    if i < b.len() && is_digit_byte(b[i]) {
        lemma_digits_end(b, i + 1);
    }
}

/// Where a run of identifier bytes ends.
pub proof fn lemma_ident_end(b: Seq<u8>, i: int)
    requires
        0 <= i <= b.len(),
    ensures
        i <= ident_end(b, i) <= b.len(),
        ident_end(b, i) == b.len() || !is_ident_byte(b[ident_end(b, i)]),
        forall|k: int| i <= k < ident_end(b, i) ==> is_ident_byte(#[trigger] b[k]),
    decreases b.len() - i,
{
    if i < b.len() && is_ident_byte(b[i]) {
        lemma_ident_end(b, i + 1);
    }
}

/// Where the continuation bytes after a position end.
pub proof fn lemma_char_end(b: Seq<u8>, i: int)
    requires
        0 <= i <= b.len(),
    ensures
        i <= char_end(b, i) <= b.len(),
        char_end(b, i) == b.len() || !is_continuation_byte(b[char_end(b, i)]),
    decreases b.len() - i,
{
    if i < b.len() && is_continuation_byte(b[i]) {
        lemma_char_end(b, i + 1);
    }
}

/// A scan moves forward and stays inside the text; a token is made of ASCII bytes.
pub proof fn lemma_scan_bounds(b: Seq<u8>, i: int)
    requires
        0 <= i < b.len(),
    ensures
        match scan(b, i) {
            Scan::Token(_, e) => i < e <= b.len() && ascii_run(b, i, e),
            Scan::Fail(e) => i < e <= b.len() && (e == b.len() || !is_continuation_byte(b[e])),
        },
{
    let c = b[i];
    if is_digit_byte(c) {
        lemma_digits_end(b, i);
        let e = digits_end(b, i);
        if e < b.len() && b[e] == 0x2E {
            if e + 1 < b.len() && is_digit_byte(b[e + 1]) {
                lemma_digits_end(b, e + 1);
                let f = digits_end(b, e + 1);
                assert forall|k: int| i <= k < f implies #[trigger] b[k] < 0x80 by {
                    if k < e {
                        assert(is_digit_byte(b[k]));
                    } else if k > e {
                        assert(is_digit_byte(b[k]));
                    }
                }
            } else {
                lemma_char_end(b, e + 1);
            }
        } else {
            lemma_char_end(b, e);
            assert forall|k: int| i <= k < e implies #[trigger] b[k] < 0x80 by {
                assert(is_digit_byte(b[k]));
            }
        }
    } else if is_ident_start(c) {
        lemma_ident_end(b, i);
        let e = ident_end(b, i);
        assert forall|k: int| i <= k < e implies #[trigger] b[k] < 0x80 by {
            assert(is_ident_byte(b[k]));
        }
    } else {
        lemma_char_end(b, i + 1);
    }
}

/// The tokens of `b` from position `i` on, each with its start and end, and
/// a last `Eof` token at the end of the text; or the span of the first text
/// that starts no token.
pub open spec fn tokens_from(b: Seq<u8>, i: int) -> Result<Seq<(Lexeme, int, int)>, (int, int)>
    decreases b.len() - i,
    when 0 <= i <= b.len()
{
    proof { lemma_space_end(b, i); }
    let j = space_end(b, i);
    if j >= b.len() {
        Ok(seq![(Lexeme::Fixed(Token::Eof), b.len() as int, b.len() as int)])
    } else {
        proof { lemma_scan_bounds(b, j); }
        match scan(b, j) {
            Scan::Token(t, e) => match tokens_from(b, e) {
                Ok(rest) => Ok(seq![(t, j, e)] + rest),
                Err(x) => Err(x),
            },
            Scan::Fail(e) => Err((j, e)),
        }
    }
}

/// The tokens of a whole text, or the span of its first offending text.
pub open spec fn lex(b: Seq<u8>) -> Result<Seq<(Lexeme, int, int)>, (int, int)> {
    tokens_from(b, 0)
}

/// The message of a lexing error over `b[start..end]`.
pub open spec fn lex_message(b: Seq<u8>, start: int, end: int) -> Seq<char> {
    "unexpected character: `"@ + decode_utf8(b.subrange(start, end)) + "`"@
}


/// The tokens of a list, each with its start and end.
pub open spec fn spanned_view(ts: Seq<Spanned<Token>>) -> Seq<(Lexeme, int, int)> {
    Seq::new(ts.len(), |k: int| (ts[k].node@, ts[k].span.start as int, ts[k].span.end as int))
}

/// The tokens `acc` followed by the outcome of lexing the rest.
pub open spec fn after(
    acc: Seq<(Lexeme, int, int)>,
    rest: Result<Seq<(Lexeme, int, int)>, (int, int)>,
) -> Result<Seq<(Lexeme, int, int)>, (int, int)> {
    match rest {
        Ok(r) => Ok(acc + r),
        Err(x) => Err(x),
    }
}

/// A character boundary followed by an ASCII byte is followed by another boundary.
pub proof fn lemma_ascii_boundary_step(bytes: Seq<u8>, i: int)
    requires
        valid_utf8(bytes),
        is_char_boundary(bytes, i),
        0 <= i < bytes.len(),
        bytes[i] < 0x80,
    ensures
        is_char_boundary(bytes, i + 1),
    decreases bytes.len(),
{
    let l = length_of_first_scalar(bytes);
    let rest = pop_first_scalar(bytes);
    if i == 0 {
        assert(l == 1);
        assert(is_char_boundary(rest, 0));
    } else {
        assert(is_char_boundary(rest, i - l));
        assert(rest[i - l] == bytes[i]);
        lemma_ascii_boundary_step(rest, i - l);
    }
}

/// A character boundary followed by a run of ASCII bytes is followed by another boundary.
pub proof fn lemma_ascii_run_boundary(bytes: Seq<u8>, i: int, e: int)
    requires
        valid_utf8(bytes),
        is_char_boundary(bytes, i),
        0 <= i <= e <= bytes.len(),
        ascii_run(bytes, i, e),
    ensures
        is_char_boundary(bytes, e),
    decreases e - i,
{
    if i < e {
        assert(bytes[i] < 0x80);
        lemma_ascii_boundary_step(bytes, i);
        lemma_ascii_run_boundary(bytes, i + 1, e);
    }
}

/// Whether a byte is whitespace.
fn space_byte(c: u8) -> (r: bool)
    ensures
        r == is_space(c),
{
    c == 0x20 || c == 0x09 || c == 0x0A || c == 0x0D
}

/// Whether a byte is a digit.
fn digit_byte(c: u8) -> (r: bool)
    ensures
        r == is_digit_byte(c),
{
    0x30 <= c && c <= 0x39
}

/// Whether a byte may start an identifier.
fn ident_start_byte(c: u8) -> (r: bool)
    ensures
        r == is_ident_start(c),
{
    (0x41 <= c && c <= 0x5A) || (0x61 <= c && c <= 0x7A) || c == 0x5F
}

/// Whether a byte may go on an identifier.
fn ident_byte(c: u8) -> (r: bool)
    ensures
        r == is_ident_byte(c),
{
    ident_start_byte(c) || digit_byte(c)
}

/// Whether a byte is a UTF-8 continuation byte.
fn continuation_byte(c: u8) -> (r: bool)
    ensures
        r == is_continuation_byte(c),
{
    0x80 <= c && c <= 0xBF
}

/// The end of the whitespace at `i`.
fn skip_spaces(b: &[u8], i: usize) -> (r: usize)
    requires
        i <= b@.len(),
    ensures
        r == space_end(b@, i as int),
{
    let mut j = i;
    while j < b.len() && space_byte(b[j])
        invariant
            i <= j <= b@.len(),
            space_end(b@, j as int) == space_end(b@, i as int),
        decreases b@.len() - j,
    {
        j = j + 1;
    }
    j
}

/// The end of the digits at `i`.
fn skip_digits(b: &[u8], i: usize) -> (r: usize)
    requires
        i <= b@.len(),
    ensures
        r == digits_end(b@, i as int),
{
    let mut j = i;
    while j < b.len() && digit_byte(b[j])
        invariant
            i <= j <= b@.len(),
            digits_end(b@, j as int) == digits_end(b@, i as int),
        decreases b@.len() - j,
    {
        j = j + 1;
    }
    j
}

/// The end of the identifier bytes at `i`.
fn skip_ident(b: &[u8], i: usize) -> (r: usize)
    requires
        i <= b@.len(),
    ensures
        r == ident_end(b@, i as int),
{
    let mut j = i;
    while j < b.len() && ident_byte(b[j])
        invariant
            i <= j <= b@.len(),
            ident_end(b@, j as int) == ident_end(b@, i as int),
        decreases b@.len() - j,
    {
        j = j + 1;
    }
    j
}

/// The first character boundary at or after `i`.
fn skip_continuation(b: &[u8], i: usize) -> (r: usize)
    requires
        i <= b@.len(),
    ensures
        r == char_end(b@, i as int),
{
    let mut j = i;
    while j < b.len() && continuation_byte(b[j])
        invariant
            i <= j <= b@.len(),
            char_end(b@, j as int) == char_end(b@, i as int),
        decreases b@.len() - j,
    {
        j = j + 1;
    }
    j
}

/// The bytes `b[i..e]` as a string of characters.
fn ascii_string(b: &[u8], i: usize, e: usize) -> (r: String)
    requires
        i <= e <= b@.len(),
    ensures
        r@ == text(b@, i as int, e as int),
{
    let mut r = String::new();
    let mut k = i;
    while k < e
        invariant
            i <= k <= e <= b@.len(),
            r@ == text(b@, i as int, k as int),
        decreases e - k,
    {
        let ghost before = r@;
        crate::text::push_char(&mut r, b[k] as char);
        assert(r@ =~= text(b@, i as int, k + 1));
        k = k + 1;
    }
    r
}

/// Digits values only grow as digits are added.
proof fn lemma_digits_value_grows(b: Seq<u8>, i: int, k: int, e: int)
    requires
        i <= k <= e <= b.len(),
        0 <= i,
        forall|m: int| i <= m < e ==> is_digit_byte(#[trigger] b[m]),
    ensures
        digits_value(b, i, k) <= digits_value(b, i, e),
        0 <= digits_value(b, i, k),
    decreases e - i,
{
    if k < e {
        lemma_digits_value_grows(b, i, k, e - 1);
        assert(is_digit_byte(b[e - 1]));
    } else if i < k {
        lemma_digits_value_grows(b, i, k - 1, k - 1);
        assert(is_digit_byte(b[k - 1]));
    }
}

/// The value of the digits `b[i..e]`, if it fits in `i64`.
fn number_value(b: &[u8], i: usize, e: usize) -> (r: Option<i64>)
    requires
        i <= e <= b@.len(),
        forall|m: int| i <= m < e ==> is_digit_byte(#[trigger] b@[m]),
    ensures
        r is Some <==> digits_value(b@, i as int, e as int) <= i64::MAX,
        r matches Some(v) ==> v == digits_value(b@, i as int, e as int),
{
    let mut v: i64 = 0;
    let mut k = i;
    while k < e
        invariant
            i <= k <= e <= b@.len(),
            forall|m: int| i <= m < e ==> is_digit_byte(#[trigger] b@[m]),
            v == digits_value(b@, i as int, k as int),
            v >= 0,
        decreases e - k,
    {
        assert(is_digit_byte(b@[k as int]));
        let d = (b[k] - 0x30) as i64;
        if v > (i64::MAX - d) / 10 {
            proof {
                assert(digits_value(b@, i as int, k + 1) == v * 10 + d);
                assert(v * 10 + d > i64::MAX);
                lemma_digits_value_grows(b@, i as int, k + 1, e as int);
            }
            return None;
        }
        v = v * 10 + d;
        k = k + 1;
    }
    Some(v)
}


/// Whether the bytes `b[start..end]` spell `kw`.
fn word_is(b: &[u8], start: usize, end: usize, kw: &str) -> (r: bool)
    requires
        start <= end <= b@.len(),
    ensures
        r == (b@.subrange(start as int, end as int) == kw.spec_bytes()),
{
    let kb = kw.as_bytes();
    if kb.len() != end - start {
        return false;
    }
    let mut k: usize = 0;
    while k < kb.len()
        invariant
            kb@ == kw.spec_bytes(),
            kb@.len() == end - start,
            start <= end <= b@.len(),
            k <= kb@.len(),
            forall|j: int| 0 <= j < k ==> b@[start + j] == kb@[j],
        decreases kb@.len() - k,
    {
        if b[start + k] != kb[k] {
            assert(b@.subrange(start as int, end as int)[k as int] != kb@[k as int]);
            return false;
        }
        k = k + 1;
    }
    assert(b@.subrange(start as int, end as int) =~= kb@);
    true
}

/// The keyword spelled by `b[i..e]`, if any.
fn keyword_at(b: &[u8], i: usize, e: usize) -> (r: Option<Token>)
    requires
        i <= e <= b@.len(),
    ensures
        r == keyword(b@.subrange(i as int, e as int)),
{
    if word_is(b, i, e, "func") {
        Some(Token::Func)
    } else if word_is(b, i, e, "let") {
        Some(Token::Let)
    } else if word_is(b, i, e, "var") {
        Some(Token::Var)
    } else if word_is(b, i, e, "return") {
        Some(Token::Return)
    } else if word_is(b, i, e, "yield") {
        Some(Token::Yield)
    } else if word_is(b, i, e, "true") {
        Some(Token::True)
    } else if word_is(b, i, e, "false") {
        Some(Token::False)
    } else if word_is(b, i, e, "if") {
        Some(Token::If)
    } else if word_is(b, i, e, "else") {
        Some(Token::Else)
    } else if word_is(b, i, e, "while") {
        Some(Token::While)
    } else if word_is(b, i, e, "break") {
        Some(Token::Break)
    } else if word_is(b, i, e, "continue") {
        Some(Token::Continue)
    } else if word_is(b, i, e, "as") {
        Some(Token::As)
    } else if word_is(b, i, e, "nobreak") {
        Some(Token::Nobreak)
    } else if word_is(b, i, e, "struct") {
        Some(Token::Struct)
    } else if word_is(b, i, e, "init") {
        Some(Token::Init)
    } else if word_is(b, i, e, "self") {
        Some(Token::SelfKw)
    } else if word_is(b, i, e, "protocol") {
        Some(Token::Protocol)
    } else if word_is(b, i, e, "module") {
        Some(Token::Module)
    } else if word_is(b, i, e, "import") {
        Some(Token::Import)
    } else if word_is(b, i, e, "public") {
        Some(Token::Public)
    } else if word_is(b, i, e, "package") {
        Some(Token::Package)
    } else if word_is(b, i, e, "internal") {
        Some(Token::Internal)
    } else if word_is(b, i, e, "fileprivate") {
        Some(Token::Fileprivate)
    } else if word_is(b, i, e, "private") {
        Some(Token::Private)
    } else if word_is(b, i, e, "super") {
        Some(Token::Super)
    } else {
        None
    }
}

/// The operator or punctuation token at `i` and its length, if any.
fn symbol_at(b: &[u8], i: usize) -> (r: Option<(Token, usize)>)
    requires
        i < b@.len(),
    ensures
        match (r, symbol(b@, i as int)) {
            (Some((t, n)), Some((st, sn))) => t == st && n == sn,
            (None, None) => true,
            _ => false,
        },
{
    let c = b[i];
    let next: u16 = if i + 1 < b.len() { b[i + 1] as u16 } else { 0x100 };
    if c == 0x2D {
        if next == 0x3E { Some((Token::Arrow, 2)) } else { Some((Token::Minus, 1)) }
    } else if c == 0x3A {
        if next == 0x3A { Some((Token::ColonColon, 2)) } else { Some((Token::Colon, 1)) }
    } else if c == 0x3D {
        if next == 0x3D { Some((Token::EqEq, 2)) } else { Some((Token::Eq, 1)) }
    } else if c == 0x21 {
        if next == 0x3D { Some((Token::NotEq, 2)) } else { Some((Token::Bang, 1)) }
    } else if c == 0x3C {
        if next == 0x3D { Some((Token::LtEq, 2)) } else { Some((Token::Lt, 1)) }
    } else if c == 0x3E {
        if next == 0x3D { Some((Token::GtEq, 2)) } else { Some((Token::Gt, 1)) }
    } else if c == 0x26 {
        if next == 0x26 { Some((Token::AmpAmp, 2)) } else { None }
    } else if c == 0x7C {
        if next == 0x7C { Some((Token::PipePipe, 2)) } else { None }
    } else if c == 0x2B {
        Some((Token::Plus, 1))
    } else if c == 0x2A {
        Some((Token::Star, 1))
    } else if c == 0x2F {
        Some((Token::Slash, 1))
    } else if c == 0x28 {
        Some((Token::LParen, 1))
    } else if c == 0x29 {
        Some((Token::RParen, 1))
    } else if c == 0x3B {
        Some((Token::Semicolon, 1))
    } else if c == 0x2C {
        Some((Token::Comma, 1))
    } else if c == 0x7B {
        Some((Token::LBrace, 1))
    } else if c == 0x7D {
        Some((Token::RBrace, 1))
    } else if c == 0x2E {
        Some((Token::Dot, 1))
    } else {
        None
    }
}

/// The token at `i`, which is not whitespace, and where it ends; or where
/// the offending text that starts at `i` ends.
fn scan_at(b: &[u8], i: usize) -> (r: Result<(Token, usize), usize>)
    requires
        i < b@.len(),
    ensures
        match (r, scan(b@, i as int)) {
            (Ok((t, e)), Scan::Token(l, se)) => t@ == l && e == se,
            (Err(e), Scan::Fail(se)) => e == se,
            _ => false,
        },
{
    let c = b[i];
    if digit_byte(c) {
        let e = skip_digits(b, i);
        proof { lemma_digits_end(b@, i as int); }
        if e < b.len() && b[e] == 0x2E {
            if e + 1 < b.len() && digit_byte(b[e + 1]) {
                let f = skip_digits(b, e + 1);
                proof { lemma_digits_end(b@, e + 1); }
                Ok((Token::Float(ascii_string(b, i, f)), f))
            } else {
                Err(skip_continuation(b, e + 1))
            }
        } else {
            match number_value(b, i, e) {
                Some(v) => Ok((Token::Number(v), e)),
                None => Err(skip_continuation(b, e)),
            }
        }
    } else if ident_start_byte(c) {
        let e = skip_ident(b, i);
        proof { lemma_ident_end(b@, i as int); }
        match keyword_at(b, i, e) {
            Some(t) => Ok((t, e)),
            None => Ok((Token::Ident(ascii_string(b, i, e)), e)),
        }
    } else {
        match symbol_at(b, i) {
            Some((t, n)) => Ok((t, i + n)),
            None => Err(skip_continuation(b, i + 1)),
        }
    }
}


/// The lexing error over `source[start..end]`.
fn lex_error(source: &str, start: usize, end: usize) -> (r: BengalError)
    requires
        start < end <= source.spec_bytes().len(),
        is_char_boundary(source.spec_bytes(), start as int),
        end == source.spec_bytes().len() || !is_continuation_byte(source.spec_bytes()[end as int]),
    ensures
        r matches BengalError::LexError { message, span } && span == (Span { start, end }) && message@
            == lex_message(source.spec_bytes(), start as int, end as int),
{
    broadcast use encode_utf8_valid_utf8, encode_utf8_decode_utf8;

    let ghost b = source.spec_bytes();
    let (_, rest) = source.split_at(start);
    let ghost sub = b.subrange(start as int, b.len() as int);
    assert(rest.spec_bytes() =~= sub);
    proof {
        valid_utf8_split(b, start as int);
        if end < b.len() {
            assert(sub[end - start] == b[end as int]);
            is_char_boundary_iff_not_is_continuation_byte(sub, end - start);
        } else {
            is_char_boundary_start_end_of_seq(sub);
        }
    }
    let (piece, _) = rest.split_at(end - start);
    assert(piece.spec_bytes() =~= b.subrange(start as int, end as int));
    assert(piece@ == decode_utf8(piece.spec_bytes()));
    let mut message = String::new();
    push_str(&mut message, "unexpected character: `");
    push_str(&mut message, piece);
    push_str(&mut message, "`");
    BengalError::LexError { message, span: Span { start, end } }
}

/// The tokens of a source text, each with its byte span, ending with `Eof`;
/// or a `LexError` at the first text that starts no token.
pub fn tokenize(source: &str) -> (r: Result<Vec<Spanned<Token>>, BengalError>)
    ensures
        match r {
            Ok(ts) => lex(source.spec_bytes()) == Ok::<Seq<(Lexeme, int, int)>, (int, int)>(spanned_view(ts@)),
            Err(BengalError::LexError { message, span }) => lex(source.spec_bytes()) == Err::<
                Seq<(Lexeme, int, int)>,
                (int, int),
            >((span.start as int, span.end as int)) && message@ == lex_message(
                source.spec_bytes(),
                span.start as int,
                span.end as int,
            ),
            Err(_) => false,
        },
{
    broadcast use encode_utf8_valid_utf8;

    let b = source.as_bytes();
    let ghost bs = b@;
    let mut tokens: Vec<Spanned<Token>> = Vec::new();
    let mut i: usize = 0;
    proof { is_char_boundary_start_end_of_seq(bs); }
    assert(spanned_view(tokens@) =~= Seq::<(Lexeme, int, int)>::empty());
    assert(after(Seq::<(Lexeme, int, int)>::empty(), tokens_from(bs, 0)) =~= tokens_from(bs, 0)) by {
        match tokens_from(bs, 0) {
            Ok(rest) => assert(Seq::<(Lexeme, int, int)>::empty() + rest =~= rest),
            Err(_) => {},
        }
    }
    loop
        invariant
            bs == b@,
            bs == source.spec_bytes(),
            valid_utf8(bs),
            i <= bs.len(),
            is_char_boundary(bs, i as int),
            lex(bs) == after(spanned_view(tokens@), tokens_from(bs, i as int)),
        decreases bs.len() - i,
    {
        let j = skip_spaces(b, i);
        proof {
            lemma_space_end(bs, i as int);
            lemma_ascii_run_boundary(bs, i as int, j as int);
        }
        if j >= b.len() {
            let ghost acc = spanned_view(tokens@);
            tokens.push(Spanned { node: Token::Eof, span: Span { start: b.len(), end: b.len() } });
            assert(spanned_view(tokens@) =~= acc + seq![(Lexeme::Fixed(Token::Eof), bs.len() as int, bs.len() as int)]);
            return Ok(tokens);
        }
        proof { lemma_scan_bounds(bs, j as int); }
        match scan_at(b, j) {
            Ok((t, e)) => {
                let ghost acc = spanned_view(tokens@);
                let ghost l = t@;
                tokens.push(Spanned { node: t, span: Span { start: j, end: e } });
                proof {
                    lemma_ascii_run_boundary(bs, j as int, e as int);
                    assert(spanned_view(tokens@) =~= acc.push((l, j as int, e as int)));
                    match tokens_from(bs, e as int) {
                        Ok(rest) => {
                            assert(acc + (seq![(l, j as int, e as int)] + rest) =~= acc.push((l, j as int, e as int)) + rest);
                        },
                        Err(_) => {},
                    }
                }
                i = e;
            },
            Err(e) => {
                return Err(lex_error(source, j, e));
            },
        }
    }
}


/// The tokens of `ts` come in order: each but the last spans a non-empty range
/// that ends where or before the next one starts, and the last is `Eof` at the end of `b`.
pub open spec fn spans_in_order(b: Seq<u8>, ts: Seq<(Lexeme, int, int)>) -> bool {
    &&& ts.len() >= 1
    &&& ts.last() == (Lexeme::Fixed(Token::Eof), b.len() as int, b.len() as int)
    &&& forall|k: int| 0 <= k < ts.len() - 1 ==> #[trigger] ts[k].1 < ts[k].2 && ts[k].2 <= ts[k + 1].1
}

/// The tokens lexed from position `i` start at or after `i` and come in order.
#[verifier::spinoff_prover]
#[verifier::rlimit(40)]
proof fn lemma_tokens_from_ordered(b: Seq<u8>, i: int)
    requires
        0 <= i <= b.len(),
    ensures
        tokens_from(b, i) matches Ok(ts) ==> spans_in_order(b, ts) && ts[0].1 >= i,
    decreases b.len() - i,
{
    lemma_space_end(b, i);
    let j = space_end(b, i);
    if j < b.len() {
        lemma_scan_bounds(b, j);
        match scan(b, j) {
            Scan::Token(t, e) => {
                lemma_tokens_from_ordered(b, e);
                match tokens_from(b, e) {
                    Ok(rest) => {
                        let ts = seq![(t, j, e)] + rest;
                        assert forall|k: int| 0 <= k < ts.len() - 1 implies #[trigger] ts[k].1 < ts[k].2 && ts[k].2
                            <= ts[k + 1].1 by {
                            if k > 0 {
                                assert(ts[k] == rest[k - 1]);
                                assert(ts[k + 1] == rest[k]);
                            }
                        }
                        assert(ts.last() == rest.last());
                    },
                    Err(_) => {},
                }
            },
            Scan::Fail(_) => {},
        }
    }
}

/// Whatever the source, its tokens come in order, without overlap, and end with `Eof` at the end of the text.
pub proof fn law_token_spans_in_order(b: Seq<u8>)
    ensures
        lex(b) matches Ok(ts) ==> spans_in_order(b, ts),
{
    lemma_tokens_from_ordered(b, 0);
}


/// How a keyword, operator or punctuation token is written in the source; the end of the
/// text is written as nothing.
pub open spec fn spelling(t: Token) -> Seq<u8> {
    match t {
        Token::Func => "func".spec_bytes(),
        Token::Let => "let".spec_bytes(),
        Token::Var => "var".spec_bytes(),
        Token::Return => "return".spec_bytes(),
        Token::Yield => "yield".spec_bytes(),
        Token::True => "true".spec_bytes(),
        Token::False => "false".spec_bytes(),
        Token::If => "if".spec_bytes(),
        Token::Else => "else".spec_bytes(),
        Token::While => "while".spec_bytes(),
        Token::Break => "break".spec_bytes(),
        Token::Continue => "continue".spec_bytes(),
        Token::As => "as".spec_bytes(),
        Token::Nobreak => "nobreak".spec_bytes(),
        Token::Struct => "struct".spec_bytes(),
        Token::Init => "init".spec_bytes(),
        Token::SelfKw => "self".spec_bytes(),
        Token::Protocol => "protocol".spec_bytes(),
        Token::Module => "module".spec_bytes(),
        Token::Import => "import".spec_bytes(),
        Token::Public => "public".spec_bytes(),
        Token::Package => "package".spec_bytes(),
        Token::Internal => "internal".spec_bytes(),
        Token::Fileprivate => "fileprivate".spec_bytes(),
        Token::Private => "private".spec_bytes(),
        Token::Super => "super".spec_bytes(),
        Token::Plus => seq!['+' as u8],
        Token::Minus => seq!['-' as u8],
        Token::Star => seq!['*' as u8],
        Token::Slash => seq!['/' as u8],
        Token::LParen => seq!['(' as u8],
        Token::RParen => seq![')' as u8],
        Token::Arrow => seq!['-' as u8, '>' as u8],
        Token::Colon => seq![':' as u8],
        Token::ColonColon => seq![':' as u8, ':' as u8],
        Token::Semicolon => seq![';' as u8],
        Token::Comma => seq![',' as u8],
        Token::LBrace => seq!['{' as u8],
        Token::RBrace => seq!['}' as u8],
        Token::Eq => seq!['=' as u8],
        Token::EqEq => seq!['=' as u8, '=' as u8],
        Token::NotEq => seq!['!' as u8, '=' as u8],
        Token::LtEq => seq!['<' as u8, '=' as u8],
        Token::GtEq => seq!['>' as u8, '=' as u8],
        Token::Lt => seq!['<' as u8],
        Token::Gt => seq!['>' as u8],
        Token::Dot => seq!['.' as u8],
        Token::AmpAmp => seq!['&' as u8, '&' as u8],
        Token::PipePipe => seq!['|' as u8, '|' as u8],
        Token::Bang => seq!['!' as u8],
        _ => Seq::empty(),
    }
}

/// A token spells the source text of its span: an identifier or a fraction is
/// that text, a number is the value of its digits, and a keyword, operator or
/// punctuation token is written there as its spelling.
pub open spec fn spells_span(b: Seq<u8>, t: (Lexeme, int, int)) -> bool {
    match t.0 {
        Lexeme::Ident(name) => name == text(b, t.1, t.2),
        Lexeme::Float(digits) => digits == text(b, t.1, t.2),
        Lexeme::Number(n) => n == digits_value(b, t.1, t.2),
        Lexeme::Fixed(tok) => b.subrange(t.1, t.2) == spelling(tok),
    }
}

/// A word the lexer takes for a keyword is that keyword's spelling.
proof fn lemma_keyword_spelling(w: Seq<u8>)
    ensures
        keyword(w) matches Some(t) ==> w == spelling(t),
{
}

/// An operator or punctuation token found at `i` is written there as its spelling.
proof fn lemma_symbol_spelling(b: Seq<u8>, i: int)
    requires
        0 <= i < b.len(),
    ensures
        symbol(b, i) matches Some((t, n)) ==> i + n <= b.len() && b.subrange(i, i + n) == spelling(t),
{
    match symbol(b, i) {
        Some((t, n)) => {
            if n == 2 {
                assert(i + 1 < b.len());
                assert(b.subrange(i, i + 2) =~= seq![b[i], b[i + 1]]);
            } else {
                assert(b.subrange(i, i + 1) =~= seq![b[i]]);
            }
        },
        None => {},
    }
}

/// Whether a token is an operator or punctuation token.
pub open spec fn is_symbol_token(t: Token) -> bool {
    t is Plus || t is Minus || t is Star || t is Slash || t is LParen || t is RParen || t is Arrow
        || t is Colon || t is ColonColon || t is Semicolon || t is Comma || t is LBrace || t is RBrace
        || t is Eq || t is EqEq || t is NotEq || t is LtEq || t is GtEq || t is Lt || t is Gt || t is Dot
        || t is AmpAmp || t is PipePipe || t is Bang
}

/// An operator or punctuation token is as long as it can be: its span and the byte after it
/// spell no operator or punctuation token.
pub open spec fn symbol_is_longest(b: Seq<u8>, t: (Lexeme, int, int)) -> bool {
    (t.0 matches Lexeme::Fixed(tok) && is_symbol_token(tok) && t.2 < b.len())
        ==> forall|t2: Token| is_symbol_token(t2) ==> #[trigger] spelling(t2) != b.subrange(t.1, t.2 + 1)
}

/// An operator found at `i` could not have been taken one byte longer.
proof fn lemma_symbol_longest(b: Seq<u8>, i: int)
    requires
        0 <= i < b.len(),
    ensures
        symbol(b, i) matches Some((t, n)) ==> symbol_is_longest(b, (Lexeme::Fixed(t), i, i + n)),
{
    lemma_symbol_spelling(b, i);
    match symbol(b, i) {
        Some((t, n)) => {
            if i + n < b.len() {
                let ext = b.subrange(i, i + n + 1);
                assert forall|t2: Token| is_symbol_token(t2) implies #[trigger] spelling(t2) != ext by {
                    if n == 1 {
                        assert(ext =~= seq![b[i], b[i + 1]]);
                        if spelling(t2) == ext {
                            assert(spelling(t2)[0] == b[i] && spelling(t2)[1] == b[i + 1]);
                        }
                    } else {
                        assert(ext.len() == 3);
                    }
                }
            }
        },
        None => {},
    }
}

/// Every operator and punctuation token is recognized: where the text at `i` starts with the
/// spelling of one, the lexer finds an operator or punctuation token there, written there as
/// its spelling.
pub proof fn law_symbols_recognized(b: Seq<u8>, i: int, t: Token)
    requires
        0 <= i < b.len(),
        is_symbol_token(t),
        i + spelling(t).len() <= b.len(),
        b.subrange(i, i + spelling(t).len()) == spelling(t),
    ensures
        symbol(b, i) matches Some((t2, n)) && is_symbol_token(t2) && b.subrange(i, i + n) == spelling(t2),
{
    lemma_symbol_spelling(b, i);
    let w = spelling(t);
    assert(b.subrange(i, i + w.len())[0] == b[i]);
    if w.len() == 2 {
        assert(b.subrange(i, i + w.len())[1] == b[i + 1]);
    }
}

/// The token found at a position is as long as it can be, if it is an operator.
proof fn lemma_scan_longest(b: Seq<u8>, i: int)
    requires
        0 <= i < b.len(),
    ensures
        scan(b, i) matches Scan::Token(t, e) ==> symbol_is_longest(b, (t, i, e)),
{
    let c = b[i];
    if is_digit_byte(c) {
    } else if is_ident_start(c) {
        lemma_ident_end(b, i);
        let e = ident_end(b, i);
        match keyword(b.subrange(i, e)) {
            Some(t) => {
                lemma_keyword_spelling(b.subrange(i, e));
                assert(!is_symbol_token(t));
            },
            None => {},
        }
    } else {
        lemma_symbol_longest(b, i);
    }
}

/// The tokens lexed from position `i` that are operators are as long as they can be.
proof fn lemma_tokens_from_longest(b: Seq<u8>, i: int)
    requires
        0 <= i <= b.len(),
    ensures
        tokens_from(b, i) matches Ok(ts) ==> forall|k: int| 0 <= k < ts.len() ==> #[trigger] symbol_is_longest(b, ts[k]),
    decreases b.len() - i,
{
    lemma_space_end(b, i);
    let j = space_end(b, i);
    if j < b.len() {
        lemma_scan_bounds(b, j);
        match scan(b, j) {
            Scan::Token(t, e) => {
                lemma_tokens_from_longest(b, e);
                match tokens_from(b, e) {
                    Ok(rest) => {
                        let ts = seq![(t, j, e)] + rest;
                        lemma_scan_longest(b, j);
                        assert forall|k: int| 0 <= k < ts.len() implies #[trigger] symbol_is_longest(b, ts[k]) by {
                            if k > 0 {
                                assert(ts[k] == rest[k - 1]);
                            }
                        }
                    },
                    Err(_) => {},
                }
            },
            Scan::Fail(_) => {},
        }
    }
}

/// The lexer takes the longest operator it can: no operator or punctuation token it gives could
/// be extended by the next byte into another one, so `->` is an arrow, not `-` then `>`.
pub proof fn law_operators_are_longest(b: Seq<u8>)
    ensures
        lex(b) matches Ok(ts) ==> forall|k: int| 0 <= k < ts.len() ==> #[trigger] symbol_is_longest(b, ts[k]),
{
    lemma_tokens_from_longest(b, 0);
}

/// The token found at a position spells its span.
proof fn lemma_scan_spells(b: Seq<u8>, i: int)
    requires
        0 <= i < b.len(),
    ensures
        scan(b, i) matches Scan::Token(t, e) ==> spells_span(b, (t, i, e)),
{
    let c = b[i];
    if is_digit_byte(c) {
        lemma_digits_end(b, i);
        let e = digits_end(b, i);
        if !(e < b.len() && b[e] == 0x2E) {
            lemma_digits_value_grows(b, i, e, e);
        }
    } else if is_ident_start(c) {
        lemma_ident_end(b, i);
        lemma_keyword_spelling(b.subrange(i, ident_end(b, i)));
    } else {
        lemma_symbol_spelling(b, i);
    }
}

/// The tokens lexed from position `i` spell their spans.
proof fn lemma_tokens_from_spell(b: Seq<u8>, i: int)
    requires
        0 <= i <= b.len(),
    ensures
        tokens_from(b, i) matches Ok(ts) ==> forall|k: int| 0 <= k < ts.len() ==> #[trigger] spells_span(b, ts[k]),
    decreases b.len() - i,
{
    lemma_space_end(b, i);
    let j = space_end(b, i);
    if j >= b.len() {
        assert(b.subrange(b.len() as int, b.len() as int) =~= Seq::<u8>::empty());
    }
    if j < b.len() {
        lemma_scan_bounds(b, j);
        match scan(b, j) {
            Scan::Token(t, e) => {
                lemma_tokens_from_spell(b, e);
                match tokens_from(b, e) {
                    Ok(rest) => {
                        let ts = seq![(t, j, e)] + rest;
                        lemma_scan_spells(b, j);
                        assert forall|k: int| 0 <= k < ts.len() implies #[trigger] spells_span(b, ts[k]) by {
                            if k > 0 {
                                assert(ts[k] == rest[k - 1]);
                            }
                        }
                    },
                    Err(_) => {},
                }
            },
            Scan::Fail(_) => {},
        }
    }
}

/// Every token that the lexer gives is written in the source as its span says: an identifier,
/// fraction or number is the text of its span, and a keyword, operator or punctuation token is
/// its spelling there, so `/` is lexed as a slash and never as anything else.
pub proof fn law_tokens_spell_their_spans(b: Seq<u8>)
    ensures
        lex(b) matches Ok(ts) ==> forall|k: int| 0 <= k < ts.len() ==> #[trigger] spells_span(b, ts[k]),
{
    lemma_tokens_from_spell(b, 0);
}

} // verus!
