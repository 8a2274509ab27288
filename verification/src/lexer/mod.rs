//! The lexer: source bytes to tokens, by longest match.
//!
//! The token grammar, read over the source bytes:
//!
//! - whitespace `[ \t\n\f]+` and line comments `//...` are skipped;
//! - identifiers `[a-zA-Z_][a-zA-Z0-9_]*`, of which the keyword spellings
//!   are keywords;
//! - integers `[0-9]+` (an integer above `i64::MAX` becomes `Error`),
//!   floats `[0-9]+.[0-9]+`;
//! - string literals `"( [^"\\] | \\ followed by a byte other than a newline )*"`;
//! - the operators and punctuation of [`symbol_kind`].
//!
//! At every position the longest lexeme wins, and a keyword wins over an
//! identifier of the same spelling.

pub mod indent;
pub mod prepare;
pub mod render;
pub mod token;

use vstd::prelude::*;
use crate::text::push_char;
use vstd::utf8::{valid_utf8, decode_utf8};
use vstd::string::StringSliceAdditionalSpecFns;
pub use token::{Span, Token, TokenKind, keyword_kind, symbol_kind};

verus! {

/// A lexeme as the scanner classifies it, before its value is read: the
/// text of a number is kept as it is.
#[derive(Debug, PartialEq)]
pub enum LexicalToken {
    Fn,
    Let,
    Mut,
    If,
    Elif,
    Else,
    For,
    While,
    In,
    Return,
    I64,
    F64,
    Bool,
    Str,
    Unit,
    True,
    False,
    Println,
    Struct,
    Enum,
    Mod,
    Use,
    Pub,
    As,
    Module,
    Give,
    Say,
    Raise,
    Text,
    Number,
    Ident(String),
    Integer(String),
    Float(String),
    StrLit(String),
    Plus,
    Minus,
    Star,
    Slash,
    Percent,
    Assign,
    PlusAssign,
    MinusAssign,
    StarAssign,
    SlashAssign,
    EqEq,
    NotEq,
    Lt,
    Gt,
    LtEq,
    GtEq,
    And,
    Or,
    Bang,
    DotDot,
    DotDotEllipsis,
    Dot,
    DoubleColon,
    Pipe,
    LParen,
    RParen,
    LBracket,
    RBracket,
    LBrace,
    RBrace,
    Comma,
    Colon,
    RArrow,
    Error,
}

/// The token a lexeme stands for: an integer's text becomes its value, or
/// `Error` when it is not a decimal number that fits an `i64`.
pub open spec fn lexical_kind(lt: LexicalToken) -> TokenKind {
    match lt {
        LexicalToken::Ident(s) => TokenKind::Ident(s),
        LexicalToken::Integer(s) => if all_digits(s@) && digits_value(s@) <= i64::MAX {
            TokenKind::Integer(digits_value(s@) as i64)
        } else {
            TokenKind::Error
        },
        LexicalToken::Float(s) => TokenKind::Float(s),
        LexicalToken::StrLit(s) => TokenKind::StrLit(s),
        LexicalToken::Error => TokenKind::Error,
        LexicalToken::Fn => TokenKind::Fn,
        LexicalToken::Let => TokenKind::Let,
        LexicalToken::Mut => TokenKind::Mut,
        LexicalToken::If => TokenKind::If,
        LexicalToken::Elif => TokenKind::Elif,
        LexicalToken::Else => TokenKind::Else,
        LexicalToken::For => TokenKind::For,
        LexicalToken::While => TokenKind::While,
        LexicalToken::In => TokenKind::In,
        LexicalToken::Return => TokenKind::Return,
        LexicalToken::I64 => TokenKind::I64,
        LexicalToken::F64 => TokenKind::F64,
        LexicalToken::Bool => TokenKind::Bool,
        LexicalToken::Str => TokenKind::Str,
        LexicalToken::Unit => TokenKind::Unit,
        LexicalToken::True => TokenKind::True,
        LexicalToken::False => TokenKind::False,
        LexicalToken::Println => TokenKind::Println,
        LexicalToken::Struct => TokenKind::Struct,
        LexicalToken::Enum => TokenKind::Enum,
        LexicalToken::Mod => TokenKind::Mod,
        LexicalToken::Use => TokenKind::Use,
        LexicalToken::Pub => TokenKind::Pub,
        LexicalToken::As => TokenKind::As,
        LexicalToken::Module => TokenKind::Module,
        LexicalToken::Give => TokenKind::Give,
        LexicalToken::Say => TokenKind::Say,
        LexicalToken::Raise => TokenKind::Raise,
        LexicalToken::Text => TokenKind::Text,
        LexicalToken::Number => TokenKind::Number,
        LexicalToken::Plus => TokenKind::Plus,
        LexicalToken::Minus => TokenKind::Minus,
        LexicalToken::Star => TokenKind::Star,
        LexicalToken::Slash => TokenKind::Slash,
        LexicalToken::Percent => TokenKind::Percent,
        LexicalToken::Assign => TokenKind::Assign,
        LexicalToken::PlusAssign => TokenKind::PlusAssign,
        LexicalToken::MinusAssign => TokenKind::MinusAssign,
        LexicalToken::StarAssign => TokenKind::StarAssign,
        LexicalToken::SlashAssign => TokenKind::SlashAssign,
        LexicalToken::EqEq => TokenKind::EqEq,
        LexicalToken::NotEq => TokenKind::NotEq,
        LexicalToken::Lt => TokenKind::Lt,
        LexicalToken::Gt => TokenKind::Gt,
        LexicalToken::LtEq => TokenKind::LtEq,
        LexicalToken::GtEq => TokenKind::GtEq,
        LexicalToken::And => TokenKind::And,
        LexicalToken::Or => TokenKind::Or,
        LexicalToken::Bang => TokenKind::Bang,
        LexicalToken::DotDot => TokenKind::DotDot,
        LexicalToken::DotDotEllipsis => TokenKind::DotDotEllipsis,
        LexicalToken::Dot => TokenKind::Dot,
        LexicalToken::DoubleColon => TokenKind::DoubleColon,
        LexicalToken::Pipe => TokenKind::Pipe,
        LexicalToken::LParen => TokenKind::LParen,
        LexicalToken::RParen => TokenKind::RParen,
        LexicalToken::LBracket => TokenKind::LBracket,
        LexicalToken::RBracket => TokenKind::RBracket,
        LexicalToken::LBrace => TokenKind::LBrace,
        LexicalToken::RBrace => TokenKind::RBrace,
        LexicalToken::Comma => TokenKind::Comma,
        LexicalToken::Colon => TokenKind::Colon,
        LexicalToken::RArrow => TokenKind::RArrow,
    }
}

/// The token a lexeme stands for.
fn convert(lt: LexicalToken) -> (r: TokenKind)
    ensures
        r == lexical_kind(lt),
{
    match lt {
        LexicalToken::Ident(s) => TokenKind::Ident(s),
        LexicalToken::Integer(s) => match parse_digits(s.as_str()) {
            Some(n) => TokenKind::Integer(n),
            None => TokenKind::Error,
        },
        LexicalToken::Float(s) => TokenKind::Float(s),
        LexicalToken::StrLit(s) => TokenKind::StrLit(s),
        LexicalToken::Error => TokenKind::Error,
        LexicalToken::Fn => TokenKind::Fn,
        LexicalToken::Let => TokenKind::Let,
        LexicalToken::Mut => TokenKind::Mut,
        LexicalToken::If => TokenKind::If,
        LexicalToken::Elif => TokenKind::Elif,
        LexicalToken::Else => TokenKind::Else,
        LexicalToken::For => TokenKind::For,
        LexicalToken::While => TokenKind::While,
        LexicalToken::In => TokenKind::In,
        LexicalToken::Return => TokenKind::Return,
        LexicalToken::I64 => TokenKind::I64,
        LexicalToken::F64 => TokenKind::F64,
        LexicalToken::Bool => TokenKind::Bool,
        LexicalToken::Str => TokenKind::Str,
        LexicalToken::Unit => TokenKind::Unit,
        LexicalToken::True => TokenKind::True,
        LexicalToken::False => TokenKind::False,
        LexicalToken::Println => TokenKind::Println,
        LexicalToken::Struct => TokenKind::Struct,
        LexicalToken::Enum => TokenKind::Enum,
        LexicalToken::Mod => TokenKind::Mod,
        LexicalToken::Use => TokenKind::Use,
        LexicalToken::Pub => TokenKind::Pub,
        LexicalToken::As => TokenKind::As,
        LexicalToken::Module => TokenKind::Module,
        LexicalToken::Give => TokenKind::Give,
        LexicalToken::Say => TokenKind::Say,
        LexicalToken::Raise => TokenKind::Raise,
        LexicalToken::Text => TokenKind::Text,
        LexicalToken::Number => TokenKind::Number,
        LexicalToken::Plus => TokenKind::Plus,
        LexicalToken::Minus => TokenKind::Minus,
        LexicalToken::Star => TokenKind::Star,
        LexicalToken::Slash => TokenKind::Slash,
        LexicalToken::Percent => TokenKind::Percent,
        LexicalToken::Assign => TokenKind::Assign,
        LexicalToken::PlusAssign => TokenKind::PlusAssign,
        LexicalToken::MinusAssign => TokenKind::MinusAssign,
        LexicalToken::StarAssign => TokenKind::StarAssign,
        LexicalToken::SlashAssign => TokenKind::SlashAssign,
        LexicalToken::EqEq => TokenKind::EqEq,
        LexicalToken::NotEq => TokenKind::NotEq,
        LexicalToken::Lt => TokenKind::Lt,
        LexicalToken::Gt => TokenKind::Gt,
        LexicalToken::LtEq => TokenKind::LtEq,
        LexicalToken::GtEq => TokenKind::GtEq,
        LexicalToken::And => TokenKind::And,
        LexicalToken::Or => TokenKind::Or,
        LexicalToken::Bang => TokenKind::Bang,
        LexicalToken::DotDot => TokenKind::DotDot,
        LexicalToken::DotDotEllipsis => TokenKind::DotDotEllipsis,
        LexicalToken::Dot => TokenKind::Dot,
        LexicalToken::DoubleColon => TokenKind::DoubleColon,
        LexicalToken::Pipe => TokenKind::Pipe,
        LexicalToken::LParen => TokenKind::LParen,
        LexicalToken::RParen => TokenKind::RParen,
        LexicalToken::LBracket => TokenKind::LBracket,
        LexicalToken::RBracket => TokenKind::RBracket,
        LexicalToken::LBrace => TokenKind::LBrace,
        LexicalToken::RBrace => TokenKind::RBrace,
        LexicalToken::Comma => TokenKind::Comma,
        LexicalToken::Colon => TokenKind::Colon,
        LexicalToken::RArrow => TokenKind::RArrow,
    }
}

/// The value of a decimal digit string, or `None` when the text is not one
/// or its value exceeds `i64::MAX`.
fn parse_digits(s: &str) -> (r: Option<i64>)
    ensures
        r is Some <==> all_digits(s@) && digits_value(s@) <= i64::MAX,
        r matches Some(v) ==> v as int == digits_value(s@),
{
    let cs = crate::text::str_chars(s);
    let ghost w = s@;
    let mut v: i64 = 0;
    let mut i: usize = 0;
    while i < cs.len()
        invariant
            cs@ == w,
            w == s@,
            i <= w.len(),
            all_digits(w.take(i as int)),
            v as int == digits_value(w.take(i as int)),
            0 <= v,
        decreases w.len() - i,
    {
        let c = cs[i];
        if !(c >= '0' && c <= '9') {
            proof {
                assert(!is_digit(w[i as int]));
            }
            return None;
        }
        let d = (c as u32 - 48) as i64;
        proof {
            let p = w.take(i + 1);
            assert(p.drop_last() == w.take(i as int));
            assert(p.last() == c);
            assert(c as int - '0' as int == d);
        }
        if v > 922337203685477580 || (v == 922337203685477580 && d > 7) {
            proof {
                assert(digits_value(w.take(i + 1)) > i64::MAX) by (nonlinear_arith)
                    requires
                        digits_value(w.take(i + 1)) == v * 10 + d,
                        v > 922337203685477580 || (v == 922337203685477580 && d > 7),
                        0 <= d <= 9,
                ;
                if all_digits(w) {
                    lemma_digits_value_prefix(w, i + 1, w.len() as int);
                    assert(w.take(w.len() as int) == w);
                }
            }
            return None;
        }
        assert(v * 10 + d <= i64::MAX) by (nonlinear_arith)
            requires
                !(v > 922337203685477580 || (v == 922337203685477580 && d > 7)),
                0 <= v,
                0 <= d <= 9,
        ;
        v = v * 10 + d;
        proof {
            assert forall|k: int| 0 <= k < w.take(i + 1).len() implies is_digit(#[trigger] w.take(i + 1)[k]) by {
                if k < i {
                    assert(w.take(i + 1)[k] == w.take(i as int)[k]);
                }
            }
        }
        i = i + 1;
    }
    assert(w.take(w.len() as int) == w);
    Some(v)
}

/// The source bytes read as characters (each byte as the character with
/// that code); the token grammar is ASCII, so this is how it sees them.
pub open spec fn bchars(s: Seq<u8>) -> Seq<char> {
    s.map_values(|b: u8| b as char)
}

pub open spec fn is_blank(c: char) -> bool {
    c == ' ' || c == '\t' || c == '\n' || c == '\u{0C}'
}

pub open spec fn is_ident_start(c: char) -> bool {
    ('a' <= c && c <= 'z') || ('A' <= c && c <= 'Z') || c == '_'
}

pub open spec fn is_digit(c: char) -> bool {
    '0' <= c && c <= '9'
}

pub open spec fn is_ident_continue(c: char) -> bool {
    is_ident_start(c) || is_digit(c)
}

pub open spec fn not_newline(c: char) -> bool {
    c != '\n'
}

/// Length of the run of characters satisfying `p` that starts at `i`.
pub open spec fn run_len(t: Seq<char>, i: int, p: spec_fn(char) -> bool) -> int
    decreases t.len() - i,
{
    if 0 <= i < t.len() && p(t[i]) {
        1 + run_len(t, i + 1, p)
    } else {
        0
    }
}

pub proof fn lemma_run_len(t: Seq<char>, i: int, p: spec_fn(char) -> bool)
    requires
        0 <= i <= t.len(),
    ensures
        0 <= run_len(t, i, p) <= t.len() - i,
        i + run_len(t, i, p) < t.len() ==> !p(t[i + run_len(t, i, p)]),
        forall|k: int| i <= k < i + run_len(t, i, p) ==> p(t[k]),
    decreases t.len() - i,
{
    if i < t.len() && p(t[i]) {
        lemma_run_len(t, i + 1, p);
    }
}

/// Whether a line comment starts at `i`.
pub open spec fn comment_at(t: Seq<char>, i: int) -> bool {
    0 <= i && i + 1 < t.len() && t[i] == '/' && t[i + 1] == '/'
}

/// How many characters are skipped (whitespace and line comments) from `i`.
pub open spec fn skip_len(t: Seq<char>, i: int) -> int
    decreases t.len() - i,
{
    if 0 <= i < t.len() && is_blank(t[i]) {
        1 + skip_len(t, i + 1)
    } else if comment_at(t, i) {
        let c = 2 + run_len(t, i + 2, |c: char| not_newline(c));
        proof {
            lemma_run_len(t, i + 2, |c: char| not_newline(c));
        }
        c + skip_len(t, i + c)
    } else {
        0
    }
}

/// Length of the body and closing quote of a string literal whose body
/// starts at `k`; `-1` if the literal is not closed.
pub open spec fn str_body_len(t: Seq<char>, k: int) -> int
    decreases t.len() - k,
{
    if k < 0 || k >= t.len() {
        -1
    } else if t[k] == '"' {
        1
    } else if t[k] == '\\' {
        if k + 1 < t.len() && t[k + 1] != '\n' {
            let r = str_body_len(t, k + 2);
            if r < 0 { -1 } else { 2 + r }
        } else {
            -1
        }
    } else {
        let r = str_body_len(t, k + 1);
        if r < 0 { -1 } else { 1 + r }
    }
}

/// Length of the longest operator or punctuation lexeme at `j`; 0 if none.
pub open spec fn symbol_len(t: Seq<char>, j: int) -> int {
    let c0 = t[j];
    let has1 = j + 1 < t.len();
    let c1 = if has1 { t[j + 1] } else { ' ' };
    let has2 = j + 2 < t.len();
    let c2 = if has2 { t[j + 2] } else { ' ' };
    if c0 == '+' || c0 == '*' || c0 == '/' || c0 == '=' || c0 == '!' || c0 == '<' || c0 == '>' {
        if has1 && c1 == '=' { 2 } else { 1 }
    } else if c0 == '-' {
        if has1 && (c1 == '=' || c1 == '>') { 2 } else { 1 }
    } else if c0 == '&' {
        if has1 && c1 == '&' { 2 } else { 0 }
    } else if c0 == '|' {
        if has1 && (c1 == '|' || c1 == '>') { 2 } else { 0 }
    } else if c0 == '.' {
        if has1 && c1 == '.' {
            if has2 && c2 == '.' { 3 } else { 2 }
        } else {
            1
        }
    } else if c0 == ':' {
        if has1 && c1 == ':' { 2 } else { 1 }
    } else if c0 == '%' || c0 == '(' || c0 == ')' || c0 == '[' || c0 == ']' || c0 == '{'
        || c0 == '}' || c0 == ',' {
        1
    } else {
        0
    }
}

/// The operator or punctuation lexeme at `j` is the longest one there:
/// the text of that length is an operator or punctuation mark, and no
/// longer text from `j` is one (so `<=` is one token, never `<` then `=`).
pub proof fn law_symbol_longest(t: Seq<char>, j: int, m: int)
    ensures
        0 <= j < t.len() && symbol_len(t, j) > 0 ==> j + symbol_len(t, j) <= t.len()
            && symbol_kind(t.subrange(j, j + symbol_len(t, j))) is Some,
        0 <= j && 1 <= m && j + m <= t.len() && symbol_kind(t.subrange(j, j + m)) is Some ==> m <= symbol_len(t, j),
{
    if 0 <= j < t.len() {
        assert(t.subrange(j, j + 1) =~= seq![t[j]]);
        if j + 1 < t.len() {
            assert(t.subrange(j, j + 2) =~= seq![t[j], t[j + 1]]);
        }
        if j + 2 < t.len() {
            assert(t.subrange(j, j + 3) =~= seq![t[j], t[j + 1], t[j + 2]]);
        }
    }
}

/// Length of the digits run at `j`, extended by `.digits` when a digit
/// follows the dot.
pub open spec fn number_len(t: Seq<char>, j: int) -> int {
    let d = run_len(t, j, |c: char| is_digit(c));
    if j + d + 1 < t.len() && t[j + d] == '.' && is_digit(t[j + d + 1]) {
        d + 1 + run_len(t, j + d + 1, |c: char| is_digit(c))
    } else {
        d
    }
}

/// Length of the longest lexeme starting at `j` (which is not skipped);
/// 0 when no token starts there.
pub open spec fn token_len(t: Seq<char>, j: int) -> int {
    if !(0 <= j < t.len()) {
        0
    } else if is_ident_start(t[j]) {
        1 + run_len(t, j + 1, |c: char| is_ident_continue(c))
    } else if is_digit(t[j]) {
        number_len(t, j)
    } else if t[j] == '"' {
        let r = str_body_len(t, j + 1);
        if r < 0 { 0 } else { 1 + r }
    } else {
        symbol_len(t, j)
    }
}

/// Decimal value of a digit string.
pub open spec fn digits_value(w: Seq<char>) -> int
    decreases w.len(),
{
    if w.len() == 0 {
        0
    } else {
        digits_value(w.drop_last()) * 10 + (w.last() as int - '0' as int)
    }
}

/// Whether every character is a decimal digit.
pub open spec fn all_digits(w: Seq<char>) -> bool {
    forall|k: int| 0 <= k < w.len() ==> is_digit(#[trigger] w[k])
}

/// Number of trailing quote characters.
pub open spec fn trailing_quotes(w: Seq<char>) -> int
    decreases w.len(),
{
    if w.len() > 0 && w.last() == '"' {
        1 + trailing_quotes(w.drop_last())
    } else {
        0
    }
}

pub open spec fn is_quote(c: char) -> bool {
    c == '"'
}

/// The literal text of a string lexeme: the bytes left after removing all
/// leading and all trailing quote bytes.
pub open spec fn str_content(b: Seq<u8>) -> Seq<u8> {
    let lead = run_len(bchars(b), 0, |c: char| is_quote(c));
    let rest = b.skip(lead);
    rest.take(rest.len() - trailing_quotes(bchars(rest)))
}

/// Whether `k` is the token for the lexeme with bytes `b` (a lexeme that
/// the longest-match rule delimits).
pub open spec fn kind_for_lexeme(k: TokenKind, b: Seq<u8>) -> bool {
    let w = bchars(b);
    match k {
        TokenKind::Ident(s) => w.len() > 0 && is_ident_start(w[0]) && keyword_kind(w) is None && s@ == w,
        TokenKind::Integer(n) => w.len() > 0 && all_digits(w) && n as int == digits_value(w),
        TokenKind::Error => w.len() > 0 && all_digits(w) && digits_value(w) > i64::MAX,
        TokenKind::Float(s) => w.len() > 0 && is_digit(w[0]) && !all_digits(w) && s@ == w,
        TokenKind::StrLit(s) => w.len() > 0 && w[0] == '"' && s@ == lossy_text(str_content(b)),
        _ => keyword_kind(w) == Some(k) || symbol_kind(w) == Some(k),
    }
}

/// Width of the character whose UTF-8 encoding starts with byte `b`.
pub open spec fn utf8_width(b: u8) -> int {
    if b < 0x80 { 1 } else if b < 0xC0 { 1 } else if b < 0xE0 { 2 } else if b < 0xF0 { 3 } else { 4 }
}

/// The lexer's step from position `pos`: `None` at the end of input,
/// `Some(Ok((start, end)))` for the next token's span, `Some(Err(start))`
/// when no token starts at `start`.
pub open spec fn step_at(t: Seq<char>, pos: int) -> Option<Result<(int, int), int>> {
    let j = pos + skip_len(t, pos);
    if j >= t.len() {
        None
    } else if token_len(t, j) <= 0 {
        Some(Err(j))
    } else {
        Some(Ok((j, j + token_len(t, j))))
    }
}

/// The spans of all tokens from `pos` on, or the offset of the first
/// position where no token starts.
pub open spec fn spans_from(t: Seq<char>, pos: int) -> Result<Seq<(int, int)>, int>
    decreases t.len() - pos,
{
    if pos < 0 || pos > t.len() {
        Ok(Seq::empty())
    } else {
        match step_at(t, pos) {
            None => Ok(Seq::empty()),
            Some(Err(j)) => Err(j),
            Some(Ok((a, b))) => if b <= pos || b > t.len() {
                Ok(Seq::empty())
            } else {
                match spans_from(t, b) {
                    Ok(rest) => Ok(seq![(a, b)] + rest),
                    Err(e) => Err(e),
                }
            },
        }
    }
}

/// A lexing error: where no token could start, and why.
#[derive(Debug, Clone)]
pub struct LexError {
    pub src: String,
    pub offset: usize,
    pub len: usize,
    pub message: String,
}

impl LexError {
    /// The error as it is displayed: `Lexing error: ` and the message.
    pub fn to_string(&self) -> (r: String)
        ensures
            r@ == "Lexing error: "@ + self.message@,
    {
        let mut r = String::from_str("Lexing error: ");
        r.append(self.message.as_str());
        r
    }

    /// An error about `len` bytes at `offset` of `src`.
    pub fn new(src: &str, offset: usize, len: usize, message: String) -> (r: LexError)
        ensures
            r.src@ == src@,
            r.offset == offset,
            r.len == len,
            r.message == message,
    {
        LexError { src: src.to_owned(), offset, len, message }
    }
}

/// The text `String::from_utf8_lossy` makes of a byte sequence: a fixed
/// function of the bytes.
pub uninterp spec fn lossy_text(b: Seq<u8>) -> Seq<char>;

/// `String::from_utf8_lossy`: the text of the bytes; for valid UTF-8 it is
/// exactly their decoding.  What it makes of invalid bytes (replacement
/// characters) is left unstated.
#[verifier::external_body]
pub(crate) fn bytes_to_string_lossy(b: &[u8]) -> (r: String)
    ensures
        r@ == lossy_text(b@),
        valid_utf8(b@) ==> r@ == decode_utf8(b@),
{
    String::from_utf8_lossy(b).into_owned()
}

pub(crate) fn slice_copy(b: &[u8], from: usize, to: usize) -> (r: Vec<u8>)
    requires
        from <= to <= b@.len(),
    ensures
        r@ == b@.subrange(from as int, to as int),
{
    let mut out: Vec<u8> = Vec::new();
    let mut i = from;
    while i < to
        invariant
            from <= i <= to,
            to <= b@.len(),
            out@ == b@.subrange(from as int, i as int),
        decreases to - i,
    {
        out.push(b[i]);
        assert(b@.subrange(from as int, i + 1) == b@.subrange(from as int, i as int).push(b@[i as int]));
        i = i + 1;
    }
    out
}

/// The characters of `b[from..to]`, each byte read as a character.
fn ascii_string(b: &[u8], from: usize, to: usize) -> (r: String)
    requires
        from <= to <= b@.len(),
    ensures
        r@ == bchars(b@).subrange(from as int, to as int),
{
    let mut s = String::new();
    let mut i = from;
    while i < to
        invariant
            from <= i <= to,
            to <= b@.len(),
            s@ == bchars(b@).subrange(from as int, i as int),
        decreases to - i,
    {
        push_char(&mut s, b[i] as char);
        assert(bchars(b@).subrange(from as int, i + 1) == bchars(b@).subrange(from as int, i as int).push(
            b@[i as int] as char,
        ));
        i = i + 1;
    }
    s
}

/// Whether the lexeme `b[from..to]` reads as the word `w`.
fn word_is(b: &[u8], from: usize, to: usize, w: &[char]) -> (r: bool)
    requires
        from <= to <= b@.len(),
    ensures
        r == (bchars(b@).subrange(from as int, to as int) == w@),
{
    let ghost lex = bchars(b@).subrange(from as int, to as int);
    if to - from != w.len() {
        return false;
    }
    let mut k: usize = 0;
    while k < w.len()
        invariant
            k <= w@.len(),
            w@.len() == to - from,
            from <= to <= b@.len(),
            lex == bchars(b@).subrange(from as int, to as int),
            forall|j: int| 0 <= j < k ==> lex[j] == w@[j],
        decreases w@.len() - k,
    {
        if (b[from + k] as char) != w[k] {
            assert(lex[k as int] != w@[k as int]);
            return false;
        }
        k = k + 1;
    }
    assert(lex =~= w@);
    true
}

/// The keyword spelled by `b[from..to]`, if any.
fn keyword_of(b: &[u8], from: usize, to: usize) -> (r: Option<LexicalToken>)
    requires
        from <= to <= b@.len(),
    ensures
        r is Some <==> keyword_kind(bchars(b@).subrange(from as int, to as int)) is Some,
        r matches Some(lt) ==> keyword_kind(bchars(b@).subrange(from as int, to as int)) == Some(lexical_kind(lt)),
{
    let ghost w = bchars(b@).subrange(from as int, to as int);
    if word_is(b, from, to, &['f', 'n']) { assert(['f', 'n']@ == seq!['f', 'n']); return Some(LexicalToken::Fn); }
    assert(w != seq!['f', 'n']) by { assert(['f', 'n']@ == seq!['f', 'n']); }
    if word_is(b, from, to, &['l', 'e', 't']) { assert(['l', 'e', 't']@ == seq!['l', 'e', 't']); return Some(LexicalToken::Let); }
    assert(w != seq!['l', 'e', 't']) by { assert(['l', 'e', 't']@ == seq!['l', 'e', 't']); }
    if word_is(b, from, to, &['m', 'u', 't']) { assert(['m', 'u', 't']@ == seq!['m', 'u', 't']); return Some(LexicalToken::Mut); }
    assert(w != seq!['m', 'u', 't']) by { assert(['m', 'u', 't']@ == seq!['m', 'u', 't']); }
    if word_is(b, from, to, &['i', 'f']) { assert(['i', 'f']@ == seq!['i', 'f']); return Some(LexicalToken::If); }
    assert(w != seq!['i', 'f']) by { assert(['i', 'f']@ == seq!['i', 'f']); }
    if word_is(b, from, to, &['e', 'l', 'i', 'f']) { assert(['e', 'l', 'i', 'f']@ == seq!['e', 'l', 'i', 'f']); return Some(LexicalToken::Elif); }
    assert(w != seq!['e', 'l', 'i', 'f']) by { assert(['e', 'l', 'i', 'f']@ == seq!['e', 'l', 'i', 'f']); }
    if word_is(b, from, to, &['e', 'l', 's', 'e']) { assert(['e', 'l', 's', 'e']@ == seq!['e', 'l', 's', 'e']); return Some(LexicalToken::Else); }
    assert(w != seq!['e', 'l', 's', 'e']) by { assert(['e', 'l', 's', 'e']@ == seq!['e', 'l', 's', 'e']); }
    if word_is(b, from, to, &['f', 'o', 'r']) { assert(['f', 'o', 'r']@ == seq!['f', 'o', 'r']); return Some(LexicalToken::For); }
    assert(w != seq!['f', 'o', 'r']) by { assert(['f', 'o', 'r']@ == seq!['f', 'o', 'r']); }
    if word_is(b, from, to, &['w', 'h', 'i', 'l', 'e']) { assert(['w', 'h', 'i', 'l', 'e']@ == seq!['w', 'h', 'i', 'l', 'e']); return Some(LexicalToken::While); }
    assert(w != seq!['w', 'h', 'i', 'l', 'e']) by { assert(['w', 'h', 'i', 'l', 'e']@ == seq!['w', 'h', 'i', 'l', 'e']); }
    if word_is(b, from, to, &['i', 'n']) { assert(['i', 'n']@ == seq!['i', 'n']); return Some(LexicalToken::In); }
    assert(w != seq!['i', 'n']) by { assert(['i', 'n']@ == seq!['i', 'n']); }
    if word_is(b, from, to, &['r', 'e', 't', 'u', 'r', 'n']) { assert(['r', 'e', 't', 'u', 'r', 'n']@ == seq!['r', 'e', 't', 'u', 'r', 'n']); return Some(LexicalToken::Return); }
    assert(w != seq!['r', 'e', 't', 'u', 'r', 'n']) by { assert(['r', 'e', 't', 'u', 'r', 'n']@ == seq!['r', 'e', 't', 'u', 'r', 'n']); }
    if word_is(b, from, to, &['i', '6', '4']) { assert(['i', '6', '4']@ == seq!['i', '6', '4']); return Some(LexicalToken::I64); }
    assert(w != seq!['i', '6', '4']) by { assert(['i', '6', '4']@ == seq!['i', '6', '4']); }
    if word_is(b, from, to, &['f', '6', '4']) { assert(['f', '6', '4']@ == seq!['f', '6', '4']); return Some(LexicalToken::F64); }
    assert(w != seq!['f', '6', '4']) by { assert(['f', '6', '4']@ == seq!['f', '6', '4']); }
    if word_is(b, from, to, &['b', 'o', 'o', 'l']) { assert(['b', 'o', 'o', 'l']@ == seq!['b', 'o', 'o', 'l']); return Some(LexicalToken::Bool); }
    assert(w != seq!['b', 'o', 'o', 'l']) by { assert(['b', 'o', 'o', 'l']@ == seq!['b', 'o', 'o', 'l']); }
    if word_is(b, from, to, &['s', 't', 'r']) { assert(['s', 't', 'r']@ == seq!['s', 't', 'r']); return Some(LexicalToken::Str); }
    assert(w != seq!['s', 't', 'r']) by { assert(['s', 't', 'r']@ == seq!['s', 't', 'r']); }
    if word_is(b, from, to, &['u', 'n', 'i', 't']) { assert(['u', 'n', 'i', 't']@ == seq!['u', 'n', 'i', 't']); return Some(LexicalToken::Unit); }
    assert(w != seq!['u', 'n', 'i', 't']) by { assert(['u', 'n', 'i', 't']@ == seq!['u', 'n', 'i', 't']); }
    if word_is(b, from, to, &['t', 'r', 'u', 'e']) { assert(['t', 'r', 'u', 'e']@ == seq!['t', 'r', 'u', 'e']); return Some(LexicalToken::True); }
    assert(w != seq!['t', 'r', 'u', 'e']) by { assert(['t', 'r', 'u', 'e']@ == seq!['t', 'r', 'u', 'e']); }
    if word_is(b, from, to, &['f', 'a', 'l', 's', 'e']) { assert(['f', 'a', 'l', 's', 'e']@ == seq!['f', 'a', 'l', 's', 'e']); return Some(LexicalToken::False); }
    assert(w != seq!['f', 'a', 'l', 's', 'e']) by { assert(['f', 'a', 'l', 's', 'e']@ == seq!['f', 'a', 'l', 's', 'e']); }
    if word_is(b, from, to, &['p', 'r', 'i', 'n', 't', 'l', 'n']) { assert(['p', 'r', 'i', 'n', 't', 'l', 'n']@ == seq!['p', 'r', 'i', 'n', 't', 'l', 'n']); return Some(LexicalToken::Println); }
    assert(w != seq!['p', 'r', 'i', 'n', 't', 'l', 'n']) by { assert(['p', 'r', 'i', 'n', 't', 'l', 'n']@ == seq!['p', 'r', 'i', 'n', 't', 'l', 'n']); }
    if word_is(b, from, to, &['s', 't', 'r', 'u', 'c', 't']) { assert(['s', 't', 'r', 'u', 'c', 't']@ == seq!['s', 't', 'r', 'u', 'c', 't']); return Some(LexicalToken::Struct); }
    assert(w != seq!['s', 't', 'r', 'u', 'c', 't']) by { assert(['s', 't', 'r', 'u', 'c', 't']@ == seq!['s', 't', 'r', 'u', 'c', 't']); }
    if word_is(b, from, to, &['e', 'n', 'u', 'm']) { assert(['e', 'n', 'u', 'm']@ == seq!['e', 'n', 'u', 'm']); return Some(LexicalToken::Enum); }
    assert(w != seq!['e', 'n', 'u', 'm']) by { assert(['e', 'n', 'u', 'm']@ == seq!['e', 'n', 'u', 'm']); }
    if word_is(b, from, to, &['m', 'o', 'd']) { assert(['m', 'o', 'd']@ == seq!['m', 'o', 'd']); return Some(LexicalToken::Mod); }
    assert(w != seq!['m', 'o', 'd']) by { assert(['m', 'o', 'd']@ == seq!['m', 'o', 'd']); }
    if word_is(b, from, to, &['u', 's', 'e']) { assert(['u', 's', 'e']@ == seq!['u', 's', 'e']); return Some(LexicalToken::Use); }
    assert(w != seq!['u', 's', 'e']) by { assert(['u', 's', 'e']@ == seq!['u', 's', 'e']); }
    if word_is(b, from, to, &['p', 'u', 'b']) { assert(['p', 'u', 'b']@ == seq!['p', 'u', 'b']); return Some(LexicalToken::Pub); }
    assert(w != seq!['p', 'u', 'b']) by { assert(['p', 'u', 'b']@ == seq!['p', 'u', 'b']); }
    if word_is(b, from, to, &['a', 's']) { assert(['a', 's']@ == seq!['a', 's']); return Some(LexicalToken::As); }
    assert(w != seq!['a', 's']) by { assert(['a', 's']@ == seq!['a', 's']); }
    if word_is(b, from, to, &['m', 'o', 'd', 'u', 'l', 'e']) { assert(['m', 'o', 'd', 'u', 'l', 'e']@ == seq!['m', 'o', 'd', 'u', 'l', 'e']); return Some(LexicalToken::Module); }
    assert(w != seq!['m', 'o', 'd', 'u', 'l', 'e']) by { assert(['m', 'o', 'd', 'u', 'l', 'e']@ == seq!['m', 'o', 'd', 'u', 'l', 'e']); }
    if word_is(b, from, to, &['g', 'i', 'v', 'e']) { assert(['g', 'i', 'v', 'e']@ == seq!['g', 'i', 'v', 'e']); return Some(LexicalToken::Give); }
    assert(w != seq!['g', 'i', 'v', 'e']) by { assert(['g', 'i', 'v', 'e']@ == seq!['g', 'i', 'v', 'e']); }
    if word_is(b, from, to, &['s', 'a', 'y']) { assert(['s', 'a', 'y']@ == seq!['s', 'a', 'y']); return Some(LexicalToken::Say); }
    assert(w != seq!['s', 'a', 'y']) by { assert(['s', 'a', 'y']@ == seq!['s', 'a', 'y']); }
    if word_is(b, from, to, &['r', 'a', 'i', 's', 'e']) { assert(['r', 'a', 'i', 's', 'e']@ == seq!['r', 'a', 'i', 's', 'e']); return Some(LexicalToken::Raise); }
    assert(w != seq!['r', 'a', 'i', 's', 'e']) by { assert(['r', 'a', 'i', 's', 'e']@ == seq!['r', 'a', 'i', 's', 'e']); }
    if word_is(b, from, to, &['t', 'e', 'x', 't']) { assert(['t', 'e', 'x', 't']@ == seq!['t', 'e', 'x', 't']); return Some(LexicalToken::Text); }
    assert(w != seq!['t', 'e', 'x', 't']) by { assert(['t', 'e', 'x', 't']@ == seq!['t', 'e', 'x', 't']); }
    if word_is(b, from, to, &['n', 'u', 'm', 'b', 'e', 'r']) { assert(['n', 'u', 'm', 'b', 'e', 'r']@ == seq!['n', 'u', 'm', 'b', 'e', 'r']); return Some(LexicalToken::Number); }
    assert(w != seq!['n', 'u', 'm', 'b', 'e', 'r']) by { assert(['n', 'u', 'm', 'b', 'e', 'r']@ == seq!['n', 'u', 'm', 'b', 'e', 'r']); }
    None
}

proof fn lemma_trailing_quotes(w: Seq<char>)
    ensures
        0 <= trailing_quotes(w) <= w.len(),
        trailing_quotes(w) < w.len() ==> w[w.len() - 1 - trailing_quotes(w)] != '"',
        forall|k: int| w.len() - trailing_quotes(w) <= k < w.len() ==> w[k] == '"',
    decreases w.len(),
{
    if w.len() > 0 && w.last() == '"' {
        lemma_trailing_quotes(w.drop_last());
        assert forall|k: int| w.len() - trailing_quotes(w) <= k < w.len() implies w[k] == '"' by {
            if k < w.len() - 1 {
                assert(w[k] == w.drop_last()[k]);
            }
        }
    }
}

proof fn lemma_bchars_sub(b: Seq<u8>, from: int, to: int)
    requires
        0 <= from <= to <= b.len(),
    ensures
        bchars(b.subrange(from, to)) == bchars(b).subrange(from, to),
{
    assert(bchars(b.subrange(from, to)) =~= bchars(b).subrange(from, to));
}

proof fn lemma_skip_len_nonneg(t: Seq<char>, i: int)
    ensures
        skip_len(t, i) >= 0,
    decreases t.len() - i,
{
    if 0 <= i < t.len() && is_blank(t[i]) {
        lemma_skip_len_nonneg(t, i + 1);
    } else if comment_at(t, i) {
        lemma_run_len(t, i + 2, |c: char| not_newline(c));
        lemma_skip_len_nonneg(t, i + 2 + run_len(t, i + 2, |c: char| not_newline(c)));
    }
}

/// Position after the whitespace and comments that start at `pos`.
fn skip_trivia(b: &[u8], pos: usize) -> (r: usize)
    requires
        pos <= b@.len(),
    ensures
        r == pos + skip_len(bchars(b@), pos as int),
        r <= b@.len(),
{
    let ghost t = bchars(b@);
    let n = b.len();
    let mut i = pos;
    loop
        invariant
            pos <= i <= n,
            n == b@.len(),
            t == bchars(b@),
            pos + skip_len(t, pos as int) == i + skip_len(t, i as int),
        ensures
            i == pos + skip_len(t, pos as int),
        decreases n - i,
    {
        if i < n {
            let c = b[i] as char;
            if c == ' ' || c == '\t' || c == '\n' || c == '\u{0C}' {
                i = i + 1;
                continue;
            }
            if c == '/' && i + 1 < n && (b[i + 1] as char) == '/' {
                let ghost start = i;
                proof {
                    lemma_run_len(t, i + 2, |c: char| not_newline(c));
                }
                i = i + 2;
                while i < n && (b[i] as char) != '\n'
                    invariant
                        start + 2 <= i <= n,
                        n == b@.len(),
                        t == bchars(b@),
                        i - (start + 2) <= run_len(t, start + 2, |c: char| not_newline(c)),
                        start + 2 + run_len(t, start + 2, |c: char| not_newline(c)) < t.len()
                            ==> !not_newline(t[start + 2 + run_len(t, start + 2, |c: char| not_newline(c))]),
                        forall|k: int| start + 2 <= k < start + 2 + run_len(t, start + 2, |c: char| not_newline(c))
                            ==> not_newline(t[k]),
                    decreases n - i,
                {
                    assert(t[i as int] == b@[i as int] as char);
                    i = i + 1;
                }
                proof {
                    if i < n {
                        assert(t[i as int] == b@[i as int] as char);
                    }
                }
                assert(i == start + 2 + run_len(t, start + 2, |c: char| not_newline(c)));
                continue;
            }
        }
        return i;
    }
}

fn ident_continue_byte(x: u8) -> (r: bool)
    ensures
        r == is_ident_continue(x as char),
{
    let c = x as char;
    ('a' <= c && c <= 'z') || ('A' <= c && c <= 'Z') || c == '_' || ('0' <= c && c <= '9')
}

fn ident_start_byte(x: u8) -> (r: bool)
    ensures
        r == is_ident_start(x as char),
{
    let c = x as char;
    ('a' <= c && c <= 'z') || ('A' <= c && c <= 'Z') || c == '_'
}

fn digit_byte(x: u8) -> (r: bool)
    ensures
        r == is_digit(x as char),
{
    let c = x as char;
    '0' <= c && c <= '9'
}

/// End of the run of identifier characters starting at `from`.
fn ident_run_end(b: &[u8], from: usize) -> (r: usize)
    requires
        from <= b@.len(),
    ensures
        r == from + run_len(bchars(b@), from as int, |c: char| is_ident_continue(c)),
        from <= r <= b@.len(),
{
    let ghost t = bchars(b@);
    proof {
        lemma_run_len(t, from as int, |c: char| is_ident_continue(c));
    }
    let n = b.len();
    let mut i = from;
    while i < n && ident_continue_byte(b[i])
        invariant
            from <= i <= n,
            n == b@.len(),
            t == bchars(b@),
            i - from <= run_len(t, from as int, |c: char| is_ident_continue(c)),
            from + run_len(t, from as int, |c: char| is_ident_continue(c)) < t.len()
                ==> !is_ident_continue(t[from + run_len(t, from as int, |c: char| is_ident_continue(c))]),
            forall|k: int| from <= k < from + run_len(t, from as int, |c: char| is_ident_continue(c))
                ==> is_ident_continue(t[k]),
        decreases n - i,
    {
        assert(t[i as int] == b@[i as int] as char);
        i = i + 1;
    }
    proof {
        if i < n {
            assert(t[i as int] == b@[i as int] as char);
        }
    }
    i
}

/// End of the run of decimal digits starting at `from`.
fn digit_run_end(b: &[u8], from: usize) -> (r: usize)
    requires
        from <= b@.len(),
    ensures
        r == from + run_len(bchars(b@), from as int, |c: char| is_digit(c)),
        from <= r <= b@.len(),
{
    let ghost t = bchars(b@);
    proof {
        lemma_run_len(t, from as int, |c: char| is_digit(c));
    }
    let n = b.len();
    let mut i = from;
    while i < n && digit_byte(b[i])
        invariant
            from <= i <= n,
            n == b@.len(),
            t == bchars(b@),
            i - from <= run_len(t, from as int, |c: char| is_digit(c)),
            from + run_len(t, from as int, |c: char| is_digit(c)) < t.len()
                ==> !is_digit(t[from + run_len(t, from as int, |c: char| is_digit(c))]),
            forall|k: int| from <= k < from + run_len(t, from as int, |c: char| is_digit(c))
                ==> is_digit(t[k]),
        decreases n - i,
    {
        assert(t[i as int] == b@[i as int] as char);
        i = i + 1;
    }
    proof {
        if i < n {
            assert(t[i as int] == b@[i as int] as char);
        }
    }
    i
}

/// End (just past the closing quote) of the string literal whose body
/// starts at `k0`; `None` if it is not closed.
fn string_end(b: &[u8], k0: usize) -> (r: Option<usize>)
    requires
        k0 <= b@.len(),
    ensures
        str_body_len(bchars(b@), k0 as int) < 0 <==> r is None,
        r matches Some(e) ==> e == k0 + str_body_len(bchars(b@), k0 as int) && e <= b@.len(),
{
    let ghost t = bchars(b@);
    let n = b.len();
    let mut k = k0;
    loop
        invariant
            k0 <= k <= n,
            n == b@.len(),
            t == bchars(b@),
            str_body_len(t, k0 as int) == (if str_body_len(t, k as int) < 0 {
                -1
            } else {
                (k - k0) + str_body_len(t, k as int)
            }),
        decreases n - k,
    {
        if k >= n {
            return None;
        }
        let c = b[k] as char;
        if c == '"' {
            return Some(k + 1);
        }
        if c == '\\' {
            if k + 1 < n && (b[k + 1] as char) != '\n' {
                k = k + 2;
            } else {
                return None;
            }
        } else {
            k = k + 1;
        }
    }
}

/// The operator or punctuation token at `j`, with its length.
#[verifier::rlimit(50)]
fn symbol_at(b: &[u8], j: usize) -> (r: Option<(usize, LexicalToken)>)
    requires
        j < b@.len(),
    ensures
        r is None <==> symbol_len(bchars(b@), j as int) == 0,
        r matches Some((len, k)) ==> len == symbol_len(bchars(b@), j as int),
        r matches Some((len, k)) ==> j + len <= b@.len(),
        r matches Some((len, k)) ==> symbol_kind(bchars(b@).subrange(j as int, j + len)) == Some(lexical_kind(k)),
{
    let ghost t = bchars(b@);
    let n = b.len();
    let c0 = b[j] as char;
    let has1 = j + 1 < n;
    let c1 = if has1 { b[j + 1] as char } else { ' ' };
    let has2 = has1 && j + 2 < n;
    let c2 = if has2 { b[j + 2] as char } else { ' ' };
    proof {
        assert(t[j as int] == c0);
        if has1 {
            assert(t[j + 1] == c1);
        }
        if has2 {
            assert(t[j + 2] == c2);
        }
        assert(t.subrange(j as int, j + 1) =~= seq![c0]);
        if has1 {
            assert(t.subrange(j as int, j + 2) =~= seq![c0, c1]);
        }
        if has2 {
            assert(t.subrange(j as int, j + 3) =~= seq![c0, c1, c2]);
        }
    }
    if c0 == '+' {
        if has1 && c1 == '=' { Some((2, LexicalToken::PlusAssign)) } else { Some((1, LexicalToken::Plus)) }
    } else if c0 == '*' {
        if has1 && c1 == '=' { Some((2, LexicalToken::StarAssign)) } else { Some((1, LexicalToken::Star)) }
    } else if c0 == '/' {
        if has1 && c1 == '=' { Some((2, LexicalToken::SlashAssign)) } else { Some((1, LexicalToken::Slash)) }
    } else if c0 == '=' {
        if has1 && c1 == '=' { Some((2, LexicalToken::EqEq)) } else { Some((1, LexicalToken::Assign)) }
    } else if c0 == '!' {
        if has1 && c1 == '=' { Some((2, LexicalToken::NotEq)) } else { Some((1, LexicalToken::Bang)) }
    } else if c0 == '<' {
        if has1 && c1 == '=' { Some((2, LexicalToken::LtEq)) } else { Some((1, LexicalToken::Lt)) }
    } else if c0 == '>' {
        if has1 && c1 == '=' { Some((2, LexicalToken::GtEq)) } else { Some((1, LexicalToken::Gt)) }
    } else if c0 == '-' {
        if has1 && c1 == '=' {
            Some((2, LexicalToken::MinusAssign))
        } else if has1 && c1 == '>' {
            Some((2, LexicalToken::RArrow))
        } else {
            Some((1, LexicalToken::Minus))
        }
    } else if c0 == '&' {
        if has1 && c1 == '&' { Some((2, LexicalToken::And)) } else { None }
    } else if c0 == '|' {
        if has1 && c1 == '|' {
            Some((2, LexicalToken::Or))
        } else if has1 && c1 == '>' {
            Some((2, LexicalToken::Pipe))
        } else {
            None
        }
    } else if c0 == '.' {
        if has1 && c1 == '.' {
            if has2 && c2 == '.' {
                Some((3, LexicalToken::DotDotEllipsis))
            } else {
                Some((2, LexicalToken::DotDot))
            }
        } else {
            Some((1, LexicalToken::Dot))
        }
    } else if c0 == ':' {
        if has1 && c1 == ':' { Some((2, LexicalToken::DoubleColon)) } else { Some((1, LexicalToken::Colon)) }
    } else if c0 == '%' {
        Some((1, LexicalToken::Percent))
    } else if c0 == '(' {
        Some((1, LexicalToken::LParen))
    } else if c0 == ')' {
        Some((1, LexicalToken::RParen))
    } else if c0 == '[' {
        Some((1, LexicalToken::LBracket))
    } else if c0 == ']' {
        Some((1, LexicalToken::RBracket))
    } else if c0 == '{' {
        Some((1, LexicalToken::LBrace))
    } else if c0 == '}' {
        Some((1, LexicalToken::RBrace))
    } else if c0 == ',' {
        Some((1, LexicalToken::Comma))
    } else {
        None
    }
}

proof fn lemma_digits_value_prefix(w: Seq<char>, i: int, j: int)
    requires
        0 <= i <= j <= w.len(),
        all_digits(w),
    ensures
        0 <= digits_value(w.take(i)) <= digits_value(w.take(j)),
    decreases j - i,
{
    if i < j {
        lemma_digits_value_prefix(w, i, j - 1);
        let p = w.take(j);
        assert(p.drop_last() == w.take(j - 1));
        assert(is_digit(w[j - 1]));
        assert(p.last() == w[j - 1]);
    } else {
        lemma_digits_nonneg(w.take(i));
    }
}

proof fn lemma_digits_nonneg(w: Seq<char>)
    requires
        all_digits(w),
    ensures
        digits_value(w) >= 0,
    decreases w.len(),
{
    if w.len() > 0 {
        assert(all_digits(w.drop_last())) by {
            assert forall|k: int| 0 <= k < w.drop_last().len() implies is_digit(#[trigger] w.drop_last()[k]) by {
                assert(w.drop_last()[k] == w[k]);
            }
        }
        lemma_digits_nonneg(w.drop_last());
        assert(is_digit(w[w.len() - 1]));
    }
}

/// Length of the run of quote bytes at the start of `b[from..to]`.
fn leading_quote_count(b: &[u8], from: usize, to: usize) -> (r: usize)
    requires
        from <= to <= b@.len(),
    ensures
        r == run_len(bchars(b@.subrange(from as int, to as int)), 0, |c: char| is_quote(c)),
        r <= to - from,
{
    let ghost w = bchars(b@.subrange(from as int, to as int));
    proof {
        lemma_run_len(w, 0, |c: char| is_quote(c));
    }
    let mut i = from;
    while i < to && (b[i] as char) == '"'
        invariant
            from <= i <= to,
            to <= b@.len(),
            w == bchars(b@.subrange(from as int, to as int)),
            i - from <= run_len(w, 0, |c: char| is_quote(c)),
            run_len(w, 0, |c: char| is_quote(c)) < w.len() ==> !is_quote(w[run_len(w, 0, |c: char| is_quote(c))]),
            forall|k: int| 0 <= k < run_len(w, 0, |c: char| is_quote(c)) ==> is_quote(w[k]),
            0 <= run_len(w, 0, |c: char| is_quote(c)) <= w.len(),
        decreases to - i,
    {
        assert(w[i - from] == b@[i as int] as char);
        i = i + 1;
    }
    proof {
        if i < to {
            assert(w[i - from] == b@[i as int] as char);
        }
    }
    i - from
}

/// Number of trailing quote bytes of `b[from..to]`.
fn trailing_quote_count(b: &[u8], from: usize, to: usize) -> (r: usize)
    requires
        from <= to <= b@.len(),
    ensures
        r == trailing_quotes(bchars(b@.subrange(from as int, to as int))),
        r <= to - from,
{
    let ghost w = bchars(b@.subrange(from as int, to as int));
    proof {
        lemma_trailing_quotes(w);
    }
    let mut e = to;
    while e > from && (b[e - 1] as char) == '"'
        invariant
            from <= e <= to,
            to <= b@.len(),
            w == bchars(b@.subrange(from as int, to as int)),
            w.len() == to - from,
            to - e <= trailing_quotes(w),
            0 <= trailing_quotes(w) <= w.len(),
            trailing_quotes(w) < w.len() ==> w[w.len() - 1 - trailing_quotes(w)] != '"',
            forall|k: int| w.len() - trailing_quotes(w) <= k < w.len() ==> w[k] == '"',
        decreases e - from,
    {
        assert(w[e - 1 - from] == b@[e - 1] as char);
        e = e - 1;
    }
    proof {
        if e > from {
            assert(w[e - 1 - from] == b@[e - 1] as char);
        }
    }
    to - e
}

/// The token that starts at `j`, with the position just past it; `None`
/// when no token starts there.
fn lexical_at(b: &[u8], j: usize) -> (r: Option<(usize, LexicalToken)>)
    requires
        j < b@.len(),
    ensures
        r is None <==> token_len(bchars(b@), j as int) <= 0,
        r matches Some((e, k)) ==> e == j + token_len(bchars(b@), j as int) && e <= b@.len()
            && kind_for_lexeme(lexical_kind(k), b@.subrange(j as int, e as int)),
{
    let ghost t = bchars(b@);
    let n = b.len();
    let x = b[j];
    assert(t[j as int] == x as char);
    proof {
        lemma_run_len(t, j + 1, |c: char| is_ident_continue(c));
        lemma_run_len(t, j + 1, |c: char| is_digit(c));
    }
    if ident_start_byte(x) {
        let e = ident_run_end(b, j + 1);
        proof {
            lemma_bchars_sub(b@, j as int, e as int);
        }
        let kind = match keyword_of(b, j, e) {
            Some(k) => k,
            None => LexicalToken::Ident(ascii_string(b, j, e)),
        };
        return Some((e, kind));
    }
    if digit_byte(x) {
        let d_end = digit_run_end(b, j);
        proof {
            lemma_run_len(t, j as int, |c: char| is_digit(c));
        }
        if d_end < n - 1 && (b[d_end] as char) == '.' && digit_byte(b[d_end + 1]) {
            let e = digit_run_end(b, d_end + 1);
            proof {
                lemma_bchars_sub(b@, j as int, e as int);
                assert(t[d_end as int] == b@[d_end as int] as char);
                assert(t[d_end + 1] == b@[d_end + 1] as char);
                let w = bchars(b@.subrange(j as int, e as int));
                assert(w[d_end - j] == '.');
            }
            return Some((e, LexicalToken::Float(ascii_string(b, j, e))));
        }
        proof {
            lemma_bchars_sub(b@, j as int, d_end as int);
            if d_end < n - 1 {
                assert(t[d_end as int] == b@[d_end as int] as char);
                assert(t[d_end + 1] == b@[d_end + 1] as char);
            }
            let w = bchars(b@.subrange(j as int, d_end as int));
            assert forall|k: int| 0 <= k < w.len() implies is_digit(#[trigger] w[k]) by {
                assert(w[k] == t[j + k]);
            }
        }
        let text = ascii_string(b, j, d_end);
        proof {
            let w = bchars(b@.subrange(j as int, d_end as int));
            assert(text@ == w);
            assert(all_digits(w));
            lemma_digits_nonneg(w);
        }
        return Some((d_end, LexicalToken::Integer(text)));
    }
    if (x as char) == '"' {
        match string_end(b, j + 1) {
            Some(e) => {
                let lead = leading_quote_count(b, j, e);
                let trail = trailing_quote_count(b, j + lead, e);
                let content = slice_copy(b, j + lead, e - trail);
                proof {
                    let lex = b@.subrange(j as int, e as int);
                    lemma_bchars_sub(b@, j as int, e as int);
                    let rest = lex.skip(lead as int);
                    assert(rest == b@.subrange(j + lead, e as int));
                    assert(content@ == rest.take(rest.len() - trailing_quotes(bchars(rest))));
                    assert(str_content(lex) == content@);
                    assert(bchars(lex)[0] == '"');
                }
                let text = bytes_to_string_lossy(content.as_slice());
                return Some((e, LexicalToken::StrLit(text)));
            },
            None => {
                return None;
            },
        }
    }
    match symbol_at(b, j) {
        Some((len, k)) => {
            proof {
                lemma_bchars_sub(b@, j as int, j + len);
            }
            Some((j + len, k))
        },
        None => None,
    }
}

/// How many bytes an error at `j` covers: the width of the character that
/// starts there, within the input.
fn error_width(b: &[u8], j: usize) -> (r: usize)
    requires
        j < b@.len(),
    ensures
        r == if utf8_width(b@[j as int]) <= b@.len() - j {
            utf8_width(b@[j as int])
        } else {
            b@.len() - j
        },
        1 <= r <= b@.len() - j,
{
    let x = b[j];
    let w: usize = if x < 0x80 { 1 } else if x < 0xC0 { 1 } else if x < 0xE0 { 2 } else if x < 0xF0 { 3 } else { 4 };
    if w <= b.len() - j { w } else { b.len() - j }
}

/// The message of an error about the text `bad`.
pub open spec fn error_message(bad: Seq<char>) -> Seq<char> {
    seq!['u', 'n', 'e', 'x', 'p', 'e', 'c', 't', 'e', 'd', ' ', 'c', 'h', 'a', 'r', 'a', 'c', 't',
        'e', 'r', '(', 's', ')', ':', ' ', '\''] + bad + seq!['\'']
}

fn make_error_message(bad: &String) -> (r: String)
    ensures
        r@ == error_message(bad@),
{
    let prefix = ['u', 'n', 'e', 'x', 'p', 'e', 'c', 't', 'e', 'd', ' ', 'c', 'h', 'a', 'r', 'a',
        'c', 't', 'e', 'r', '(', 's', ')', ':', ' ', '\''];
    let mut s = crate::text::string_from_chars(&prefix);
    let cs = crate::text::str_chars(bad.as_str());
    let mut i: usize = 0;
    while i < cs.len()
        invariant
            i <= cs@.len(),
            cs@ == bad@,
            s@ == prefix@ + cs@.take(i as int),
        decreases cs@.len() - i,
    {
        push_char(&mut s, cs[i]);
        assert(cs@.take(i + 1) == cs@.take(i as int).push(cs@[i as int]));
        i = i + 1;
    }
    push_char(&mut s, '\'');
    assert(cs@.take(cs@.len() as int) == cs@);
    assert(prefix@ == seq!['u', 'n', 'e', 'x', 'p', 'e', 'c', 't', 'e', 'd', ' ', 'c', 'h', 'a', 'r', 'a', 'c', 't',
        'e', 'r', '(', 's', ')', ':', ' ', '\'']);
    s
}

/// A tokenizer over a source text, yielding one token at a time.
pub struct Lexer<'a> {
    src: &'a str,
    pos: usize,
}

impl<'a> Lexer<'a> {
    /// The source bytes the lexer reads.
    pub closed spec fn text(&self) -> Seq<u8> {
        self.src.spec_bytes()
    }

    /// The source characters.
    pub closed spec fn source(&self) -> Seq<char> {
        self.src@
    }

    /// The byte position the next token is searched from.
    pub closed spec fn position(&self) -> int {
        self.pos as int
    }

    pub open spec fn wf(&self) -> bool {
        0 <= self.position() <= self.text().len()
    }

    /// A lexer at the start of `src`.
    pub fn new(src: &'a str) -> (r: Lexer<'a>)
        ensures
            r.text() == src.spec_bytes(),
            r.position() == 0,
            r.wf(),
    {
        Lexer { src, pos: 0 }
    }

    /// The source text.
    pub fn src(&self) -> (r: &'a str)
        ensures
            r.spec_bytes() == self.text(),
    {
        self.src
    }

    /// The next token, or the error at the next position where no token
    /// starts (the lexer then moves past that character), or `None` at the
    /// end of input.
    pub fn next_token(&mut self) -> (r: Option<Result<Token, LexError>>)
        requires
            old(self).wf(),
        ensures
            final(self).wf(),
            final(self).text() == old(self).text(),
            step_at(bchars(old(self).text()), old(self).position()) is None ==> r is None,
            step_at(bchars(old(self).text()), old(self).position()) matches Some(Ok((a, e))) ==> {
                &&& r matches Some(Ok(tok))
                &&& tok.span.start == a && tok.span.end == e
                &&& kind_for_lexeme(tok.kind, old(self).text().subrange(a, e))
                &&& final(self).position() == e
            },
            step_at(bchars(old(self).text()), old(self).position()) matches Some(Err(j)) ==> {
                &&& r matches Some(Err(err))
                &&& err.offset == j
                &&& err.len == if utf8_width(old(self).text()[j]) <= old(self).text().len() - j {
                    utf8_width(old(self).text()[j])
                } else {
                    old(self).text().len() - j
                }
                &&& err.src@ == old(self).source()
                &&& err.message@ == error_message(lossy_text(old(self).text().subrange(j, j + err.len)))
                &&& final(self).position() == j + err.len
            },
    {
        let b = self.src.as_bytes();
        let j = skip_trivia(b, self.pos);
        if j >= b.len() {
            return None;
        }
        match lexical_at(b, j) {
            Some((e, lt)) => {
                let kind = convert(lt);
                self.pos = e;
                Some(Ok(Token { kind, span: Span { start: j, end: e } }))
            },
            None => {
                let w = error_width(b, j);
                let bad = bytes_to_string_lossy(slice_copy(b, j, j + w).as_slice());
                let message = make_error_message(&bad);
                self.pos = j + w;
                Some(Err(LexError::new(self.src, j, w, message)))
            },
        }
    }
}

/// The tokens' spans lie inside the source, in order and without overlap.
pub proof fn law_spans_in_bounds(t: Seq<char>, pos: int)
    requires
        0 <= pos <= t.len(),
    ensures
        spans_from(t, pos) matches Ok(s) ==> forall|k: int| 0 <= k < s.len() ==> {
            &&& pos <= (#[trigger] s[k]).0 < s[k].1 <= t.len()
            &&& k + 1 < s.len() ==> s[k].1 <= s[k + 1].0
        },
    decreases t.len() - pos,
{
    lemma_skip_len_nonneg(t, pos);
    match step_at(t, pos) {
        Some(Ok((a, b))) => {
            if b > pos && b <= t.len() {
                law_spans_in_bounds(t, b);
                if let Ok(rest) = spans_from(t, b) {
                    let s = seq![(a, b)] + rest;
                    assert forall|k: int| 0 <= k < s.len() implies {
                        &&& pos <= (#[trigger] s[k]).0 < s[k].1 <= t.len()
                        &&& k + 1 < s.len() ==> s[k].1 <= s[k + 1].0
                    } by {
                        if k > 0 {
                            assert(s[k] == rest[k - 1]);
                        }
                        if k + 1 < s.len() {
                            assert(s[k + 1] == rest[k]);
                        }
                    }
                }
            }
        },
        _ => {},
    }
}

/// Prefix a run of spans to a lexing outcome.
pub open spec fn prepend_spans(d: Seq<(int, int)>, r: Result<Seq<(int, int)>, int>) -> Result<
    Seq<(int, int)>,
    int,
> {
    match r {
        Ok(x) => Ok(d + x),
        Err(e) => Err(e),
    }
}

/// The spans of a token sequence.
pub open spec fn spans_of(toks: Seq<Token>) -> Seq<(int, int)> {
    toks.map_values(|t: Token| (t.span.start as int, t.span.end as int))
}

/// Lex the whole source.  On success the tokens are exactly the
/// longest-match lexemes of the source, in order; otherwise the error is at
/// the first position where no token starts.
pub fn tokenize(src: &str) -> (r: Result<Vec<Token>, LexError>)
    ensures
        spans_from(bchars(src.spec_bytes()), 0) is Ok <==> r is Ok,
        r matches Ok(toks) ==> {
            &&& spans_from(bchars(src.spec_bytes()), 0) == Ok::<Seq<(int, int)>, int>(spans_of(toks@))
            &&& forall|k: int| 0 <= k < toks@.len() ==> kind_for_lexeme(#[trigger] toks@[k].kind,
                src.spec_bytes().subrange(toks@[k].span.start as int, toks@[k].span.end as int))
        },
        r matches Err(e) ==> spans_from(bchars(src.spec_bytes()), 0) == Err::<Seq<(int, int)>, int>(e.offset as int),
{
    let ghost t = bchars(src.spec_bytes());
    let mut lexer = Lexer::new(src);
    let mut out: Vec<Token> = Vec::new();
    loop
        invariant
            lexer.wf(),
            lexer.text() == src.spec_bytes(),
            t == bchars(src.spec_bytes()),
            spans_from(t, 0) == prepend_spans(spans_of(out@), spans_from(t, lexer.position())),
            forall|k: int| 0 <= k < out@.len() ==> kind_for_lexeme(#[trigger] out@[k].kind,
                src.spec_bytes().subrange(out@[k].span.start as int, out@[k].span.end as int)),
        decreases t.len() - lexer.position(),
    {
        let ghost p = lexer.position();
        let ghost before = out@;
        match lexer.next_token() {
            None => {
                assert(spans_from(t, p) == Ok::<Seq<(int, int)>, int>(Seq::empty()));
                assert(spans_of(out@) + Seq::<(int, int)>::empty() == spans_of(out@));
                return Ok(out);
            },
            Some(Err(e)) => {
                return Err(e);
            },
            Some(Ok(tok)) => {
                proof {
                    lemma_skip_len_nonneg(t, p);
                    let (a, e) = step_at(t, p)->0->Ok_0;
                    assert(t.len() == src.spec_bytes().len());
                    assert(e == lexer.position());
                    assert(e <= t.len());
                    assert(a >= p);
                    assert(e > a);
                    assert(spans_from(t, p) == prepend_spans(seq![(a, e)], spans_from(t, e)));
                }
                out.push(tok);
                proof {
                    assert(spans_of(out@) == spans_of(before).push((tok.span.start as int, tok.span.end as int)));
                    assert(spans_of(before) + (seq![(tok.span.start as int, tok.span.end as int)] + spans_from(t, lexer.position())->Ok_0)
                        == spans_of(out@) + spans_from(t, lexer.position())->Ok_0);
                }
            },
        }
    }
}

} // verus!
