//! Token kinds and tokens.
use vstd::prelude::*;

verus! {

/// The kind of a token.  Literal payloads hold the literal's value or text;
/// a floating-point literal keeps its source text (`digits.digits`), which
/// converts to a float without failure.
#[derive(Debug, PartialEq)]
pub enum TokenKind {
    // --- Keywords ---
    Fn,
    Let,
    Mut,
    If,
    Elif,
    Else,
    For,
    While,
    In,
    Return,
    I64,
    F64,
    Bool,
    Str,
    Unit,
    True,
    False,
    Println,
    Struct,
    Enum,
    Mod,
    Use,
    Pub,
    As,
    Module,
    Give,
    Say,
    Raise,
    Text,
    Number,
    // --- Literals ---
    Ident(String),
    Integer(i64),
    Float(String),
    StrLit(String),
    // --- Operators ---
    Plus,
    Minus,
    Star,
    Slash,
    Percent,
    Assign,
    PlusAssign,
    MinusAssign,
    StarAssign,
    SlashAssign,
    EqEq,
    NotEq,
    Lt,
    Gt,
    LtEq,
    GtEq,
    And,
    Or,
    Bang,
    DotDot,
    DotDotEllipsis,
    Dot,
    DoubleColon,
    Pipe,
    // --- Punctuation ---
    LParen,
    RParen,
    LBrace,
    RBrace,
    LBracket,
    RBracket,
    Comma,
    Colon,
    RArrow,
    // --- Synthetic indentation tokens ---
    Indent,
    Dedent,
    Newline,
    // --- Meta ---
    Error,
    Eof,
}

/// A half-open byte range `start..end` of the source.
#[derive(Clone, Copy, Debug, PartialEq, Eq, Structural)]
pub struct Span {
    pub start: usize,
    pub end: usize,
}

/// A token and its byte span in the source.
#[derive(Debug, PartialEq)]
pub struct Token {
    pub kind: TokenKind,
    pub span: Span,
}

impl Clone for TokenKind {
    fn clone(&self) -> (r: TokenKind)
        ensures
            r == *self,
    {
        match self {
            TokenKind::Fn => TokenKind::Fn,
            TokenKind::Let => TokenKind::Let,
            TokenKind::Mut => TokenKind::Mut,
            TokenKind::If => TokenKind::If,
            TokenKind::Elif => TokenKind::Elif,
            TokenKind::Else => TokenKind::Else,
            TokenKind::For => TokenKind::For,
            TokenKind::While => TokenKind::While,
            TokenKind::In => TokenKind::In,
            TokenKind::Return => TokenKind::Return,
            TokenKind::I64 => TokenKind::I64,
            TokenKind::F64 => TokenKind::F64,
            TokenKind::Bool => TokenKind::Bool,
            TokenKind::Str => TokenKind::Str,
            TokenKind::Unit => TokenKind::Unit,
            TokenKind::True => TokenKind::True,
            TokenKind::False => TokenKind::False,
            TokenKind::Println => TokenKind::Println,
            TokenKind::Struct => TokenKind::Struct,
            TokenKind::Enum => TokenKind::Enum,
            TokenKind::Mod => TokenKind::Mod,
            TokenKind::Use => TokenKind::Use,
            TokenKind::Pub => TokenKind::Pub,
            TokenKind::As => TokenKind::As,
            TokenKind::Module => TokenKind::Module,
            TokenKind::Give => TokenKind::Give,
            TokenKind::Say => TokenKind::Say,
            TokenKind::Raise => TokenKind::Raise,
            TokenKind::Text => TokenKind::Text,
            TokenKind::Number => TokenKind::Number,
            TokenKind::Ident(x) => TokenKind::Ident(x.clone()),
            TokenKind::Integer(x) => TokenKind::Integer(*x),
            TokenKind::Float(x) => TokenKind::Float(x.clone()),
            TokenKind::StrLit(x) => TokenKind::StrLit(x.clone()),
            TokenKind::Plus => TokenKind::Plus,
            TokenKind::Minus => TokenKind::Minus,
            TokenKind::Star => TokenKind::Star,
            TokenKind::Slash => TokenKind::Slash,
            TokenKind::Percent => TokenKind::Percent,
            TokenKind::Assign => TokenKind::Assign,
            TokenKind::PlusAssign => TokenKind::PlusAssign,
            TokenKind::MinusAssign => TokenKind::MinusAssign,
            TokenKind::StarAssign => TokenKind::StarAssign,
            TokenKind::SlashAssign => TokenKind::SlashAssign,
            TokenKind::EqEq => TokenKind::EqEq,
            TokenKind::NotEq => TokenKind::NotEq,
            TokenKind::Lt => TokenKind::Lt,
            TokenKind::Gt => TokenKind::Gt,
            TokenKind::LtEq => TokenKind::LtEq,
            TokenKind::GtEq => TokenKind::GtEq,
            TokenKind::And => TokenKind::And,
            TokenKind::Or => TokenKind::Or,
            TokenKind::Bang => TokenKind::Bang,
            TokenKind::DotDot => TokenKind::DotDot,
            TokenKind::DotDotEllipsis => TokenKind::DotDotEllipsis,
            TokenKind::Dot => TokenKind::Dot,
            TokenKind::DoubleColon => TokenKind::DoubleColon,
            TokenKind::Pipe => TokenKind::Pipe,
            TokenKind::LParen => TokenKind::LParen,
            TokenKind::RParen => TokenKind::RParen,
            TokenKind::LBrace => TokenKind::LBrace,
            TokenKind::RBrace => TokenKind::RBrace,
            TokenKind::LBracket => TokenKind::LBracket,
            TokenKind::RBracket => TokenKind::RBracket,
            TokenKind::Comma => TokenKind::Comma,
            TokenKind::Colon => TokenKind::Colon,
            TokenKind::RArrow => TokenKind::RArrow,
            TokenKind::Indent => TokenKind::Indent,
            TokenKind::Dedent => TokenKind::Dedent,
            TokenKind::Newline => TokenKind::Newline,
            TokenKind::Error => TokenKind::Error,
            TokenKind::Eof => TokenKind::Eof,
        }
    }
}

impl Clone for Token {
    fn clone(&self) -> (r: Token)
        ensures
            r == *self,
    {
        Token { kind: self.kind.clone(), span: self.span }
    }
}

/// The keyword spelled by a word, if it is one.
pub open spec fn keyword_kind(w: Seq<char>) -> Option<TokenKind> {
    if w == seq!['f', 'n'] { Some(TokenKind::Fn) }
    else if w == seq!['l', 'e', 't'] { Some(TokenKind::Let) }
    else if w == seq!['m', 'u', 't'] { Some(TokenKind::Mut) }
    else if w == seq!['i', 'f'] { Some(TokenKind::If) }
    else if w == seq!['e', 'l', 'i', 'f'] { Some(TokenKind::Elif) }
    else if w == seq!['e', 'l', 's', 'e'] { Some(TokenKind::Else) }
    else if w == seq!['f', 'o', 'r'] { Some(TokenKind::For) }
    else if w == seq!['w', 'h', 'i', 'l', 'e'] { Some(TokenKind::While) }
    else if w == seq!['i', 'n'] { Some(TokenKind::In) }
    else if w == seq!['r', 'e', 't', 'u', 'r', 'n'] { Some(TokenKind::Return) }
    else if w == seq!['i', '6', '4'] { Some(TokenKind::I64) }
    else if w == seq!['f', '6', '4'] { Some(TokenKind::F64) }
    else if w == seq!['b', 'o', 'o', 'l'] { Some(TokenKind::Bool) }
    else if w == seq!['s', 't', 'r'] { Some(TokenKind::Str) }
    else if w == seq!['u', 'n', 'i', 't'] { Some(TokenKind::Unit) }
    else if w == seq!['t', 'r', 'u', 'e'] { Some(TokenKind::True) }
    else if w == seq!['f', 'a', 'l', 's', 'e'] { Some(TokenKind::False) }
    else if w == seq!['p', 'r', 'i', 'n', 't', 'l', 'n'] { Some(TokenKind::Println) }
    else if w == seq!['s', 't', 'r', 'u', 'c', 't'] { Some(TokenKind::Struct) }
    else if w == seq!['e', 'n', 'u', 'm'] { Some(TokenKind::Enum) }
    else if w == seq!['m', 'o', 'd'] { Some(TokenKind::Mod) }
    else if w == seq!['u', 's', 'e'] { Some(TokenKind::Use) }
    else if w == seq!['p', 'u', 'b'] { Some(TokenKind::Pub) }
    else if w == seq!['a', 's'] { Some(TokenKind::As) }
    else if w == seq!['m', 'o', 'd', 'u', 'l', 'e'] { Some(TokenKind::Module) }
    else if w == seq!['g', 'i', 'v', 'e'] { Some(TokenKind::Give) }
    else if w == seq!['s', 'a', 'y'] { Some(TokenKind::Say) }
    else if w == seq!['r', 'a', 'i', 's', 'e'] { Some(TokenKind::Raise) }
    else if w == seq!['t', 'e', 'x', 't'] { Some(TokenKind::Text) }
    else if w == seq!['n', 'u', 'm', 'b', 'e', 'r'] { Some(TokenKind::Number) }
    else { None }
}

/// The operator or punctuation token spelled by a lexeme, if it is one.
pub open spec fn symbol_kind(w: Seq<char>) -> Option<TokenKind> {
    if w.len() == 1 {
        let c = w[0];
        if c == '+' { Some(TokenKind::Plus) }
        else if c == '-' { Some(TokenKind::Minus) }
        else if c == '*' { Some(TokenKind::Star) }
        else if c == '/' { Some(TokenKind::Slash) }
        else if c == '%' { Some(TokenKind::Percent) }
        else if c == '=' { Some(TokenKind::Assign) }
        else if c == '<' { Some(TokenKind::Lt) }
        else if c == '>' { Some(TokenKind::Gt) }
        else if c == '!' { Some(TokenKind::Bang) }
        else if c == '.' { Some(TokenKind::Dot) }
        else if c == '(' { Some(TokenKind::LParen) }
        else if c == ')' { Some(TokenKind::RParen) }
        else if c == '[' { Some(TokenKind::LBracket) }
        else if c == ']' { Some(TokenKind::RBracket) }
        else if c == '{' { Some(TokenKind::LBrace) }
        else if c == '}' { Some(TokenKind::RBrace) }
        else if c == ',' { Some(TokenKind::Comma) }
        else if c == ':' { Some(TokenKind::Colon) }
        else { None }
    } else if w.len() == 2 {
        let (a, b) = (w[0], w[1]);
        if a == '+' && b == '=' { Some(TokenKind::PlusAssign) }
        else if a == '-' && b == '=' { Some(TokenKind::MinusAssign) }
        else if a == '*' && b == '=' { Some(TokenKind::StarAssign) }
        else if a == '/' && b == '=' { Some(TokenKind::SlashAssign) }
        else if a == '=' && b == '=' { Some(TokenKind::EqEq) }
        else if a == '!' && b == '=' { Some(TokenKind::NotEq) }
        else if a == '<' && b == '=' { Some(TokenKind::LtEq) }
        else if a == '>' && b == '=' { Some(TokenKind::GtEq) }
        else if a == '&' && b == '&' { Some(TokenKind::And) }
        else if a == '|' && b == '|' { Some(TokenKind::Or) }
        else if a == '.' && b == '.' { Some(TokenKind::DotDot) }
        else if a == ':' && b == ':' { Some(TokenKind::DoubleColon) }
        else if a == '|' && b == '>' { Some(TokenKind::Pipe) }
        else if a == '-' && b == '>' { Some(TokenKind::RArrow) }
        else { None }
    } else if w.len() == 3 && w[0] == '.' && w[1] == '.' && w[2] == '.' {
        Some(TokenKind::DotDotEllipsis)
    } else {
        None
    }
}

/// The text a fixed token is written as: the spelling of each keyword,
/// operator and punctuation mark; empty for the tokens that carry a value
/// or stand for layout.
pub open spec fn kind_spelling(k: TokenKind) -> Seq<char> {
    match k {
        TokenKind::Fn => seq!['f', 'n'],
        TokenKind::Let => seq!['l', 'e', 't'],
        TokenKind::Mut => seq!['m', 'u', 't'],
        TokenKind::If => seq!['i', 'f'],
        TokenKind::Elif => seq!['e', 'l', 'i', 'f'],
        TokenKind::Else => seq!['e', 'l', 's', 'e'],
        TokenKind::For => seq!['f', 'o', 'r'],
        TokenKind::While => seq!['w', 'h', 'i', 'l', 'e'],
        TokenKind::In => seq!['i', 'n'],
        TokenKind::Return => seq!['r', 'e', 't', 'u', 'r', 'n'],
        TokenKind::I64 => seq!['i', '6', '4'],
        TokenKind::F64 => seq!['f', '6', '4'],
        TokenKind::Bool => seq!['b', 'o', 'o', 'l'],
        TokenKind::Str => seq!['s', 't', 'r'],
        TokenKind::Unit => seq!['u', 'n', 'i', 't'],
        TokenKind::True => seq!['t', 'r', 'u', 'e'],
        TokenKind::False => seq!['f', 'a', 'l', 's', 'e'],
        TokenKind::Println => seq!['p', 'r', 'i', 'n', 't', 'l', 'n'],
        TokenKind::Struct => seq!['s', 't', 'r', 'u', 'c', 't'],
        TokenKind::Enum => seq!['e', 'n', 'u', 'm'],
        TokenKind::Mod => seq!['m', 'o', 'd'],
        TokenKind::Use => seq!['u', 's', 'e'],
        TokenKind::Pub => seq!['p', 'u', 'b'],
        TokenKind::As => seq!['a', 's'],
        TokenKind::Module => seq!['m', 'o', 'd', 'u', 'l', 'e'],
        TokenKind::Give => seq!['g', 'i', 'v', 'e'],
        TokenKind::Say => seq!['s', 'a', 'y'],
        TokenKind::Raise => seq!['r', 'a', 'i', 's', 'e'],
        TokenKind::Text => seq!['t', 'e', 'x', 't'],
        TokenKind::Number => seq!['n', 'u', 'm', 'b', 'e', 'r'],
        TokenKind::Plus => seq!['+'],
        TokenKind::Minus => seq!['-'],
        TokenKind::Star => seq!['*'],
        TokenKind::Slash => seq!['/'],
        TokenKind::Percent => seq!['%'],
        TokenKind::Assign => seq!['='],
        TokenKind::PlusAssign => seq!['+', '='],
        TokenKind::MinusAssign => seq!['-', '='],
        TokenKind::StarAssign => seq!['*', '='],
        TokenKind::SlashAssign => seq!['/', '='],
        TokenKind::EqEq => seq!['=', '='],
        TokenKind::NotEq => seq!['!', '='],
        TokenKind::Lt => seq!['<'],
        TokenKind::Gt => seq!['>'],
        TokenKind::LtEq => seq!['<', '='],
        TokenKind::GtEq => seq!['>', '='],
        TokenKind::And => seq!['&', '&'],
        TokenKind::Or => seq!['|', '|'],
        TokenKind::Bang => seq!['!'],
        TokenKind::DotDot => seq!['.', '.'],
        TokenKind::DotDotEllipsis => seq!['.', '.', '.'],
        TokenKind::Dot => seq!['.'],
        TokenKind::DoubleColon => seq![':', ':'],
        TokenKind::Pipe => seq!['|', '>'],
        TokenKind::LParen => seq!['('],
        TokenKind::RParen => seq![')'],
        TokenKind::LBrace => seq!['{'],
        TokenKind::RBrace => seq!['}'],
        TokenKind::LBracket => seq!['['],
        TokenKind::RBracket => seq![']'],
        TokenKind::Comma => seq![','],
        TokenKind::Colon => seq![':'],
        TokenKind::RArrow => seq!['-', '>'],
        _ => Seq::empty(),
    }
}

/// A word read as a keyword is that keyword's spelling: each keyword has
/// the one spelling, and distinct words give distinct keywords.
pub proof fn law_keyword_spelled(w: Seq<char>, v: Seq<char>)
    ensures
        keyword_kind(w) matches Some(k) ==> kind_spelling(k) == w,
        keyword_kind(w) is Some && keyword_kind(w) == keyword_kind(v) ==> w == v,
{
}

/// A lexeme read as an operator or punctuation mark is that token's
/// spelling: `<` and `<=` are different tokens, and each token comes from
/// the one lexeme.
pub proof fn law_symbol_spelled(w: Seq<char>, v: Seq<char>)
    ensures
        symbol_kind(w) matches Some(k) ==> kind_spelling(k) == w,
        symbol_kind(w) is Some && symbol_kind(w) == symbol_kind(v) ==> w == v,
{
    lemma_symbol_spelled(w);
    lemma_symbol_spelled(v);
}

proof fn lemma_symbol_spelled(w: Seq<char>)
    ensures
        symbol_kind(w) matches Some(k) ==> kind_spelling(k) == w,
{
    if w.len() == 1 {
        assert(w =~= seq![w[0]]);
    } else if w.len() == 2 {
        assert(w =~= seq![w[0], w[1]]);
    } else if w.len() == 3 {
        assert(w =~= seq![w[0], w[1], w[2]]);
    }
}

} // verus!
