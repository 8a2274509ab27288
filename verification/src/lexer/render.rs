//! How a token kind is shown in messages: its variant name, and for a
//! literal or identifier its payload in brackets, text quoted.
use vstd::prelude::*;
use crate::lexer::TokenKind;
use crate::text::{decimal, push_char, str_chars};

verus! {

/// A character as it is written inside quotes: tab, carriage return, line
/// feed, backslash, double quote and NUL get a backslash escape; every
/// other character is written as it is.
pub open spec fn escaped_char(c: char) -> Seq<char> {
    if c == '\t' {
        seq!['\\', 't']
    } else if c == '\r' {
        seq!['\\', 'r']
    } else if c == '\n' {
        seq!['\\', 'n']
    } else if c == '\\' {
        seq!['\\', '\\']
    } else if c == '"' {
        seq!['\\', '"']
    } else if c == '\0' {
        seq!['\\', '0']
    } else {
        seq![c]
    }
}

/// A text with each character escaped.
pub open spec fn escaped(s: Seq<char>) -> Seq<char>
    decreases s.len(),
{
    if s.len() == 0 {
        Seq::empty()
    } else {
        escaped(s.drop_last()) + escaped_char(s.last())
    }
}

/// A text between double quotes, escaped.
pub open spec fn quoted(s: Seq<char>) -> Seq<char> {
    seq!['"'] + escaped(s) + seq!['"']
}

/// An integer in decimal, with a minus sign when negative.
pub open spec fn signed_decimal(n: int) -> Seq<char> {
    if n < 0 {
        seq!['-'] + decimal((-n) as nat)
    } else {
        decimal(n as nat)
    }
}

/// How a token kind is shown.
pub open spec fn kind_text(k: TokenKind) -> Seq<char> {
    match k {
        TokenKind::Ident(s) => "Ident("@ + quoted(s@) + ")"@,
        TokenKind::Integer(n) => "Integer("@ + signed_decimal(n as int) + ")"@,
        TokenKind::Float(s) => "Float("@ + quoted(s@) + ")"@,
        TokenKind::StrLit(s) => "StrLit("@ + quoted(s@) + ")"@,
        TokenKind::Fn => "Fn"@,
        TokenKind::Let => "Let"@,
        TokenKind::Mut => "Mut"@,
        TokenKind::If => "If"@,
        TokenKind::Elif => "Elif"@,
        TokenKind::Else => "Else"@,
        TokenKind::For => "For"@,
        TokenKind::While => "While"@,
        TokenKind::In => "In"@,
        TokenKind::Return => "Return"@,
        TokenKind::I64 => "I64"@,
        TokenKind::F64 => "F64"@,
        TokenKind::Bool => "Bool"@,
        TokenKind::Str => "Str"@,
        TokenKind::Unit => "Unit"@,
        TokenKind::True => "True"@,
        TokenKind::False => "False"@,
        TokenKind::Println => "Println"@,
        TokenKind::Struct => "Struct"@,
        TokenKind::Enum => "Enum"@,
        TokenKind::Mod => "Mod"@,
        TokenKind::Use => "Use"@,
        TokenKind::Pub => "Pub"@,
        TokenKind::As => "As"@,
        TokenKind::Module => "Module"@,
        TokenKind::Give => "Give"@,
        TokenKind::Say => "Say"@,
        TokenKind::Raise => "Raise"@,
        TokenKind::Text => "Text"@,
        TokenKind::Number => "Number"@,
        TokenKind::Plus => "Plus"@,
        TokenKind::Minus => "Minus"@,
        TokenKind::Star => "Star"@,
        TokenKind::Slash => "Slash"@,
        TokenKind::Percent => "Percent"@,
        TokenKind::Assign => "Assign"@,
        TokenKind::PlusAssign => "PlusAssign"@,
        TokenKind::MinusAssign => "MinusAssign"@,
        TokenKind::StarAssign => "StarAssign"@,
        TokenKind::SlashAssign => "SlashAssign"@,
        TokenKind::EqEq => "EqEq"@,
        TokenKind::NotEq => "NotEq"@,
        TokenKind::Lt => "Lt"@,
        TokenKind::Gt => "Gt"@,
        TokenKind::LtEq => "LtEq"@,
        TokenKind::GtEq => "GtEq"@,
        TokenKind::And => "And"@,
        TokenKind::Or => "Or"@,
        TokenKind::Bang => "Bang"@,
        TokenKind::DotDot => "DotDot"@,
        TokenKind::DotDotEllipsis => "DotDotEllipsis"@,
        TokenKind::Dot => "Dot"@,
        TokenKind::DoubleColon => "DoubleColon"@,
        TokenKind::Pipe => "Pipe"@,
        TokenKind::LParen => "LParen"@,
        TokenKind::RParen => "RParen"@,
        TokenKind::LBrace => "LBrace"@,
        TokenKind::RBrace => "RBrace"@,
        TokenKind::LBracket => "LBracket"@,
        TokenKind::RBracket => "RBracket"@,
        TokenKind::Comma => "Comma"@,
        TokenKind::Colon => "Colon"@,
        TokenKind::RArrow => "RArrow"@,
        TokenKind::Indent => "Indent"@,
        TokenKind::Dedent => "Dedent"@,
        TokenKind::Newline => "Newline"@,
        TokenKind::Error => "Error"@,
        TokenKind::Eof => "Eof"@,
    }
}

fn push_escaped_char(out: &mut String, c: char)
    ensures
        final(out)@ == old(out)@ + escaped_char(c),
{
    if c == '\t' {
        push_char(out, '\\');
        push_char(out, 't');
    } else if c == '\r' {
        push_char(out, '\\');
        push_char(out, 'r');
    } else if c == '\n' {
        push_char(out, '\\');
        push_char(out, 'n');
    } else if c == '\\' {
        push_char(out, '\\');
        push_char(out, '\\');
    } else if c == '"' {
        push_char(out, '\\');
        push_char(out, '"');
    } else if c == '\0' {
        push_char(out, '\\');
        push_char(out, '0');
    } else {
        push_char(out, c);
    }
}

fn push_quoted(out: &mut String, s: &str)
    ensures
        final(out)@ == old(out)@ + quoted(s@),
{
    push_char(out, '"');
    let cs = str_chars(s);
    let mut i: usize = 0;
    while i < cs.len()
        invariant
            cs@ == s@,
            i <= cs@.len(),
            out@ == old(out)@ + seq!['"'] + escaped(cs@.take(i as int)),
        decreases cs@.len() - i,
    {
        push_escaped_char(out, cs[i]);
        proof {
            assert(cs@.take(i + 1).drop_last() =~= cs@.take(i as int));
        }
        i = i + 1;
    }
    push_char(out, '"');
    assert(cs@.take(cs@.len() as int) =~= cs@);
}

fn push_u64_decimal(s: &mut String, n: u64)
    ensures
        final(s)@ == old(s)@ + decimal(n as nat),
    decreases n,
{
    if n < 10 {
        crate::text::push_decimal(s, n as u32);
    } else {
        push_u64_decimal(s, n / 10);
        crate::text::push_decimal(s, (n % 10) as u32);
        assert(decimal((n % 10) as nat) == seq![crate::text::digit_char((n % 10) as int)]);
        assert(old(s)@ + decimal((n / 10) as nat) + decimal((n % 10) as nat) == old(s)@ + decimal(n as nat));
    }
}

fn push_signed(s: &mut String, n: i64)
    ensures
        final(s)@ == old(s)@ + signed_decimal(n as int),
{
    if n < 0 {
        push_char(s, '-');
        let m: u64 = if n == i64::MIN {
            9223372036854775808u64
        } else {
            (-n) as u64
        };
        push_u64_decimal(s, m);
    } else {
        push_u64_decimal(s, n as u64);
    }
}

fn with_payload(name: &str, payload_quoted: Option<&str>, number: i64) -> (r: String)
    ensures
        payload_quoted matches Some(p) ==> r@ == name@ + seq!['('] + quoted(p@) + seq![')'],
        payload_quoted is None ==> r@ == name@ + seq!['('] + signed_decimal(number as int) + seq![')'],
{
    let mut r = String::from_str(name);
    push_char(&mut r, '(');
    match payload_quoted {
        Some(p) => push_quoted(&mut r, p),
        None => push_signed(&mut r, number),
    }
    push_char(&mut r, ')');
    r
}

/// How a token kind is shown: `Fn`, `Ident("x")`, `Integer(42)` and so on.
pub fn kind_text_of(k: &TokenKind) -> (r: String)
    ensures
        r@ == kind_text(*k),
{
    proof {
        reveal_strlit("Ident(");
        reveal_strlit("Integer(");
        reveal_strlit("Float(");
        reveal_strlit("StrLit(");
        reveal_strlit(")");
        reveal_strlit("Ident");
        reveal_strlit("Integer");
        reveal_strlit("Float");
        reveal_strlit("StrLit");
    }
    match k {
        TokenKind::Ident(s) => with_payload("Ident", Some(s.as_str()), 0),
        TokenKind::Integer(n) => with_payload("Integer", None, *n),
        TokenKind::Float(s) => with_payload("Float", Some(s.as_str()), 0),
        TokenKind::StrLit(s) => with_payload("StrLit", Some(s.as_str()), 0),
        TokenKind::Fn => String::from_str("Fn"),
        TokenKind::Let => String::from_str("Let"),
        TokenKind::Mut => String::from_str("Mut"),
        TokenKind::If => String::from_str("If"),
        TokenKind::Elif => String::from_str("Elif"),
        TokenKind::Else => String::from_str("Else"),
        TokenKind::For => String::from_str("For"),
        TokenKind::While => String::from_str("While"),
        TokenKind::In => String::from_str("In"),
        TokenKind::Return => String::from_str("Return"),
        TokenKind::I64 => String::from_str("I64"),
        TokenKind::F64 => String::from_str("F64"),
        TokenKind::Bool => String::from_str("Bool"),
        TokenKind::Str => String::from_str("Str"),
        TokenKind::Unit => String::from_str("Unit"),
        TokenKind::True => String::from_str("True"),
        TokenKind::False => String::from_str("False"),
        TokenKind::Println => String::from_str("Println"),
        TokenKind::Struct => String::from_str("Struct"),
        TokenKind::Enum => String::from_str("Enum"),
        TokenKind::Mod => String::from_str("Mod"),
        TokenKind::Use => String::from_str("Use"),
        TokenKind::Pub => String::from_str("Pub"),
        TokenKind::As => String::from_str("As"),
        TokenKind::Module => String::from_str("Module"),
        TokenKind::Give => String::from_str("Give"),
        TokenKind::Say => String::from_str("Say"),
        TokenKind::Raise => String::from_str("Raise"),
        TokenKind::Text => String::from_str("Text"),
        TokenKind::Number => String::from_str("Number"),
        TokenKind::Plus => String::from_str("Plus"),
        TokenKind::Minus => String::from_str("Minus"),
        TokenKind::Star => String::from_str("Star"),
        TokenKind::Slash => String::from_str("Slash"),
        TokenKind::Percent => String::from_str("Percent"),
        TokenKind::Assign => String::from_str("Assign"),
        TokenKind::PlusAssign => String::from_str("PlusAssign"),
        TokenKind::MinusAssign => String::from_str("MinusAssign"),
        TokenKind::StarAssign => String::from_str("StarAssign"),
        TokenKind::SlashAssign => String::from_str("SlashAssign"),
        TokenKind::EqEq => String::from_str("EqEq"),
        TokenKind::NotEq => String::from_str("NotEq"),
        TokenKind::Lt => String::from_str("Lt"),
        TokenKind::Gt => String::from_str("Gt"),
        TokenKind::LtEq => String::from_str("LtEq"),
        TokenKind::GtEq => String::from_str("GtEq"),
        TokenKind::And => String::from_str("And"),
        TokenKind::Or => String::from_str("Or"),
        TokenKind::Bang => String::from_str("Bang"),
        TokenKind::DotDot => String::from_str("DotDot"),
        TokenKind::DotDotEllipsis => String::from_str("DotDotEllipsis"),
        TokenKind::Dot => String::from_str("Dot"),
        TokenKind::DoubleColon => String::from_str("DoubleColon"),
        TokenKind::Pipe => String::from_str("Pipe"),
        TokenKind::LParen => String::from_str("LParen"),
        TokenKind::RParen => String::from_str("RParen"),
        TokenKind::LBrace => String::from_str("LBrace"),
        TokenKind::RBrace => String::from_str("RBrace"),
        TokenKind::LBracket => String::from_str("LBracket"),
        TokenKind::RBracket => String::from_str("RBracket"),
        TokenKind::Comma => String::from_str("Comma"),
        TokenKind::Colon => String::from_str("Colon"),
        TokenKind::RArrow => String::from_str("RArrow"),
        TokenKind::Indent => String::from_str("Indent"),
        TokenKind::Dedent => String::from_str("Dedent"),
        TokenKind::Newline => String::from_str("Newline"),
        TokenKind::Error => String::from_str("Error"),
        TokenKind::Eof => String::from_str("Eof"),
    }
}

} // verus!
