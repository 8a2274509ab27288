//! The parser: a token stream to a syntax tree, by the grammar in
//! [`grammar`].
pub mod grammar;
pub mod view;
mod rules;

use vstd::prelude::*;
use std::ops::Range;
use crate::ast::{function_items, AugOp, BinOp, Program, Type};
use crate::error::{CompilerError, ParseError};
use crate::lexer::{Token, TokenKind};
use crate::lexer::render::{kind_text, kind_text_of};
use crate::parser::grammar::{
    aug_op_at, enum_decl, field_decls, generic_params, ident_at, idents, is_at, level_op, more_idents, more_segments,
    more_typed, more_types, params, parser_keyword, program, items, ret_type, expr, stmt, block, function, segment_at, span_at, struct_decl, turbofish, type_ann,
    type_at, typed_name, typed_names, types, use_decl, variant_decls,
};
use crate::parser::view::{function_v, items_v, names_v, span_v, typed_v};
use crate::text::str_chars;

verus! {

/// Whether `a` is the token kind `b`, for kinds without a payload.
pub open spec fn plain_kind(k: TokenKind) -> bool {
    !(k is Ident || k is Integer || k is Float || k is StrLit)
}

fn same_plain_kind(a: &TokenKind, b: &TokenKind) -> (r: bool)
    requires
        plain_kind(*b),
    ensures
        r == (*a == *b),
{
    match (a, b) {
        (TokenKind::Fn, TokenKind::Fn) => true,
        (TokenKind::Let, TokenKind::Let) => true,
        (TokenKind::Mut, TokenKind::Mut) => true,
        (TokenKind::If, TokenKind::If) => true,
        (TokenKind::Elif, TokenKind::Elif) => true,
        (TokenKind::Else, TokenKind::Else) => true,
        (TokenKind::For, TokenKind::For) => true,
        (TokenKind::While, TokenKind::While) => true,
        (TokenKind::In, TokenKind::In) => true,
        (TokenKind::Return, TokenKind::Return) => true,
        (TokenKind::I64, TokenKind::I64) => true,
        (TokenKind::F64, TokenKind::F64) => true,
        (TokenKind::Bool, TokenKind::Bool) => true,
        (TokenKind::Str, TokenKind::Str) => true,
        (TokenKind::Unit, TokenKind::Unit) => true,
        (TokenKind::True, TokenKind::True) => true,
        (TokenKind::False, TokenKind::False) => true,
        (TokenKind::Println, TokenKind::Println) => true,
        (TokenKind::Struct, TokenKind::Struct) => true,
        (TokenKind::Enum, TokenKind::Enum) => true,
        (TokenKind::Mod, TokenKind::Mod) => true,
        (TokenKind::Use, TokenKind::Use) => true,
        (TokenKind::Pub, TokenKind::Pub) => true,
        (TokenKind::As, TokenKind::As) => true,
        (TokenKind::Module, TokenKind::Module) => true,
        (TokenKind::Give, TokenKind::Give) => true,
        (TokenKind::Say, TokenKind::Say) => true,
        (TokenKind::Raise, TokenKind::Raise) => true,
        (TokenKind::Text, TokenKind::Text) => true,
        (TokenKind::Number, TokenKind::Number) => true,
        (TokenKind::Plus, TokenKind::Plus) => true,
        (TokenKind::Minus, TokenKind::Minus) => true,
        (TokenKind::Star, TokenKind::Star) => true,
        (TokenKind::Slash, TokenKind::Slash) => true,
        (TokenKind::Percent, TokenKind::Percent) => true,
        (TokenKind::Assign, TokenKind::Assign) => true,
        (TokenKind::PlusAssign, TokenKind::PlusAssign) => true,
        (TokenKind::MinusAssign, TokenKind::MinusAssign) => true,
        (TokenKind::StarAssign, TokenKind::StarAssign) => true,
        (TokenKind::SlashAssign, TokenKind::SlashAssign) => true,
        (TokenKind::EqEq, TokenKind::EqEq) => true,
        (TokenKind::NotEq, TokenKind::NotEq) => true,
        (TokenKind::Lt, TokenKind::Lt) => true,
        (TokenKind::Gt, TokenKind::Gt) => true,
        (TokenKind::LtEq, TokenKind::LtEq) => true,
        (TokenKind::GtEq, TokenKind::GtEq) => true,
        (TokenKind::And, TokenKind::And) => true,
        (TokenKind::Or, TokenKind::Or) => true,
        (TokenKind::Bang, TokenKind::Bang) => true,
        (TokenKind::DotDot, TokenKind::DotDot) => true,
        (TokenKind::DotDotEllipsis, TokenKind::DotDotEllipsis) => true,
        (TokenKind::Dot, TokenKind::Dot) => true,
        (TokenKind::DoubleColon, TokenKind::DoubleColon) => true,
        (TokenKind::Pipe, TokenKind::Pipe) => true,
        (TokenKind::LParen, TokenKind::LParen) => true,
        (TokenKind::RParen, TokenKind::RParen) => true,
        (TokenKind::LBrace, TokenKind::LBrace) => true,
        (TokenKind::RBrace, TokenKind::RBrace) => true,
        (TokenKind::LBracket, TokenKind::LBracket) => true,
        (TokenKind::RBracket, TokenKind::RBracket) => true,
        (TokenKind::Comma, TokenKind::Comma) => true,
        (TokenKind::Colon, TokenKind::Colon) => true,
        (TokenKind::RArrow, TokenKind::RArrow) => true,
        (TokenKind::Indent, TokenKind::Indent) => true,
        (TokenKind::Dedent, TokenKind::Dedent) => true,
        (TokenKind::Newline, TokenKind::Newline) => true,
        (TokenKind::Error, TokenKind::Error) => true,
        (TokenKind::Eof, TokenKind::Eof) => true,
        _ => false,
    }
}

fn chars_eq(a: &Vec<char>, b: &[char]) -> (r: bool)
    ensures
        r == (a@ == b@),
{
    if a.len() != b.len() {
        return false;
    }
    let mut i: usize = 0;
    while i < a.len()
        invariant
            a@.len() == b@.len(),
            i <= a@.len(),
            forall|k: int| 0 <= k < i ==> a@[k] == b@[k],
        decreases a@.len() - i,
    {
        if a[i] != b[i] {
            return false;
        }
        i = i + 1;
    }
    assert(a@ =~= b@);
    true
}

/// Whether the word is one of the parser's keywords.
pub fn is_keyword(s: &str) -> (r: bool)
    ensures
        r == parser_keyword(s@),
{
    let c = str_chars(s);
    chars_eq(&c, &['f', 'n']) || chars_eq(&c, &['l', 'e', 't']) || chars_eq(&c, &['m', 'u', 't']) || chars_eq(&c, &['i', 'f'])
        || chars_eq(&c, &['e', 'l', 'i', 'f']) || chars_eq(&c, &['e', 'l', 's', 'e']) || chars_eq(&c, &['f', 'o', 'r'])
        || chars_eq(&c, &['w', 'h', 'i', 'l', 'e']) || chars_eq(&c, &['i', 'n']) || chars_eq(&c, &['r', 'e', 't', 'u', 'r', 'n'])
        || chars_eq(&c, &['i', '6', '4']) || chars_eq(&c, &['f', '6', '4']) || chars_eq(&c, &['b', 'o', 'o', 'l'])
        || chars_eq(&c, &['s', 't', 'r']) || chars_eq(&c, &['u', 'n', 'i', 't']) || chars_eq(&c, &['t', 'r', 'u', 'e'])
        || chars_eq(&c, &['f', 'a', 'l', 's', 'e']) || chars_eq(&c, &['p', 'r', 'i', 'n', 't', 'l', 'n'])
        || chars_eq(&c, &['s', 't', 'r', 'u', 'c', 't']) || chars_eq(&c, &['e', 'n', 'u', 'm']) || chars_eq(&c, &['m', 'o', 'd'])
        || chars_eq(&c, &['u', 's', 'e']) || chars_eq(&c, &['p', 'u', 'b']) || chars_eq(&c, &['a', 's'])
}

proof fn lemma_names_push(v: Seq<String>, x: String)
    ensures
        names_v(v.push(x)) == names_v(v).push(x@),
{
    assert(names_v(v.push(x)) =~= names_v(v).push(x@));
}

proof fn lemma_typed_push(v: Seq<(String, Type)>, x: (String, Type))
    ensures
        typed_v(v.push(x)) == typed_v(v).push((x.0@, x.1)),
{
    assert(typed_v(v.push(x)) =~= typed_v(v).push((x.0@, x.1)));
}

/// The parser's state: the tokens, and the furthest position at which a
/// token was looked for and not found (where an error is reported).
pub struct Parser<'a> {
    pub toks: &'a [Token],
    pub furthest: usize,
}

impl<'a> Parser<'a> {
    pub open spec fn t(&self) -> Seq<Token> {
        self.toks@
    }

    /// Positions a few tokens past the end still fit a `usize`.
    pub open spec fn wf(&self) -> bool {
        self.toks@.len() < usize::MAX - 16
    }

    /// Note a failed look at `i`.
    fn miss(&mut self, i: usize)
        ensures
            final(self).toks == old(self).toks,
            final(self).furthest == if i > old(self).furthest {
                i
            } else {
                old(self).furthest
            },
    {
        if i > self.furthest {
            self.furthest = i;
        }
    }

    /// Whether the token at `i` is `k`.
    fn at(&mut self, i: usize, k: TokenKind) -> (r: bool)
        requires
            plain_kind(k),
        ensures
            final(self).toks == old(self).toks,
            r == is_at(old(self).t(), i as int, k),
    {
        if i < self.toks.len() && same_plain_kind(&self.toks[i].kind, &k) {
            true
        } else {
            self.miss(i);
            false
        }
    }

    fn span(&self, i: usize) -> (r: Range<usize>)
        requires
            i < self.t().len(),
        ensures
            span_v(r) == span_at(self.t(), i as int),
    {
        self.toks[i].span.start..self.toks[i].span.end
    }

    /// The identifier at `i`.
    fn ident(&mut self, i: usize) -> (r: Option<String>)
        ensures
            final(self).toks == old(self).toks,
            r is Some <==> ident_at(old(self).t(), i as int) is Some,
            r matches Some(s) ==> s@ == ident_at(old(self).t(), i as int)->0,
    {
        if i < self.toks.len() {
            if let TokenKind::Ident(s) = &self.toks[i].kind {
                if !is_keyword(s.as_str()) {
                    return Some(s.clone());
                }
            }
        }
        self.miss(i);
        None
    }

    /// The type named at `i`.
    fn type_word(&mut self, i: usize) -> (r: Option<Type>)
        ensures
            final(self).toks == old(self).toks,
            r == type_at(old(self).t(), i as int),
    {
        if i < self.toks.len() {
            match &self.toks[i].kind {
                TokenKind::I64 => return Some(Type::I64),
                TokenKind::F64 => return Some(Type::F64),
                TokenKind::Bool => return Some(Type::Bool),
                TokenKind::Str => return Some(Type::Str),
                TokenKind::Unit => return Some(Type::Unit),
                TokenKind::Ident(s) => if !is_keyword(s.as_str()) {
                    return Some(Type::Struct(s.clone()));
                },
                _ => {},
            }
        }
        self.miss(i);
        None
    }

    fn type_ann(&mut self, i: usize) -> (r: Option<(Type, usize)>)
        requires
            i < usize::MAX - 2,
        ensures
            final(self).toks == old(self).toks,
            match r {
                Some((ty, j)) => type_ann(old(self).t(), i as int) == Some((ty, j as int)),
                None => type_ann(old(self).t(), i as int) is None,
            },
    {
        if self.at(i, TokenKind::Colon) {
            match self.type_word(i + 1) {
                Some(ty) => Some((ty, i + 2)),
                None => None,
            }
        } else {
            None
        }
    }

    fn ret_type(&mut self, i: usize) -> (r: (Type, usize))
        requires
            i < usize::MAX - 2,
        ensures
            final(self).toks == old(self).toks,
            (r.0, r.1 as int) == ret_type(old(self).t(), i as int),
    {
        if self.at(i, TokenKind::RArrow) {
            match self.type_word(i + 1) {
                Some(ty) => return (ty, i + 2),
                None => {},
            }
        }
        (Type::Unit, i)
    }
    fn idents(&mut self, i: usize) -> (r: (Vec<String>, usize))
        requires
            old(self).wf(),
            i <= old(self).t().len(),
        ensures
            final(self).toks == old(self).toks,
            (names_v(r.0@), r.1 as int) == idents(old(self).t(), i as int),
            r.1 <= old(self).t().len(),
    {
        let ghost t = self.t();
        let first = match self.ident(i) {
            Some(n) => n,
            None => return (Vec::new(), i),
        };
        let mut out: Vec<String> = Vec::new();
        out.push(first);
        let mut j = i + 1;
        proof {
            assert(names_v(out@) =~= seq![first@]);
        }
        loop
            invariant
                self.t() == t,
                self.toks == old(self).toks,
                self.wf(),
                j <= t.len(),
                more_idents(t, i + 1, seq![ident_at(t, i as int)->0]) == more_idents(t, j as int, names_v(out@)),
            ensures
                more_idents(t, i + 1, seq![ident_at(t, i as int)->0]) == (names_v(out@), j as int),
                j <= t.len(),
            decreases t.len() - j,
        {
            if !self.at(j, TokenKind::Comma) {
                break;
            }
            match self.ident(j + 1) {
                Some(n) => {
                    proof {
                        lemma_names_push(out@, n);
                    }
                    out.push(n);
                    j = j + 2;
                },
                None => {
                    break;
                },
            }
        }
        (out, j)
    }

    fn generic_params(&mut self, i: usize) -> (r: (Vec<String>, usize))
        requires
            old(self).wf(),
            i <= old(self).t().len(),
        ensures
            final(self).toks == old(self).toks,
            (names_v(r.0@), r.1 as int) == generic_params(old(self).t(), i as int),
            r.1 <= old(self).t().len(),
    {
        if self.at(i, TokenKind::Lt) {
            let (names, j) = self.idents(i + 1);
            if self.at(j, TokenKind::Gt) {
                return (names, j + 1);
            }
        }
        (Vec::new(), i)
    }

    fn typed_name(&mut self, i: usize) -> (r: Option<((String, Type), usize)>)
        requires
            old(self).wf(),
            i <= old(self).t().len(),
        ensures
            final(self).toks == old(self).toks,
            match r {
                Some((p, j)) => typed_name(old(self).t(), i as int) == Some(((p.0@, p.1), j as int)) && j <= old(self).t().len(),
                None => typed_name(old(self).t(), i as int) is None,
            },
    {
        let n = match self.ident(i) {
            Some(n) => n,
            None => return None,
        };
        match self.type_ann(i + 1) {
            Some((ty, j)) => Some(((n, ty), j)),
            None => None,
        }
    }

    fn typed_names(&mut self, i: usize) -> (r: (Vec<(String, Type)>, usize))
        requires
            old(self).wf(),
            i <= old(self).t().len(),
        ensures
            final(self).toks == old(self).toks,
            (typed_v(r.0@), r.1 as int) == typed_names(old(self).t(), i as int),
            r.1 <= old(self).t().len(),
    {
        let ghost t = self.t();
        let (first, k) = match self.typed_name(i) {
            Some(x) => x,
            None => return (Vec::new(), i),
        };
        let mut out: Vec<(String, Type)> = Vec::new();
        out.push(first);
        let mut j = k;
        proof {
            assert(typed_v(out@) =~= seq![(typed_name(t, i as int)->0).0]);
        }
        loop
            invariant
                self.t() == t,
                self.toks == old(self).toks,
                self.wf(),
                j <= t.len(),
                typed_name(t, i as int) is Some,
                more_typed(t, (typed_name(t, i as int)->0).1, seq![(typed_name(t, i as int)->0).0]) == more_typed(
                    t,
                    j as int,
                    typed_v(out@),
                ),
            ensures
                more_typed(t, (typed_name(t, i as int)->0).1, seq![(typed_name(t, i as int)->0).0]) == (typed_v(out@), j as int),
                j <= t.len(),
            decreases t.len() - j,
        {
            if !self.at(j, TokenKind::Comma) {
                break;
            }
            match self.typed_name(j + 1) {
                Some((p, k2)) => {
                    proof {
                        lemma_typed_push(out@, p);
                    }
                    out.push(p);
                    j = k2;
                },
                None => {
                    break;
                },
            }
        }
        (out, j)
    }

    fn params(&mut self, i: usize) -> (r: Option<(Vec<(String, Type)>, usize)>)
        requires
            old(self).wf(),
            i <= old(self).t().len(),
        ensures
            final(self).toks == old(self).toks,
            match r {
                Some((ps, j)) => params(old(self).t(), i as int) == Some((typed_v(ps@), j as int)) && j <= old(self).t().len(),
                None => params(old(self).t(), i as int) is None,
            },
    {
        if self.at(i, TokenKind::LParen) {
            let (ps, j) = self.typed_names(i + 1);
            if self.at(j, TokenKind::RParen) {
                return Some((ps, j + 1));
            }
        }
        if self.at(i, TokenKind::RParen) {
            proof {
                assert(typed_v(Seq::<(String, Type)>::empty()) =~= Seq::<(Seq<char>, Type)>::empty());
            }
            return Some((Vec::new(), i + 1));
        }
        None
    }

    fn field_decls(&mut self, i: usize) -> (r: Option<(Vec<(String, Type)>, usize)>)
        requires
            old(self).wf(),
            i <= old(self).t().len(),
        ensures
            final(self).toks == old(self).toks,
            match r {
                Some((ps, j)) => field_decls(old(self).t(), i as int) == Some((typed_v(ps@), j as int)) && j <= old(self).t().len(),
                None => field_decls(old(self).t(), i as int) is None,
            },
    {
        if self.at(i, TokenKind::LBrace) {
            let (ps, j) = self.typed_names(i + 1);
            if self.at(j, TokenKind::RBrace) {
                return Some((ps, j + 1));
            }
        }
        None
    }

    fn variant_decls(&mut self, i: usize) -> (r: Option<(Vec<String>, usize)>)
        requires
            old(self).wf(),
            i <= old(self).t().len(),
        ensures
            final(self).toks == old(self).toks,
            match r {
                Some((vs, j)) => variant_decls(old(self).t(), i as int) == Some((names_v(vs@), j as int)) && j <= old(self).t().len(),
                None => variant_decls(old(self).t(), i as int) is None,
            },
    {
        if self.at(i, TokenKind::LBrace) {
            let (vs, j) = self.idents(i + 1);
            if self.at(j, TokenKind::RBrace) {
                return Some((vs, j + 1));
            }
        }
        None
    }

    fn struct_decl(&mut self, i: usize) -> (r: Option<(String, Vec<String>, Vec<(String, Type)>, Range<usize>, usize)>)
        requires
            old(self).wf(),
            i <= old(self).t().len(),
        ensures
            final(self).toks == old(self).toks,
            match r {
                Some((n, g, f, sp, j)) => struct_decl(old(self).t(), i as int) == Some(
                    (n@, names_v(g@), typed_v(f@), span_v(sp), j as int),
                ) && j <= old(self).t().len(),
                None => struct_decl(old(self).t(), i as int) is None,
            },
    {
        if !self.at(i, TokenKind::Struct) {
            return None;
        }
        let n = match self.ident(i + 1) {
            Some(n) => n,
            None => return None,
        };
        let (g, k) = self.generic_params(i + 2);
        match self.field_decls(k) {
            Some((f, j)) => Some((n, g, f, self.span(i + 1), j)),
            None => None,
        }
    }

    fn enum_decl(&mut self, i: usize) -> (r: Option<(String, Vec<String>, Vec<String>, Range<usize>, usize)>)
        requires
            old(self).wf(),
            i <= old(self).t().len(),
        ensures
            final(self).toks == old(self).toks,
            match r {
                Some((n, g, v, sp, j)) => enum_decl(old(self).t(), i as int) == Some(
                    (n@, names_v(g@), names_v(v@), span_v(sp), j as int),
                ) && j <= old(self).t().len(),
                None => enum_decl(old(self).t(), i as int) is None,
            },
    {
        if !self.at(i, TokenKind::Enum) {
            return None;
        }
        let n = match self.ident(i + 1) {
            Some(n) => n,
            None => return None,
        };
        let (g, k) = self.generic_params(i + 2);
        match self.variant_decls(k) {
            Some((v, j)) => Some((n, g, v, self.span(i + 1), j)),
            None => None,
        }
    }

    /// The path segment at `i`.
    fn segment(&mut self, i: usize) -> (r: Option<String>)
        ensures
            final(self).toks == old(self).toks,
            r is Some <==> segment_at(old(self).t(), i as int) is Some,
            r matches Some(s) ==> s@ == segment_at(old(self).t(), i as int)->0,
    {
        if i < self.toks.len() {
            match &self.toks[i].kind {
                TokenKind::Ident(s) => if !is_keyword(s.as_str()) {
                    return Some(s.clone());
                },
                TokenKind::Println => return Some(string_of(&['p', 'r', 'i', 'n', 't', 'l', 'n'])),
                TokenKind::True => return Some(string_of(&['t', 'r', 'u', 'e'])),
                TokenKind::False => return Some(string_of(&['f', 'a', 'l', 's', 'e'])),
                TokenKind::I64 => return Some(string_of(&['i', '6', '4'])),
                TokenKind::F64 => return Some(string_of(&['f', '6', '4'])),
                TokenKind::Bool => return Some(string_of(&['b', 'o', 'o', 'l'])),
                TokenKind::Str => return Some(string_of(&['s', 't', 'r'])),
                TokenKind::Unit => return Some(string_of(&['u', 'n', 'i', 't'])),
                _ => {},
            }
        }
        self.miss(i);
        None
    }

    fn use_decl(&mut self, i: usize) -> (r: Option<(String, Vec<String>, Option<String>, Range<usize>, usize)>)
        requires
            old(self).wf(),
            i <= old(self).t().len(),
        ensures
            final(self).toks == old(self).toks,
            match r {
                Some((n, p, a, sp, j)) => use_decl(old(self).t(), i as int) == Some(
                    (
                        n@,
                        names_v(p@),
                        match a {
                            Some(x) => Some(x@),
                            None => None,
                        },
                        span_v(sp),
                        j as int,
                    ),
                ) && j <= old(self).t().len(),
                None => use_decl(old(self).t(), i as int) is None,
            },
    {
        let ghost t = self.t();
        if !self.at(i, TokenKind::Use) {
            return None;
        }
        let first = match self.segment(i + 1) {
            Some(s) => s,
            None => return None,
        };
        let mut parts: Vec<String> = Vec::new();
        parts.push(first);
        let mut end = self.toks[i + 1].span.end;
        let mut j = i + 2;
        proof {
            assert(names_v(parts@) =~= seq![segment_at(t, i + 1)->0]);
        }
        loop
            invariant
                self.t() == t,
                self.toks == old(self).toks,
                self.wf(),
                j <= t.len(),
                parts@.len() > 0,
                more_segments(t, i + 2, seq![segment_at(t, i + 1)->0], t[i + 1].span.end) == more_segments(
                    t,
                    j as int,
                    names_v(parts@),
                    end,
                ),
            ensures
                parts@.len() > 0,
                more_segments(t, i + 2, seq![segment_at(t, i + 1)->0], t[i + 1].span.end) == (names_v(parts@), end, j as int),
                j <= t.len(),
            decreases t.len() - j,
        {
            if !self.at(j, TokenKind::DoubleColon) {
                break;
            }
            match self.segment(j + 1) {
                Some(s) => {
                    proof {
                        lemma_names_push(parts@, s);
                    }
                    parts.push(s);
                    end = self.toks[j + 1].span.end;
                    j = j + 2;
                },
                None => {
                    break;
                },
            }
        }
        let mut alias: Option<String> = None;
        let mut k = j;
        if self.at(j, TokenKind::As) {
            match self.ident(j + 1) {
                Some(a) => {
                    alias = Some(a);
                    k = j + 2;
                },
                None => {},
            }
        }
        let name = parts[parts.len() - 1].clone();
        let sp = self.toks[i].span.start..end;
        proof {
            assert(names_v(parts@).last() == parts@.last()@);
        }
        Some((name, parts, alias, sp, k))
    }

    fn types(&mut self, i: usize) -> (r: (Vec<Type>, usize))
        requires
            old(self).wf(),
            i <= old(self).t().len(),
        ensures
            final(self).toks == old(self).toks,
            (r.0@, r.1 as int) == types(old(self).t(), i as int),
            r.1 <= old(self).t().len(),
    {
        let ghost t = self.t();
        let first = match self.type_word(i) {
            Some(ty) => ty,
            None => return (Vec::new(), i),
        };
        let mut out: Vec<Type> = Vec::new();
        out.push(first);
        let mut j = i + 1;
        proof {
            assert(out@ =~= seq![type_at(t, i as int)->0]);
        }
        loop
            invariant
                self.t() == t,
                self.toks == old(self).toks,
                self.wf(),
                j <= t.len(),
                more_types(t, i + 1, seq![type_at(t, i as int)->0]) == more_types(t, j as int, out@),
            ensures
                more_types(t, i + 1, seq![type_at(t, i as int)->0]) == (out@, j as int),
                j <= t.len(),
            decreases t.len() - j,
        {
            if !self.at(j, TokenKind::Comma) {
                break;
            }
            match self.type_word(j + 1) {
                Some(ty) => {
                    out.push(ty);
                    j = j + 2;
                },
                None => {
                    break;
                },
            }
        }
        (out, j)
    }

    fn turbofish(&mut self, i: usize) -> (r: Option<(Vec<Type>, usize)>)
        requires
            old(self).wf(),
            i <= old(self).t().len(),
        ensures
            final(self).toks == old(self).toks,
            match r {
                Some((ts, j)) => turbofish(old(self).t(), i as int) == Some((ts@, j as int)) && j <= old(self).t().len(),
                None => turbofish(old(self).t(), i as int) is None,
            },
    {
        if self.at(i, TokenKind::DoubleColon) && self.at(i + 1, TokenKind::Lt) {
            let (ts, j) = self.types(i + 2);
            if self.at(j, TokenKind::Gt) {
                return Some((ts, j + 1));
            }
        }
        None
    }

    fn aug_op(&mut self, i: usize) -> (r: Option<AugOp>)
        ensures
            final(self).toks == old(self).toks,
            r == aug_op_at(old(self).t(), i as int),
    {
        if i < self.toks.len() {
            match &self.toks[i].kind {
                TokenKind::PlusAssign => return Some(AugOp::Add),
                TokenKind::MinusAssign => return Some(AugOp::Sub),
                TokenKind::StarAssign => return Some(AugOp::Mul),
                TokenKind::SlashAssign => return Some(AugOp::Div),
                _ => {},
            }
        }
        self.miss(i);
        None
    }

    fn level_op(&mut self, i: usize, level: u8) -> (r: Option<BinOp>)
        ensures
            final(self).toks == old(self).toks,
            r == level_op(old(self).t(), i as int, level),
    {
        if i < self.toks.len() {
            match (level, &self.toks[i].kind) {
                (0, TokenKind::Or) => return Some(BinOp::Or),
                (1, TokenKind::And) => return Some(BinOp::And),
                (2, TokenKind::EqEq) => return Some(BinOp::Eq),
                (2, TokenKind::NotEq) => return Some(BinOp::Ne),
                (2, TokenKind::Lt) => return Some(BinOp::Lt),
                (2, TokenKind::Gt) => return Some(BinOp::Gt),
                (2, TokenKind::LtEq) => return Some(BinOp::Le),
                (2, TokenKind::GtEq) => return Some(BinOp::Ge),
                (3, TokenKind::Plus) => return Some(BinOp::Add),
                (3, TokenKind::Minus) => return Some(BinOp::Sub),
                (4, TokenKind::Star) => return Some(BinOp::Mul),
                (4, TokenKind::Slash) => return Some(BinOp::Div),
                (4, TokenKind::Percent) => return Some(BinOp::Mod),
                _ => {},
            }
        }
        self.miss(i);
        None
    }
}

pub open spec fn unexpected_prefix() -> Seq<char> {
    seq!['u', 'n', 'e', 'x', 'p', 'e', 'c', 't', 'e', 'd', ' ', 't', 'o', 'k', 'e', 'n', ':', ' ']
}

pub open spec fn end_of_input() -> Seq<char> {
    seq!['e', 'n', 'd', ' ', 'o', 'f', ' ', 'i', 'n', 'p', 'u', 't']
}

/// What a parse error reports when the parse failed at token `f`: the token
/// found there (or the end of input), and its byte range.
pub open spec fn error_at(t: Seq<Token>, f: int, e: ParseError) -> bool {
    if 0 <= f < t.len() {
        &&& e.message@ == unexpected_prefix() + kind_text(t[f].kind)
        &&& e.offset == t[f].span.start
        &&& e.len == (if t[f].span.end >= t[f].span.start { t[f].span.end - t[f].span.start } else { 0 })
    } else {
        &&& e.message@ == unexpected_prefix() + end_of_input()
        &&& e.offset == 0
        &&& e.len == (if t.len() > 0 { t.last().span.end } else { 0 })
    }
}

fn append_str(m: &mut String, s: &str)
    ensures
        final(m)@ == old(m)@ + s@,
{
    let cs = str_chars(s);
    let mut i: usize = 0;
    while i < cs.len()
        invariant
            cs@ == s@,
            i <= cs@.len(),
            m@ == old(m)@ + cs@.take(i as int),
        decreases cs@.len() - i,
    {
        crate::text::push_char(m, cs[i]);
        proof {
            assert(cs@.take(i + 1) =~= cs@.take(i as int).push(cs@[i as int]));
        }
        i = i + 1;
    }
    proof {
        assert(cs@.take(cs@.len() as int) =~= cs@);
    }
}

/// Parses a token stream into a program: its items in order, as many as the
/// grammar reads; the parse succeeds when they take up every token.  On
/// failure the error names the furthest token at which a rule failed, which
/// is never before the first token that the items left unread.
pub fn parse(src: &str, tokens: Vec<Token>) -> (r: Result<Program, CompilerError>)
    requires
        tokens@.len() < usize::MAX - 16,
    ensures
        r is Ok <==> program(tokens@) is Some,
        r matches Ok(p) ==> program(tokens@) == Some(items_v(p.items@)),
        r matches Ok(p) ==> p.functions@.len() == function_items(p.items@).len(),
        r matches Ok(p) ==> forall|k: int|
            0 <= k < p.functions@.len() ==> function_v(#[trigger] p.functions@[k]) == function_v(function_items(p.items@)[k]),
        r matches Err(e) ==> e is Parse,
        r matches Err(CompilerError::Parse(pe)) ==> pe.src@ == src@,
        r matches Err(CompilerError::Parse(pe)) ==> exists|f: int| items(tokens@, 0).1 <= f && error_at(tokens@, f, pe),
{
    let mut p = Parser { toks: tokens.as_slice(), furthest: 0 };
    assert(p.t() == tokens@);
    let (its, j) = p.items(0);
    if j == tokens.len() {
        assert(items(tokens@, 0) == (items_v(its@), j as int));
        let prog = Program::from_items(its);
        assert(prog.items@ == its@);
        return Ok(prog);
    }
    let f = if p.furthest > j {
        p.furthest
    } else {
        j
    };
    let message = found_message(tokens.as_slice(), f);
    let offset: usize;
    let len: usize;
    if f < tokens.len() {
        offset = tokens[f].span.start;
        len = if tokens[f].span.end >= tokens[f].span.start {
            tokens[f].span.end - tokens[f].span.start
        } else {
            0
        };
    } else {
        offset = 0;
        len = if tokens.len() > 0 {
            tokens[tokens.len() - 1].span.end
        } else {
            0
        };
    }
    let pe = ParseError { src: string_of_str(src), offset, len, message };
    proof {
        assert(error_at(tokens@, f as int, pe));
    }
    let r: Result<Program, CompilerError> = Err(CompilerError::Parse(pe));
    proof {
        assert(r->Err_0->Parse_0 == pe);
        assert(error_at(tokens@, f as int, r->Err_0->Parse_0));
        assert(items(tokens@, 0).1 <= f as int);
    }
    r
}

fn string_of_str(s: &str) -> (r: String)
    ensures
        r@ == s@,
{
    let cs = str_chars(s);
    string_of(cs.as_slice())
}

/// The message for a failure at token `f`: the token found there, or the
/// end of input.
pub open spec fn found_text(t: Seq<Token>, f: int) -> Seq<char> {
    unexpected_prefix() + if 0 <= f < t.len() {
        kind_text(t[f].kind)
    } else {
        end_of_input()
    }
}

fn found_message(toks: &[Token], f: usize) -> (r: String)
    ensures
        r@ == found_text(toks@, f as int),
{
    let mut message = string_of(&['u', 'n', 'e', 'x', 'p', 'e', 'c', 't', 'e', 'd', ' ', 't', 'o', 'k', 'e', 'n', ':', ' ']);
    if f < toks.len() {
        let found = kind_text_of(&toks[f].kind);
        append_str(&mut message, found.as_str());
    } else {
        append_str(&mut message, string_of(&['e', 'n', 'd', ' ', 'o', 'f', ' ', 'i', 'n', 'p', 'u', 't']).as_str());
    }
    message
}

impl<'a> Parser<'a> {
    /// The outcome of a rule run on all the tokens: `Ok` when it read them
    /// to the end, else one message about the furthest failure.
    fn finish(&self, end: Option<usize>) -> (r: Result<(), Vec<String>>)
        ensures
            r is Ok <==> (end matches Some(j) && j == self.t().len()),
            r matches Err(v) ==> v@.len() == 1 && exists|f: int| v@[0]@ == found_text(self.t(), f),
    {
        let j = match end {
            Some(j) => {
                if j == self.toks.len() {
                    return Ok(());
                }
                j
            },
            None => 0,
        };
        let f = if self.furthest > j {
            self.furthest
        } else {
            j
        };
        let m = found_message(self.toks, f);
        let mut v: Vec<String> = Vec::new();
        v.push(m);
        proof {
            assert(v@[0]@ == found_text(self.t(), f as int));
        }
        Err(v)
    }
}

/// Reads one expression from the tokens: `Ok` when it takes them all.
pub fn parse_debug(tokens: &[Token]) -> (r: Result<(), Vec<String>>)
    requires
        tokens@.len() < usize::MAX - 16,
    ensures
        r is Ok <==> (expr(tokens@, 0) matches Some((_, j)) && j == tokens@.len()),
        r matches Err(v) ==> v@.len() == 1,
{
    let mut p = Parser { toks: tokens, furthest: 0 };
    let end = match p.expr(0) {
        Some((_, j)) => Some(j),
        None => None,
    };
    p.finish(end)
}

/// Reads one statement from the tokens: `Ok` when it takes them all.
pub fn stmt_debug(tokens: &[Token]) -> (r: Result<(), Vec<String>>)
    requires
        tokens@.len() < usize::MAX - 16,
    ensures
        r is Ok <==> (stmt(tokens@, 0) matches Some((_, j)) && j == tokens@.len()),
        r matches Err(v) ==> v@.len() == 1,
{
    let mut p = Parser { toks: tokens, furthest: 0 };
    let end = match p.stmt(0) {
        Some((_, j)) => Some(j),
        None => None,
    };
    p.finish(end)
}

/// Reads one block from the tokens: `Ok` when it takes them all.
pub fn block_debug(tokens: &[Token]) -> (r: Result<(), Vec<String>>)
    requires
        tokens@.len() < usize::MAX - 16,
    ensures
        r is Ok <==> (block(tokens@, 0) matches Some((_, j)) && j == tokens@.len()),
        r matches Err(v) ==> v@.len() == 1,
{
    let mut p = Parser { toks: tokens, furthest: 0 };
    let end = match p.block(0) {
        Some((_, j)) => Some(j),
        None => None,
    };
    p.finish(end)
}

/// Reads one function from the tokens: `Ok` when it takes them all.
pub fn func_debug(tokens: &[Token]) -> (r: Result<(), Vec<String>>)
    requires
        tokens@.len() < usize::MAX - 16,
    ensures
        r is Ok <==> (function(tokens@, 0) matches Some((_, j)) && j == tokens@.len()),
        r matches Err(v) ==> v@.len() == 1,
{
    let mut p = Parser { toks: tokens, furthest: 0 };
    let end = match p.function(0) {
        Some((_, j)) => Some(j),
        None => None,
    };
    p.finish(end)
}

/// Reads a parameter list from the tokens: `Ok` when it takes them all.
pub fn params_debug(tokens: &[Token]) -> (r: Result<(), Vec<String>>)
    requires
        tokens@.len() < usize::MAX - 16,
    ensures
        r is Ok <==> (params(tokens@, 0) matches Some((_, j)) && j == tokens@.len()),
        r matches Err(v) ==> v@.len() == 1,
{
    let mut p = Parser { toks: tokens, furthest: 0 };
    let end = match p.params(0) {
        Some((_, j)) => Some(j),
        None => None,
    };
    p.finish(end)
}

/// Reads a return type from the tokens: `Ok` when it takes them all.
pub fn ret_type_debug(tokens: &[Token]) -> (r: Result<(), Vec<String>>)
    requires
        tokens@.len() < usize::MAX - 16,
    ensures
        r is Ok <==> ret_type(tokens@, 0).1 == tokens@.len(),
        r matches Err(v) ==> v@.len() == 1,
{
    let mut p = Parser { toks: tokens, furthest: 0 };
    let (_, j) = p.ret_type(0);
    p.finish(Some(j))
}

/// Reads items from the tokens: `Ok` when they take them all.
pub fn program_debug(tokens: &[Token]) -> (r: Result<(), Vec<String>>)
    requires
        tokens@.len() < usize::MAX - 16,
    ensures
        r is Ok <==> program(tokens@) is Some,
        r matches Err(v) ==> v@.len() == 1,
{
    let mut p = Parser { toks: tokens, furthest: 0 };
    let (_, j) = p.items(0);
    p.finish(Some(j))
}

fn string_of(cs: &[char]) -> (r: String)
    ensures
        r@ == cs@,
{
    crate::text::string_from_chars(cs)
}

} // verus!
