//! Token preparation for the native syntax: lex, run the indent pre-pass,
//! then rewrite colon-indented blocks into brace blocks, so that the parser
//! never sees `Newline`, `Indent` or `Dedent`.
//!
//! ```text
//! fn f():        =>   fn f() {
//!     x = 1              x = 1
//!                     }
//! ```
use vstd::prelude::*;
use crate::error::{CompilerError, ParseError};
use crate::lexer::{Token, TokenKind, Span, tokenize};
use crate::lexer::indent;
use crate::text::str_chars;
use vstd::string::StringSliceAdditionalSpecFns;

verus! {

/// One open colon-block: whether its lines are struct/enum fields, and the
/// indent depth at which its body sits.
pub struct OpenBlock {
    pub field_mode: bool,
    pub body_depth: usize,
}

/// The abstract state of the block rewrite.
pub struct BlockState {
    pub out: Seq<Token>,
    pub open: Seq<(bool, int)>,
    pub depth: int,
    pub awaiting: Option<(bool, int)>,
    pub last_kw: Option<TokenKind>,
}

/// Why the rewrite failed.
pub enum BlockError {
    /// A block-opening `:` not followed by an indented body; at the offset.
    NoBody(int),
    /// The input ended right after a block-opening `:`.
    NoBodyAtEnd,
    /// The input ended while a block was still open.
    Unclosed,
}

/// From the token after index `k` on, with indent depth `d`: do the
/// `Dedent`s that follow bring the depth below `body_depth`, before any
/// token other than `Indent`, `Dedent` or `Newline`?
pub open spec fn closes_ahead(toks: Seq<Token>, k: int, d: int, body_depth: int) -> bool
    decreases toks.len() - k,
{
    if k < 0 || k >= toks.len() {
        d < body_depth
    } else {
        match toks[k].kind {
            TokenKind::Dedent => {
                let d2 = if d > 0 { d - 1 } else { 0 };
                if d2 < body_depth { true } else { closes_ahead(toks, k + 1, d2, body_depth) }
            },
            TokenKind::Indent => closes_ahead(toks, k + 1, d + 1, body_depth),
            TokenKind::Newline => closes_ahead(toks, k + 1, d, body_depth),
            _ => false,
        }
    }
}

/// Keywords that are remembered for telling field blocks apart.
pub open spec fn is_tracked_keyword(k: TokenKind) -> bool {
    match k {
        TokenKind::Fn | TokenKind::Struct | TokenKind::Enum | TokenKind::If | TokenKind::Elif
        | TokenKind::Else | TokenKind::For | TokenKind::While | TokenKind::Let | TokenKind::Return
        | TokenKind::Give | TokenKind::Say | TokenKind::Raise | TokenKind::Mod | TokenKind::Module
        | TokenKind::Use | TokenKind::Pub | TokenKind::Println => true,
        _ => false,
    }
}

/// Tokens that keep the remembered keyword.
pub open spec fn keeps_keyword(k: TokenKind) -> bool {
    match k {
        TokenKind::Ident(_) | TokenKind::Comma | TokenKind::Lt | TokenKind::Gt => true,
        _ => false,
    }
}

pub open spec fn at_span(kind: TokenKind, span: Span) -> Token {
    Token { kind, span }
}

/// Whether a token is the identifier `main`.
pub open spec fn is_main_ident(t: Token) -> bool {
    match t.kind {
        TokenKind::Ident(s) => s@ == seq!['m', 'a', 'i', 'n'],
        _ => false,
    }
}

/// Close every open block whose body lies deeper than `depth`.
pub open spec fn close_blocks(open: Seq<(bool, int)>, out: Seq<Token>, depth: int, span: Span) -> (
    Seq<(bool, int)>,
    Seq<Token>,
)
    decreases open.len(),
{
    if open.len() > 0 && depth < open.last().1 {
        close_blocks(open.drop_last(), out.push(at_span(TokenKind::RBrace, span)), depth, span)
    } else {
        (open, out)
    }
}

/// The tokens `main:` turns into: `fn main() -> i64`, where `main_kind`
/// is the identifier `main` itself.
pub open spec fn main_header(span: Span, main_kind: TokenKind) -> Seq<Token> {
    seq![
        at_span(TokenKind::Fn, span),
        at_span(main_kind, span),
        at_span(TokenKind::LParen, span),
        at_span(TokenKind::RParen, span),
        at_span(TokenKind::RArrow, span),
        at_span(TokenKind::I64, span),
    ]
}

/// One step of the rewrite, at token `i`.
pub open spec fn block_step(toks: Seq<Token>, i: int, s: BlockState) -> Result<BlockState, BlockError> {
    let tok = toks[i];
    match tok.kind {
        TokenKind::Newline => {
            let out = if s.awaiting is None && s.open.len() > 0 && s.open.last().0
                && !closes_ahead(toks, i + 1, s.depth, s.open.last().1) {
                s.out.push(at_span(TokenKind::Comma, tok.span))
            } else {
                s.out
            };
            Ok(BlockState { out, last_kw: None, ..s })
        },
        TokenKind::Indent => {
            let open = match s.awaiting {
                Some(b) => s.open.push(b),
                None => s.open,
            };
            Ok(BlockState { open, depth: s.depth + 1, awaiting: None, last_kw: None, ..s })
        },
        TokenKind::Dedent => {
            if s.awaiting is Some {
                Err(BlockError::NoBody(tok.span.start as int))
            } else {
                let depth = if s.depth > 0 { s.depth - 1 } else { 0 };
                let (open, out) = close_blocks(s.open, s.out, depth, tok.span);
                Ok(BlockState { open, out, depth, last_kw: None, ..s })
            }
        },
        TokenKind::Colon => {
            if i + 1 < toks.len() && toks[i + 1].kind == TokenKind::Newline {
                let field_mode = s.last_kw == Some(TokenKind::Struct) || s.last_kw == Some(TokenKind::Enum);
                let prev_is_main = s.open.len() == 0 && !field_mode && s.out.len() > 0 && is_main_ident(s.out.last());
                let out0 = if prev_is_main { s.out.drop_last() + main_header(tok.span, s.out.last().kind) } else { s.out };
                Ok(BlockState {
                    out: out0.push(at_span(TokenKind::LBrace, tok.span)),
                    awaiting: Some((field_mode, s.depth + 1)),
                    last_kw: None,
                    ..s
                })
            } else {
                Ok(BlockState { out: s.out.push(tok), last_kw: None, ..s })
            }
        },
        _ => {
            let last_kw = if keeps_keyword(tok.kind) {
                s.last_kw
            } else if is_tracked_keyword(tok.kind) {
                Some(tok.kind)
            } else {
                None
            };
            Ok(BlockState { out: s.out.push(tok), last_kw, ..s })
        },
    }
}

pub open spec fn start_state() -> BlockState {
    BlockState { out: Seq::empty(), open: Seq::empty(), depth: 0, awaiting: None, last_kw: None }
}

/// The rewrite over the first `n` tokens.
pub open spec fn blocks_upto(toks: Seq<Token>, n: int) -> Result<BlockState, BlockError>
    decreases n,
{
    if n <= 0 {
        Ok(start_state())
    } else {
        match blocks_upto(toks, n - 1) {
            Ok(s) => block_step(toks, n - 1, s),
            Err(e) => Err(e),
        }
    }
}

/// The whole rewrite: the tokens, or why it failed.
pub open spec fn desugared(toks: Seq<Token>) -> Result<Seq<Token>, BlockError> {
    match blocks_upto(toks, toks.len() as int) {
        Ok(s) => if s.awaiting is Some {
            Err(BlockError::NoBodyAtEnd)
        } else if s.open.len() > 0 {
            Err(BlockError::Unclosed)
        } else {
            Ok(s.out)
        },
        Err(e) => Err(e),
    }
}

pub open spec fn block_model(b: OpenBlock) -> (bool, int) {
    (b.field_mode, b.body_depth as int)
}

pub open spec fn blocks_model(v: Seq<OpenBlock>) -> Seq<(bool, int)> {
    v.map_values(|b: OpenBlock| block_model(b))
}

pub open spec fn awaiting_model(a: Option<OpenBlock>) -> Option<(bool, int)> {
    match a {
        Some(b) => Some(block_model(b)),
        None => None,
    }
}

/// From a `Newline` at `idx`: do the `Dedent`s after it close the block
/// whose body sits at `body_depth`?
fn block_closes_after(tokens: &Vec<Token>, idx: usize, body_depth: usize, depth: usize) -> (r: bool)
    requires
        idx < tokens@.len(),
        depth <= idx,
    ensures
        r == closes_ahead(tokens@, idx + 1, depth as int, body_depth as int),
{
    let n = tokens.len();
    let mut d = depth;
    let mut k = idx + 1;
    while k < n
        invariant
            idx + 1 <= k <= n,
            n == tokens@.len(),
            d <= k,
            closes_ahead(tokens@, idx + 1, depth as int, body_depth as int) == closes_ahead(tokens@, k as int, d as int, body_depth as int),
        decreases tokens@.len() - k,
    {
        match tokens[k].kind {
            TokenKind::Dedent => {
                d = if d > 0 { d - 1 } else { 0 };
                if d < body_depth {
                    return true;
                }
            },
            TokenKind::Indent => {
                d = d + 1;
            },
            TokenKind::Newline => {},
            _ => {
                return false;
            },
        }
        k = k + 1;
    }
    d < body_depth
}

fn is_main_token(t: &Token) -> (r: bool)
    ensures
        r == is_main_ident(*t),
{
    match &t.kind {
        TokenKind::Ident(s) => {
            let cs = str_chars(s.as_str());
            let r = cs.len() == 4 && cs[0] == 'm' && cs[1] == 'a' && cs[2] == 'i' && cs[3] == 'n';
            proof {
                if r {
                    assert(s@ =~= seq!['m', 'a', 'i', 'n']);
                }
            }
            r
        },
        _ => false,
    }
}

fn keeps_keyword_exec(k: &TokenKind) -> (r: bool)
    ensures
        r == keeps_keyword(*k),
{
    match k {
        TokenKind::Ident(_) | TokenKind::Comma | TokenKind::Lt | TokenKind::Gt => true,
        _ => false,
    }
}

fn is_tracked_keyword_exec(k: &TokenKind) -> (r: bool)
    ensures
        r == is_tracked_keyword(*k),
{
    match k {
        TokenKind::Fn | TokenKind::Struct | TokenKind::Enum | TokenKind::If | TokenKind::Elif
        | TokenKind::Else | TokenKind::For | TokenKind::While | TokenKind::Let | TokenKind::Return
        | TokenKind::Give | TokenKind::Say | TokenKind::Raise | TokenKind::Mod | TokenKind::Module
        | TokenKind::Use | TokenKind::Pub | TokenKind::Println => true,
        _ => false,
    }
}

pub open spec fn no_body_message() -> Seq<char> {
    seq!['e', 'x', 'p', 'e', 'c', 't', 'e', 'd', ' ', 'a', 'n', ' ', 'i', 'n', 'd', 'e', 'n', 't',
        'e', 'd', ' ', 'b', 'l', 'o', 'c', 'k', ' ', 'a', 'f', 't', 'e', 'r', ' ', '\'', ':', '\'']
}

pub open spec fn unclosed_message() -> Seq<char> {
    seq!['u', 'n', 'c', 'l', 'o', 's', 'e', 'd', ' ', 'i', 'n', 'd', 'e', 'n', 't', 'e', 'd', ' ',
        'b', 'l', 'o', 'c', 'k', ':', ' ', 'e', 'x', 'p', 'e', 'c', 't', 'e', 'd', ' ', 't', 'h',
        'e', ' ', 'b', 'l', 'o', 'c', 'k', ' ', 'b', 'o', 'd', 'y', ' ', 't', 'o', ' ', 'e', 'n',
        'd', ' ', 'b', 'e', 'f', 'o', 'r', 'e', ' ', 'E', 'O', 'F']
}

fn no_body_error(src: &str, offset: usize, len: usize) -> (r: CompilerError)
    ensures
        r matches CompilerError::Parse(e) && e.src@ == src@ && e.offset == offset && e.len == len
            && e.message@ == no_body_message(),
{
    let m = ['e', 'x', 'p', 'e', 'c', 't', 'e', 'd', ' ', 'a', 'n', ' ', 'i', 'n', 'd', 'e', 'n',
        't', 'e', 'd', ' ', 'b', 'l', 'o', 'c', 'k', ' ', 'a', 'f', 't', 'e', 'r', ' ', '\'', ':', '\''];
    assert(m@ == no_body_message());
    CompilerError::Parse(ParseError { src: src.to_owned(), offset, len, message: crate::text::string_from_chars(&m) })
}

fn unclosed_error(src: &str, offset: usize, len: usize) -> (r: CompilerError)
    ensures
        r matches CompilerError::Parse(e) && e.src@ == src@ && e.offset == offset && e.len == len
            && e.message@ == unclosed_message(),
{
    let m = ['u', 'n', 'c', 'l', 'o', 's', 'e', 'd', ' ', 'i', 'n', 'd', 'e', 'n', 't', 'e', 'd',
        ' ', 'b', 'l', 'o', 'c', 'k', ':', ' ', 'e', 'x', 'p', 'e', 'c', 't', 'e', 'd', ' ', 't',
        'h', 'e', ' ', 'b', 'l', 'o', 'c', 'k', ' ', 'b', 'o', 'd', 'y', ' ', 't', 'o', ' ', 'e',
        'n', 'd', ' ', 'b', 'e', 'f', 'o', 'r', 'e', ' ', 'E', 'O', 'F'];
    assert(m@ == unclosed_message());
    CompilerError::Parse(ParseError { src: src.to_owned(), offset, len, message: crate::text::string_from_chars(&m) })
}

proof fn lemma_blocks_err_persists(toks: Seq<Token>, k: int, m: int)
    requires
        0 <= k <= m,
        blocks_upto(toks, k) is Err,
    ensures
        blocks_upto(toks, m) == blocks_upto(toks, k),
    decreases m - k,
{
    if k < m {
        lemma_blocks_err_persists(toks, k, m - 1);
    }
}

/// The error value a rewrite failure becomes, for a source of `n` bytes.
pub open spec fn error_fits(e: BlockError, err: CompilerError, src: Seq<char>, n: int) -> bool {
    let eof = if n > 0 { n - 1 } else { 0 };
    match e {
        BlockError::NoBody(at) => err matches CompilerError::Parse(p) && p.src@ == src && p.offset == at
            && p.len == 1 && p.message@ == no_body_message(),
        BlockError::NoBodyAtEnd => err matches CompilerError::Parse(p) && p.src@ == src && p.offset == eof
            && p.len == n - eof && p.message@ == no_body_message(),
        BlockError::Unclosed => err matches CompilerError::Parse(p) && p.src@ == src && p.offset == eof
            && p.len == n - eof && p.message@ == unclosed_message(),
    }
}

/// Rewrite colon-blocks into brace blocks: a `:` that ends its line opens
/// a `{` (and `main:` becomes `fn main() -> i64 {`), the block's `Dedent`s
/// close it with `}`, the lines of a `struct`/`enum` block are separated
/// by commas, and the synthetic `Newline`/`Indent`/`Dedent` tokens are
/// consumed.
pub fn desugar_blocks(src: &str, tokens: Vec<Token>) -> (r: Result<Vec<Token>, CompilerError>)
    ensures
        desugared(tokens@) is Ok <==> r is Ok,
        r matches Ok(out) ==> desugared(tokens@) == Ok::<Seq<Token>, BlockError>(out@),
        r matches Err(err) ==> error_fits(desugared(tokens@)->Err_0, err, src@, src.spec_bytes().len() as int),
{
    let n = tokens.len();
    let mut out: Vec<Token> = Vec::new();
    let mut open: Vec<OpenBlock> = Vec::new();
    let mut depth: usize = 0;
    let mut awaiting: Option<OpenBlock> = None;
    let mut last_kw: Option<TokenKind> = None;
    let src_len = src.as_bytes().len();
    let eof_start: usize = if src_len > 0 { src_len - 1 } else { 0 };
    let mut i: usize = 0;
    assert(blocks_model(open@) == Seq::<(bool, int)>::empty());
    while i < n
        invariant
            i <= n,
            n == tokens@.len(),
            depth <= i,
            blocks_upto(tokens@, i as int) == Ok::<BlockState, BlockError>(BlockState {
                out: out@,
                open: blocks_model(open@),
                depth: depth as int,
                awaiting: awaiting_model(awaiting),
                last_kw,
            }),
        decreases n - i,
    {
        let ghost s = BlockState { out: out@, open: blocks_model(open@), depth: depth as int, awaiting: awaiting_model(awaiting), last_kw };
        let tok = tokens[i].clone();
        match &tok.kind {
            TokenKind::Newline => {
                if awaiting.is_none() && open.len() > 0 {
                    let inner_field = open[open.len() - 1].field_mode;
                    let inner_depth = open[open.len() - 1].body_depth;
                    if inner_field && !block_closes_after(&tokens, i, inner_depth, depth) {
                        out.push(Token { kind: TokenKind::Comma, span: tok.span });
                    }
                }
                last_kw = None;
            },
            TokenKind::Indent => {
                match awaiting.take() {
                    Some(b) => {
                        let ghost before = open@;
                        open.push(b);
                        assert(blocks_model(open@) == blocks_model(before).push(block_model(b)));
                    },
                    None => {},
                }
                depth = depth + 1;
                last_kw = None;
            },
            TokenKind::Dedent => {
                if awaiting.is_some() {
                    proof {
                        assert(blocks_upto(tokens@, i + 1) == Err::<BlockState, BlockError>(BlockError::NoBody(tok.span.start as int)));
                        lemma_blocks_err_persists(tokens@, i + 1, n as int);
                    }
                    return Err(no_body_error(src, tok.span.start, 1));
                }
                depth = if depth > 0 { depth - 1 } else { 0 };
                loop
                    invariant
                        close_blocks(s.open, s.out, depth as int, tok.span) == close_blocks(blocks_model(open@), out@, depth as int, tok.span),
                    ensures
                        close_blocks(s.open, s.out, depth as int, tok.span) == (blocks_model(open@), out@),
                    decreases open@.len(),
                {
                    let m = open.len();
                    if m == 0 || depth >= open[m - 1].body_depth {
                        break;
                    }
                    let ghost before = open@;
                    open.pop();
                    assert(blocks_model(open@) == blocks_model(before).drop_last());
                    out.push(Token { kind: TokenKind::RBrace, span: tok.span });
                }
                last_kw = None;
            },
            TokenKind::Colon => {
                let next_is_newline = i + 1 < n && matches!(tokens[i + 1].kind, TokenKind::Newline);
                if next_is_newline {
                    let field_mode = matches!(last_kw, Some(TokenKind::Struct)) || matches!(last_kw, Some(TokenKind::Enum));
                    let prev_is_main = open.len() == 0 && !field_mode && out.len() > 0 && is_main_token(&out[out.len() - 1]);
                    if prev_is_main {
                        let ghost before = out@;
                        let main_tok = out.pop().unwrap();
                        let span = tok.span;
                        out.push(Token { kind: TokenKind::Fn, span });
                        out.push(Token { kind: main_tok.kind, span });
                        out.push(Token { kind: TokenKind::LParen, span });
                        out.push(Token { kind: TokenKind::RParen, span });
                        out.push(Token { kind: TokenKind::RArrow, span });
                        out.push(Token { kind: TokenKind::I64, span });
                        assert(out@ =~= before.drop_last() + main_header(span, before.last().kind));
                    }
                    out.push(Token { kind: TokenKind::LBrace, span: tok.span });
                    awaiting = Some(OpenBlock { field_mode, body_depth: depth + 1 });
                } else {
                    out.push(tok);
                }
                last_kw = None;
            },
            _ => {
                if keeps_keyword_exec(&tok.kind) {
                } else if is_tracked_keyword_exec(&tok.kind) {
                    last_kw = Some(tok.kind.clone());
                } else {
                    last_kw = None;
                }
                out.push(tok);
            },
        }
        i = i + 1;
    }
    assert(src_len == src.spec_bytes().len());
    if awaiting.is_some() {
        assert(desugared(tokens@) == Err::<Seq<Token>, BlockError>(BlockError::NoBodyAtEnd));
        return Err(no_body_error(src, eof_start, src_len - eof_start));
    }
    if open.len() > 0 {
        assert(desugared(tokens@) == Err::<Seq<Token>, BlockError>(BlockError::Unclosed));
        return Err(unclosed_error(src, eof_start, src_len - eof_start));
    }
    Ok(out)
}

pub open spec fn lexing_error_prefix() -> Seq<char> {
    seq!['L', 'e', 'x', 'i', 'n', 'g', ' ', 'e', 'r', 'r', 'o', 'r', ':', ' ']
}

/// The rendered lexing errors, joined by `; `.
pub open spec fn joined_errors(m: Seq<Seq<char>>) -> Seq<char>
    decreases m.len(),
{
    if m.len() == 0 {
        Seq::empty()
    } else if m.len() == 1 {
        lexing_error_prefix() + m[0]
    } else {
        joined_errors(m.drop_last()) + seq![';', ' '] + lexing_error_prefix() + m.last()
    }
}

fn join_messages(errs: &Vec<crate::lexer::LexError>) -> (r: String)
    ensures
        r@ == joined_errors(indent::messages(errs@)),
{
    let pre = ['L', 'e', 'x', 'i', 'n', 'g', ' ', 'e', 'r', 'r', 'o', 'r', ':', ' '];
    assert(pre@ == lexing_error_prefix());
    let ghost ms = indent::messages(errs@);
    let mut s = String::new();
    let mut i: usize = 0;
    while i < errs.len()
        invariant
            i <= errs@.len(),
            ms == indent::messages(errs@),
            pre@ == lexing_error_prefix(),
            s@ == joined_errors(ms.take(i as int)),
        decreases errs@.len() - i,
    {
        let ghost before = s@;
        if i > 0 {
            crate::text::push_char(&mut s, ';');
            crate::text::push_char(&mut s, ' ');
        }
        let ghost mid = s@;
        push_all(&mut s, &pre);
        let cs = str_chars(errs[i].message.as_str());
        push_all(&mut s, cs.as_slice());
        proof {
            let t = ms.take(i + 1);
            assert(t.drop_last() == ms.take(i as int));
            assert(t.last() == errs@[i as int].message@);
            if i == 0 {
                assert(before == Seq::<char>::empty());
                assert(s@ == lexing_error_prefix() + t[0]);
            } else {
                assert(mid == before + seq![';', ' ']);
            }
        }
        i = i + 1;
    }
    assert(ms.take(errs@.len() as int) == ms);
    s
}

fn push_all(s: &mut String, cs: &[char])
    ensures
        final(s)@ == old(s)@ + cs@,
{
    let mut i: usize = 0;
    while i < cs.len()
        invariant
            i <= cs@.len(),
            s@ == old(s)@ + cs@.take(i as int),
        decreases cs@.len() - i,
    {
        crate::text::push_char(s, cs[i]);
        assert(cs@.take(i + 1) == cs@.take(i as int).push(cs@[i as int]));
        i = i + 1;
    }
    assert(cs@.take(cs@.len() as int) == cs@);
}

pub open spec fn is_layout(k: TokenKind) -> bool {
    k == TokenKind::Newline || k == TokenKind::Indent || k == TokenKind::Dedent
}

pub open spec fn layout_free(s: Seq<Token>) -> bool {
    forall|k: int| 0 <= k < s.len() ==> !is_layout(#[trigger] s[k].kind)
}

proof fn lemma_close_blocks_layout_free(open: Seq<(bool, int)>, out: Seq<Token>, depth: int, span: Span)
    requires
        layout_free(out),
    ensures
        layout_free(close_blocks(open, out, depth, span).1),
    decreases open.len(),
{
    if open.len() > 0 && depth < open.last().1 {
        let o = out.push(at_span(TokenKind::RBrace, span));
        assert(layout_free(o)) by {
            assert forall|k: int| 0 <= k < o.len() implies !is_layout(#[trigger] o[k].kind) by {
                if k < out.len() {
                    assert(o[k] == out[k]);
                }
            }
        }
        lemma_close_blocks_layout_free(open.drop_last(), o, depth, span);
    }
}

proof fn lemma_push_layout_free(s: Seq<Token>, t: Token)
    requires
        layout_free(s),
        !is_layout(t.kind),
    ensures
        layout_free(s.push(t)),
{
    assert forall|k: int| 0 <= k < s.push(t).len() implies !is_layout(#[trigger] s.push(t)[k].kind) by {
        if k < s.len() {
            assert(s.push(t)[k] == s[k]);
        }
    }
}

/// The block rewrite consumes every `Newline`, `Indent` and `Dedent`:
/// whatever the input, the output the parser reads holds none of them.
pub proof fn law_no_layout_tokens(toks: Seq<Token>, n: int)
    requires
        0 <= n <= toks.len(),
    ensures
        blocks_upto(toks, n) matches Ok(s) ==> layout_free(s.out),
    decreases n,
{
    if n > 0 {
        law_no_layout_tokens(toks, n - 1);
        if let Ok(s) = blocks_upto(toks, n - 1) {
            let i = n - 1;
            let tok = toks[i];
            match tok.kind {
                TokenKind::Newline => {
                    if s.awaiting is None && s.open.len() > 0 && s.open.last().0
                        && !closes_ahead(toks, i + 1, s.depth, s.open.last().1) {
                        lemma_push_layout_free(s.out, at_span(TokenKind::Comma, tok.span));
                    }
                },
                TokenKind::Indent => {},
                TokenKind::Dedent => {
                    if s.awaiting is None {
                        let depth = if s.depth > 0 { s.depth - 1 } else { 0 };
                        lemma_close_blocks_layout_free(s.open, s.out, depth, tok.span);
                    }
                },
                TokenKind::Colon => {
                    if i + 1 < toks.len() && toks[i + 1].kind == TokenKind::Newline {
                        let field_mode = s.last_kw == Some(TokenKind::Struct) || s.last_kw == Some(TokenKind::Enum);
                        let prev_is_main = s.open.len() == 0 && !field_mode && s.out.len() > 0 && is_main_ident(s.out.last());
                        let out0 = if prev_is_main { s.out.drop_last() + main_header(tok.span, s.out.last().kind) } else { s.out };
                        assert(layout_free(out0)) by {
                            if prev_is_main {
                                let h = main_header(tok.span, s.out.last().kind);
                                assert(!is_layout(s.out[s.out.len() - 1].kind));
                                assert forall|k: int| 0 <= k < out0.len() implies !is_layout(#[trigger] out0[k].kind) by {
                                    if k < s.out.len() - 1 {
                                        assert(out0[k] == s.out[k]);
                                    } else {
                                        assert(out0[k] == h[k - (s.out.len() - 1)]);
                                    }
                                }
                            }
                        }
                        lemma_push_layout_free(out0, at_span(TokenKind::LBrace, tok.span));
                    } else {
                        lemma_push_layout_free(s.out, tok);
                    }
                },
                _ => {
                    lemma_push_layout_free(s.out, tok);
                },
            }
        }
    }
}

/// `raw` is the token sequence the lexer makes of the bytes `b`.
pub open spec fn lexed_as(b: Seq<u8>, raw: Seq<Token>) -> bool {
    &&& crate::lexer::spans_from(crate::lexer::bchars(b), 0) == Ok::<Seq<(int, int)>, int>(crate::lexer::spans_of(raw))
    &&& forall|k: int| 0 <= k < raw.len() ==> crate::lexer::kind_for_lexeme(#[trigger] raw[k].kind,
        b.subrange(raw[k].span.start as int, raw[k].span.end as int))
}

/// What the preparation of `src` yields from the lexer's tokens `raw`.
pub open spec fn prepared_from(src: Seq<char>, b: Seq<u8>, raw: Seq<Token>, r: Result<Vec<Token>, CompilerError>) -> bool {
    let (s, c) = indent::take_all(b, raw);
    if s.errors.len() > 0 {
        r matches Err(CompilerError::Parse(p)) && p.src@ == src && p.offset == 0 && p.len == 0
            && p.message@ == joined_errors(s.errors)
    } else {
        let d = desugared(indent::finished_tokens(s, c));
        &&& d is Ok <==> r is Ok
        &&& r matches Ok(out) ==> d == Ok::<Seq<Token>, BlockError>(out@)
        &&& r matches Err(err) ==> error_fits(d->Err_0, err, src, b.len() as int)
    }
}

/// Lex, run the indent pre-pass, and rewrite colon-blocks into brace
/// blocks: the token stream the parser reads.
pub fn prepare(src: &str) -> (r: Result<Vec<Token>, CompilerError>)
    ensures
        crate::lexer::spans_from(crate::lexer::bchars(src.spec_bytes()), 0) matches Err(j) ==> (r matches Err(
            CompilerError::Lexer(e),
        ) && e.offset == j),
        crate::lexer::spans_from(crate::lexer::bchars(src.spec_bytes()), 0) is Ok ==> exists|raw: Seq<Token>|
            lexed_as(src.spec_bytes(), raw) && prepared_from(src@, src.spec_bytes(), raw, r),
{
    let raw = match tokenize(src) {
        Ok(t) => t,
        Err(e) => {
            return Err(CompilerError::Lexer(e));
        },
    };
    proof {
        crate::lexer::law_spans_in_bounds(crate::lexer::bchars(src.spec_bytes()), 0);
        let sp = crate::lexer::spans_from(crate::lexer::bchars(src.spec_bytes()), 0)->Ok_0;
        assert forall|k: int| 0 <= k < raw@.len() implies (#[trigger] raw@[k]).span.start <= src.spec_bytes().len() by {
            assert(crate::lexer::spans_of(raw@)[k] == sp[k]);
        }
    }
    let ghost raw0 = raw@;
    let indented = match indent::run(src, raw) {
        Ok(it) => it,
        Err(errs) => {
            let r = Err(CompilerError::Parse(ParseError {
                src: src.to_owned(),
                offset: 0,
                len: 0,
                message: join_messages(&errs),
            }));
            assert(lexed_as(src.spec_bytes(), raw0) && prepared_from(src@, src.spec_bytes(), raw0, r));
            return r;
        },
    };
    let r = desugar_blocks(src, indented.tokens);
    assert(lexed_as(src.spec_bytes(), raw0) && prepared_from(src@, src.spec_bytes(), raw0, r));
    r
}

} // verus!
