//! The indent pre-pass: inserts `Indent`, `Dedent` and `Newline` tokens
//! into a token stream, from the columns at which lines begin.
use vstd::prelude::*;
use crate::lexer::{Token, TokenKind, Span, LexError, lossy_text, bytes_to_string_lossy, slice_copy,
    run_len, lemma_run_len};
use crate::module::leading_ws;
use crate::text::{is_unicode_whitespace, char_is_whitespace, push_char, push_decimal, push_wide_decimal, decimal,
    str_chars};
use vstd::string::StringSliceAdditionalSpecFns;

verus! {

/// The token stream after the indent pre-pass, with its source text.
pub struct IndentedTokens {
    pub tokens: Vec<Token>,
    pub src: String,
}

pub open spec fn is_space_or_tab(c: char) -> bool {
    c == ' ' || c == '\t'
}

/// The column of a line prefix: the number of leading spaces and tabs.
pub open spec fn indent_of(line: Seq<char>) -> int {
    run_len(line, 0, |c: char| is_space_or_tab(c))
}

/// A line with nothing but whitespace, or whose first non-whitespace
/// characters are `//`.
pub open spec fn blank_or_comment(line: Seq<char>) -> bool {
    let t = line.skip(leading_ws(line));
    t.len() == 0 || (t.len() >= 2 && t[0] == '/' && t[1] == '/')
}

/// Whether a line is blank or holds only a comment.
pub fn is_blank_or_comment_line(line: &str) -> (r: bool)
    ensures
        r == blank_or_comment(line@),
{
    let cs = str_chars(line);
    let n = cs.len();
    let ghost l = line@;
    proof {
        crate::module::lemma_leading_ws_bounds(l);
    }
    let mut i: usize = 0;
    while i < n && char_is_whitespace(cs[i])
        invariant
            i <= n,
            n == l.len(),
            cs@ == l,
            0 <= leading_ws(l) <= l.len(),
            leading_ws(l) < l.len() ==> !is_unicode_whitespace(l[leading_ws(l)]),
            forall|k: int| 0 <= k < leading_ws(l) ==> is_unicode_whitespace(l[k]),
            i <= leading_ws(l),
        decreases n - i,
    {
        i = i + 1;
    }
    assert(i == leading_ws(l));
    let ghost t = l.skip(i as int);
    i == n || (n - i >= 2 && cs[i] == '/' && cs[i + 1] == '/')
}

/// The column of a line prefix: its leading spaces and tabs.
pub fn compute_indent(prefix: &str) -> (r: usize)
    ensures
        r == indent_of(prefix@),
{
    let cs = str_chars(prefix);
    let ghost l = prefix@;
    proof {
        lemma_run_len(l, 0, |c: char| is_space_or_tab(c));
    }
    let mut i: usize = 0;
    while i < cs.len() && (cs[i] == ' ' || cs[i] == '\t')
        invariant
            i <= cs@.len(),
            cs@ == l,
            i <= run_len(l, 0, |c: char| is_space_or_tab(c)),
            run_len(l, 0, |c: char| is_space_or_tab(c)) < l.len() ==> !is_space_or_tab(l[run_len(l, 0, |c: char| is_space_or_tab(c))]),
            forall|k: int| 0 <= k < run_len(l, 0, |c: char| is_space_or_tab(c)) ==> is_space_or_tab(l[k]),
            0 <= run_len(l, 0, |c: char| is_space_or_tab(c)) <= l.len(),
        decreases cs@.len() - i,
    {
        i = i + 1;
    }
    i
}

// ---------------------------------------------------------------------------
// The pass as a state machine over the token stream
// ---------------------------------------------------------------------------

/// The state of the pre-pass: the stack of open indentation columns, the
/// tokens emitted so far, and the messages of the mismatches met so far.
pub struct IndentState {
    pub stack: Seq<int>,
    pub out: Seq<Token>,
    pub errors: Seq<Seq<char>>,
}

pub open spec fn synthetic(kind: TokenKind, at: int) -> Token {
    Token { kind, span: Span { start: at as usize, end: at as usize } }
}

pub open spec fn stack_top(stack: Seq<int>) -> int {
    if stack.len() > 0 { stack.last() } else { 0 }
}

/// Close every open column deeper than `indent`, one `Dedent` each.
pub open spec fn pop_deeper(stack: Seq<int>, out: Seq<Token>, indent: int) -> (Seq<int>, Seq<Token>)
    decreases stack.len(),
{
    if stack.len() > 0 && stack.last() > indent {
        pop_deeper(stack.drop_last(), out.push(synthetic(TokenKind::Dedent, 0)), indent)
    } else {
        (stack, out)
    }
}

/// Meet a line that starts at column `indent`: a deeper column opens a
/// block (`Indent`); a shallower one closes blocks (`Dedent`s) and must
/// land on an open column, else it is a mismatch and becomes the new top.
pub open spec fn apply_indent(s: IndentState, indent: int) -> IndentState {
    let t = stack_top(s.stack);
    if indent > t {
        IndentState { stack: s.stack.push(indent), out: s.out.push(synthetic(TokenKind::Indent, 0)), errors: s.errors }
    } else if indent < t {
        let (st, o) = pop_deeper(s.stack, s.out, indent);
        if stack_top(st) != indent {
            IndentState { stack: st.push(indent), out: o, errors: s.errors.push(mismatch_message(st, indent)) }
        } else {
            IndentState { stack: st, out: o, errors: s.errors }
        }
    } else {
        s
    }
}

/// The first `'\n'` in `b[i..limit]`, or `limit`.
pub open spec fn newline_before(b: Seq<u8>, i: int, limit: int) -> int
    decreases limit - i,
{
    if i >= limit {
        limit
    } else if b[i] == 10 {
        i
    } else {
        newline_before(b, i + 1, limit)
    }
}

/// The start of the line that contains byte `k`.
pub open spec fn line_start_of(b: Seq<u8>, k: int) -> int
    decreases k,
{
    if k <= 0 {
        0
    } else if b[k - 1] == 10 {
        k
    } else {
        line_start_of(b, k - 1)
    }
}

/// The text of `b[from..to]`.
pub open spec fn text_of(b: Seq<u8>, from: int, to: int) -> Seq<char> {
    lossy_text(b.subrange(from, to))
}

/// Pass over the whole lines in `b[walk..limit]`: each ends in a
/// `Newline`, and a line that is not blank or a comment sets the column.
pub open spec fn walk_lines(b: Seq<u8>, s: IndentState, walk: int, limit: int) -> IndentState
    decreases limit - walk,
{
    if walk >= limit {
        s
    } else {
        let e = newline_before(b, walk, limit);
        if e >= limit || e < walk {
            s
        } else {
            let line = text_of(b, walk, e);
            let s1 = if !blank_or_comment(line) { apply_indent(s, indent_of(line)) } else { s };
            walk_lines(b, IndentState { out: s1.out.push(synthetic(TokenKind::Newline, e)), ..s1 }, e + 1, limit)
        }
    }
}

/// Take one token: when it is the first on a new line, first pass over the
/// lines in between and set the column from the token's own column.
pub open spec fn take_token(b: Seq<u8>, s: IndentState, cursor: int, tok: Token) -> (IndentState, int) {
    let start = tok.span.start as int;
    let ls = line_start_of(b, start);
    let s1 = if cursor <= ls {
        apply_indent(walk_lines(b, s, cursor, ls), indent_of(text_of(b, ls, start)))
    } else {
        s
    };
    (IndentState { out: s1.out.push(tok), ..s1 }, tok.span.end as int)
}

pub open spec fn initial_state() -> IndentState {
    IndentState { stack: seq![0], out: Seq::empty(), errors: Seq::empty() }
}

/// The state after all tokens, and the end of the last token.
pub open spec fn take_all(b: Seq<u8>, raw: Seq<Token>) -> (IndentState, int)
    decreases raw.len(),
{
    if raw.len() == 0 {
        (initial_state(), 0)
    } else {
        let (s, c) = take_all(b, raw.drop_last());
        take_token(b, s, c, raw.last())
    }
}

/// `n` copies of a token.
pub open spec fn repeat_token(t: Token, n: nat) -> Seq<Token> {
    Seq::new(n, |i: int| t)
}

/// The emitted tokens: the stream, a `Dedent` for each block still open at
/// the end, and a final `Newline`.
pub open spec fn finished_tokens(s: IndentState, cursor: int) -> Seq<Token> {
    s.out + repeat_token(synthetic(TokenKind::Dedent, cursor), (s.stack.len() - 1) as nat)
        + seq![synthetic(TokenKind::Newline, cursor)]
}

/// The debug rendering of a list of columns: `[a, b, c]`.
pub open spec fn list_text(s: Seq<int>) -> Seq<char>
    decreases s.len(),
{
    seq!['['] + list_items(s) + seq![']']
}

pub open spec fn list_items(s: Seq<int>) -> Seq<char>
    decreases s.len(),
{
    if s.len() == 0 {
        Seq::empty()
    } else if s.len() == 1 {
        decimal(s[0] as nat)
    } else {
        list_items(s.drop_last()) + seq![',', ' '] + decimal(s.last() as nat)
    }
}

pub open spec fn mismatch_prefix() -> Seq<char> {
    seq!['m', 'i', 's', 'm', 'a', 't', 'c', 'h', 'e', 'd', ' ', 'i', 'n', 'd', 'e', 'n', 't', 'a',
        't', 'i', 'o', 'n', ':', ' ', 'e', 'x', 'p', 'e', 'c', 't', 'e', 'd', ' ', 'o', 'n', 'e',
        ' ', 'o', 'f', ' ']
}

pub open spec fn mismatch_middle() -> Seq<char> {
    seq![',', ' ', 'f', 'o', 'u', 'n', 'd', ' ', 'c', 'o', 'l', 'u', 'm', 'n', ' ']
}

/// The message of a mismatch: `mismatched indentation: expected one of
/// [..], found column N`.
pub open spec fn mismatch_message(stack: Seq<int>, indent: int) -> Seq<char> {
    mismatch_prefix() + list_text(stack) + mismatch_middle() + decimal(indent as nat)
}

/// The open columns start at 0 and strictly increase.
pub open spec fn stack_ok(st: Seq<int>) -> bool {
    &&& st.len() >= 1
    &&& st[0] == 0
    &&& forall|i: int, j: int| 0 <= i < j < st.len() ==> st[i] < st[j]
}

proof fn lemma_pop_deeper(stack: Seq<int>, out: Seq<Token>, indent: int)
    requires
        stack_ok(stack),
        indent >= 0,
    ensures
        stack_ok(pop_deeper(stack, out, indent).0),
        pop_deeper(stack, out, indent).0 == stack.take(pop_deeper(stack, out, indent).0.len() as int),
        stack_top(pop_deeper(stack, out, indent).0) <= indent,
        pop_deeper(stack, out, indent).0.len() <= stack.len(),
    decreases stack.len(),
{
    if stack.len() > 0 && stack.last() > indent {
        if stack.len() == 1 {
            assert(stack.last() == 0);
        }
        let d = stack.drop_last();
        assert(stack_ok(d)) by {
            assert forall|i: int, j: int| 0 <= i < j < d.len() implies d[i] < d[j] by {
                assert(d[i] == stack[i] && d[j] == stack[j]);
            }
        }
        lemma_pop_deeper(d, out.push(synthetic(TokenKind::Dedent, 0)), indent);
        let r = pop_deeper(d, out.push(synthetic(TokenKind::Dedent, 0)), indent).0;
        assert(r == stack.take(r.len() as int)) by {
            assert(d.take(r.len() as int) =~= stack.take(r.len() as int));
        }
    } else {
        assert(stack.take(stack.len() as int) == stack);
    }
}

proof fn lemma_apply_indent(s: IndentState, indent: int)
    requires
        stack_ok(s.stack),
        indent >= 0,
    ensures
        stack_ok(apply_indent(s, indent).stack),
        s.errors.is_prefix_of(apply_indent(s, indent).errors),
{
    let t = stack_top(s.stack);
    if indent > t {
        let st = s.stack.push(indent);
        assert forall|i: int, j: int| 0 <= i < j < st.len() implies st[i] < st[j] by {
            if j == st.len() - 1 {
                assert(s.stack[i] <= s.stack.last()) by {
                    if i < s.stack.len() - 1 {
                        assert(s.stack[i] < s.stack[s.stack.len() - 1]);
                    }
                }
            }
        }
    } else if indent < t {
        lemma_pop_deeper(s.stack, s.out, indent);
        let (st, o) = pop_deeper(s.stack, s.out, indent);
        if stack_top(st) != indent {
            let st2 = st.push(indent);
            assert forall|i: int, j: int| 0 <= i < j < st2.len() implies st2[i] < st2[j] by {
                if j == st2.len() - 1 {
                    assert(st[i] <= st.last()) by {
                        if i < st.len() - 1 {
                            assert(st[i] < st[st.len() - 1]);
                        }
                    }
                }
            }
        }
    }
}

proof fn lemma_walk_lines(b: Seq<u8>, s: IndentState, walk: int, limit: int)
    requires
        stack_ok(s.stack),
    ensures
        stack_ok(walk_lines(b, s, walk, limit).stack),
        s.errors.is_prefix_of(walk_lines(b, s, walk, limit).errors),
    decreases limit - walk,
{
    if walk < limit {
        let e = newline_before(b, walk, limit);
        if !(e >= limit || e < walk) {
            let line = text_of(b, walk, e);
            let s1 = if !blank_or_comment(line) { apply_indent(s, indent_of(line)) } else { s };
            if !blank_or_comment(line) {
                lemma_run_len(line, 0, |c: char| is_space_or_tab(c));
                lemma_apply_indent(s, indent_of(line));
            }
            lemma_walk_lines(b, IndentState { out: s1.out.push(synthetic(TokenKind::Newline, e)), ..s1 }, e + 1, limit);
        }
    }
}

/// The pre-pass keeps its stack of open columns well formed: it starts at
/// column 0 and strictly increases, whatever the tokens; and it never
/// forgets a mismatch once met.
pub proof fn law_columns_well_formed(b: Seq<u8>, raw: Seq<Token>)
    ensures
        stack_ok(take_all(b, raw).0.stack),
    decreases raw.len(),
{
    if raw.len() == 0 {
        assert(stack_ok(seq![0int]));
    } else {
        law_columns_well_formed(b, raw.drop_last());
        let (s, c) = take_all(b, raw.drop_last());
        let tok = raw.last();
        let start = tok.span.start as int;
        let ls = line_start_of(b, start);
        if c <= ls {
            lemma_walk_lines(b, s, c, ls);
            lemma_run_len(text_of(b, ls, start), 0, |c: char| is_space_or_tab(c));
            lemma_apply_indent(walk_lines(b, s, c, ls), indent_of(text_of(b, ls, start)));
        }
    }
}

/// How many tokens of the sequence have kind `k`.
pub open spec fn count_kind(s: Seq<Token>, k: TokenKind) -> int
    decreases s.len(),
{
    if s.len() == 0 {
        0
    } else {
        count_kind(s.drop_last(), k) + if s.last().kind == k { 1int } else { 0int }
    }
}

proof fn lemma_count_push(s: Seq<Token>, t: Token, k: TokenKind)
    ensures
        count_kind(s.push(t), k) == count_kind(s, k) + if t.kind == k { 1int } else { 0int },
{
    assert(s.push(t).drop_last() == s);
}

proof fn lemma_count_concat(s: Seq<Token>, u: Seq<Token>, k: TokenKind)
    ensures
        count_kind(s + u, k) == count_kind(s, k) + count_kind(u, k),
    decreases u.len(),
{
    if u.len() == 0 {
        assert(s + u == s);
    } else {
        lemma_count_concat(s, u.drop_last(), k);
        assert((s + u).drop_last() == s + u.drop_last());
    }
}

proof fn lemma_count_repeat(t: Token, n: nat, k: TokenKind)
    ensures
        count_kind(repeat_token(t, n), k) == if t.kind == k { n as int } else { 0 },
    decreases n,
{
    if n > 0 {
        lemma_count_repeat(t, (n - 1) as nat, k);
        assert(repeat_token(t, n).drop_last() == repeat_token(t, (n - 1) as nat));
    }
}

/// Whether a token kind is layout: `Newline`, `Indent` or `Dedent`.
pub open spec fn is_layout(k: TokenKind) -> bool {
    k == TokenKind::Newline || k == TokenKind::Indent || k == TokenKind::Dedent
}

/// The tokens of `s` that are not layout, in order.
pub open spec fn non_layout(s: Seq<Token>) -> Seq<Token>
    decreases s.len(),
{
    if s.len() == 0 {
        Seq::empty()
    } else if is_layout(s.last().kind) {
        non_layout(s.drop_last())
    } else {
        non_layout(s.drop_last()).push(s.last())
    }
}

proof fn lemma_non_layout_push(s: Seq<Token>, t: Token)
    ensures
        non_layout(s.push(t)) == if is_layout(t.kind) { non_layout(s) } else { non_layout(s).push(t) },
{
    assert(s.push(t).drop_last() == s);
}

proof fn lemma_non_layout_concat(s: Seq<Token>, u: Seq<Token>)
    ensures
        non_layout(s + u) == non_layout(s) + non_layout(u),
    decreases u.len(),
{
    if u.len() == 0 {
        assert(s + u == s);
        assert(non_layout(s) + Seq::<Token>::empty() == non_layout(s));
    } else {
        lemma_non_layout_concat(s, u.drop_last());
        assert((s + u).drop_last() == s + u.drop_last());
        if !is_layout(u.last().kind) {
            assert((non_layout(s) + non_layout(u.drop_last())).push(u.last()) == non_layout(s) + non_layout(u.drop_last()).push(u.last()));
        }
    }
}

proof fn lemma_non_layout_repeat(t: Token, n: nat)
    requires
        is_layout(t.kind),
    ensures
        non_layout(repeat_token(t, n)) == Seq::<Token>::empty(),
    decreases n,
{
    if n > 0 {
        lemma_non_layout_repeat(t, (n - 1) as nat);
        assert(repeat_token(t, n).drop_last() == repeat_token(t, (n - 1) as nat));
    }
}

proof fn lemma_pop_deeper_layout(stack: Seq<int>, out: Seq<Token>, indent: int)
    ensures
        non_layout(pop_deeper(stack, out, indent).1) == non_layout(out),
    decreases stack.len(),
{
    if stack.len() > 0 && stack.last() > indent {
        lemma_pop_deeper_layout(stack.drop_last(), out.push(synthetic(TokenKind::Dedent, 0)), indent);
        lemma_non_layout_push(out, synthetic(TokenKind::Dedent, 0));
    }
}

proof fn lemma_apply_indent_layout(s: IndentState, indent: int)
    ensures
        non_layout(apply_indent(s, indent).out) == non_layout(s.out),
{
    lemma_non_layout_push(s.out, synthetic(TokenKind::Indent, 0));
    lemma_pop_deeper_layout(s.stack, s.out, indent);
}

proof fn lemma_walk_lines_layout(b: Seq<u8>, s: IndentState, walk: int, limit: int)
    ensures
        non_layout(walk_lines(b, s, walk, limit).out) == non_layout(s.out),
    decreases limit - walk,
{
    if walk < limit {
        let e = newline_before(b, walk, limit);
        if !(e >= limit || e < walk) {
            let line = text_of(b, walk, e);
            let s1 = if !blank_or_comment(line) { apply_indent(s, indent_of(line)) } else { s };
            lemma_apply_indent_layout(s, indent_of(line));
            lemma_non_layout_push(s1.out, synthetic(TokenKind::Newline, e));
            lemma_walk_lines_layout(b, IndentState { out: s1.out.push(synthetic(TokenKind::Newline, e)), ..s1 }, e + 1, limit);
        }
    }
}

proof fn lemma_take_all_layout(b: Seq<u8>, raw: Seq<Token>)
    ensures
        non_layout(take_all(b, raw).0.out) == non_layout(raw),
    decreases raw.len(),
{
    if raw.len() > 0 {
        lemma_take_all_layout(b, raw.drop_last());
        let (s, c) = take_all(b, raw.drop_last());
        let tok = raw.last();
        let start = tok.span.start as int;
        let ls = line_start_of(b, start);
        if c <= ls {
            lemma_walk_lines_layout(b, s, c, ls);
            lemma_apply_indent_layout(walk_lines(b, s, c, ls), indent_of(text_of(b, ls, start)));
        }
        let s1 = if c <= ls {
            apply_indent(walk_lines(b, s, c, ls), indent_of(text_of(b, ls, start)))
        } else {
            s
        };
        lemma_non_layout_push(s1.out, tok);
        assert(raw.drop_last().push(tok) == raw);
        lemma_non_layout_push(raw.drop_last(), tok);
    }
}

/// The pre-pass adds and keeps layout only: leaving `Newline`, `Indent`
/// and `Dedent` aside, its output is the input tokens, in order.
pub proof fn law_tokens_kept(b: Seq<u8>, raw: Seq<Token>)
    ensures
        non_layout(finished_tokens(take_all(b, raw).0, take_all(b, raw).1)) == non_layout(raw),
{
    let (s, c) = take_all(b, raw);
    lemma_take_all_layout(b, raw);
    let d = repeat_token(synthetic(TokenKind::Dedent, c), (s.stack.len() - 1) as nat);
    let nl = seq![synthetic(TokenKind::Newline, c)];
    lemma_non_layout_concat(s.out + d, nl);
    lemma_non_layout_concat(s.out, d);
    lemma_non_layout_repeat(synthetic(TokenKind::Dedent, c), (s.stack.len() - 1) as nat);
    lemma_non_layout_repeat(synthetic(TokenKind::Newline, c), 1);
    assert(repeat_token(synthetic(TokenKind::Newline, c), 1) =~= nl);
    assert(non_layout(s.out) + Seq::<Token>::empty() == non_layout(s.out));
}

/// Open blocks are matched by emitted `Indent`s not yet closed by a
/// `Dedent` (as long as no mismatch was met).
pub open spec fn balanced_so_far(s: IndentState) -> bool {
    s.errors.len() == 0 ==> count_kind(s.out, TokenKind::Indent) - count_kind(s.out, TokenKind::Dedent)
        == s.stack.len() - 1
}

proof fn lemma_pop_deeper_counts(stack: Seq<int>, out: Seq<Token>, indent: int)
    ensures
        count_kind(pop_deeper(stack, out, indent).1, TokenKind::Indent) == count_kind(out, TokenKind::Indent),
        count_kind(pop_deeper(stack, out, indent).1, TokenKind::Dedent) == count_kind(out, TokenKind::Dedent)
            + stack.len() - pop_deeper(stack, out, indent).0.len(),
    decreases stack.len(),
{
    if stack.len() > 0 && stack.last() > indent {
        let o = out.push(synthetic(TokenKind::Dedent, 0));
        lemma_count_push(out, synthetic(TokenKind::Dedent, 0), TokenKind::Indent);
        lemma_count_push(out, synthetic(TokenKind::Dedent, 0), TokenKind::Dedent);
        lemma_pop_deeper_counts(stack.drop_last(), o, indent);
    }
}

proof fn lemma_apply_balanced(s: IndentState, indent: int)
    requires
        balanced_so_far(s),
    ensures
        balanced_so_far(apply_indent(s, indent)),
        apply_indent(s, indent).errors.len() >= s.errors.len(),
{
    let t = stack_top(s.stack);
    if indent > t {
        lemma_count_push(s.out, synthetic(TokenKind::Indent, 0), TokenKind::Indent);
        lemma_count_push(s.out, synthetic(TokenKind::Indent, 0), TokenKind::Dedent);
    } else if indent < t {
        lemma_pop_deeper_counts(s.stack, s.out, indent);
    }
}

proof fn lemma_walk_balanced(b: Seq<u8>, s: IndentState, walk: int, limit: int)
    requires
        balanced_so_far(s),
    ensures
        balanced_so_far(walk_lines(b, s, walk, limit)),
        walk_lines(b, s, walk, limit).errors.len() >= s.errors.len(),
    decreases limit - walk,
{
    if walk < limit {
        let e = newline_before(b, walk, limit);
        if !(e >= limit || e < walk) {
            let line = text_of(b, walk, e);
            let s1 = if !blank_or_comment(line) { apply_indent(s, indent_of(line)) } else { s };
            if !blank_or_comment(line) {
                lemma_apply_balanced(s, indent_of(line));
            }
            lemma_count_push(s1.out, synthetic(TokenKind::Newline, e), TokenKind::Indent);
            lemma_count_push(s1.out, synthetic(TokenKind::Newline, e), TokenKind::Dedent);
            lemma_walk_balanced(b, IndentState { out: s1.out.push(synthetic(TokenKind::Newline, e)), ..s1 }, e + 1, limit);
        }
    }
}

proof fn lemma_take_all_balanced(b: Seq<u8>, raw: Seq<Token>)
    requires
        forall|k: int| 0 <= k < raw.len() ==> (#[trigger] raw[k]).kind != TokenKind::Indent && raw[k].kind != TokenKind::Dedent,
    ensures
        balanced_so_far(take_all(b, raw).0),
    decreases raw.len(),
{
    if raw.len() > 0 {
        let d = raw.drop_last();
        assert forall|k: int| 0 <= k < d.len() implies (#[trigger] d[k]).kind != TokenKind::Indent && d[k].kind != TokenKind::Dedent by {
            assert(d[k] == raw[k]);
        }
        lemma_take_all_balanced(b, d);
        let (s, c) = take_all(b, d);
        let tok = raw.last();
        assert(tok == raw[raw.len() - 1]);
        let start = tok.span.start as int;
        let ls = line_start_of(b, start);
        let s1 = if c <= ls {
            apply_indent(walk_lines(b, s, c, ls), indent_of(text_of(b, ls, start)))
        } else {
            s
        };
        if c <= ls {
            lemma_walk_balanced(b, s, c, ls);
            lemma_apply_balanced(walk_lines(b, s, c, ls), indent_of(text_of(b, ls, start)));
        }
        lemma_count_push(s1.out, tok, TokenKind::Indent);
        lemma_count_push(s1.out, tok, TokenKind::Dedent);
    } else {
        assert(initial_state().stack.len() == 1);
    }
}

/// When the pre-pass succeeds on tokens that hold no `Indent` or `Dedent`
/// of their own (as the lexer's never do), every `Indent` it emits is
/// matched by a `Dedent`, and the stream ends in a `Newline`.
pub proof fn law_indent_balanced(b: Seq<u8>, raw: Seq<Token>)
    requires
        forall|k: int| 0 <= k < raw.len() ==> (#[trigger] raw[k]).kind != TokenKind::Indent && raw[k].kind != TokenKind::Dedent,
        take_all(b, raw).0.errors.len() == 0,
    ensures
        count_kind(finished_tokens(take_all(b, raw).0, take_all(b, raw).1), TokenKind::Indent)
            == count_kind(finished_tokens(take_all(b, raw).0, take_all(b, raw).1), TokenKind::Dedent),
        finished_tokens(take_all(b, raw).0, take_all(b, raw).1).last().kind == TokenKind::Newline,
{
    lemma_take_all_balanced(b, raw);
    law_columns_well_formed(b, raw);
    let (s, c) = take_all(b, raw);
    let n = (s.stack.len() - 1) as nat;
    let d = repeat_token(synthetic(TokenKind::Dedent, c), n);
    let nl = seq![synthetic(TokenKind::Newline, c)];
    lemma_count_concat(s.out + d, nl, TokenKind::Indent);
    lemma_count_concat(s.out + d, nl, TokenKind::Dedent);
    lemma_count_concat(s.out, d, TokenKind::Indent);
    lemma_count_concat(s.out, d, TokenKind::Dedent);
    lemma_count_repeat(synthetic(TokenKind::Dedent, c), n, TokenKind::Indent);
    lemma_count_repeat(synthetic(TokenKind::Dedent, c), n, TokenKind::Dedent);
    assert(nl == Seq::<Token>::empty().push(synthetic(TokenKind::Newline, c)));
    lemma_count_push(Seq::<Token>::empty(), synthetic(TokenKind::Newline, c), TokenKind::Indent);
    lemma_count_push(Seq::<Token>::empty(), synthetic(TokenKind::Newline, c), TokenKind::Dedent);
    assert(count_kind(nl, TokenKind::Indent) == 0);
    assert(count_kind(nl, TokenKind::Dedent) == 0);
}

pub open spec fn columns(v: Seq<usize>) -> Seq<int> {
    v.map_values(|x: usize| x as int)
}

pub open spec fn messages(v: Seq<LexError>) -> Seq<Seq<char>> {
    v.map_values(|e: LexError| e.message@)
}

/// Every error of the pass is reported at offset 0 with length 1 of `src`.
pub open spec fn errors_at_start(v: Seq<LexError>, src: Seq<char>) -> bool {
    forall|k: int| 0 <= k < v.len() ==> (#[trigger] v[k]).offset == 0 && v[k].len == 1 && v[k].src@ == src
}

fn push_str_chars(s: &mut String, cs: &[char])
    ensures
        final(s)@ == old(s)@ + cs@,
{
    let mut i: usize = 0;
    while i < cs.len()
        invariant
            i <= cs@.len(),
            s@ == old(s)@ + cs@.take(i as int),
        decreases cs@.len() - i,
    {
        push_char(s, cs[i]);
        assert(cs@.take(i + 1) == cs@.take(i as int).push(cs@[i as int]));
        i = i + 1;
    }
    assert(cs@.take(cs@.len() as int) == cs@);
}

/// The message for a mismatch of column `indent` against `stack`.
fn mismatch_msg(stack: &Vec<usize>, indent: usize) -> (r: String)
    ensures
        r@ == mismatch_message(columns(stack@), indent as int),
{
    let pre = ['m', 'i', 's', 'm', 'a', 't', 'c', 'h', 'e', 'd', ' ', 'i', 'n', 'd', 'e', 'n', 't',
        'a', 't', 'i', 'o', 'n', ':', ' ', 'e', 'x', 'p', 'e', 'c', 't', 'e', 'd', ' ', 'o', 'n',
        'e', ' ', 'o', 'f', ' '];
    let mid = [',', ' ', 'f', 'o', 'u', 'n', 'd', ' ', 'c', 'o', 'l', 'u', 'm', 'n', ' '];
    assert(pre@ == mismatch_prefix());
    assert(mid@ == mismatch_middle());
    let mut s = String::new();
    push_str_chars(&mut s, &pre);
    let ghost after_pre = s@;
    push_char(&mut s, '[');
    let ghost cols = columns(stack@);
    let mut i: usize = 0;
    while i < stack.len()
        invariant
            i <= stack@.len(),
            cols == columns(stack@),
            s@ == after_pre + seq!['['] + list_items(cols.take(i as int)),
        decreases stack@.len() - i,
    {
        let ghost before = s@;
        if i > 0 {
            push_char(&mut s, ',');
            push_char(&mut s, ' ');
        }
        if stack[i] <= u32::MAX as usize {
            push_decimal(&mut s, stack[i] as u32);
        } else {
            push_wide_decimal(&mut s, stack[i]);
        }
        proof {
            let t = cols.take(i + 1);
            assert(t.drop_last() == cols.take(i as int));
            assert(t.last() == stack@[i as int] as int);
            if i == 0 {
                assert(list_items(cols.take(0)) == Seq::<char>::empty());
                assert(list_items(t) == decimal(stack@[0] as nat));
            } else {
                assert(before.push(',').push(' ') == before + seq![',', ' ']);
            }
        }
        i = i + 1;
    }
    assert(cols.take(stack@.len() as int) == cols);
    push_char(&mut s, ']');
    push_str_chars(&mut s, &mid);
    if indent <= u32::MAX as usize {
        push_decimal(&mut s, indent as u32);
    } else {
        push_wide_decimal(&mut s, indent);
    }
    s
}


fn indent_step(
    indent: usize,
    stack: &mut Vec<usize>,
    out: &mut Vec<Token>,
    src: &str,
    errors: &mut Vec<LexError>,
)
    requires
        errors_at_start(old(errors)@, src@),
    ensures
        ({
            let s = apply_indent(IndentState { stack: columns(old(stack)@), out: old(out)@, errors: messages(old(errors)@) }, indent as int);
            &&& columns(final(stack)@) == s.stack
            &&& final(out)@ == s.out
            &&& messages(final(errors)@) == s.errors
        }),
        errors_at_start(final(errors)@, src@),
{
    let ghost s0 = IndentState { stack: columns(stack@), out: out@, errors: messages(errors@) };
    let top: usize = if stack.len() > 0 { stack[stack.len() - 1] } else { 0 };
    if indent > top {
        stack.push(indent);
        out.push(Token { kind: TokenKind::Indent, span: Span { start: 0, end: 0 } });
        assert(columns(stack@) == s0.stack.push(indent as int));
    } else if indent < top {
        loop
            invariant
                pop_deeper(s0.stack, s0.out, indent as int) == pop_deeper(columns(stack@), out@, indent as int),
                messages(errors@) == s0.errors,
                errors_at_start(errors@, src@),
            ensures
                pop_deeper(s0.stack, s0.out, indent as int) == (columns(stack@), out@),
            decreases stack@.len(),
        {
            let n = stack.len();
            if n == 0 || stack[n - 1] <= indent {
                break;
            }
            let ghost before = stack@;
            stack.pop();
            out.push(Token { kind: TokenKind::Dedent, span: Span { start: 0, end: 0 } });
            assert(columns(stack@) == columns(before).drop_last());
        }
        let n = stack.len();
        let new_top: usize = if n > 0 { stack[n - 1] } else { 0 };
        if new_top != indent {
            let message = mismatch_msg(stack, indent);
            let ghost before = errors@;
            errors.push(LexError::new(src, 0, 1, message));
            assert(messages(errors@) == messages(before).push(message@));
            let ghost before_stack = stack@;
            stack.push(indent);
            assert(columns(stack@) == columns(before_stack).push(indent as int));
        }
    }
}

/// The start of the line containing byte `k` of `b`.
fn find_line_start(b: &[u8], k: usize) -> (r: usize)
    requires
        k <= b@.len(),
    ensures
        r == line_start_of(b@, k as int),
        r <= k,
{
    let mut i = k;
    while i > 0 && b[i - 1] != 10
        invariant
            i <= k <= b@.len(),
            line_start_of(b@, k as int) == line_start_of(b@, i as int),
        decreases i,
    {
        i = i - 1;
    }
    i
}

/// Pass over the whole lines of `b[walk..limit]`, as [`walk_lines`] says.
fn walk_line_range(
    b: &[u8],
    walk0: usize,
    limit: usize,
    stack: &mut Vec<usize>,
    out: &mut Vec<Token>,
    src: &str,
    errors: &mut Vec<LexError>,
)
    requires
        limit <= b@.len(),
        errors_at_start(old(errors)@, src@),
    ensures
        ({
            let s = walk_lines(b@, IndentState { stack: columns(old(stack)@), out: old(out)@, errors: messages(old(errors)@) }, walk0 as int, limit as int);
            &&& columns(final(stack)@) == s.stack
            &&& final(out)@ == s.out
            &&& messages(final(errors)@) == s.errors
        }),
        errors_at_start(final(errors)@, src@),
{
    let ghost goal = walk_lines(b@, IndentState { stack: columns(stack@), out: out@, errors: messages(errors@) }, walk0 as int, limit as int);
    let mut walk = walk0;
    loop
        invariant
            limit <= b@.len(),
            errors_at_start(errors@, src@),
            goal == walk_lines(b@, IndentState { stack: columns(stack@), out: out@, errors: messages(errors@) }, walk as int, limit as int),
        ensures
            goal == (IndentState { stack: columns(stack@), out: out@, errors: messages(errors@) }),
        decreases limit - walk,
    {
        if walk >= limit {
            break;
        }
        let mut e = walk;
        while e < limit && b[e] != 10
            invariant
                walk <= e <= limit,
                limit <= b@.len(),
                newline_before(b@, walk as int, limit as int) == newline_before(b@, e as int, limit as int),
            decreases limit - e,
        {
            e = e + 1;
        }
        if e >= limit {
            break;
        }
        let line = bytes_to_string_lossy(slice_copy(b, walk, e).as_slice());
        if !is_blank_or_comment_line(line.as_str()) {
            let indent = compute_indent(line.as_str());
            indent_step(indent, stack, out, src, errors);
        }
        out.push(Token { kind: TokenKind::Newline, span: Span { start: e, end: e } });
        walk = e + 1;
    }
}

/// Run the indent pre-pass over `raw`, the tokens of `src`.  Each token
/// that begins a new line is preceded by the `Newline`s of the lines
/// before it and by the `Indent` or `Dedent`s that its column calls for;
/// at the end every open block is closed and a `Newline` ends the stream.
/// A line whose column matches no open block is an error.
pub fn run(src: &str, raw: Vec<Token>) -> (r: Result<IndentedTokens, Vec<LexError>>)
    requires
        forall|k: int| 0 <= k < raw@.len() ==> (#[trigger] raw@[k]).span.start <= src.spec_bytes().len(),
    ensures
        ({
            let (s, cursor) = take_all(src.spec_bytes(), raw@);
            &&& s.errors.len() == 0 <==> r is Ok
            &&& r matches Ok(it) ==> it.tokens@ == finished_tokens(s, cursor) && it.src@ == src@
            &&& r matches Err(errs) ==> messages(errs@) == s.errors && errors_at_start(errs@, src@)
        }),
{
    let b = src.as_bytes();
    let mut out: Vec<Token> = Vec::new();
    let mut stack: Vec<usize> = Vec::new();
    stack.push(0);
    let mut errors: Vec<LexError> = Vec::new();
    let mut cursor: usize = 0;
    let mut i: usize = 0;
    assert(columns(stack@) == seq![0int]);
    assert(messages(errors@) == Seq::<Seq<char>>::empty());
    while i < raw.len()
        invariant
            i <= raw@.len(),
            b@ == src.spec_bytes(),
            forall|k: int| 0 <= k < raw@.len() ==> (#[trigger] raw@[k]).span.start <= src.spec_bytes().len(),
            errors_at_start(errors@, src@),
            take_all(b@, raw@.take(i as int)) == (IndentState { stack: columns(stack@), out: out@, errors: messages(errors@) }, cursor as int),
        decreases raw@.len() - i,
    {
        let tok = raw[i].clone();
        let start = tok.span.start;
        let line_start = find_line_start(b, start);
        if cursor <= line_start {
            walk_line_range(b, cursor, line_start, &mut stack, &mut out, src, &mut errors);
            let prefix = bytes_to_string_lossy(slice_copy(b, line_start, start).as_slice());
            let indent = compute_indent(prefix.as_str());
            indent_step(indent, &mut stack, &mut out, src, &mut errors);
        }
        cursor = tok.span.end;
        out.push(tok);
        proof {
            assert(raw@.take(i + 1).drop_last() == raw@.take(i as int));
            assert(raw@.take(i + 1).last() == raw@[i as int]);
        }
        i = i + 1;
    }
    assert(raw@.take(raw@.len() as int) == raw@);
    proof {
        law_columns_well_formed(b@, raw@);
    }
    let ghost s_end = IndentState { stack: columns(stack@), out: out@, errors: messages(errors@) };
    let ghost out0 = out@;
    while stack.len() > 1
        invariant
            stack@.len() >= 1,
            s_end.stack.len() >= 1,
            out@ == out0 + repeat_token(synthetic(TokenKind::Dedent, cursor as int), (s_end.stack.len() - stack@.len()) as nat),
            stack@.len() <= s_end.stack.len(),
        decreases stack@.len(),
    {
        let ghost before = out@;
        out.push(Token { kind: TokenKind::Dedent, span: Span { start: cursor, end: cursor } });
        stack.pop();
        assert(out@ =~= out0 + repeat_token(synthetic(TokenKind::Dedent, cursor as int), (s_end.stack.len() - stack@.len()) as nat));
    }
    out.push(Token { kind: TokenKind::Newline, span: Span { start: cursor, end: cursor } });
    if errors.len() > 0 {
        return Err(errors);
    }
    Ok(IndentedTokens { tokens: out, src: src.to_owned() })
}

} // verus!
