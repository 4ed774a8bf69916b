//! The brace-injection pass: braceless bodies of `if`, `else`, `for` and
//! `while` get braces of their own before the tokens are laid out.

use crate::config::{BraceConfig, Config};
use crate::scan::{in_set, is_kind, skip_over};
use crate::token::{KindSet, Span, Token, TokenKind};
use vstd::prelude::*;

verus! {

// ── Model ────────────────────────────────────────────────────────────────────

/// The span of a token that the source does not hold.
pub open spec fn no_span() -> Span {
    Span { start_byte: 0, end_byte: 0, line: 0, col: 0 }
}

/// An injected `{`.
pub open spec fn open_brace<'a>() -> Token<'a> {
    Token { kind: TokenKind::LBrace, lexeme: "{", span: no_span() }
}

/// An injected `}`.
pub open spec fn close_brace<'a>() -> Token<'a> {
    Token { kind: TokenKind::RBrace, lexeme: "}", span: no_span() }
}

/// The tokens that stand for a part of the source, and where it ends.
pub struct Part<'a> {
    pub out: Seq<Token<'a>>,
    pub next: int,
}

/// The tokens from `i` up to `j` as they are.
pub open spec fn plain<'a>(toks: Seq<Token<'a>>, i: int, j: int) -> Part<'a> {
    Part { out: toks.subrange(i, j), next: j }
}

/// The tokens from `i` up to `j`, then a part that starts there.
pub open spec fn behind<'a>(toks: Seq<Token<'a>>, i: int, j: int, part: Part<'a>) -> Part<'a> {
    Part { out: toks.subrange(i, j) + part.out, next: part.next }
}

/// One part behind another.
pub open spec fn chain<'a>(a: Part<'a>, b: Part<'a>) -> Part<'a> {
    Part { out: a.out + b.out, next: b.next }
}

/// A part in injected braces.
pub open spec fn braced<'a>(part: Part<'a>) -> Part<'a> {
    Part { out: seq![open_brace()] + part.out + seq![close_brace()], next: part.next }
}

/// A part in injected braces, if wanted.
pub open spec fn wrap<'a>(add: bool, part: Part<'a>) -> Part<'a> {
    if add {
        braced(part)
    } else {
        part
    }
}

/// Behind the `)` that closes `depth` open parentheses.
pub open spec fn paren_end(toks: Seq<Token>, i: int, depth: nat) -> int
    decreases toks.len() - i,
{
    if !(0 <= i < toks.len()) {
        i
    } else if toks[i].kind == TokenKind::LParen {
        paren_end(toks, i + 1, depth + 1)
    } else if toks[i].kind == TokenKind::RParen {
        if depth <= 1 {
            i + 1
        } else {
            paren_end(toks, i + 1, (depth - 1) as nat)
        }
    } else {
        paren_end(toks, i + 1, depth)
    }
}

/// Behind the keyword at `i`, the words that follow it (`constexpr`, a macro)
/// and the parenthesised head, which may be left out before a `{`.
pub open spec fn head_end(toks: Seq<Token>, i: int) -> int {
    let j = crate::scan::skip(toks, i + 1, KindSet::HeadWord);
    if crate::scan::is_at(toks, j, TokenKind::LParen) {
        paren_end(toks, j + 1, 1)
    } else if crate::scan::is_at(toks, j, TokenKind::LBrace) {
        j
    } else {
        crate::scan::skip(toks, i + 1, KindSet::Layout)
    }
}

/// Behind the `;` at brace depth zero that ends a statement, and behind a
/// comment that shares its line; before a `}` that closes the block around it.
pub open spec fn stmt_end(toks: Seq<Token>, i: int, depth: nat) -> int
    decreases toks.len() - i,
{
    if !(0 <= i < toks.len()) {
        i
    } else if toks[i].kind == TokenKind::LBrace {
        stmt_end(toks, i + 1, depth + 1)
    } else if toks[i].kind == TokenKind::RBrace {
        if depth == 0 {
            i
        } else {
            stmt_end(toks, i + 1, (depth - 1) as nat)
        }
    } else if toks[i].kind == TokenKind::Semi && depth == 0 {
        let j = crate::scan::skip(toks, i + 1, KindSet::Blank);
        if crate::scan::any_at(toks, j, KindSet::Comment) {
            j + 1
        } else {
            i + 1
        }
    } else {
        stmt_end(toks, i + 1, depth)
    }
}

pub proof fn lemma_paren_end(toks: Seq<Token>, i: int, depth: nat)
    requires
        0 <= i <= toks.len(),
    ensures
        i <= paren_end(toks, i, depth) <= toks.len(),
    decreases toks.len() - i,
{
    if i < toks.len() {
        lemma_paren_end(toks, i + 1, depth + 1);
        lemma_paren_end(toks, i + 1, depth);
        if depth > 0 {
            lemma_paren_end(toks, i + 1, (depth - 1) as nat);
        }
    }
}

pub proof fn lemma_head_end(toks: Seq<Token>, i: int)
    requires
        0 <= i < toks.len(),
    ensures
        i < head_end(toks, i) <= toks.len(),
{
    crate::scan::lemma_skip(toks, i + 1, KindSet::Layout);
    crate::scan::lemma_skip(toks, i + 1, KindSet::HeadWord);
    let j = crate::scan::skip(toks, i + 1, KindSet::HeadWord);
    if j < toks.len() {
        lemma_paren_end(toks, j + 1, 1);
    }
}

pub proof fn lemma_stmt_end(toks: Seq<Token>, i: int, depth: nat)
    requires
        0 <= i <= toks.len(),
    ensures
        i <= stmt_end(toks, i, depth) <= toks.len(),
    decreases toks.len() - i,
{
    if i < toks.len() {
        lemma_stmt_end(toks, i + 1, depth + 1);
        lemma_stmt_end(toks, i + 1, depth);
        if depth > 0 {
            lemma_stmt_end(toks, i + 1, (depth - 1) as nat);
        }
        crate::scan::lemma_skip(toks, i + 1, KindSet::Blank);
    }
}

/// The items from `i` on, up to and with the `}` that closes the block.
pub open spec fn block_rest<'a>(toks: Seq<Token<'a>>, braces: BraceConfig, i: int) -> Part<'a>
    decreases toks.len() - i, 4int,
{
    if !(0 <= i < toks.len()) {
        plain(toks, i, i)
    } else if toks[i].kind == TokenKind::RBrace {
        plain(toks, i, i + 1)
    } else {
        let first = item(toks, braces, i);
        if i < first.next <= toks.len() {
            chain(first, block_rest(toks, braces, first.next))
        } else {
            first
        }
    }
}

/// The block whose `{` stands at `i`.
pub open spec fn block<'a>(toks: Seq<Token<'a>>, braces: BraceConfig, i: int) -> Part<'a>
    decreases toks.len() - i, 1int,
{
    if !(0 <= i < toks.len()) {
        plain(toks, i, i)
    } else {
        behind(toks, i, i + 1, block_rest(toks, braces, i + 1))
    }
}

/// One statement: a block, a control statement with its bodies or tokens
/// through a `;`. What stands in front of it belongs to it.
pub open spec fn stmt<'a>(toks: Seq<Token<'a>>, braces: BraceConfig, i: int) -> Part<'a>
    decreases toks.len() - i, 3int,
{
    let j = crate::scan::skip(toks, i, KindSet::LayoutOrComment);
    proof {
        crate::scan::lemma_skip(toks, i, KindSet::LayoutOrComment);
    }
    if !(0 <= i && j < toks.len()) {
        plain(toks, i, j)
    } else {
        behind(
            toks,
            i,
            j,
            match toks[j].kind {
                TokenKind::LBrace => block(toks, braces, j),
                TokenKind::KwIf => if_stmt(toks, braces, j),
                TokenKind::KwElse => else_stmt(toks, braces, j),
                TokenKind::KwFor | TokenKind::KwWhile => loop_stmt(toks, braces, j),
                TokenKind::KwDo => do_stmt(toks, braces, j),
                TokenKind::KwSwitch => switch_stmt(toks, braces, j),
                TokenKind::KwTry => try_stmt(toks, braces, j),
                TokenKind::Ident => call_stmt(toks, braces, j),
                _ => plain(toks, j, stmt_end(toks, j, 0)),
            },
        )
    }
}

/// The body of a control statement whose head ends at `h`. It gets braces where
/// it has none, if wanted.
pub open spec fn body<'a>(toks: Seq<Token<'a>>, braces: BraceConfig, h: int, add: bool) -> Part<'a>
    decreases toks.len() - h, 4int,
{
    let solid = crate::scan::skip(toks, h, KindSet::LayoutOrComment);
    let j = crate::scan::skip(toks, h, KindSet::Layout);
    proof {
        crate::scan::lemma_skip(toks, h, KindSet::LayoutOrComment);
        crate::scan::lemma_skip(toks, h, KindSet::Layout);
    }
    if !(0 <= h && solid < toks.len()) {
        plain(toks, h, solid)
    } else if toks[solid].kind == TokenKind::LBrace {
        behind(toks, h, solid, block(toks, braces, solid))
    } else if toks[solid].kind == TokenKind::Semi {
        plain(toks, h, solid + 1)
    } else {
        behind(toks, h, j, wrap(add, stmt(toks, braces, j)))
    }
}

/// The `if` at `i` with its body and its `else`.
pub open spec fn if_stmt<'a>(toks: Seq<Token<'a>>, braces: BraceConfig, i: int) -> Part<'a>
    decreases toks.len() - i, 1int,
{
    if !(0 <= i < toks.len()) {
        plain(toks, i, i)
    } else {
        let h = head_end(toks, i);
        proof {
            lemma_head_end(toks, i);
        }
        let first = behind(toks, i, h, body(toks, braces, h, braces.add_braces_to_if));
        let e = crate::scan::skip(toks, first.next, KindSet::LayoutOrComment);
        if i < first.next <= e && crate::scan::is_at(toks, e, TokenKind::KwElse) {
            chain(first, behind(toks, first.next, e, else_stmt(toks, braces, e)))
        } else {
            first
        }
    }
}

/// The `else` at `i` with its body. An `if` behind it needs no braces.
pub open spec fn else_stmt<'a>(toks: Seq<Token<'a>>, braces: BraceConfig, i: int) -> Part<'a>
    decreases toks.len() - i, 1int,
{
    if !(0 <= i < toks.len()) {
        plain(toks, i, i)
    } else {
        let j = crate::scan::skip(toks, i + 1, KindSet::LayoutOrComment);
        proof {
            crate::scan::lemma_skip(toks, i + 1, KindSet::LayoutOrComment);
        }
        if crate::scan::is_at(toks, j, TokenKind::KwIf) {
            behind(toks, i, j, if_stmt(toks, braces, j))
        } else {
            behind(
                toks,
                i,
                i + 1,
                body(toks, braces, i + 1, braces.add_braces_to_if),
            )
        }
    }
}

/// The `for` or `while` at `i` with its body. A `while` that ends a `do`
/// statement has none.
pub open spec fn loop_stmt<'a>(toks: Seq<Token<'a>>, braces: BraceConfig, i: int) -> Part<'a>
    decreases toks.len() - i, 1int,
{
    if !(0 <= i < toks.len()) {
        plain(toks, i, i)
    } else {
        let h = head_end(toks, i);
        let add = if toks[i].kind == TokenKind::KwFor {
            braces.add_braces_to_for
        } else {
            braces.add_braces_to_while
        };
        proof {
            lemma_head_end(toks, i);
        }
        behind(toks, i, h, body(toks, braces, h, add))
    }
}

/// The `do` at `i` with its body and the `while` that ends it.
pub open spec fn do_stmt<'a>(toks: Seq<Token<'a>>, braces: BraceConfig, i: int) -> Part<'a>
    decreases toks.len() - i, 1int,
{
    if !(0 <= i < toks.len()) {
        plain(toks, i, i)
    } else {
        let first = behind(toks, i, i + 1, stmt(toks, braces, i + 1));
        let w = crate::scan::skip(toks, first.next, KindSet::LayoutOrComment);
        if crate::scan::is_at(toks, w, TokenKind::KwWhile) {
            chain(first, plain(toks, first.next, stmt_end(toks, w, 0)))
        } else {
            first
        }
    }
}

/// The `switch` at `i` with its body.
pub open spec fn switch_stmt<'a>(toks: Seq<Token<'a>>, braces: BraceConfig, i: int) -> Part<'a>
    decreases toks.len() - i, 1int,
{
    if !(0 <= i < toks.len()) {
        plain(toks, i, i)
    } else {
        let h = head_end(toks, i);
        proof {
            lemma_head_end(toks, i);
        }
        behind(toks, i, h, stmt(toks, braces, h))
    }
}

/// The `try` at `i` with its block and its handlers.
pub open spec fn try_stmt<'a>(toks: Seq<Token<'a>>, braces: BraceConfig, i: int) -> Part<'a>
    decreases toks.len() - i, 1int,
{
    if !(0 <= i < toks.len()) {
        plain(toks, i, i)
    } else {
        let first = behind(toks, i, i + 1, stmt(toks, braces, i + 1));
        if i < first.next <= toks.len() {
            chain(first, handlers(toks, braces, first.next))
        } else {
            first
        }
    }
}

/// The `catch` clauses from `i` on.
pub open spec fn handlers<'a>(toks: Seq<Token<'a>>, braces: BraceConfig, i: int) -> Part<'a>
    decreases toks.len() - i, 4int,
{
    let c = crate::scan::skip(toks, i, KindSet::LayoutOrComment);
    proof {
        crate::scan::lemma_skip(toks, i, KindSet::LayoutOrComment);
    }
    if !(0 <= i && crate::scan::is_at(toks, c, TokenKind::KwCatch)) {
        plain(toks, i, i)
    } else {
        let h = head_end(toks, c);
        proof {
            lemma_head_end(toks, c);
        }
        let first = behind(toks, i, h, stmt(toks, braces, h));
        if i < first.next <= toks.len() {
            chain(first, handlers(toks, braces, first.next))
        } else {
            first
        }
    }
}

/// A statement that begins with a name: a macro that heads a block, or tokens
/// through a `;`.
pub open spec fn call_stmt<'a>(toks: Seq<Token<'a>>, braces: BraceConfig, i: int) -> Part<'a>
    decreases toks.len() - i, 1int,
{
    let open = crate::scan::skip(toks, i + 1, KindSet::Layout);
    let h = paren_end(toks, open + 1, 1);
    let b = crate::scan::skip(toks, h, KindSet::LayoutOrComment);
    if i < b && crate::scan::is_at(toks, open, TokenKind::LParen) && crate::scan::is_at(
        toks,
        b,
        TokenKind::LBrace,
    ) {
        behind(toks, i, b, block(toks, braces, b))
    } else {
        plain(toks, i, stmt_end(toks, i, 0))
    }
}

/// One item of the token list: a control statement whose bodies get braces, a
/// block, or a single token.
pub open spec fn item<'a>(toks: Seq<Token<'a>>, braces: BraceConfig, i: int) -> Part<'a>
    decreases toks.len() - i, 2int,
{
        if !(0 <= i < toks.len()) {
        plain(toks, i, i)
    } else {
        let k = toks[i].kind;
        if k == TokenKind::KwIf && braces.add_braces_to_if {
            if_stmt(toks, braces, i)
        } else if k == TokenKind::KwElse && braces.add_braces_to_if {
            else_stmt(toks, braces, i)
        } else if (k == TokenKind::KwFor && braces.add_braces_to_for) || (k == TokenKind::KwWhile
            && braces.add_braces_to_while) {
            loop_stmt(toks, braces, i)
        } else if k == TokenKind::LBrace {
            block(toks, braces, i)
        } else {
            plain(toks, i, i + 1)
        }
    }
}

/// The items from `i` on.
pub open spec fn items<'a>(toks: Seq<Token<'a>>, braces: BraceConfig, i: int) -> Seq<Token<'a>>
    decreases toks.len() - i,
{
    if !(0 <= i < toks.len()) {
        Seq::empty()
    } else {
        let first = item(toks, braces, i);
        if i < first.next <= toks.len() {
            first.out + items(toks, braces, first.next)
        } else {
            first.out
        }
    }
}

/// The tokens with braces around every braceless body.
pub open spec fn injected<'a>(toks: Seq<Token<'a>>, config: Config) -> Seq<Token<'a>> {
    items(toks, config.braces, 0)
}

// ── Pass ─────────────────────────────────────────────────────────────────────

fn inj_synthetic(kind: TokenKind, lexeme: &'static str) -> (r: Token<'static>)
    ensures
        r == (Token { kind, lexeme, span: no_span() }),
{
    Token { kind, lexeme, span: Span { start_byte: 0, end_byte: 0, line: 0, col: 0 } }
}

/// Copy the tokens from `i` up to `end`.
fn copy_to<'src>(tokens: &[Token<'src>], i: usize, end: usize, out: &mut Vec<Token<'src>>)
    requires
        i <= end <= tokens@.len(),
    ensures
        final(out)@ == old(out)@ + tokens@.subrange(i as int, end as int),
{
    let ghost start = out@;
    let mut j: usize = i;
    assert(start + tokens@.subrange(i as int, i as int) =~= start);
    while j < end
        invariant
            i <= j <= end <= tokens@.len(),
            out@ == start + tokens@.subrange(i as int, j as int),
        decreases end - j,
    {
        out.push(tokens[j]);
        j += 1;
        assert(out@ =~= start + tokens@.subrange(i as int, j as int));
    }
}

fn inj_paren_end(tokens: &[Token], i: usize) -> (r: usize)
    requires
        1 <= i <= tokens@.len(),
    ensures
        r == paren_end(tokens@, i as int, 1),
        i <= r <= tokens@.len(),
{
    let mut j: usize = i;
    let mut depth: usize = 1;
    while j < tokens.len()
        invariant
            1 <= i <= j <= tokens@.len(),
            1 <= depth <= 1 + j - i,
            paren_end(tokens@, i as int, 1) == paren_end(tokens@, j as int, depth as nat),
        decreases tokens@.len() - j,
    {
        match tokens[j].kind {
            TokenKind::LParen => {
                depth += 1;
            },
            TokenKind::RParen => {
                if depth == 1 {
                    return j + 1;
                }
                depth -= 1;
            },
            _ => {},
        }
        j += 1;
    }
    j
}

fn inj_head_end(tokens: &[Token], i: usize) -> (r: usize)
    requires
        i < tokens@.len(),
        i < usize::MAX,
    ensures
        r == head_end(tokens@, i as int),
        i < r <= tokens@.len(),
{
    let j = skip_over(tokens, i + 1, KindSet::HeadWord);
    if is_kind(tokens, j, TokenKind::LParen) {
        inj_paren_end(tokens, j + 1)
    } else if is_kind(tokens, j, TokenKind::LBrace) {
        j
    } else {
        skip_over(tokens, i + 1, KindSet::Layout)
    }
}

fn inj_stmt_end(tokens: &[Token], i: usize) -> (r: usize)
    requires
        i <= tokens@.len(),
    ensures
        r == stmt_end(tokens@, i as int, 0),
        i <= r <= tokens@.len(),
{
    let mut j: usize = i;
    let mut depth: usize = 0;
    while j < tokens.len()
        invariant
            i <= j <= tokens@.len(),
            depth <= j - i,
            stmt_end(tokens@, i as int, 0) == stmt_end(tokens@, j as int, depth as nat),
        decreases tokens@.len() - j,
    {
        match tokens[j].kind {
            TokenKind::LBrace => {
                depth += 1;
            },
            TokenKind::RBrace => {
                if depth == 0 {
                    return j;
                }
                depth -= 1;
            },
            TokenKind::Semi => {
                if depth == 0 {
                    let c = skip_over(tokens, j + 1, KindSet::Blank);
                    if in_set(tokens, c, KindSet::Comment) {
                        return c + 1;
                    }
                    return j + 1;
                }
            },
            _ => {},
        }
        j += 1;
    }
    j
}

fn inj_copy_block<'src>(
    tokens: &[Token<'src>],
    i: usize,
    out: &mut Vec<Token<'src>>,
    config: &Config,
) -> (next: usize)
    requires
        i < tokens@.len() <= usize::MAX,
    ensures
        final(out)@ == old(out)@ + block(tokens@, config.braces, i as int).out,
        next == block(tokens@, config.braces, i as int).next,
        i < next <= tokens@.len(),
    decreases tokens@.len() - i, 1int,
{
    let ghost start = out@;
    let ghost whole = block_rest(tokens@, config.braces, i + 1);
    copy_to(tokens, i, i + 1, out);
    let mut j: usize = i + 1;
    let ghost mut done: Seq<Token<'src>> = Seq::empty();
    assert(done + block_rest(tokens@, config.braces, j as int).out =~= whole.out);
    while j < tokens.len()
        invariant_except_break
            i < j <= tokens@.len() <= usize::MAX,
            out@ =~= start + tokens@.subrange(i as int, i + 1) + done,
            whole.out =~= done + block_rest(tokens@, config.braces, j as int).out,
            whole.next == block_rest(tokens@, config.braces, j as int).next,
        ensures
            i < j <= tokens@.len(),
            out@ =~= start + tokens@.subrange(i as int, i + 1) + whole.out,
            whole.next == j,
        decreases tokens@.len() - j,
    {
        if tokens[j].kind == TokenKind::RBrace {
            copy_to(tokens, j, j + 1, out);
            j += 1;
            break;
        }
        let ghost first = item(tokens@, config.braces, j as int).out;
        j = inj_item(tokens, j, out, config);
        proof {
            done = done + first;
        }
    }
    j
}

fn inj_copy_stmt<'src>(
    tokens: &[Token<'src>],
    i: usize,
    out: &mut Vec<Token<'src>>,
    config: &Config,
) -> (next: usize)
    requires
        i <= tokens@.len() <= usize::MAX,
    ensures
        final(out)@ == old(out)@ + stmt(tokens@, config.braces, i as int).out,
        next == stmt(tokens@, config.braces, i as int).next,
        i <= next <= tokens@.len(),
    decreases tokens@.len() - i, 3int,
{
    let ghost start = out@;
    let j = skip_over(tokens, i, KindSet::LayoutOrComment);
    copy_to(tokens, i, j, out);
    if j >= tokens.len() {
        return j;
    }
    let next = match tokens[j].kind {
        TokenKind::LBrace => inj_copy_block(tokens, j, out, config),
        TokenKind::KwIf => inj_handle_if(tokens, j, out, config),
        TokenKind::KwElse => inj_handle_else(tokens, j, out, config),
        TokenKind::KwFor | TokenKind::KwWhile => inj_handle_ctrl(tokens, j, out, config),
        TokenKind::KwDo => inj_handle_do(tokens, j, out, config),
        TokenKind::KwSwitch => inj_handle_switch(tokens, j, out, config),
        TokenKind::KwTry => inj_handle_try(tokens, j, out, config),
        TokenKind::Ident => inj_handle_call(tokens, j, out, config),
        _ => {
            let end = inj_stmt_end(tokens, j);
            copy_to(tokens, j, end, out);
            end
        },
    };
    assert(out@ =~= start + stmt(tokens@, config.braces, i as int).out);
    next
}

fn inj_copy_body<'src>(
    tokens: &[Token<'src>],
    i: usize,
    add: bool,
    out: &mut Vec<Token<'src>>,
    config: &Config,
) -> (next: usize)
    requires
        i <= tokens@.len() <= usize::MAX,
    ensures
        final(out)@ == old(out)@ + body(tokens@, config.braces, i as int, add).out,
        next == body(tokens@, config.braces, i as int, add).next,
        i <= next <= tokens@.len(),
    decreases tokens@.len() - i, 4int,
{
    let ghost start = out@;
    let solid = skip_over(tokens, i, KindSet::LayoutOrComment);
    if solid >= tokens.len() {
        copy_to(tokens, i, solid, out);
        return solid;
    }
    let next = if tokens[solid].kind == TokenKind::LBrace {
        copy_to(tokens, i, solid, out);
        inj_copy_block(tokens, solid, out, config)
    } else if tokens[solid].kind == TokenKind::Semi {
        copy_to(tokens, i, solid + 1, out);
        solid + 1
    } else {
        let j = skip_over(tokens, i, KindSet::Layout);
        copy_to(tokens, i, j, out);
        if add {
            out.push(inj_synthetic(TokenKind::LBrace, "{"));
        }
        let next = inj_copy_stmt(tokens, j, out, config);
        if add {
            out.push(inj_synthetic(TokenKind::RBrace, "}"));
        }
        next
    };
    assert(out@ =~= start + body(tokens@, config.braces, i as int, add).out);
    next
}

fn inj_handle_if<'src>(
    tokens: &[Token<'src>],
    i: usize,
    out: &mut Vec<Token<'src>>,
    config: &Config,
) -> (next: usize)
    requires
        i < tokens@.len() <= usize::MAX,
    ensures
        final(out)@ == old(out)@ + if_stmt(tokens@, config.braces, i as int).out,
        next == if_stmt(tokens@, config.braces, i as int).next,
        i < next <= tokens@.len(),
    decreases tokens@.len() - i, 1int,
{
    let ghost start = out@;
    let h = inj_head_end(tokens, i);
    copy_to(tokens, i, h, out);
    let first = inj_copy_body(tokens, h, config.braces.add_braces_to_if, out, config);
    let e = skip_over(tokens, first, KindSet::LayoutOrComment);
    let ghost head = tokens@.subrange(i as int, h as int) + body(
        tokens@,
        config.braces,
        h as int,
        config.braces.add_braces_to_if,
    ).out;
    assert(out@ =~= start + head);
    if !is_kind(tokens, e, TokenKind::KwElse) {
        return first;
    }
    copy_to(tokens, first, e, out);
    let next = inj_handle_else(tokens, e, out, config);
    assert(out@ =~= start + (head + (tokens@.subrange(first as int, e as int) + else_stmt(
        tokens@,
        config.braces,
        e as int,
    ).out)));
    next
}

fn inj_handle_else<'src>(
    tokens: &[Token<'src>],
    i: usize,
    out: &mut Vec<Token<'src>>,
    config: &Config,
) -> (next: usize)
    requires
        i < tokens@.len() <= usize::MAX,
    ensures
        final(out)@ == old(out)@ + else_stmt(tokens@, config.braces, i as int).out,
        next == else_stmt(tokens@, config.braces, i as int).next,
        i < next <= tokens@.len(),
    decreases tokens@.len() - i, 1int,
{
    let ghost start = out@;
    let j = skip_over(tokens, i + 1, KindSet::LayoutOrComment);
    let next = if is_kind(tokens, j, TokenKind::KwIf) {
        copy_to(tokens, i, j, out);
        inj_handle_if(tokens, j, out, config)
    } else {
        copy_to(tokens, i, i + 1, out);
        inj_copy_body(tokens, i + 1, config.braces.add_braces_to_if, out, config)
    };
    assert(out@ =~= start + else_stmt(tokens@, config.braces, i as int).out);
    next
}

fn inj_handle_ctrl<'src>(
    tokens: &[Token<'src>],
    i: usize,
    out: &mut Vec<Token<'src>>,
    config: &Config,
) -> (next: usize)
    requires
        i < tokens@.len() <= usize::MAX,
    ensures
        final(out)@ == old(out)@ + loop_stmt(tokens@, config.braces, i as int).out,
        next == loop_stmt(tokens@, config.braces, i as int).next,
        i < next <= tokens@.len(),
    decreases tokens@.len() - i, 1int,
{
    let ghost start = out@;
    let h = inj_head_end(tokens, i);
    let add = if tokens[i].kind == TokenKind::KwFor {
        config.braces.add_braces_to_for
    } else {
        config.braces.add_braces_to_while
    };
    copy_to(tokens, i, h, out);
    let next = inj_copy_body(tokens, h, add, out, config);
    assert(out@ =~= start + loop_stmt(tokens@, config.braces, i as int).out);
    next
}

fn inj_handle_do<'src>(
    tokens: &[Token<'src>],
    i: usize,
    out: &mut Vec<Token<'src>>,
    config: &Config,
) -> (next: usize)
    requires
        i < tokens@.len() <= usize::MAX,
    ensures
        final(out)@ == old(out)@ + do_stmt(tokens@, config.braces, i as int).out,
        next == do_stmt(tokens@, config.braces, i as int).next,
        i < next <= tokens@.len(),
    decreases tokens@.len() - i, 1int,
{
    let ghost start = out@;
    copy_to(tokens, i, i + 1, out);
    let first = inj_copy_stmt(tokens, i + 1, out, config);
    let w = skip_over(tokens, first, KindSet::LayoutOrComment);
    let next = if is_kind(tokens, w, TokenKind::KwWhile) {
        let end = inj_stmt_end(tokens, w);
        copy_to(tokens, first, end, out);
        end
    } else {
        first
    };
    assert(out@ =~= start + do_stmt(tokens@, config.braces, i as int).out);
    next
}

fn inj_handle_switch<'src>(
    tokens: &[Token<'src>],
    i: usize,
    out: &mut Vec<Token<'src>>,
    config: &Config,
) -> (next: usize)
    requires
        i < tokens@.len() <= usize::MAX,
    ensures
        final(out)@ == old(out)@ + switch_stmt(tokens@, config.braces, i as int).out,
        next == switch_stmt(tokens@, config.braces, i as int).next,
        i < next <= tokens@.len(),
    decreases tokens@.len() - i, 1int,
{
    let ghost start = out@;
    let h = inj_head_end(tokens, i);
    copy_to(tokens, i, h, out);
    let next = inj_copy_stmt(tokens, h, out, config);
    assert(out@ =~= start + switch_stmt(tokens@, config.braces, i as int).out);
    next
}

fn inj_handle_try<'src>(
    tokens: &[Token<'src>],
    i: usize,
    out: &mut Vec<Token<'src>>,
    config: &Config,
) -> (next: usize)
    requires
        i < tokens@.len() <= usize::MAX,
    ensures
        final(out)@ == old(out)@ + try_stmt(tokens@, config.braces, i as int).out,
        next == try_stmt(tokens@, config.braces, i as int).next,
        i < next <= tokens@.len(),
    decreases tokens@.len() - i, 1int,
{
    let ghost start = out@;
    copy_to(tokens, i, i + 1, out);
    let first = inj_copy_stmt(tokens, i + 1, out, config);
    let next = inj_copy_handlers(tokens, first, out, config);
    assert(out@ =~= start + try_stmt(tokens@, config.braces, i as int).out);
    next
}

fn inj_copy_handlers<'src>(
    tokens: &[Token<'src>],
    i: usize,
    out: &mut Vec<Token<'src>>,
    config: &Config,
) -> (next: usize)
    requires
        i <= tokens@.len() <= usize::MAX,
    ensures
        final(out)@ == old(out)@ + handlers(tokens@, config.braces, i as int).out,
        next == handlers(tokens@, config.braces, i as int).next,
        i <= next <= tokens@.len(),
    decreases tokens@.len() - i, 4int,
{
    let ghost start = out@;
    let c = skip_over(tokens, i, KindSet::LayoutOrComment);
    if !is_kind(tokens, c, TokenKind::KwCatch) {
        assert(out@ =~= start + handlers(tokens@, config.braces, i as int).out);
        return i;
    }
    let h = inj_head_end(tokens, c);
    copy_to(tokens, i, h, out);
    let first = inj_copy_stmt(tokens, h, out, config);
    let next = inj_copy_handlers(tokens, first, out, config);
    assert(out@ =~= start + handlers(tokens@, config.braces, i as int).out);
    next
}

fn inj_handle_call<'src>(
    tokens: &[Token<'src>],
    i: usize,
    out: &mut Vec<Token<'src>>,
    config: &Config,
) -> (next: usize)
    requires
        i < tokens@.len() <= usize::MAX,
        tokens@[i as int].kind == TokenKind::Ident,
    ensures
        final(out)@ == old(out)@ + call_stmt(tokens@, config.braces, i as int).out,
        next == call_stmt(tokens@, config.braces, i as int).next,
        i < next <= tokens@.len(),
    decreases tokens@.len() - i, 1int,
{
    let ghost start = out@;
    let open = skip_over(tokens, i + 1, KindSet::Layout);
    if is_kind(tokens, open, TokenKind::LParen) {
        let h = inj_paren_end(tokens, open + 1);
        let b = skip_over(tokens, h, KindSet::LayoutOrComment);
        if is_kind(tokens, b, TokenKind::LBrace) {
            copy_to(tokens, i, b, out);
            let next = inj_copy_block(tokens, b, out, config);
            assert(out@ =~= start + call_stmt(tokens@, config.braces, i as int).out);
            return next;
        }
    }
    let end = inj_stmt_end(tokens, i);
    copy_to(tokens, i, end, out);
    proof {
        lemma_stmt_end(tokens@, i + 1, 0);
    }
    end
}

fn inj_item<'src>(
    tokens: &[Token<'src>],
    i: usize,
    out: &mut Vec<Token<'src>>,
    config: &Config,
) -> (next: usize)
    requires
        i < tokens@.len() <= usize::MAX,
    ensures
        final(out)@ == old(out)@ + item(tokens@, config.braces, i as int).out,
        next == item(tokens@, config.braces, i as int).next,
        i < next <= tokens@.len(),
    decreases tokens@.len() - i, 2int,
{
    let k = tokens[i].kind;
    let c = &config.braces;
    if k == TokenKind::KwIf && c.add_braces_to_if {
        inj_handle_if(tokens, i, out, config)
    } else if k == TokenKind::KwElse && c.add_braces_to_if {
        inj_handle_else(tokens, i, out, config)
    } else if (k == TokenKind::KwFor && c.add_braces_to_for) || (k == TokenKind::KwWhile
        && c.add_braces_to_while) {
        inj_handle_ctrl(tokens, i, out, config)
    } else if k == TokenKind::LBrace {
        inj_copy_block(tokens, i, out, config)
    } else {
        copy_to(tokens, i, i + 1, out);
        i + 1
    }
}

/// Put braces around every braceless body that the settings name.
pub fn inject_braces_pass<'src>(tokens: &[Token<'src>], config: &Config) -> (r: Vec<Token<'src>>)
    ensures
        r@ == injected(tokens@, *config),
{
    let mut out: Vec<Token<'src>> = Vec::new();
    let n: usize = tokens.len();
    let mut i: usize = 0;
    while i < n
        invariant
            i <= n == tokens@.len(),
            injected(tokens@, *config) =~= out@ + items(tokens@, config.braces, i as int),
        decreases tokens@.len() - i,
    {
        i = inj_item(tokens, i, &mut out, config);
    }
    out
}

} // verus!
