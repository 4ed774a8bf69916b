//! Look-ahead and look-behind over the token list: the heuristics that tell
//! casts from calls, declarators from products, templates from comparisons
//! and blocks from initializers.
//!
//! Every function takes `p`, the position just behind the token at hand.

use crate::text::same_text;
use crate::token::{KindSet, Token, TokenKind};
use vstd::prelude::*;

verus! {

// ── Walking ──────────────────────────────────────────────────────────────────

/// The kind of the token at `i`, if there is one.
pub open spec fn kind_at(toks: Seq<Token>, i: int) -> Option<TokenKind> {
    if 0 <= i < toks.len() {
        Some(toks[i].kind)
    } else {
        None
    }
}

/// A token of the given kind stands at `i`.
pub open spec fn is_at(toks: Seq<Token>, i: int, k: TokenKind) -> bool {
    kind_at(toks, i) == Some(k)
}

/// A token of the set stands at `i`.
pub open spec fn any_at(toks: Seq<Token>, i: int, set: KindSet) -> bool {
    0 <= i < toks.len() && set.has(toks[i].kind)
}

/// The first position from `i` on whose token is outside the set.
pub open spec fn skip(toks: Seq<Token>, i: int, set: KindSet) -> int
    decreases toks.len() - i,
{
    if any_at(toks, i, set) {
        skip(toks, i + 1, set)
    } else {
        i
    }
}

/// The last position up to `i` whose token is outside the set; -1 if none is.
pub open spec fn back(toks: Seq<Token>, i: int, set: KindSet) -> int
    decreases i + 1,
{
    if i < 0 {
        -1
    } else if any_at(toks, i, set) {
        back(toks, i - 1, set)
    } else {
        i
    }
}

/// As `back`, but stopping at the first token of the list.
pub open spec fn back_to_first(toks: Seq<Token>, i: int, set: KindSet) -> int {
    let b = back(toks, i, set);
    if b < 0 {
        0
    } else {
        b
    }
}

pub proof fn lemma_skip(toks: Seq<Token>, i: int, set: KindSet)
    ensures
        i <= skip(toks, i, set),
        i <= toks.len() ==> skip(toks, i, set) <= toks.len(),
    decreases toks.len() - i,
{
    if any_at(toks, i, set) {
        lemma_skip(toks, i + 1, set);
    }
}

pub(crate) fn kind_of(tokens: &[Token], i: usize) -> (r: Option<TokenKind>)
    ensures
        r == kind_at(tokens@, i as int),
{
    if i < tokens.len() {
        Some(tokens[i].kind)
    } else {
        None
    }
}

pub(crate) fn is_kind(tokens: &[Token], i: usize, k: TokenKind) -> (r: bool)
    ensures
        r == is_at(tokens@, i as int, k),
        r ==> i < usize::MAX,
{
    i < tokens.len() && tokens[i].kind == k
}

pub(crate) fn in_set(tokens: &[Token], i: usize, set: KindSet) -> (r: bool)
    ensures
        r == any_at(tokens@, i as int, set),
        r ==> i < usize::MAX,
{
    i < tokens.len() && set.test(tokens[i].kind)
}

pub(crate) fn skip_over(tokens: &[Token], i: usize, set: KindSet) -> (r: usize)
    requires
        i <= tokens@.len(),
    ensures
        r == skip(tokens@, i as int, set),
        i <= r <= tokens@.len(),
{
    let mut j: usize = i;
    while in_set(tokens, j, set)
        invariant
            i <= j <= tokens@.len(),
            skip(tokens@, i as int, set) == skip(tokens@, j as int, set),
        decreases tokens@.len() - j,
    {
        j += 1;
    }
    j
}

pub(crate) fn back_over(tokens: &[Token], i: usize, set: KindSet) -> (r: Option<usize>)
    requires
        i < tokens@.len(),
    ensures
        match r {
            Some(j) => j == back(tokens@, i as int, set) && j <= i,
            None => back(tokens@, i as int, set) == -1,
        },
{
    let mut j: usize = i;
    loop
        invariant
            j <= i < tokens@.len(),
            back(tokens@, i as int, set) == back(tokens@, j as int, set),
        decreases j,
    {
        if !set.test(tokens[j].kind) {
            return Some(j);
        }
        if j == 0 {
            assert(back(tokens@, -1, set) == -1);
            return None;
        }
        j -= 1;
    }
}

pub(crate) fn back_over_to_first(tokens: &[Token], i: usize, set: KindSet) -> (r: usize)
    requires
        i < tokens@.len(),
    ensures
        r == back_to_first(tokens@, i as int, set),
        r <= i,
{
    match back_over(tokens, i, set) {
        Some(j) => j,
        None => 0,
    }
}

// ── Casts ────────────────────────────────────────────────────────────────────

/// Words whose parenthesised operand may be a type without being a cast.
pub open spec fn sizeof_words() -> Seq<Seq<char>> {
    seq!["sizeof"@, "alignof"@, "alignas"@, "__alignof__"@, "decltype"@, "typeid"@]
}

pub(crate) fn is_sizeof_word(s: &str) -> (r: bool)
    ensures
        r == sizeof_words().contains(s@),
{
    let r = same_text(s, "sizeof") || same_text(s, "alignof") || same_text(s, "alignas")
        || same_text(s, "__alignof__") || same_text(s, "decltype") || same_text(s, "typeid");
    proof {
        let w = sizeof_words();
        assert(w[0] == "sizeof"@ && w[1] == "alignof"@ && w[2] == "alignas"@ && w[3]
            == "__alignof__"@ && w[4] == "decltype"@ && w[5] == "typeid"@);
    }
    r
}

/// The `(` before `p` follows a name or a `sizeof`-like word, so that it opens
/// arguments and never a cast.
pub open spec fn follows_callee(toks: Seq<Token>, p: int) -> bool {
    let b = back(toks, p - 2, KindSet::Layout);
    p >= 2 && b >= 0 && (is_at(toks, b, TokenKind::Ident) || sizeof_words().contains(
        toks[b].lexeme@,
    ))
}

pub(crate) fn prev_is_sizeof_like(tokens: &[Token], p: usize) -> (r: bool)
    requires
        p <= tokens@.len(),
    ensures
        r == follows_callee(tokens@, p as int),
{
    if p < 2 {
        return false;
    }
    match back_over(tokens, p - 2, KindSet::Layout) {
        Some(b) => tokens[b].kind == TokenKind::Ident || is_sizeof_word(tokens[b].lexeme),
        None => false,
    }
}

/// The tokens from `p` on are a type and a `)`: words that open a declaration,
/// then at most one name, at least one word in all, then any `*` and `&`.
pub open spec fn type_then_close(toks: Seq<Token>, p: int) -> bool {
    let start = skip(toks, p, KindSet::Layout);
    let words = skip(toks, start, KindSet::LayoutOrDecl);
    let name = is_at(toks, words, TokenKind::Ident);
    let stars = if name {
        words + 1
    } else {
        words
    };
    (name || words > start) && is_at(
        toks,
        skip(toks, stars, KindSet::LayoutOrStar),
        TokenKind::RParen,
    )
}

pub(crate) fn next_is_type_kw(tokens: &[Token], p: usize) -> (r: bool)
    requires
        p <= tokens@.len(),
    ensures
        r == type_then_close(tokens@, p as int),
{
    let start = skip_over(tokens, p, KindSet::Layout);
    let words = skip_over(tokens, start, KindSet::LayoutOrDecl);
    let name = is_kind(tokens, words, TokenKind::Ident);
    if !name && words == start {
        return false;
    }
    let stars = if name {
        words + 1
    } else {
        words
    };
    let end = skip_over(tokens, stars, KindSet::LayoutOrStar);
    is_kind(tokens, end, TokenKind::RParen)
}

/// The tokens from `p` on read `*name)(` or `&name)(`.
pub open spec fn declares_fn_ptr(toks: Seq<Token>, p: int) -> bool {
    let star = skip(toks, p, KindSet::Layout);
    let name = skip(toks, star + 1, KindSet::Layout);
    let close = skip(toks, name + 1, KindSet::Layout);
    let open = skip(toks, close + 1, KindSet::Layout);
    (is_at(toks, star, TokenKind::Star) || is_at(toks, star, TokenKind::Amp)) && is_at(
        toks,
        name,
        TokenKind::Ident,
    ) && is_at(toks, close, TokenKind::RParen) && is_at(toks, open, TokenKind::LParen)
}

pub(crate) fn next_is_fn_ptr_declarator(tokens: &[Token], p: usize) -> (r: bool)
    requires
        p <= tokens@.len(),
    ensures
        r == declares_fn_ptr(tokens@, p as int),
{
    let star = skip_over(tokens, p, KindSet::Layout);
    if !is_kind(tokens, star, TokenKind::Star) && !is_kind(tokens, star, TokenKind::Amp) {
        return false;
    }
    let name = skip_over(tokens, star + 1, KindSet::Layout);
    if !is_kind(tokens, name, TokenKind::Ident) {
        return false;
    }
    let close = skip_over(tokens, name + 1, KindSet::Layout);
    if !is_kind(tokens, close, TokenKind::RParen) {
        return false;
    }
    let open = skip_over(tokens, close + 1, KindSet::Layout);
    is_kind(tokens, open, TokenKind::LParen)
}

// ── Comments and declarations ────────────────────────────────────────────────

/// A comment that starts on source line `line` follows on the same line.
pub open spec fn inline_comment(toks: Seq<Token>, p: int, line: u32) -> bool {
    let i = skip(toks, p, KindSet::Blank);
    any_at(toks, i, KindSet::Comment) && toks[i].span.line == line
}

pub(crate) fn peek_inline_comment(tokens: &[Token], p: usize, line: u32) -> (r: bool)
    requires
        p <= tokens@.len(),
    ensures
        r == inline_comment(tokens@, p as int, line),
{
    let i = skip_over(tokens, p, KindSet::Blank);
    in_set(tokens, i, KindSet::Comment) && tokens[i].span.line == line
}

/// A `//` comment on source line `line` follows on the same line.
pub open spec fn inline_line_comment(toks: Seq<Token>, p: int, line: u32) -> bool {
    let i = skip(toks, p, KindSet::Blank);
    is_at(toks, i, TokenKind::CommentLine) && toks[i].span.line == line
}

pub(crate) fn peek_inline_line_comment(tokens: &[Token], p: usize, line: u32) -> (r: bool)
    requires
        p <= tokens@.len(),
    ensures
        r == inline_line_comment(tokens@, p as int, line),
{
    let i = skip_over(tokens, p, KindSet::Blank);
    is_kind(tokens, i, TokenKind::CommentLine) && tokens[i].span.line == line
}

/// A name that ends before `p` is followed, on its line, by the name that it
/// declares: only blanks, `*`, `&` and type words stand between the two.
pub open spec fn name_starts_decl(toks: Seq<Token>, p: int) -> bool {
    is_at(toks, skip(toks, p, KindSet::Declarator), TokenKind::Ident)
}

pub(crate) fn ident_starts_decl(tokens: &[Token], p: usize) -> (r: bool)
    requires
        p <= tokens@.len(),
    ensures
        r == name_starts_decl(tokens@, p as int),
{
    let i = skip_over(tokens, p, KindSet::Declarator);
    is_kind(tokens, i, TokenKind::Ident)
}

/// A token of kind `k` that ends before `p` opens a declaration.
pub open spec fn starts_decl(toks: Seq<Token>, k: TokenKind, p: int) -> bool {
    KindSet::DeclStart.has(k) || (k == TokenKind::Ident && name_starts_decl(toks, p))
}

pub(crate) fn is_decl(tokens: &[Token], k: TokenKind, p: usize) -> (r: bool)
    requires
        p <= tokens@.len(),
    ensures
        r == starts_decl(tokens@, k, p as int),
{
    KindSet::DeclStart.test(k) || (k == TokenKind::Ident && ident_starts_decl(tokens, p))
}

/// The first token behind the layout and comments at `p` opens a declaration.
pub open spec fn decl_follows(toks: Seq<Token>, p: int) -> bool {
    let i = skip(toks, p, KindSet::LayoutOrComment);
    0 <= i < toks.len() && starts_decl(toks, toks[i].kind, i + 1)
}

pub(crate) fn comment_precedes_decl(tokens: &[Token], p: usize) -> (r: bool)
    requires
        p <= tokens@.len(),
    ensures
        r == decl_follows(tokens@, p as int),
{
    let i = skip_over(tokens, p, KindSet::LayoutOrComment);
    i < tokens.len() && is_decl(tokens, tokens[i].kind, i + 1)
}

// ── Initializers ─────────────────────────────────────────────────────────────

/// The most tokens that an initializer kept on one line may hold.
pub const SMALL_INIT: usize = 16;

/// The tokens from `i` up to `end` that are not layout.
pub open spec fn content(toks: Seq<Token>, i: int, end: int) -> Seq<Token>
    decreases end - i,
{
    if i >= end {
        Seq::empty()
    } else if KindSet::Layout.has(toks[i].kind) {
        content(toks, i + 1, end)
    } else {
        seq![toks[i]] + content(toks, i + 1, end)
    }
}

/// Where the `}` of a flat initializer that opened before `p` stands: one with
/// no brace and no line end inside.
pub open spec fn flat_init_end(toks: Seq<Token>, p: int) -> Option<int> {
    let end = skip(toks, p, KindSet::FlatInit);
    if is_at(toks, end, TokenKind::RBrace) {
        Some(end)
    } else {
        None
    }
}

/// As `flat_init_end`, for an initializer of at most `SMALL_INIT` tokens.
pub open spec fn small_init_end(toks: Seq<Token>, p: int) -> Option<int> {
    match flat_init_end(toks, p) {
        Some(end) => if content(toks, p, end).len() <= SMALL_INIT {
            Some(end)
        } else {
            None
        },
        None => None,
    }
}

pub(crate) fn large_flat_initializer_end(tokens: &[Token], p: usize) -> (r: Option<usize>)
    requires
        p <= tokens@.len(),
    ensures
        match r {
            Some(end) => flat_init_end(tokens@, p as int) == Some(end as int) && p <= end
                < tokens@.len() && end < usize::MAX,
            None => flat_init_end(tokens@, p as int) is None,
        },
{
    let end = skip_over(tokens, p, KindSet::FlatInit);
    if is_kind(tokens, end, TokenKind::RBrace) {
        Some(end)
    } else {
        None
    }
}

pub(crate) fn small_initializer_end(tokens: &[Token], p: usize) -> (r: Option<usize>)
    requires
        p <= tokens@.len(),
    ensures
        match r {
            Some(end) => small_init_end(tokens@, p as int) == Some(end as int) && p <= end
                < tokens@.len() && end < usize::MAX,
            None => small_init_end(tokens@, p as int) is None,
        },
{
    match large_flat_initializer_end(tokens, p) {
        None => None,
        Some(end) => {
            let mut count: usize = 0;
            let mut i: usize = p;
            while i < end
                invariant
                    p <= i <= end < tokens@.len(),
                    end < usize::MAX,
                    count <= SMALL_INIT,
                    content(tokens@, p as int, end as int).len() == count + content(
                        tokens@,
                        i as int,
                        end as int,
                    ).len(),
                    small_init_end(tokens@, p as int) == if content(
                        tokens@,
                        p as int,
                        end as int,
                    ).len() <= SMALL_INIT {
                        Some(end as int)
                    } else {
                        None
                    },
                decreases end - i,
            {
                if !KindSet::Layout.test(tokens[i].kind) {
                    count += 1;
                    if count > SMALL_INIT {
                        return None;
                    }
                }
                i += 1;
            }
            Some(end)
        },
    }
}

// ── Parenthesised heads ──────────────────────────────────────────────────────

/// Going back from `i`, the `(` that matches `depth` unclosed `)`; -1 if there
/// is none.
pub open spec fn open_paren(toks: Seq<Token>, i: int, depth: nat) -> int
    decreases i + 1,
{
    if i < 0 {
        -1
    } else if is_at(toks, i, TokenKind::RParen) {
        open_paren(toks, i - 1, depth + 1)
    } else if is_at(toks, i, TokenKind::LParen) {
        if depth <= 1 {
            i
        } else {
            open_paren(toks, i - 1, (depth - 1) as nat)
        }
    } else {
        open_paren(toks, i - 1, depth)
    }
}

/// When a `)` precedes the `{` before `p`: the token in front of the matching
/// `(`, or the list's first token; -1 if there is no such pair.
pub open spec fn head_word(toks: Seq<Token>, p: int) -> int {
    let close = back(toks, p - 2, KindSet::LayoutOrComment);
    let open = open_paren(toks, close - 1, 1);
    if p >= 2 && is_at(toks, close, TokenKind::RParen) && open >= 0 {
        back_to_first(toks, open - 1, KindSet::Layout)
    } else {
        -1
    }
}

fn find_open_paren(tokens: &[Token], close: usize) -> (r: Option<usize>)
    requires
        close < tokens@.len(),
    ensures
        match r {
            Some(i) => i == open_paren(tokens@, close - 1, 1) && i < close,
            None => open_paren(tokens@, close - 1, 1) == -1,
        },
{
    let mut i: usize = close;
    let mut depth: usize = 1;
    while i > 0
        invariant
            i <= close < tokens@.len(),
            1 <= depth <= close - i + 1,
            open_paren(tokens@, close - 1, 1) == open_paren(tokens@, i - 1, depth as nat),
        decreases i,
    {
        i -= 1;
        match tokens[i].kind {
            TokenKind::RParen => {
                depth += 1;
            },
            TokenKind::LParen => {
                if depth == 1 {
                    return Some(i);
                }
                depth -= 1;
            },
            _ => {},
        }
    }
    None
}

fn find_head_word(tokens: &[Token], p: usize) -> (r: Option<usize>)
    requires
        p <= tokens@.len(),
    ensures
        match r {
            Some(i) => i == head_word(tokens@, p as int) && i < tokens@.len(),
            None => head_word(tokens@, p as int) == -1,
        },
{
    if p < 2 {
        return None;
    }
    match back_over(tokens, p - 2, KindSet::LayoutOrComment) {
        None => None,
        Some(close) => {
            if tokens[close].kind != TokenKind::RParen {
                return None;
            }
            match find_open_paren(tokens, close) {
                None => None,
                Some(open) => {
                    if open == 0 {
                        assert(back(tokens@, -1, KindSet::Layout) == -1);
                        Some(0)
                    } else {
                        Some(back_over_to_first(tokens, open - 1, KindSet::Layout))
                    }
                },
            }
        },
    }
}

/// The `)` before the `{` closes the head of an `if`, `while`, `for` or
/// `switch`.
pub open spec fn closes_ctrl_flow(toks: Seq<Token>, p: int) -> bool {
    any_at(toks, head_word(toks, p), KindSet::BlockHead)
}

pub(crate) fn rparen_closes_ctrl_flow(tokens: &[Token], p: usize) -> (r: bool)
    requires
        p <= tokens@.len(),
    ensures
        r == closes_ctrl_flow(tokens@, p as int),
{
    match find_head_word(tokens, p) {
        Some(i) => KindSet::BlockHead.test(tokens[i].kind),
        None => false,
    }
}

/// The `)` before the `{` closes a call that stands as a statement: outside of
/// classes, the called name directly follows the end of another statement.
pub open spec fn closes_stmt_call(toks: Seq<Token>, p: int, classes: nat) -> bool {
    let name = head_word(toks, p);
    classes == 0 && name >= 0 && any_at(
        toks,
        back(toks, name - 1, KindSet::LayoutOrScope),
        KindSet::StmtBoundary,
    )
}

pub(crate) fn rparen_looks_like_call(tokens: &[Token], p: usize, classes: usize) -> (r: bool)
    requires
        p <= tokens@.len(),
    ensures
        r == closes_stmt_call(tokens@, p as int, classes as nat),
{
    if classes > 0 {
        return false;
    }
    match find_head_word(tokens, p) {
        None => false,
        Some(name) => {
            if name == 0 {
                assert(back(tokens@, -1, KindSet::LayoutOrScope) == -1);
                return false;
            }
            match back_over(tokens, name - 1, KindSet::LayoutOrScope) {
                Some(i) => KindSet::StmtBoundary.test(tokens[i].kind),
                None => false,
            }
        },
    }
}

/// The last token kind that was written, looking through comments and
/// preprocessor lines.
pub open spec fn solid_prev(toks: Seq<Token>, p: int, prev: Option<TokenKind>) -> Option<
    TokenKind,
> {
    match prev {
        Some(k) => if KindSet::CommentOrPreproc.has(k) {
            if p < 2 {
                None
            } else {
                kind_at(toks, back(toks, p - 2, KindSet::Trivia))
            }
        } else {
            Some(k)
        },
        None => None,
    }
}

pub(crate) fn prev_through_comments(tokens: &[Token], p: usize, prev: Option<TokenKind>) -> (r: Option<
    TokenKind,
>)
    requires
        p <= tokens@.len(),
    ensures
        r == solid_prev(tokens@, p as int, prev),
{
    match prev {
        Some(k) => {
            if !KindSet::CommentOrPreproc.test(k) {
                return Some(k);
            }
            if p < 2 {
                return None;
            }
            match back_over(tokens, p - 2, KindSet::Trivia) {
                Some(i) => Some(tokens[i].kind),
                None => None,
            }
        },
        None => None,
    }
}

// ── Declarators ──────────────────────────────────────────────────────────────

/// Going back from `i`, the bracket that is left open when `depth` more are
/// closed; -1 where a statement begins first.
pub open spec fn open_group(toks: Seq<Token>, i: int, depth: nat) -> int
    decreases i + 1,
{
    if !(0 <= i < toks.len()) || (depth == 0 && toks[i].kind == TokenKind::Semi) {
        -1
    } else if KindSet::Closing.has(toks[i].kind) {
        open_group(toks, i - 1, depth + 1)
    } else if KindSet::Opening.has(toks[i].kind) {
        if depth == 0 {
            i
        } else {
            open_group(toks, i - 1, (depth - 1) as nat)
        }
    } else {
        open_group(toks, i - 1, depth)
    }
}

/// Going back from `i`, the `<` that matches `depth` unclosed `>`; -1 where a
/// statement begins first.
pub open spec fn open_angle(toks: Seq<Token>, i: int, depth: nat) -> int
    decreases i + 1,
{
    if !(0 <= i < toks.len()) || any_at(toks, i, KindSet::StmtBoundary) {
        -1
    } else if is_at(toks, i, TokenKind::Gt) {
        open_angle(toks, i - 1, depth + 1)
    } else if is_at(toks, i, TokenKind::GtGt) {
        open_angle(toks, i - 1, depth + 2)
    } else if is_at(toks, i, TokenKind::Lt) {
        if depth <= 1 {
            i
        } else {
            open_angle(toks, i - 1, (depth - 1) as nat)
        }
    } else {
        open_angle(toks, i - 1, depth)
    }
}

/// The token before `i`, comments and layout aside; -1 if there is none.
pub open spec fn before(toks: Seq<Token>, i: int) -> int {
    back(toks, i - 1, KindSet::LayoutOrComment)
}

/// Where the qualified name that ends at `i` begins.
pub open spec fn name_first(toks: Seq<Token>, i: int) -> int
    decreases i + 1,
{
    let scope = before(toks, i);
    let outer = before(toks, scope);
    if !(0 <= scope < i) || !is_at(toks, scope, TokenKind::ColonColon) {
        i
    } else if outer < scope && is_at(toks, outer, TokenKind::Ident) {
        name_first(toks, outer)
    } else {
        scope
    }
}

/// The name that is called by the `(` at `open`, in front of its template
/// arguments; -1 if there is none.
pub open spec fn callee(toks: Seq<Token>, open: int) -> int {
    let last = before(toks, open);
    if is_at(toks, last, TokenKind::Gt) || is_at(toks, last, TokenKind::GtGt) {
        before(toks, open_angle(toks, last, 0))
    } else {
        last
    }
}

/// The token before the operand in front of the `*` or `&` at `i`.
pub open spec fn star_lead(toks: Seq<Token>, i: int) -> int {
    let name = back(toks, i, KindSet::LayoutOrStar);
    if is_at(toks, name, TokenKind::Ident) {
        before(toks, name_first(toks, name))
    } else {
        name
    }
}

/// A name and a `(` behind the token at `c` are a call: an operand, a statement
/// inside of a function `body`, or a member that a constructor initializes.
pub open spec fn call_follows(toks: Seq<Token>, c: int, body: bool) -> bool
    decreases c + 1,
{
    let close = before(toks, c);
    let name = callee(toks, open_paren(toks, close - 1, 1));
    let outer = before(toks, name_first(toks, name));
    if any_at(toks, c, KindSet::CallLead) || (body && any_at(toks, c, KindSet::StmtLead)) {
        true
    } else if is_at(toks, c, TokenKind::Colon) {
        is_at(toks, close, TokenKind::RParen)
    } else {
        is_at(toks, c, TokenKind::Comma) && is_at(toks, close, TokenKind::RParen) && is_at(
            toks,
            name,
            TokenKind::Ident,
        ) && 0 <= outer < c && call_follows(toks, outer, body)
    }
}

/// An operand directly behind the token at `b` stands in an expression. `body`
/// tells whether the code around it is the body of a function.
pub open spec fn leads_operand(toks: Seq<Token>, b: int, body: bool) -> bool
    decreases b + 1, 1int,
{
    if !(0 <= b < toks.len()) {
        false
    } else if KindSet::ExprLead.has(toks[b].kind) {
        true
    } else if toks[b].kind == TokenKind::Star || toks[b].kind == TokenKind::Amp {
        // a further factor
        0 <= star_lead(toks, b) < b && leads_operand(toks, star_lead(toks, b), body)
    } else if toks[b].kind == TokenKind::RParen {
        // a cast
        let outer = before(toks, open_paren(toks, b - 1, 1));
        0 <= outer < b && leads_operand(toks, outer, body)
    } else if toks[b].kind == TokenKind::Colon {
        is_at(toks, back(toks, b - 1, KindSet::WithinChoice), TokenKind::Question)
    } else if toks[b].kind == TokenKind::Comma || KindSet::Opening.has(toks[b].kind) {
        0 <= open_group(toks, b, 0) <= b && holds_operands(toks, open_group(toks, b, 0), body)
    } else {
        false
    }
}

/// The bracket at `g` encloses expressions: a subscript, an initializer, a
/// group or the arguments of a call, but not parameters or statements.
pub open spec fn holds_operands(toks: Seq<Token>, g: int, body: bool) -> bool
    decreases g + 1, 0int,
{
    let last = before(toks, g);
    if !(0 <= g < toks.len()) {
        false
    } else if toks[g].kind == TokenKind::LBracket {
        true
    } else if toks[g].kind == TokenKind::LBrace {
        let outer = open_group(toks, last, 0);
        any_at(toks, last, KindSet::ExprLead) || ((is_at(toks, last, TokenKind::Comma) || is_at(
            toks,
            last,
            TokenKind::LBrace,
        )) && is_at(toks, outer, TokenKind::LBrace) && outer < g && holds_operands(
            toks,
            outer,
            body,
        ))
    } else if any_at(toks, last, KindSet::GroupLead) && !operator_at(toks, before(toks, last)) {
        true
    } else {
        let name = callee(toks, g);
        let outer = before(toks, name_first(toks, name));
        (is_at(toks, name, TokenKind::Ident) || is_at(toks, name, TokenKind::Keyword)) && 0 <= outer
            < g
            && (call_follows(toks, outer, body && is_at(toks, name, TokenKind::Ident))
            || leads_operand(toks, outer, body))
    }
}

/// The tokens in front of `name *` belong to an expression, so that the `*`
/// before `p` multiplies.
pub open spec fn in_expression(toks: Seq<Token>, p: int, body: bool) -> bool {
    leads_operand(toks, star_lead(toks, p - 1), body)
}

fn find_open_group(tokens: &[Token], i: usize) -> (r: Option<usize>)
    requires
        i < tokens@.len(),
    ensures
        match r {
            Some(j) => j == open_group(tokens@, i as int, 0) && j <= i,
            None => open_group(tokens@, i as int, 0) == -1,
        },
{
    let mut j: usize = i;
    let mut depth: usize = 0;
    loop
        invariant
            j <= i < tokens@.len(),
            depth <= i - j,
            open_group(tokens@, i as int, 0) == open_group(tokens@, j as int, depth as nat),
        decreases j,
    {
        let k = tokens[j].kind;
        if depth == 0 && k == TokenKind::Semi {
            return None;
        }
        if KindSet::Closing.test(k) {
            depth += 1;
        } else if KindSet::Opening.test(k) {
            if depth == 0 {
                return Some(j);
            }
            depth -= 1;
        }
        if j == 0 {
            assert(open_group(tokens@, -1, depth as nat) == -1);
            return None;
        }
        j -= 1;
    }
}

fn find_open_angle(tokens: &[Token], i: usize) -> (r: Option<usize>)
    requires
        i < tokens@.len(),
    ensures
        match r {
            Some(j) => j == open_angle(tokens@, i as int, 0) && j <= i,
            None => open_angle(tokens@, i as int, 0) == -1,
        },
{
    let mut j: usize = i;
    let mut depth: u128 = 0;
    loop
        invariant
            j <= i < tokens@.len(),
            depth <= 2 * (i - j),
            open_angle(tokens@, i as int, 0) == open_angle(tokens@, j as int, depth as nat),
        decreases j,
    {
        let k = tokens[j].kind;
        if KindSet::StmtBoundary.test(k) {
            return None;
        }
        if k == TokenKind::Gt {
            depth += 1;
        } else if k == TokenKind::GtGt {
            depth += 2;
        } else if k == TokenKind::Lt {
            if depth <= 1 {
                return Some(j);
            }
            depth -= 1;
        }
        if j == 0 {
            assert(open_angle(tokens@, -1, depth as nat) == -1);
            return None;
        }
        j -= 1;
    }
}

fn find_before(tokens: &[Token], i: usize) -> (r: Option<usize>)
    requires
        i <= tokens@.len(),
    ensures
        match r {
            Some(j) => j == before(tokens@, i as int) && j < i,
            None => before(tokens@, i as int) == -1,
        },
{
    if i == 0 {
        None
    } else {
        back_over(tokens, i - 1, KindSet::LayoutOrComment)
    }
}

fn find_name_first(tokens: &[Token], i: usize) -> (r: usize)
    requires
        i < tokens@.len(),
    ensures
        r == name_first(tokens@, i as int),
        r <= i,
    decreases i,
{
    let mut first: usize = i;
    loop
        invariant_except_break
            first <= i < tokens@.len(),
            name_first(tokens@, i as int) == name_first(tokens@, first as int),
        ensures
            first <= i,
            first == name_first(tokens@, i as int),
        decreases first,
    {
        match find_before(tokens, first) {
            Some(scope) => {
                if tokens[scope].kind != TokenKind::ColonColon {
                    break;
                }
                match find_before(tokens, scope) {
                    Some(outer) => {
                        if tokens[outer].kind != TokenKind::Ident {
                            first = scope;
                            break;
                        }
                        first = outer;
                    },
                    None => {
                        first = scope;
                        break;
                    },
                }
            },
            None => {
                break;
            },
        }
    }
    first
}

/// The token in front of the qualified name that ends at `i`.
fn find_before_name(tokens: &[Token], i: usize) -> (r: Option<usize>)
    requires
        i < tokens@.len(),
    ensures
        match r {
            Some(j) => j == before(tokens@, name_first(tokens@, i as int)) && j < i,
            None => before(tokens@, name_first(tokens@, i as int)) == -1,
        },
{
    find_before(tokens, find_name_first(tokens, i))
}

fn find_callee(tokens: &[Token], open: usize) -> (r: Option<usize>)
    requires
        open < tokens@.len(),
    ensures
        match r {
            Some(j) => j == callee(tokens@, open as int) && j < open,
            None => callee(tokens@, open as int) == -1,
        },
{
    match find_before(tokens, open) {
        None => None,
        Some(last) => {
            if tokens[last].kind != TokenKind::Gt && tokens[last].kind != TokenKind::GtGt {
                return Some(last);
            }
            match find_open_angle(tokens, last) {
                Some(angle) => find_before(tokens, angle),
                None => {
                    assert(back(tokens@, -2, KindSet::LayoutOrComment) == -1);
                    None
                },
            }
        },
    }
}

fn find_star_lead(tokens: &[Token], i: usize) -> (r: Option<usize>)
    requires
        i < tokens@.len(),
    ensures
        match r {
            Some(j) => j == star_lead(tokens@, i as int) && j <= i,
            None => star_lead(tokens@, i as int) == -1,
        },
        KindSet::LayoutOrStar.has(tokens@[i as int].kind) ==> star_lead(tokens@, i as int) < i,
{
    match back_over(tokens, i, KindSet::LayoutOrStar) {
        None => None,
        Some(name) => {
            proof {
                lemma_back(tokens@, i as int, KindSet::LayoutOrStar);
            }
            if tokens[name].kind == TokenKind::Ident {
                find_before_name(tokens, name)
            } else {
                Some(name)
            }
        },
    }
}

/// Where a search back ends, the token is outside the set.
proof fn lemma_back(toks: Seq<Token>, i: int, set: KindSet)
    requires
        i < toks.len(),
    ensures
        -1 <= back(toks, i, set),
        i >= -1 ==> back(toks, i, set) <= i,
        0 <= back(toks, i, set) ==> !set.has(toks[back(toks, i, set)].kind),
    decreases i + 1,
{
    if any_at(toks, i, set) {
        lemma_back(toks, i - 1, set);
    }
}

fn is_call_lead(tokens: &[Token], c: usize, body: bool) -> (r: bool)
    requires
        c < tokens@.len(),
    ensures
        r == call_follows(tokens@, c as int, body),
    decreases c,
{
    if in_set(tokens, c, KindSet::CallLead) || (body && in_set(tokens, c, KindSet::StmtLead)) {
        return true;
    }
    let k = tokens[c].kind;
    if k != TokenKind::Colon && k != TokenKind::Comma {
        return false;
    }
    match find_before(tokens, c) {
        None => false,
        Some(close) => {
            if tokens[close].kind != TokenKind::RParen {
                return false;
            }
            if k == TokenKind::Colon {
                return true;
            }
            match find_open_paren(tokens, close) {
                None => {
                    assert(back(tokens@, -2, KindSet::LayoutOrComment) == -1);
                    false
                },
                Some(open) => match find_callee(tokens, open) {
                    None => false,
                    Some(name) => {
                        if tokens[name].kind != TokenKind::Ident {
                            return false;
                        }
                        match find_before_name(tokens, name) {
                            None => false,
                            Some(outer) => is_call_lead(tokens, outer, body),
                        }
                    },
                },
            }
        },
    }
}

fn is_operand_lead(tokens: &[Token], b: usize, body: bool) -> (r: bool)
    requires
        b < tokens@.len(),
    ensures
        r == leads_operand(tokens@, b as int, body),
    decreases b, 1int,
{
    let k = tokens[b].kind;
    if KindSet::ExprLead.test(k) {
        return true;
    }
    if k == TokenKind::Star || k == TokenKind::Amp {
        return match find_star_lead(tokens, b) {
            Some(lead) => is_operand_lead(tokens, lead, body),
            None => false,
        };
    }
    if k == TokenKind::RParen {
        return match find_open_paren(tokens, b) {
            Some(open) => match find_before(tokens, open) {
                Some(outer) => is_operand_lead(tokens, outer, body),
                None => false,
            },
            None => {
                assert(back(tokens@, -2, KindSet::LayoutOrComment) == -1);
                false
            },
        };
    }
    if k == TokenKind::Colon {
        if b == 0 {
            assert(back(tokens@, -1, KindSet::WithinChoice) == -1);
            return false;
        }
        return match back_over(tokens, b - 1, KindSet::WithinChoice) {
            Some(i) => tokens[i].kind == TokenKind::Question,
            None => false,
        };
    }
    if k == TokenKind::Comma || KindSet::Opening.test(k) {
        return match find_open_group(tokens, b) {
            Some(g) => is_operand_group(tokens, g, body),
            None => false,
        };
    }
    false
}

fn is_operand_group(tokens: &[Token], g: usize, body: bool) -> (r: bool)
    requires
        g < tokens@.len(),
    ensures
        r == holds_operands(tokens@, g as int, body),
    decreases g, 0int,
{
    if tokens[g].kind == TokenKind::LBracket {
        return true;
    }
    let last = match find_before(tokens, g) {
        Some(last) => last,
        None => {
            assert(back(tokens@, -2, KindSet::LayoutOrComment) == -1);
            return false;
        },
    };
    if tokens[g].kind == TokenKind::LBrace {
        if in_set(tokens, last, KindSet::ExprLead) {
            return true;
        }
        if tokens[last].kind != TokenKind::Comma && tokens[last].kind != TokenKind::LBrace {
            return false;
        }
        return match find_open_group(tokens, last) {
            Some(outer) => tokens[outer].kind == TokenKind::LBrace && is_operand_group(
                tokens,
                outer,
                body,
            ),
            None => false,
        };
    }
    if in_set(tokens, last, KindSet::GroupLead) && !match find_before(tokens, last) {
        Some(i) => tokens[i].kind == TokenKind::Keyword && same_text(tokens[i].lexeme, "operator"),
        None => false,
    } {
        return true;
    }
    match find_callee(tokens, g) {
        None => false,
        Some(name) => {
            let k = tokens[name].kind;
            if k != TokenKind::Ident && k != TokenKind::Keyword {
                return false;
            }
            match find_before_name(tokens, name) {
                None => false,
                Some(outer) => is_call_lead(tokens, outer, body && k == TokenKind::Ident)
                    || is_operand_lead(tokens, outer, body),
            }
        },
    }
}

fn star_is_in_expression(tokens: &[Token], p: usize, body: bool) -> (r: bool)
    requires
        1 <= p <= tokens@.len(),
    ensures
        r == in_expression(tokens@, p as int, body),
{
    match find_star_lead(tokens, p - 1) {
        Some(lead) => is_operand_lead(tokens, lead, body),
        None => false,
    }
}

/// Words that can qualify a pointer, behind its `*`.
pub open spec fn qualifier_words() -> Seq<Seq<char>> {
    seq!["const"@, "volatile"@, "restrict"@, "__restrict"@, "__restrict__"@]
}

fn is_qualifier_word(s: &str) -> (r: bool)
    ensures
        r == qualifier_words().contains(s@),
{
    let r = same_text(s, "const") || same_text(s, "volatile") || same_text(s, "restrict")
        || same_text(s, "__restrict") || same_text(s, "__restrict__");
    proof {
        let w = qualifier_words();
        assert(w[0] == "const"@ && w[1] == "volatile"@ && w[2] == "restrict"@ && w[3]
            == "__restrict"@ && w[4] == "__restrict__"@);
    }
    r
}

/// Behind the pointer qualifiers that start at `i`.
pub open spec fn after_qualifiers(toks: Seq<Token>, i: int) -> int
    decreases toks.len() - i,
{
    if is_at(toks, i, TokenKind::Keyword) && qualifier_words().contains(toks[i].lexeme@) {
        let next = skip(toks, i + 1, KindSet::Layout);
        if i < next <= toks.len() {
            after_qualifiers(toks, next)
        } else {
            i
        }
    } else {
        i
    }
}

fn skip_qualifiers(tokens: &[Token], i: usize) -> (r: usize)
    requires
        i <= tokens@.len(),
    ensures
        r == after_qualifiers(tokens@, i as int),
        i <= r <= tokens@.len(),
{
    let mut j: usize = i;
    while is_kind(tokens, j, TokenKind::Keyword) && is_qualifier_word(tokens[j].lexeme)
        invariant
            i <= j <= tokens@.len(),
            after_qualifiers(tokens@, i as int) == after_qualifiers(tokens@, j as int),
        decreases tokens@.len() - j,
    {
        j = skip_over(tokens, j + 1, KindSet::Layout);
    }
    j
}

/// A possibly qualified name: where it ends, whether it holds a name at all,
/// and whether it ends in `operator`.
pub struct NameScan {
    pub end: int,
    pub found: bool,
    pub operator: bool,
}

/// The token at `i` is the word `operator`.
pub open spec fn operator_at(toks: Seq<Token>, i: int) -> bool {
    is_at(toks, i, TokenKind::Keyword) && toks[i].lexeme@ == "operator"@
}

/// Reads a qualified name from `i` on; `found` and `operator` tell what was
/// read so far.
pub open spec fn scan_name(toks: Seq<Token>, i: int, found: bool, operator: bool) -> NameScan
    decreases toks.len() - i,
{
    if is_at(toks, i, TokenKind::Ident) {
        scan_name(toks, i + 1, true, false)
    } else if operator_at(toks, i) {
        scan_name(toks, i + 1, true, true)
    } else if is_at(toks, i, TokenKind::ColonColon) {
        scan_name(toks, i + 1, found, false)
    } else if any_at(toks, i, KindSet::Layout) || is_at(toks, i, TokenKind::PreprocLine) {
        scan_name(toks, i + 1, found, operator)
    } else {
        NameScan { end: i, found, operator }
    }
}

/// Behind the symbol that `operator` overloads, when one starts at `i`.
pub open spec fn after_symbol(toks: Seq<Token>, i: int) -> int {
    let sym = skip(toks, i, KindSet::Layout);
    if any_at(toks, sym, KindSet::BinaryOp) || any_at(toks, sym, KindSet::OverloadSymbol) {
        if is_at(toks, sym + 1, TokenKind::RParen) || is_at(toks, sym + 1, TokenKind::RBracket) {
            sym + 2
        } else {
            sym + 1
        }
    } else {
        sym
    }
}

/// The tokens from `p` on read as a declared name and the end of a declarator.
pub open spec fn declarator_follows(toks: Seq<Token>, p: int) -> bool {
    let start = after_qualifiers(toks, skip(toks, p, KindSet::LayoutOrStar));
    let name = scan_name(toks, start, false, false);
    let end = if name.operator {
        after_symbol(toks, name.end)
    } else {
        name.end
    };
    name.found && any_at(toks, skip(toks, end, KindSet::Trivia), KindSet::DeclEnd)
}

fn declarator_is_next(tokens: &[Token], p: usize) -> (r: bool)
    requires
        p <= tokens@.len(),
    ensures
        r == declarator_follows(tokens@, p as int),
{
    let stars = skip_over(tokens, p, KindSet::LayoutOrStar);
    let start = skip_qualifiers(tokens, stars);
    let mut i: usize = start;
    let mut found = false;
    let mut operator = false;
    loop
        invariant_except_break
            start <= i <= tokens@.len(),
            scan_name(tokens@, start as int, false, false) == scan_name(
                tokens@,
                i as int,
                found,
                operator,
            ),
        ensures
            start <= i <= tokens@.len(),
            scan_name(tokens@, start as int, false, false) == (NameScan {
                end: i as int,
                found,
                operator,
            }),
        decreases tokens@.len() - i,
    {
        if is_kind(tokens, i, TokenKind::Ident) {
            found = true;
            operator = false;
        } else if is_kind(tokens, i, TokenKind::Keyword) && same_text(tokens[i].lexeme, "operator") {
            found = true;
            operator = true;
        } else if is_kind(tokens, i, TokenKind::ColonColon) {
            operator = false;
        } else if !in_set(tokens, i, KindSet::Layout) && !is_kind(
            tokens,
            i,
            TokenKind::PreprocLine,
        ) {
            break;
        }
        i += 1;
    }
    if !found {
        return false;
    }
    if operator {
        i = skip_over(tokens, i, KindSet::Layout);
        if in_set(tokens, i, KindSet::BinaryOp) || in_set(tokens, i, KindSet::OverloadSymbol) {
            i += 1;
            if is_kind(tokens, i, TokenKind::RParen) || is_kind(tokens, i, TokenKind::RBracket) {
                i += 1;
            }
        }
    }
    i = skip_over(tokens, i, KindSet::Trivia);
    in_set(tokens, i, KindSet::DeclEnd)
}

/// The `*` or `&` before `p`, which follows a name, declares a pointer. `body`
/// tells whether it stands in the body of a function.
pub open spec fn star_declares(toks: Seq<Token>, p: int, body: bool) -> bool {
    !in_expression(toks, p, body) && declarator_follows(toks, p)
}

pub(crate) fn star_after_ident_is_decl(tokens: &[Token], p: usize, body: bool) -> (r: bool)
    requires
        1 <= p <= tokens@.len(),
    ensures
        r == star_declares(tokens@, p as int, body),
{
    !star_is_in_expression(tokens, p, body) && declarator_is_next(tokens, p)
}

/// The `*` or `&` before `p` is a declarator, given the kind written before it.
pub open spec fn ptr_declares(
    toks: Seq<Token>,
    p: int,
    prev: Option<TokenKind>,
    body: bool,
) -> bool {
    match prev {
        Some(k) => KindSet::PtrIntro.has(k) || (k == TokenKind::Ident && star_declares(
            toks,
            p,
            body,
        )),
        None => false,
    }
}

pub(crate) fn is_ptr_decl_context(
    tokens: &[Token],
    p: usize,
    prev: Option<TokenKind>,
    body: bool,
) -> (r: bool)
    requires
        1 <= p <= tokens@.len(),
    ensures
        r == ptr_declares(tokens@, p as int, prev, body),
{
    match prev {
        Some(k) => KindSet::PtrIntro.test(k) || (k == TokenKind::Ident && star_after_ident_is_decl(
            tokens,
            p,
            body,
        )),
        None => false,
    }
}

// ── Templates ────────────────────────────────────────────────────────────────

/// How many tokens the search for a template's closing bracket looks at.
pub const TEMPLATE_SCAN: usize = 256;

/// Within `budget` tokens from `i` on, `depth` open angle brackets are closed
/// with nothing but template arguments between. A `>>` closes two brackets, or
/// the last one.
pub open spec fn closes_template(toks: Seq<Token>, i: int, depth: nat, budget: nat) -> bool
    decreases budget,
{
    if budget == 0 || !(0 <= i < toks.len()) {
        false
    } else if is_at(toks, i, TokenKind::Lt) {
        closes_template(toks, i + 1, depth + 1, (budget - 1) as nat)
    } else if is_at(toks, i, TokenKind::Gt) {
        depth <= 1 || closes_template(toks, i + 1, (depth - 1) as nat, (budget - 1) as nat)
    } else if is_at(toks, i, TokenKind::GtGt) {
        depth <= 2 || closes_template(toks, i + 1, (depth - 2) as nat, (budget - 1) as nat)
    } else {
        (any_at(toks, i, KindSet::Layout) || any_at(toks, i, KindSet::TemplateArg))
            && closes_template(toks, i + 1, depth, (budget - 1) as nat)
    }
}

/// The `<` before `p` opens a template argument list.
pub open spec fn opens_template(toks: Seq<Token>, p: int) -> bool {
    closes_template(toks, p, 1, TEMPLATE_SCAN as nat)
}

pub(crate) fn looks_like_template_open(tokens: &[Token], p: usize) -> (r: bool)
    requires
        p <= tokens@.len(),
    ensures
        r == opens_template(tokens@, p as int),
{
    let mut i: usize = p;
    let mut depth: usize = 1;
    let mut budget: usize = TEMPLATE_SCAN;
    while budget > 0 && i < tokens.len()
        invariant
            p <= i <= tokens@.len(),
            budget <= TEMPLATE_SCAN,
            1 <= depth <= 1 + TEMPLATE_SCAN - budget,
            opens_template(tokens@, p as int) == closes_template(
                tokens@,
                i as int,
                depth as nat,
                budget as nat,
            ),
        decreases budget,
    {
        match tokens[i].kind {
            TokenKind::Lt => {
                depth += 1;
            },
            TokenKind::Gt => {
                if depth == 1 {
                    return true;
                }
                depth -= 1;
            },
            TokenKind::GtGt => {
                if depth <= 2 {
                    return true;
                }
                depth -= 2;
            },
            k => {
                if !KindSet::Layout.test(k) && !KindSet::TemplateArg.test(k) {
                    return false;
                }
            },
        }
        i += 1;
        budget -= 1;
    }
    false
}

} // verus!
