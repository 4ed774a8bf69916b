//! Injected braces enclose one statement each.

use crate::config::{BraceConfig, Config};
use crate::token::{KindSet, Token, TokenKind};
use vstd::prelude::*;

verus! {

// ── Nesting ──────────────────────────────────────────────────────────────────

/// How many more `{` than `}` stand from `i` up to `j`.
pub open spec fn level(toks: Seq<Token>, i: int, j: int) -> int
    decreases j - i,
{
    if j <= i {
        0
    } else {
        level(toks, i, j - 1) + match toks[j - 1].kind {
            TokenKind::LBrace => 1int,
            TokenKind::RBrace => -1int,
            _ => 0int,
        }
    }
}

/// How many more `(` than `)` stand from `i` up to `j`.
pub open spec fn nest(toks: Seq<Token>, i: int, j: int) -> int
    decreases j - i,
{
    if j <= i {
        0
    } else {
        nest(toks, i, j - 1) + match toks[j - 1].kind {
            TokenKind::LParen => 1int,
            TokenKind::RParen => -1int,
            _ => 0int,
        }
    }
}

/// No `}` from `i` up to `j` closes a `{` before `i`.
pub open spec fn stays_inside(toks: Seq<Token>, i: int, j: int) -> bool {
    forall|x: int| i <= x <= j ==> #[trigger] level(toks, i, x) >= 0
}

/// The `(` at `o` is closed by the `)` in front of `h`.
pub open spec fn shut(toks: Seq<Token>, o: int, h: int) -> bool {
    &&& 0 <= o < h <= toks.len()
    &&& toks[o].kind == TokenKind::LParen
    &&& nest(toks, o, h) == 0
    &&& forall|x: int| o < x < h ==> #[trigger] nest(toks, o, x) > 0
}

/// The block whose `{` stands at `i` ends in front of `j`: with its `}`, or with
/// the source.
pub open spec fn closed(toks: Seq<Token>, i: int, j: int) -> bool {
    &&& 0 <= i < j <= toks.len()
    &&& toks[i].kind == TokenKind::LBrace
    &&& forall|x: int| i < x < j ==> #[trigger] level(toks, i, x) > 0
    &&& level(toks, i, j) == 0 || (j == toks.len() && level(toks, i, j) > 0)
}

/// Every `(` is closed, and the braces between it and its `)` are balanced.
pub open spec fn well_nested(toks: Seq<Token>) -> bool {
    forall|o: int|
        0 <= o < toks.len() && (#[trigger] toks[o]).kind == TokenKind::LParen ==> exists|h: int|
            #[trigger] shut(toks, o, h) && level(toks, o, h) == 0 && stays_inside(toks, o, h)
}

// ── Grammar ──────────────────────────────────────────────────────────────────

/// Blanks, line ends and comments.
pub open spec fn is_trivial(k: TokenKind) -> bool {
    k == TokenKind::Whitespace || k == TokenKind::Newline || k == TokenKind::CommentLine || k
        == TokenKind::CommentBlock
}

/// The first position from `i` on that holds neither layout nor a comment.
pub open spec fn first(toks: Seq<Token>, i: int) -> int
    decreases toks.len() - i,
{
    if 0 <= i < toks.len() && is_trivial(toks[i].kind) {
        first(toks, i + 1)
    } else {
        i
    }
}

/// The first position from `i` on that holds no layout.
pub open spec fn past_layout(toks: Seq<Token>, i: int) -> int
    decreases toks.len() - i,
{
    if 0 <= i < toks.len() && (toks[i].kind == TokenKind::Whitespace || toks[i].kind
        == TokenKind::Newline) {
        past_layout(toks, i + 1)
    } else {
        i
    }
}

/// The first position from `i` on that holds no blanks.
pub open spec fn past_blanks(toks: Seq<Token>, i: int) -> int
    decreases toks.len() - i,
{
    if 0 <= i < toks.len() && toks[i].kind == TokenKind::Whitespace {
        past_blanks(toks, i + 1)
    } else {
        i
    }
}

/// The first position from `i` on that is no word in front of a head:
/// `constexpr`, `!` or the name of a macro.
pub open spec fn past_words(toks: Seq<Token>, i: int) -> int
    decreases toks.len() - i,
{
    if 0 <= i < toks.len() && (is_trivial(toks[i].kind) || toks[i].kind == TokenKind::Keyword
        || toks[i].kind == TokenKind::Bang || toks[i].kind == TokenKind::Ident) {
        past_words(toks, i + 1)
    } else {
        i
    }
}

/// A token of kind `k` stands at `i`.
pub open spec fn at(toks: Seq<Token>, i: int, k: TokenKind) -> bool {
    0 <= i < toks.len() && toks[i].kind == k
}

/// The head of the control keyword at `i` ends at `h`: behind its parentheses,
/// at the `{` where there are none, else behind the keyword and its layout.
pub open spec fn headed(toks: Seq<Token>, i: int, h: int) -> bool {
    let o = past_words(toks, i + 1);
    &&& i < h <= toks.len()
    &&& if at(toks, o, TokenKind::LParen) {
        shut(toks, o, h)
    } else if at(toks, o, TokenKind::LBrace) {
        h == o
    } else {
        h == past_layout(toks, i + 1)
    }
}

/// No `;` from `i` up to `j` ends the statement that begins at `i`.
pub open spec fn unended(toks: Seq<Token>, i: int, j: int) -> bool {
    forall|x: int|
        i <= x < j && (#[trigger] toks[x]).kind == TokenKind::Semi ==> level(toks, i, x) > 0
}

/// The tokens from `i` up to `j` reach through the first `;` outside of braces,
/// which stands at `m`, and through a comment of its line.
pub open spec fn ends_at(toks: Seq<Token>, i: int, m: int, j: int) -> bool {
    let c = past_blanks(toks, m + 1);
    &&& i <= m < j <= toks.len()
    &&& toks[m].kind == TokenKind::Semi && level(toks, i, m) == 0
    &&& stays_inside(toks, i, m)
    &&& unended(toks, i, m)
    &&& if at(toks, c, TokenKind::CommentLine) || at(toks, c, TokenKind::CommentBlock) {
        j == c + 1
    } else {
        j == m + 1
    }
}

/// The tokens from `i` up to `j` are all that is left: in front of a `}` that
/// closes the block around them, or of the end of the source.
pub open spec fn cut_off(toks: Seq<Token>, i: int, j: int) -> bool {
    &&& i <= j <= toks.len()
    &&& stays_inside(toks, i, j)
    &&& unended(toks, i, j)
    &&& j == toks.len() || (toks[j].kind == TokenKind::RBrace && level(toks, i, j) == 0)
}

/// One statement through its `;`.
pub open spec fn simple(toks: Seq<Token>, i: int, j: int) -> bool {
    cut_off(toks, i, j) || exists|m: int| #[trigger] ends_at(toks, i, m, j)
}

/// A name with arguments stands at `i`, and a `{` behind them at `b`.
pub open spec fn heads_block(toks: Seq<Token>, i: int, b: int) -> bool {
    let o = past_layout(toks, i + 1);
    at(toks, i, TokenKind::Ident) && at(toks, b, TokenKind::LBrace) && exists|h: int|
        #[trigger] shut(toks, o, h) && first(toks, h) == b
}

/// The parts of a statement.
pub enum Tree {
    /// The source ends.
    Missing,
    /// A `;` in place of a body.
    Empty,
    /// Tokens through a `;`.
    Simple,
    Block,
    If { head: int, then: Box<Tree>, next: int, other: Box<Tree> },
    Else { body: Box<Tree> },
    NoElse,
    Loop { head: int, body: Box<Tree> },
    Do { body: Box<Tree>, next: int },
    Switch { head: int, body: Box<Tree> },
    Try { body: Box<Tree>, next: int, rest: Box<Tree> },
    Catch { head: int, body: Box<Tree>, next: int, rest: Box<Tree> },
    NoCatch,
    /// A macro that heads a block.
    Call { at: int },
}

/// The kind of a token that makes the statement behind it more than tokens
/// through a `;`.
pub open spec fn is_compound(k: TokenKind) -> bool {
    k == TokenKind::LBrace || k == TokenKind::KwIf || k == TokenKind::KwElse || k
        == TokenKind::KwFor || k == TokenKind::KwWhile || k == TokenKind::KwDo || k
        == TokenKind::KwSwitch || k == TokenKind::KwTry
}

/// The tokens from `s` up to `j` are one statement with the given parts.
pub open spec fn fits(t: Tree, toks: Seq<Token>, s: int, j: int) -> bool
    decreases t, 0int,
{
    match t {
        Tree::Missing => s >= toks.len() && j == s,
        Tree::Empty => false,
        Tree::NoElse => false,
        Tree::Simple => {
            &&& 0 <= s < toks.len() && !is_compound(toks[s].kind)
            &&& forall|b: int| !#[trigger] heads_block(toks, s, b)
            &&& simple(toks, s, j)
        },
        Tree::Block => closed(toks, s, j),
        Tree::If { head, then, next, other } => {
            let e = first(toks, next);
            &&& at(toks, s, TokenKind::KwIf) && headed(toks, s, head)
            &&& is_body(*then, toks, head, next)
            &&& if at(toks, e, TokenKind::KwElse) {
                fits(*other, toks, e, j)
            } else {
                *other is NoElse && j == next
            }
        },
        Tree::Else { body } => {
            let b = first(toks, s + 1);
            &&& at(toks, s, TokenKind::KwElse)
            &&& if at(toks, b, TokenKind::KwIf) {
                fits(*body, toks, b, j)
            } else {
                is_body(*body, toks, s + 1, j)
            }
        },
        Tree::Loop { head, body } => {
            &&& at(toks, s, TokenKind::KwFor) || at(toks, s, TokenKind::KwWhile)
            &&& headed(toks, s, head) && is_body(*body, toks, head, j)
        },
        Tree::Do { body, next } => {
            let w = first(toks, next);
            &&& at(toks, s, TokenKind::KwDo)
            &&& fits(*body, toks, first(toks, s + 1), next)
            &&& if at(toks, w, TokenKind::KwWhile) {
                simple(toks, w, j)
            } else {
                j == next
            }
        },
        Tree::Switch { head, body } => {
            &&& at(toks, s, TokenKind::KwSwitch)
            &&& headed(toks, s, head) && fits(*body, toks, first(toks, head), j)
        },
        Tree::Try { body, next, rest } => {
            &&& at(toks, s, TokenKind::KwTry)
            &&& fits(*body, toks, first(toks, s + 1), next) && fits(*rest, toks, next, j)
        },
        Tree::Catch { head, body, next, rest } => {
            let c = first(toks, s);
            &&& at(toks, c, TokenKind::KwCatch)
            &&& headed(toks, c, head) && fits(*body, toks, first(toks, head), next)
            &&& fits(*rest, toks, next, j)
        },
        Tree::NoCatch => !at(toks, first(toks, s), TokenKind::KwCatch) && j == s,
        Tree::Call { at } => heads_block(toks, s, at) && closed(toks, at, j),
    }
}

/// The tokens from `h` up to `j` are the body of a control statement: one
/// statement, or a `;` alone.
pub open spec fn is_body(t: Tree, toks: Seq<Token>, h: int, j: int) -> bool
    decreases t, 1int,
{
    let b = first(toks, h);
    if at(toks, b, TokenKind::Semi) {
        t is Empty && j == b + 1
    } else {
        fits(t, toks, b, j)
    }
}

// ── Counting ─────────────────────────────────────────────────────────────────

proof fn lemma_level_add(toks: Seq<Token>, i: int, m: int, j: int)
    requires
        i <= m <= j,
    ensures
        level(toks, i, j) == level(toks, i, m) + level(toks, m, j),
    decreases j - m,
{
    if m < j {
        lemma_level_add(toks, i, m, j - 1);
    }
}

proof fn lemma_nest_add(toks: Seq<Token>, i: int, m: int, j: int)
    requires
        i <= m <= j,
    ensures
        nest(toks, i, j) == nest(toks, i, m) + nest(toks, m, j),
    decreases j - m,
{
    if m < j {
        lemma_nest_add(toks, i, m, j - 1);
    }
}

/// One token in front.
proof fn lemma_level_first(toks: Seq<Token>, i: int, j: int)
    requires
        i < j,
    ensures
        level(toks, i, j) == level(toks, i + 1, j) + match toks[i].kind {
            TokenKind::LBrace => 1int,
            TokenKind::RBrace => -1int,
            _ => 0int,
        },
{
    reveal_with_fuel(level, 2);
    lemma_level_add(toks, i, i + 1, j);
}

proof fn lemma_nest_first(toks: Seq<Token>, i: int, j: int)
    requires
        i < j,
    ensures
        nest(toks, i, j) == nest(toks, i + 1, j) + match toks[i].kind {
            TokenKind::LParen => 1int,
            TokenKind::RParen => -1int,
            _ => 0int,
        },
{
    reveal_with_fuel(nest, 2);
    lemma_nest_add(toks, i, i + 1, j);
}

/// The braces from `i` up to `j` are whole, unless the source ends there.
pub open spec fn whole(toks: Seq<Token>, i: int, j: int) -> bool {
    &&& 0 <= i <= j <= toks.len()
    &&& stays_inside(toks, i, j)
    &&& level(toks, i, j) == 0 || j == toks.len()
}

proof fn lemma_whole_add(toks: Seq<Token>, i: int, m: int, j: int)
    requires
        whole(toks, i, m),
        whole(toks, m, j),
    ensures
        whole(toks, i, j),
{
    lemma_level_add(toks, i, m, j);
    assert forall|x: int| i <= x <= j implies #[trigger] level(toks, i, x) >= 0 by {
        if x > m {
            lemma_level_add(toks, i, m, x);
            assert(level(toks, m, x) >= 0);
            assert(level(toks, i, m) >= 0);
        }
    }
}

/// A token that is no brace.
proof fn lemma_whole_one(toks: Seq<Token>, i: int)
    requires
        0 <= i < toks.len(),
        toks[i].kind != TokenKind::LBrace && toks[i].kind != TokenKind::RBrace,
    ensures
        whole(toks, i, i + 1),
{
    reveal_with_fuel(level, 2);
    assert forall|x: int| i <= x <= i + 1 implies #[trigger] level(toks, i, x) >= 0 by {
        lemma_level_first(toks, i, i + 1);
    }
}

proof fn lemma_whole_empty(toks: Seq<Token>, i: int)
    requires
        0 <= i <= toks.len(),
    ensures
        whole(toks, i, i),
{
    assert forall|x: int| i <= x <= i implies #[trigger] level(toks, i, x) >= 0 by {}
}

/// Layout, comments and words hold no brace.
pub proof fn lemma_walks(toks: Seq<Token>, i: int)
    requires
        0 <= i <= toks.len(),
    ensures
        i <= first(toks, i) <= toks.len(),
        crate::scan::skip(toks, i, KindSet::LayoutOrComment) == first(toks, i),
        whole(toks, i, first(toks, i)),
        first(toks, first(toks, i)) == first(toks, i),
    decreases toks.len() - i,
{
    lemma_whole_empty(toks, i);
    if i < toks.len() && is_trivial(toks[i].kind) {
        lemma_walks(toks, i + 1);
        lemma_whole_one(toks, i);
        lemma_whole_add(toks, i, i + 1, first(toks, i));
    }
}

proof fn lemma_layout_walk(toks: Seq<Token>, i: int)
    requires
        0 <= i <= toks.len(),
    ensures
        i <= past_layout(toks, i) <= toks.len(),
        crate::scan::skip(toks, i, KindSet::Layout) == past_layout(toks, i),
        whole(toks, i, past_layout(toks, i)),
        first(toks, past_layout(toks, i)) == first(toks, i),
    decreases toks.len() - i,
{
    lemma_whole_empty(toks, i);
    if i < toks.len() && (toks[i].kind == TokenKind::Whitespace || toks[i].kind
        == TokenKind::Newline) {
        lemma_layout_walk(toks, i + 1);
        lemma_whole_one(toks, i);
        lemma_whole_add(toks, i, i + 1, past_layout(toks, i));
    }
}

proof fn lemma_words_walk(toks: Seq<Token>, i: int)
    requires
        0 <= i <= toks.len(),
    ensures
        i <= past_words(toks, i) <= toks.len(),
        crate::scan::skip(toks, i, KindSet::HeadWord) == past_words(toks, i),
        whole(toks, i, past_words(toks, i)),
    decreases toks.len() - i,
{
    lemma_whole_empty(toks, i);
    if i < toks.len() && (is_trivial(toks[i].kind) || toks[i].kind == TokenKind::Keyword
        || toks[i].kind == TokenKind::Bang || toks[i].kind == TokenKind::Ident) {
        lemma_words_walk(toks, i + 1);
        lemma_whole_one(toks, i);
        lemma_whole_add(toks, i, i + 1, past_words(toks, i));
    }
}

proof fn lemma_blanks_walk(toks: Seq<Token>, i: int)
    requires
        0 <= i <= toks.len(),
    ensures
        i <= past_blanks(toks, i) <= toks.len(),
        crate::scan::skip(toks, i, KindSet::Blank) == past_blanks(toks, i),
        whole(toks, i, past_blanks(toks, i)),
    decreases toks.len() - i,
{
    lemma_whole_empty(toks, i);
    if i < toks.len() && toks[i].kind == TokenKind::Whitespace {
        lemma_blanks_walk(toks, i + 1);
        lemma_whole_one(toks, i);
        lemma_whole_add(toks, i, i + 1, past_blanks(toks, i));
    }
}

// ── Extents ──────────────────────────────────────────────────────────────────

/// A `)` that closes `d` parentheses stands in front of `h`.
proof fn lemma_paren_end(toks: Seq<Token>, i: int, h: int, d: nat)
    requires
        0 <= i < h <= toks.len(),
        d >= 1,
        nest(toks, i, h) + d == 0,
        forall|x: int| i <= x < h ==> #[trigger] nest(toks, i, x) + d > 0,
    ensures
        crate::inject::paren_end(toks, i, d) == h,
    decreases h - i,
{
    lemma_nest_first(toks, i, i + 1);
    if i + 1 == h {
        assert(toks[i].kind == TokenKind::RParen && d == 1);
    } else {
        assert(nest(toks, i, i + 1) + d > 0);
        let e: nat = (d + nest(toks, i, i + 1)) as nat;
        lemma_nest_add(toks, i, i + 1, h);
        assert forall|x: int| i + 1 <= x < h implies #[trigger] nest(toks, i + 1, x) + e > 0 by {
            lemma_nest_add(toks, i, i + 1, x);
            assert(nest(toks, i, x) + d > 0);
        }
        lemma_paren_end(toks, i + 1, h, e);
    }
}

/// The parentheses that open at `o`.
proof fn lemma_shut(toks: Seq<Token>, o: int, h: int)
    requires
        shut(toks, o, h),
    ensures
        crate::inject::paren_end(toks, o + 1, 1) == h,
{
    lemma_nest_first(toks, o, h);
    assert forall|x: int| o + 1 <= x < h implies #[trigger] nest(toks, o + 1, x) + 1 > 0 by {
        lemma_nest_first(toks, o, x);
        assert(nest(toks, o, x) > 0);
    }
    assert(o + 1 < h) by {
        if o + 1 == h {
            lemma_nest_first(toks, o, o + 1);
        }
    }
    lemma_paren_end(toks, o + 1, h, 1);
}

/// A `(` of well nested tokens.
proof fn lemma_group(toks: Seq<Token>, o: int)
    requires
        well_nested(toks),
        at(toks, o, TokenKind::LParen),
    ensures
        shut(toks, o, crate::inject::paren_end(toks, o + 1, 1)),
        whole(toks, o, crate::inject::paren_end(toks, o + 1, 1)),
        forall|h: int|
            #[trigger] shut(toks, o, h) ==> h == crate::inject::paren_end(toks, o + 1, 1),
{
    let k = toks[o].kind;
    let h = choose|h: int|
        #[trigger] shut(toks, o, h) && level(toks, o, h) == 0 && stays_inside(toks, o, h);
    lemma_shut(toks, o, h);
    assert forall|g: int| #[trigger] shut(toks, o, g) implies g == crate::inject::paren_end(
        toks,
        o + 1,
        1,
    ) by {
        lemma_shut(toks, o, g);
    }
}

/// The head of a control statement.
proof fn lemma_head(toks: Seq<Token>, i: int)
    requires
        well_nested(toks),
        0 <= i < toks.len(),
        toks[i].kind != TokenKind::LBrace && toks[i].kind != TokenKind::RBrace,
    ensures
        headed(toks, i, crate::inject::head_end(toks, i)),
        whole(toks, i, crate::inject::head_end(toks, i)),
{
    let o = past_words(toks, i + 1);
    let h = crate::inject::head_end(toks, i);
    lemma_words_walk(toks, i + 1);
    lemma_layout_walk(toks, i + 1);
    lemma_whole_one(toks, i);
    if at(toks, o, TokenKind::LParen) {
        lemma_group(toks, o);
        lemma_whole_add(toks, i, i + 1, o);
        lemma_whole_add(toks, i, o, h);
    } else {
        lemma_whole_add(toks, i, i + 1, h);
    }
}

/// The end of a statement that goes on at `i`, inside of `d` braces.
proof fn lemma_stmt_end(toks: Seq<Token>, i: int, d: nat) -> (m: int)
    requires
        0 <= i <= toks.len(),
    ensures
        ({
            let j = crate::inject::stmt_end(toks, i, d);
            let c = past_blanks(toks, m + 1);
            &&& i <= j <= toks.len()
            &&& i <= m <= j
            &&& forall|x: int| i <= x <= m ==> #[trigger] level(toks, i, x) + d >= 0
            &&& forall|x: int|
                i <= x < m && (#[trigger] toks[x]).kind == TokenKind::Semi ==> level(toks, i, x)
                    + d > 0
            &&& if at(toks, m, TokenKind::Semi) && level(toks, i, m) + d == 0 {
                if at(toks, c, TokenKind::CommentLine) || at(toks, c, TokenKind::CommentBlock) {
                    j == c + 1
                } else {
                    j == m + 1
                }
            } else {
                m == j && (j == toks.len() || (toks[j].kind == TokenKind::RBrace && level(
                    toks,
                    i,
                    j,
                ) + d == 0))
            }
        }),
    decreases toks.len() - i,
{
    if i >= toks.len() {
        i
    } else if toks[i].kind == TokenKind::RBrace && d == 0 {
        i
    } else if toks[i].kind == TokenKind::Semi && d == 0 {
        lemma_blanks_walk(toks, i + 1);
        i
    } else {
        let e: nat = match toks[i].kind {
            TokenKind::LBrace => d + 1,
            TokenKind::RBrace => (d - 1) as nat,
            _ => d,
        };
        let m = lemma_stmt_end(toks, i + 1, e);
        assert forall|x: int| i <= x <= m implies #[trigger] level(toks, i, x) + d >= 0 by {
            if x > i {
                lemma_level_first(toks, i, x);
                assert(level(toks, i + 1, x) + e >= 0);
            }
        }
        assert forall|x: int|
            i <= x < m && (#[trigger] toks[x]).kind == TokenKind::Semi implies level(toks, i, x) + d
            > 0 by {
            if x > i {
                lemma_level_first(toks, i, x);
                assert(level(toks, i + 1, x) + e > 0);
            }
        }
        lemma_level_first(toks, i, m);
        m
    }
}

/// A statement through its `;`.
proof fn lemma_simple(toks: Seq<Token>, i: int)
    requires
        0 <= i <= toks.len(),
    ensures
        simple(toks, i, crate::inject::stmt_end(toks, i, 0)),
        whole(toks, i, crate::inject::stmt_end(toks, i, 0)),
{
    let j = crate::inject::stmt_end(toks, i, 0);
    let m = lemma_stmt_end(toks, i, 0);
    if at(toks, m, TokenKind::Semi) && level(toks, i, m) == 0 {
        let c = past_blanks(toks, m + 1);
        assert(stays_inside(toks, i, m));
        lemma_whole_one(toks, m);
        lemma_whole_add(toks, i, m, m + 1);
        if j != m + 1 {
            lemma_blanks_walk(toks, m + 1);
            lemma_whole_add(toks, i, m + 1, c);
            lemma_whole_one(toks, c);
            lemma_whole_add(toks, i, c, j);
        }
        assert(ends_at(toks, i, m, j));
    } else {
        assert(cut_off(toks, i, j));
    }
}

// ── Statements ───────────────────────────────────────────────────────────────

/// The rest of a block: behind whole items its `}`, or the end of the source.
proof fn lemma_block_rest(toks: Seq<Token>, braces: BraceConfig, i: int)
    requires
        well_nested(toks),
        0 <= i <= toks.len(),
    ensures
        ({
            let j = crate::inject::block_rest(toks, braces, i).next;
            &&& i <= j <= toks.len()
            &&& forall|x: int| i <= x < j ==> #[trigger] level(toks, i, x) >= 0
            &&& level(toks, i, j) == -1 || (j == toks.len() && level(toks, i, j) >= 0)
            &&& i < toks.len() ==> i < j
        }),
    decreases toks.len() - i, 4int,
{
    reveal_with_fuel(level, 2);
    if i < toks.len() && toks[i].kind != TokenKind::RBrace {
        lemma_item(toks, braces, i);
        let m = crate::inject::item(toks, braces, i).next;
        lemma_block_rest(toks, braces, m);
        let j = crate::inject::block_rest(toks, braces, m).next;
        lemma_level_add(toks, i, m, j);
        assert(level(toks, i, m) >= 0);
        assert forall|x: int| i <= x < j implies #[trigger] level(toks, i, x) >= 0 by {
            if x > m {
                lemma_level_add(toks, i, m, x);
                assert(level(toks, m, x) >= 0);
            }
        }
    }
}

proof fn lemma_block(toks: Seq<Token>, braces: BraceConfig, i: int)
    requires
        well_nested(toks),
        at(toks, i, TokenKind::LBrace),
    ensures
        closed(toks, i, crate::inject::block(toks, braces, i).next),
        whole(toks, i, crate::inject::block(toks, braces, i).next),
    decreases toks.len() - i, 1int,
{
    lemma_block_rest(toks, braces, i + 1);
    let j = crate::inject::block(toks, braces, i).next;
    lemma_level_first(toks, i, j);
    assert forall|x: int| i < x < j implies #[trigger] level(toks, i, x) > 0 by {
        lemma_level_first(toks, i, x);
        assert(level(toks, i + 1, x) >= 0);
    }
    assert forall|x: int| i <= x <= j implies #[trigger] level(toks, i, x) >= 0 by {
        if i < x < j {
            assert(level(toks, i, x) > 0);
        }
    }
}

/// One statement, with what stands in front of it.
pub proof fn lemma_statement(toks: Seq<Token>, braces: BraceConfig, i: int) -> (t: Tree)
    requires
        well_nested(toks),
        0 <= i <= toks.len(),
    ensures
        fits(t, toks, first(toks, i), crate::inject::stmt(toks, braces, i).next),
        whole(toks, i, crate::inject::stmt(toks, braces, i).next),
    decreases toks.len() - i, 3int,
{
    let s = first(toks, i);
    let j = crate::inject::stmt(toks, braces, i).next;
    lemma_walks(toks, i);
    if s >= toks.len() {
        Tree::Missing
    } else {
        let t = match toks[s].kind {
            TokenKind::LBrace => {
                lemma_block(toks, braces, s);
                Tree::Block
            },
            TokenKind::KwIf => lemma_if(toks, braces, s),
            TokenKind::KwElse => lemma_else(toks, braces, s),
            TokenKind::KwFor | TokenKind::KwWhile => lemma_loop(toks, braces, s),
            TokenKind::KwDo => lemma_do(toks, braces, s),
            TokenKind::KwSwitch => lemma_switch(toks, braces, s),
            TokenKind::KwTry => lemma_try(toks, braces, s),
            TokenKind::Ident => lemma_call(toks, braces, s),
            _ => {
                lemma_simple(toks, s);
                Tree::Simple
            },
        };
        lemma_whole_add(toks, i, s, j);
        t
    }
}

proof fn lemma_body(toks: Seq<Token>, braces: BraceConfig, h: int, add: bool) -> (t: Tree)
    requires
        well_nested(toks),
        0 <= h <= toks.len(),
    ensures
        is_body(t, toks, h, crate::inject::body(toks, braces, h, add).next),
        whole(toks, h, crate::inject::body(toks, braces, h, add).next),
    decreases toks.len() - h, 4int,
{
    let s = first(toks, h);
    lemma_walks(toks, h);
    lemma_layout_walk(toks, h);
    if s >= toks.len() {
        Tree::Missing
    } else if toks[s].kind == TokenKind::LBrace {
        lemma_block(toks, braces, s);
        lemma_whole_add(toks, h, s, crate::inject::body(toks, braces, h, add).next);
        Tree::Block
    } else if toks[s].kind == TokenKind::Semi {
        lemma_whole_one(toks, s);
        lemma_whole_add(toks, h, s, s + 1);
        Tree::Empty
    } else {
        let j = past_layout(toks, h);
        let t = lemma_statement(toks, braces, j);
        lemma_whole_add(toks, h, j, crate::inject::body(toks, braces, h, add).next);
        t
    }
}

proof fn lemma_if(toks: Seq<Token>, braces: BraceConfig, i: int) -> (t: Tree)
    requires
        well_nested(toks),
        at(toks, i, TokenKind::KwIf),
    ensures
        fits(t, toks, i, crate::inject::if_stmt(toks, braces, i).next),
        whole(toks, i, crate::inject::if_stmt(toks, braces, i).next),
        i < crate::inject::if_stmt(toks, braces, i).next,
    decreases toks.len() - i, 1int,
{
    let head = crate::inject::head_end(toks, i);
    lemma_head(toks, i);
    let then = lemma_body(toks, braces, head, braces.add_braces_to_if);
    let next = crate::inject::body(toks, braces, head, braces.add_braces_to_if).next;
    lemma_whole_add(toks, i, head, next);
    let e = first(toks, next);
    lemma_walks(toks, next);
    let j = crate::inject::if_stmt(toks, braces, i).next;
    if at(toks, e, TokenKind::KwElse) {
        let other = lemma_else(toks, braces, e);
        lemma_whole_add(toks, i, next, e);
        lemma_whole_add(toks, i, e, j);
        Tree::If { head, then: Box::new(then), next, other: Box::new(other) }
    } else {
        Tree::If { head, then: Box::new(then), next, other: Box::new(Tree::NoElse) }
    }
}

proof fn lemma_else(toks: Seq<Token>, braces: BraceConfig, i: int) -> (t: Tree)
    requires
        well_nested(toks),
        at(toks, i, TokenKind::KwElse),
    ensures
        fits(t, toks, i, crate::inject::else_stmt(toks, braces, i).next),
        whole(toks, i, crate::inject::else_stmt(toks, braces, i).next),
        i < crate::inject::else_stmt(toks, braces, i).next,
    decreases toks.len() - i, 1int,
{
    let b = first(toks, i + 1);
    let j = crate::inject::else_stmt(toks, braces, i).next;
    lemma_walks(toks, i + 1);
    lemma_whole_one(toks, i);
    if at(toks, b, TokenKind::KwIf) {
        let body = lemma_if(toks, braces, b);
        lemma_whole_add(toks, i, i + 1, b);
        lemma_whole_add(toks, i, b, j);
        Tree::Else { body: Box::new(body) }
    } else {
        let body = lemma_body(toks, braces, i + 1, braces.add_braces_to_if);
        lemma_whole_add(toks, i, i + 1, j);
        Tree::Else { body: Box::new(body) }
    }
}

proof fn lemma_loop(toks: Seq<Token>, braces: BraceConfig, i: int) -> (t: Tree)
    requires
        well_nested(toks),
        at(toks, i, TokenKind::KwFor) || at(toks, i, TokenKind::KwWhile),
    ensures
        fits(t, toks, i, crate::inject::loop_stmt(toks, braces, i).next),
        whole(toks, i, crate::inject::loop_stmt(toks, braces, i).next),
        i < crate::inject::loop_stmt(toks, braces, i).next,
    decreases toks.len() - i, 1int,
{
    let head = crate::inject::head_end(toks, i);
    let add = if toks[i].kind == TokenKind::KwFor {
        braces.add_braces_to_for
    } else {
        braces.add_braces_to_while
    };
    lemma_head(toks, i);
    let body = lemma_body(toks, braces, head, add);
    lemma_whole_add(toks, i, head, crate::inject::loop_stmt(toks, braces, i).next);
    Tree::Loop { head, body: Box::new(body) }
}

proof fn lemma_do(toks: Seq<Token>, braces: BraceConfig, i: int) -> (t: Tree)
    requires
        well_nested(toks),
        at(toks, i, TokenKind::KwDo),
    ensures
        fits(t, toks, i, crate::inject::do_stmt(toks, braces, i).next),
        whole(toks, i, crate::inject::do_stmt(toks, braces, i).next),
    decreases toks.len() - i, 1int,
{
    let body = lemma_statement(toks, braces, i + 1);
    let next = crate::inject::stmt(toks, braces, i + 1).next;
    lemma_whole_one(toks, i);
    lemma_whole_add(toks, i, i + 1, next);
    let w = first(toks, next);
    lemma_walks(toks, next);
    if at(toks, w, TokenKind::KwWhile) {
        lemma_simple(toks, w);
        lemma_whole_add(toks, i, next, w);
        lemma_whole_add(toks, i, w, crate::inject::do_stmt(toks, braces, i).next);
    }
    Tree::Do { body: Box::new(body), next }
}

proof fn lemma_switch(toks: Seq<Token>, braces: BraceConfig, i: int) -> (t: Tree)
    requires
        well_nested(toks),
        at(toks, i, TokenKind::KwSwitch),
    ensures
        fits(t, toks, i, crate::inject::switch_stmt(toks, braces, i).next),
        whole(toks, i, crate::inject::switch_stmt(toks, braces, i).next),
    decreases toks.len() - i, 1int,
{
    let head = crate::inject::head_end(toks, i);
    lemma_head(toks, i);
    let body = lemma_statement(toks, braces, head);
    lemma_whole_add(toks, i, head, crate::inject::switch_stmt(toks, braces, i).next);
    Tree::Switch { head, body: Box::new(body) }
}

proof fn lemma_try(toks: Seq<Token>, braces: BraceConfig, i: int) -> (t: Tree)
    requires
        well_nested(toks),
        at(toks, i, TokenKind::KwTry),
    ensures
        fits(t, toks, i, crate::inject::try_stmt(toks, braces, i).next),
        whole(toks, i, crate::inject::try_stmt(toks, braces, i).next),
    decreases toks.len() - i, 1int,
{
    let body = lemma_statement(toks, braces, i + 1);
    let next = crate::inject::stmt(toks, braces, i + 1).next;
    lemma_whole_one(toks, i);
    lemma_whole_add(toks, i, i + 1, next);
    let rest = lemma_handlers(toks, braces, next);
    lemma_whole_add(toks, i, next, crate::inject::try_stmt(toks, braces, i).next);
    Tree::Try { body: Box::new(body), next, rest: Box::new(rest) }
}

proof fn lemma_handlers(toks: Seq<Token>, braces: BraceConfig, i: int) -> (t: Tree)
    requires
        well_nested(toks),
        0 <= i <= toks.len(),
    ensures
        fits(t, toks, i, crate::inject::handlers(toks, braces, i).next),
        whole(toks, i, crate::inject::handlers(toks, braces, i).next),
    decreases toks.len() - i, 4int,
{
    let c = first(toks, i);
    lemma_walks(toks, i);
    lemma_whole_empty(toks, i);
    if at(toks, c, TokenKind::KwCatch) {
        let head = crate::inject::head_end(toks, c);
        lemma_head(toks, c);
        let body = lemma_statement(toks, braces, head);
        let next = crate::inject::stmt(toks, braces, head).next;
        let rest = lemma_handlers(toks, braces, next);
        lemma_whole_add(toks, i, c, head);
        lemma_whole_add(toks, i, head, next);
        lemma_whole_add(toks, i, next, crate::inject::handlers(toks, braces, i).next);
        Tree::Catch { head, body: Box::new(body), next, rest: Box::new(rest) }
    } else {
        Tree::NoCatch
    }
}

proof fn lemma_call(toks: Seq<Token>, braces: BraceConfig, i: int) -> (t: Tree)
    requires
        well_nested(toks),
        at(toks, i, TokenKind::Ident),
    ensures
        fits(t, toks, i, crate::inject::call_stmt(toks, braces, i).next),
        whole(toks, i, crate::inject::call_stmt(toks, braces, i).next),
    decreases toks.len() - i, 1int,
{
    let o = past_layout(toks, i + 1);
    let h = crate::inject::paren_end(toks, o + 1, 1);
    let j = crate::inject::call_stmt(toks, braces, i).next;
    lemma_layout_walk(toks, i + 1);
    lemma_whole_one(toks, i);
    lemma_whole_add(toks, i, i + 1, o);
    if at(toks, o, TokenKind::LParen) {
        lemma_group(toks, o);
        lemma_walks(toks, h);
    }
    let b = first(toks, h);
    if at(toks, o, TokenKind::LParen) && at(toks, b, TokenKind::LBrace) {
        assert(heads_block(toks, i, b));
        lemma_block(toks, braces, b);
        lemma_whole_add(toks, i, o, h);
        lemma_whole_add(toks, i, h, b);
        lemma_whole_add(toks, i, b, j);
        Tree::Call { at: b }
    } else {
        assert forall|x: int| !#[trigger] heads_block(toks, i, x) by {
            if heads_block(toks, i, x) {
                let g = choose|g: int| #[trigger] shut(toks, o, g) && first(toks, g) == x;
                assert(shut(toks, o, g));
            }
        }
        lemma_simple(toks, i);
        Tree::Simple
    }
}

proof fn lemma_item(toks: Seq<Token>, braces: BraceConfig, i: int)
    requires
        well_nested(toks),
        0 <= i < toks.len(),
        toks[i].kind != TokenKind::RBrace,
    ensures
        whole(toks, i, crate::inject::item(toks, braces, i).next),
        i < crate::inject::item(toks, braces, i).next,
    decreases toks.len() - i, 2int,
{
    match toks[i].kind {
        TokenKind::KwIf => {
            lemma_whole_one(toks, i);
            lemma_if(toks, braces, i);
        },
        TokenKind::KwElse => {
            lemma_whole_one(toks, i);
            lemma_else(toks, braces, i);
        },
        TokenKind::KwFor | TokenKind::KwWhile => {
            lemma_whole_one(toks, i);
            lemma_loop(toks, braces, i);
        },
        TokenKind::LBrace => lemma_block(toks, braces, i),
        _ => lemma_whole_one(toks, i),
    }
}

/// The first token of a body, behind its layout and from its head on.
pub proof fn lemma_body_first(toks: Seq<Token>, h: int)
    requires
        0 <= h <= toks.len(),
    ensures
        first(toks, crate::scan::skip(toks, h, KindSet::Layout)) == crate::scan::skip(
            toks,
            h,
            KindSet::LayoutOrComment,
        ),
        crate::scan::skip(toks, h, KindSet::Layout) == past_layout(toks, h),
{
    lemma_walks(toks, h);
    lemma_layout_walk(toks, h);
}

/// The head of a control word whose body is to get braces.
pub proof fn lemma_controls(toks: Seq<Token>, braces: BraceConfig, i: int)
    requires
        well_nested(toks),
        0 <= i < toks.len(),
        toks[i].kind == TokenKind::KwIf || toks[i].kind == TokenKind::KwWhile || toks[i].kind
            == TokenKind::KwFor,
    ensures
        wants_braces(braces, toks[i].kind) ==> controls(
            toks,
            braces,
            i,
            past_layout(toks, crate::inject::head_end(toks, i)),
        ),
{
    lemma_head(toks, i);
    assert(headed(toks, i, crate::inject::head_end(toks, i)));
}

// ── Enclosing ────────────────────────────────────────────────────────────────

/// Which token of the source the output continues with at position `a`, when it
/// stands for the source from `i` on.
pub open spec fn place(out: Seq<Token>, i: int, a: int) -> int {
    i + crate::laws::injection::genuine(out.take(a)).len()
}

/// A control word whose unbraced body is to get braces.
pub open spec fn wants_braces(braces: BraceConfig, k: TokenKind) -> bool {
    ||| k == TokenKind::KwIf && braces.add_braces_to_if
    ||| k == TokenKind::KwWhile && braces.add_braces_to_while
    ||| k == TokenKind::KwFor && braces.add_braces_to_for
}

/// The body of the control word at `k`, which is to get braces, starts at `x`:
/// behind the head, or behind an `else`.
pub open spec fn controls(toks: Seq<Token>, braces: BraceConfig, k: int, x: int) -> bool {
    &&& 0 <= k < toks.len()
    &&& {
        ||| toks[k].kind == TokenKind::KwElse && braces.add_braces_to_if && past_layout(
            toks,
            k + 1,
        ) == x
        ||| wants_braces(braces, toks[k].kind) && exists|h: int|
            #[trigger] headed(toks, k, h) && past_layout(toks, h) == x
    }
}

/// The `}` that was injected at `b` belongs to the `{` that was injected at
/// `a`, and what they enclose is one statement with the given parts, which had
/// no braces: it is the body of a control word that is to get them.
pub open spec fn encloses(
    toks: Seq<Token>,
    braces: BraceConfig,
    i: int,
    out: Seq<Token>,
    a: int,
    b: int,
    t: Tree,
) -> bool {
    let s = first(toks, place(out, i, a));
    &&& 0 <= a < b < out.len()
    &&& out[a] == crate::inject::open_brace() && out[b] == crate::inject::close_brace()
    &&& crate::laws::injection::balanced(out.subrange(a + 1, b))
    &&& !at(toks, s, TokenKind::LBrace) && !at(toks, s, TokenKind::Semi)
    &&& fits(t, toks, s, place(out, i, b))
    &&& exists|k: int| #[trigger] controls(toks, braces, k, place(out, i, a))
}

/// The `{` that was injected at `a` encloses one statement.
pub open spec fn encloses_one(
    toks: Seq<Token>,
    braces: BraceConfig,
    i: int,
    out: Seq<Token>,
    a: int,
) -> bool {
    exists|b: int, t: Tree| #[trigger] encloses(toks, braces, i, out, a, b, t)
}

/// Each injected `{` encloses one statement.
pub open spec fn all_enclose_one(
    toks: Seq<Token>,
    braces: BraceConfig,
    i: int,
    out: Seq<Token>,
) -> bool {
    forall|a: int|
        0 <= a < out.len() && out[a] == crate::inject::open_brace() ==> #[trigger] encloses_one(
            toks,
            braces,
            i,
            out,
            a,
        )
}

pub proof fn lemma_enclose_add(
    toks: Seq<Token>,
    braces: BraceConfig,
    i: int,
    x: Seq<Token>,
    y: Seq<Token>,
)
    requires
        all_enclose_one(toks, braces, i, x),
        all_enclose_one(toks, braces, i + crate::laws::injection::genuine(x).len(), y),
    ensures
        all_enclose_one(toks, braces, i, x + y),
{
    let out = x + y;
    let m = i + crate::laws::injection::genuine(x).len();
    assert forall|a: int|
        0 <= a < out.len() && out[a] == crate::inject::open_brace() implies #[trigger] encloses_one(
        toks,
        braces,
        i,
        out,
        a,
    ) by {
        if a < x.len() {
            assert(x[a] == out[a]);
            assert(encloses_one(toks, braces, i, x, a));
            let (b, t) = choose|b: int, t: Tree| #[trigger] encloses(toks, braces, i, x, a, b, t);
            assert(out.take(a) =~= x.take(a));
            assert(out.take(b) =~= x.take(b));
            assert(out.subrange(a + 1, b) =~= x.subrange(a + 1, b));
            assert(encloses(toks, braces, i, out, a, b, t));
        } else {
            let c = a - x.len();
            assert(y[c] == out[a]);
            assert(encloses_one(toks, braces, m, y, c));
            let (d, t) = choose|d: int, t: Tree| #[trigger] encloses(toks, braces, m, y, c, d, t);
            let b = d + x.len();
            assert(out.take(a) =~= x + y.take(c));
            assert(out.take(b) =~= x + y.take(d));
            crate::laws::injection::lemma_genuine_add(x, y.take(c));
            crate::laws::injection::lemma_genuine_add(x, y.take(d));
            assert(out.subrange(a + 1, b) =~= y.subrange(c + 1, d));
            assert(encloses(toks, braces, i, out, a, b, t));
        }
    }
}

/// Tokens of the source hold no injected brace.
pub proof fn lemma_enclose_none(toks: Seq<Token>, braces: BraceConfig, i: int, out: Seq<Token>)
    requires
        crate::laws::injection::all_genuine(out),
    ensures
        all_enclose_one(toks, braces, i, out),
{
    assert forall|a: int|
        0 <= a < out.len() && out[a] == crate::inject::open_brace() implies #[trigger] encloses_one(
        toks,
        braces,
        i,
        out,
        a,
    ) by {
        assert(crate::laws::injection::is_genuine(out[a]));
    }
}

/// A statement in injected braces.
pub proof fn lemma_enclose_braced(
    toks: Seq<Token>,
    braces: BraceConfig,
    i: int,
    s: Seq<Token>,
    t: Tree,
)
    requires
        all_enclose_one(toks, braces, i, s),
        crate::laws::injection::balanced(s),
        !at(toks, first(toks, i), TokenKind::LBrace),
        !at(toks, first(toks, i), TokenKind::Semi),
        fits(t, toks, first(toks, i), i + crate::laws::injection::genuine(s).len()),
        exists|k: int| #[trigger] controls(toks, braces, k, i),
    ensures
        all_enclose_one(
            toks,
            braces,
            i,
            seq![crate::inject::open_brace()] + s + seq![crate::inject::close_brace()],
        ),
{
    let open = seq![crate::inject::open_brace()];
    let close = seq![crate::inject::close_brace()];
    let out = open + s + close;
    reveal_with_fuel(crate::laws::injection::genuine, 2);
    assert(open.drop_last() =~= Seq::empty());
    assert(crate::laws::injection::genuine(open) =~= Seq::empty());
    assert forall|a: int|
        0 <= a < out.len() && out[a] == crate::inject::open_brace() implies #[trigger] encloses_one(
        toks,
        braces,
        i,
        out,
        a,
    ) by {
        if a == 0 {
            let b: int = (s.len() + 1) as int;
            assert(out.take(0) =~= Seq::empty());
            assert(out.take(b) =~= open + s);
            crate::laws::injection::lemma_genuine_add(open, s);
            assert(out.subrange(1, b) =~= s);
            assert(encloses(toks, braces, i, out, 0, b, t));
        } else if a <= s.len() {
            let c = a - 1;
            assert(s[c] == out[a]);
            assert(encloses_one(toks, braces, i, s, c));
            let (d, u) = choose|d: int, u: Tree| #[trigger] encloses(toks, braces, i, s, c, d, u);
            let b = d + 1;
            assert(out.take(a) =~= open + s.take(c));
            assert(out.take(b) =~= open + s.take(d));
            crate::laws::injection::lemma_genuine_add(open, s.take(c));
            crate::laws::injection::lemma_genuine_add(open, s.take(d));
            assert(out.subrange(a + 1, b) =~= s.subrange(c + 1, d));
            assert(encloses(toks, braces, i, out, a, b, u));
        } else {
            assert(out[a].kind == TokenKind::RBrace);
        }
    }
}

/// An injected pair of braces encloses exactly one statement: what the keyword
/// controlled before, it controls with its braces, and the statement behind it
/// in the source stands behind the `}`. A statement that starts with none of
/// the control keywords reaches through its first `;` outside of braces, and
/// through one comment of the same line.
pub proof fn law_injected_braces_enclose_one_statement(toks: Seq<Token>, config: Config)
    requires
        crate::laws::injection::all_genuine(toks),
        well_nested(toks),
    ensures
        all_enclose_one(toks, config.braces, 0, crate::inject::injected(toks, config)),
{
    crate::laws::injection::lemma_encloses(toks, config);
}

// ── Bodies ───────────────────────────────────────────────────────────────────

/// From position `x` of the output on, layout and comments aside, a `{` follows,
/// or a `;` that stands for an empty body, or nothing.
pub open spec fn braced_from(out: Seq<Token>, x: int) -> bool {
    let b = first(out, x);
    b >= out.len() || out[b].kind == TokenKind::LBrace || out[b].kind == TokenKind::Semi
}

/// The head of the control word at `i` is where the pass takes it to be.
proof fn lemma_headed(toks: Seq<Token>, i: int, h: int)
    requires
        0 <= i < toks.len(),
        headed(toks, i, h),
    ensures
        crate::inject::head_end(toks, i) == h,
{
    let o = past_words(toks, i + 1);
    lemma_words_walk(toks, i + 1);
    lemma_layout_walk(toks, i + 1);
    if at(toks, o, TokenKind::LParen) {
        lemma_shut(toks, o, h);
    }
}

/// Every `if`, `while` and `for` statement that the pass meets, on its own or as
/// the body of another one, has its body in braces when that is set: the head
/// is kept, and a `{` follows it.
pub proof fn law_bodies_get_braces(toks: Seq<Token>, config: Config, i: int, h: int)
    requires
        0 <= i < toks.len(),
        wants_braces(config.braces, toks[i].kind),
        headed(toks, i, h),
    ensures
        ({
            let a = crate::inject::item(toks, config.braces, i).out;
            let b = crate::inject::stmt(toks, config.braces, i).out;
            &&& a.len() >= h - i && a.take(h - i) == toks.subrange(i, h) && braced_from(a, h - i)
            &&& b == a
        }),
{
    let a = crate::inject::item(toks, config.braces, i).out;
    let b = crate::inject::stmt(toks, config.braces, i).out;
    lemma_headed(toks, i, h);
    lemma_walks(toks, i);
    assert(toks.subrange(i, i) + a =~= a);
    crate::laws::injection::law_bodies_stand_in_braces(toks, config, i);
    assert(a.len() >= h - i && a.take(h - i) =~= toks.subrange(i, h));
    lemma_walks(a, h - i);
}

/// So has every `else`, but for one in front of an `if`, where nothing comes
/// between the two.
pub proof fn law_else_bodies_get_braces(toks: Seq<Token>, config: Config, i: int)
    requires
        0 <= i < toks.len(),
        toks[i].kind == TokenKind::KwElse,
        config.braces.add_braces_to_if,
    ensures
        ({
            let a = crate::inject::item(toks, config.braces, i).out;
            let b = crate::inject::stmt(toks, config.braces, i).out;
            let s = first(toks, i + 1);
            &&& b == a
            &&& if at(toks, s, TokenKind::KwIf) {
                a == toks.subrange(i, s) + crate::inject::item(toks, config.braces, s).out
            } else {
                a.len() >= 1 && a[0] == toks[i] && braced_from(a, 1)
            }
        }),
{
    let a = crate::inject::item(toks, config.braces, i).out;
    lemma_walks(toks, i);
    lemma_walks(toks, i + 1);
    assert(toks.subrange(i, i) + a =~= a);
    crate::laws::injection::law_else_bodies_stand_in_braces(toks, config, i);
    if !at(toks, first(toks, i + 1), TokenKind::KwIf) {
        assert(a[0] == toks[i]);
        lemma_walks(a, 1);
    }
}

/// An `if` statement takes up the `else` behind its body, whose own body is
/// treated as that of any `else`.
pub proof fn law_if_statements_take_up_their_else(toks: Seq<Token>, config: Config, i: int) -> (r: (
    Tree,
    int,
    int,
))
    requires
        well_nested(toks),
        at(toks, i, TokenKind::KwIf),
    ensures
        ({
            let p = crate::inject::stmt(toks, config.braces, i);
            let e = first(toks, r.2);
            let q = crate::inject::stmt(toks, config.braces, e);
            &&& headed(toks, i, r.1) && is_body(r.0, toks, r.1, r.2)
            &&& if at(toks, e, TokenKind::KwElse) {
                &&& p.next == q.next
                &&& p.out.len() >= q.out.len()
                &&& p.out.skip(p.out.len() - q.out.len()) == q.out
            } else {
                p.next == r.2
            }
        }),
{
    let braces = config.braces;
    let h = crate::inject::head_end(toks, i);
    lemma_walks(toks, i);
    lemma_head(toks, i);
    let t = lemma_body(toks, braces, h, braces.add_braces_to_if);
    let body = crate::inject::body(toks, braces, h, braces.add_braces_to_if);
    let n = body.next;
    lemma_walks(toks, n);
    let e = first(toks, n);
    let p = crate::inject::stmt(toks, braces, i);
    assert(p.out =~= crate::inject::if_stmt(toks, braces, i).out);
    if at(toks, e, TokenKind::KwElse) {
        lemma_walks(toks, e);
        let q = crate::inject::stmt(toks, braces, e);
        assert(q.out =~= crate::inject::else_stmt(toks, braces, e).out);
        assert(p.out.skip(p.out.len() - q.out.len()) =~= q.out);
    }
    (t, h, n)
}

// ── Parts ────────────────────────────────────────────────────────────────────

/// The output begins with the part.
pub open spec fn begins(out: Seq<Token>, part: Seq<Token>) -> bool {
    out.len() >= part.len() && out.take(part.len() as int) == part
}

/// What stands for `n` items of the source from `i` on, one behind the other.
pub open spec fn in_turn<'a>(toks: Seq<Token<'a>>, braces: BraceConfig, i: int, n: nat) -> Seq<
    Token<'a>,
>
    decreases n,
{
    if n == 0 {
        Seq::empty()
    } else {
        crate::inject::item(toks, braces, i).out + in_turn(
            toks,
            braces,
            crate::inject::item(toks, braces, i).next,
            (n - 1) as nat,
        )
    }
}

/// Where `n` items of the source from `i` on end.
pub open spec fn in_turn_end(toks: Seq<Token>, braces: BraceConfig, i: int, n: nat) -> int
    decreases n,
{
    if n == 0 {
        i
    } else {
        in_turn_end(toks, braces, crate::inject::item(toks, braces, i).next, (n - 1) as nat)
    }
}

proof fn lemma_rest_in_turn(toks: Seq<Token>, braces: BraceConfig, i: int) -> (n: nat)
    requires
        well_nested(toks),
        0 <= i <= toks.len(),
    ensures
        ({
            let e = in_turn_end(toks, braces, i, n);
            let part = crate::inject::block_rest(toks, braces, i);
            &&& i <= e <= toks.len()
            &&& if e < toks.len() {
                &&& toks[e].kind == TokenKind::RBrace && part.next == e + 1
                &&& part.out == in_turn(toks, braces, i, n).push(toks[e])
            } else {
                part.next == e && part.out == in_turn(toks, braces, i, n)
            }
        }),
    decreases toks.len() - i,
{
    let part = crate::inject::block_rest(toks, braces, i);
    let none = Seq::<Token>::empty();
    if i >= toks.len() {
        assert(part.out =~= in_turn(toks, braces, i, 0));
        0
    } else if toks[i].kind == TokenKind::RBrace {
        assert(part.out =~= in_turn(toks, braces, i, 0).push(toks[i]));
        0
    } else {
        lemma_item(toks, braces, i);
        let one = crate::inject::item(toks, braces, i);
        let m = lemma_rest_in_turn(toks, braces, one.next);
        let n: nat = m + 1;
        let e = in_turn_end(toks, braces, i, n);
        assert(in_turn(toks, braces, i, n) == one.out + in_turn(toks, braces, one.next, m));
        if e < toks.len() {
            assert(part.out =~= in_turn(toks, braces, i, n).push(toks[e]));
        } else {
            assert(part.out =~= in_turn(toks, braces, i, n));
        }
        n
    }
}

/// A block is searched through: it is its `{`, the items in it, each treated as
/// any other, and its `}`.
pub proof fn law_blocks_are_searched(toks: Seq<Token>, config: Config, i: int) -> (n: nat)
    requires
        well_nested(toks),
        at(toks, i, TokenKind::LBrace),
    ensures
        ({
            let e = in_turn_end(toks, config.braces, i + 1, n);
            let inner = seq![toks[i]] + in_turn(toks, config.braces, i + 1, n);
            let out = crate::inject::stmt(toks, config.braces, i).out;
            &&& crate::inject::item(toks, config.braces, i).out == out
            &&& out == if e < toks.len() {
                inner.push(toks[e])
            } else {
                inner
            }
            &&& e < toks.len() ==> toks[e].kind == TokenKind::RBrace
        }),
{
    let n = lemma_rest_in_turn(toks, config.braces, i + 1);
    let e = in_turn_end(toks, config.braces, i + 1, n);
    let out = crate::inject::stmt(toks, config.braces, i).out;
    lemma_walks(toks, i);
    assert(toks.subrange(i, i + 1) =~= seq![toks[i]]);
    let inner = seq![toks[i]] + in_turn(toks, config.braces, i + 1, n);
    if e < toks.len() {
        assert(out =~= inner.push(toks[e]));
    } else {
        assert(out =~= inner);
    }
    assert(crate::inject::item(toks, config.braces, i).out =~= out);
    n
}

/// The whole source is its items, one behind the other.
pub proof fn law_the_source_is_searched(toks: Seq<Token>, config: Config) -> (n: nat)
    requires
        well_nested(toks),
    ensures
        crate::inject::injected(toks, config) == in_turn(toks, config.braces, 0, n),
        in_turn_end(toks, config.braces, 0, n) == toks.len(),
{
    lemma_items_in_turn(toks, config.braces, 0)
}

proof fn lemma_items_in_turn(toks: Seq<Token>, braces: BraceConfig, i: int) -> (n: nat)
    requires
        well_nested(toks),
        0 <= i <= toks.len(),
    ensures
        crate::inject::items(toks, braces, i) == in_turn(toks, braces, i, n),
        in_turn_end(toks, braces, i, n) == toks.len(),
    decreases toks.len() - i,
{
    if i == toks.len() {
        0
    } else {
        lemma_item_moves(toks, braces, i);
        let one = crate::inject::item(toks, braces, i);
        let m = lemma_items_in_turn(toks, braces, one.next);
        m + 1
    }
}

proof fn lemma_item_moves(toks: Seq<Token>, braces: BraceConfig, i: int)
    requires
        well_nested(toks),
        0 <= i < toks.len(),
    ensures
        i < crate::inject::item(toks, braces, i).next <= toks.len(),
{
    if toks[i].kind != TokenKind::RBrace {
        lemma_item(toks, braces, i);
    }
}

/// An item that is neither a block nor a control statement that is to get
/// braces is its token.
pub proof fn law_other_tokens_are_kept(toks: Seq<Token>, braces: BraceConfig, i: int)
    requires
        0 <= i < toks.len(),
        toks[i].kind != TokenKind::LBrace,
        !wants_braces(braces, toks[i].kind),
        !(toks[i].kind == TokenKind::KwElse && braces.add_braces_to_if),
    ensures
        crate::inject::item(toks, braces, i).out == seq![toks[i]],
        crate::inject::item(toks, braces, i).next == i + 1,
{
    assert(toks.subrange(i, i + 1) =~= seq![toks[i]]);
}

/// The parts of a statement are treated as statements: the body behind a head,
/// in braces of its own, in injected ones or in none, and the bodies of `do`,
/// `try`, `switch` and of a macro that heads a block.
pub proof fn law_parts_are_statements(toks: Seq<Token>, config: Config, i: int, h: int)
    requires
        well_nested(toks),
        0 <= i < toks.len(),
    ensures
        ({
            let braces = config.braces;
            let k = toks[i].kind;
            let out = crate::inject::stmt(toks, braces, i).out;
            let b = first(toks, h);
            let x = past_layout(toks, h);
            let controlled = (k == TokenKind::KwIf || k == TokenKind::KwWhile || k
                == TokenKind::KwFor) && headed(toks, i, h);
            &&& controlled && at(toks, b, TokenKind::LBrace) ==> begins(
                out,
                toks.subrange(i, b) + crate::inject::stmt(toks, braces, b).out,
            )
            &&& controlled && b < toks.len() && !at(toks, b, TokenKind::LBrace) && !at(
                toks,
                b,
                TokenKind::Semi,
            ) ==> begins(
                out,
                if wants_braces(braces, k) {
                    toks.subrange(i, x) + seq![crate::inject::open_brace()]
                        + crate::inject::stmt(toks, braces, x).out + seq![
                        crate::inject::close_brace(),
                    ]
                } else {
                    toks.subrange(i, x) + crate::inject::stmt(toks, braces, x).out
                },
            )
            &&& k == TokenKind::KwSwitch && headed(toks, i, h) ==> out == toks.subrange(i, h)
                + crate::inject::stmt(toks, braces, h).out
            &&& k == TokenKind::KwDo || k == TokenKind::KwTry ==> begins(
                out,
                seq![toks[i]] + crate::inject::stmt(toks, braces, i + 1).out,
            )
            &&& heads_block(toks, i, h) ==> out == toks.subrange(i, h) + crate::inject::stmt(
                toks,
                braces,
                h,
            ).out
        }),
{
    let braces = config.braces;
    let k = toks[i].kind;
    let part = crate::inject::stmt(toks, braces, i);
    let out = part.out;
    let none = toks.subrange(i, i);
    assert(none =~= Seq::empty());
    if k == TokenKind::KwIf || k == TokenKind::KwWhile || k == TokenKind::KwFor || k
        == TokenKind::KwSwitch || k == TokenKind::KwDo || k == TokenKind::KwTry || k
        == TokenKind::Ident {
        lemma_walks(toks, i);
        if headed(toks, i, h) && k != TokenKind::KwDo && k != TokenKind::KwTry && k
            != TokenKind::Ident {
            lemma_head_parts(toks, braces, i, h);
        }
        if k == TokenKind::KwDo || k == TokenKind::KwTry {
            lemma_walks(toks, i + 1);
            assert(toks.subrange(i, i + 1) =~= seq![toks[i]]);
            let inner = seq![toks[i]] + crate::inject::stmt(toks, braces, i + 1).out;
            assert(out.take(inner.len() as int) =~= inner);
        }
        if heads_block(toks, i, h) {
            let o = past_layout(toks, i + 1);
            let g = choose|g: int| #[trigger] shut(toks, o, g) && first(toks, g) == h;
            lemma_shut(toks, o, g);
            lemma_layout_walk(toks, i + 1);
            lemma_walks(toks, g);
            lemma_walks(toks, h);
            assert(crate::inject::stmt(toks, braces, h).out =~= crate::inject::block(
                toks,
                braces,
                h,
            ).out);
            assert(out =~= toks.subrange(i, h) + crate::inject::stmt(toks, braces, h).out);
        }
    }
}

/// The parts of a statement with a head.
proof fn lemma_head_parts(toks: Seq<Token>, braces: BraceConfig, i: int, h: int)
    requires
        0 <= i < toks.len(),
        headed(toks, i, h),
        toks[i].kind == TokenKind::KwIf || toks[i].kind == TokenKind::KwWhile || toks[i].kind
            == TokenKind::KwFor || toks[i].kind == TokenKind::KwSwitch,
    ensures
        ({
            let k = toks[i].kind;
            let out = crate::inject::stmt(toks, braces, i).out;
            let b = first(toks, h);
            let x = past_layout(toks, h);
            &&& k != TokenKind::KwSwitch && at(toks, b, TokenKind::LBrace) ==> begins(
                out,
                toks.subrange(i, b) + crate::inject::stmt(toks, braces, b).out,
            )
            &&& k != TokenKind::KwSwitch && b < toks.len() && !at(toks, b, TokenKind::LBrace)
                && !at(toks, b, TokenKind::Semi) ==> begins(
                out,
                if wants_braces(braces, k) {
                    toks.subrange(i, x) + seq![crate::inject::open_brace()]
                        + crate::inject::stmt(toks, braces, x).out + seq![
                        crate::inject::close_brace(),
                    ]
                } else {
                    toks.subrange(i, x) + crate::inject::stmt(toks, braces, x).out
                },
            )
            &&& k == TokenKind::KwSwitch ==> out == toks.subrange(i, h) + crate::inject::stmt(
                toks,
                braces,
                h,
            ).out
        }),
{
    let k = toks[i].kind;
    let out = crate::inject::stmt(toks, braces, i).out;
    let b = first(toks, h);
    let x = past_layout(toks, h);
    lemma_walks(toks, i);
    lemma_headed(toks, i, h);
    lemma_walks(toks, h);
    lemma_layout_walk(toks, h);
    assert(toks.subrange(i, i) =~= Seq::empty());
    if k == TokenKind::KwSwitch {
        assert(out =~= toks.subrange(i, h) + crate::inject::stmt(toks, braces, h).out);
    } else if b < toks.len() && !at(toks, b, TokenKind::Semi) {
        let add = wants_braces(braces, k);
        let inner = crate::inject::body(toks, braces, h, add);
        let first_part = toks.subrange(i, h) + inner.out;
        assert(begins(out, first_part)) by {
            assert(out.take(first_part.len() as int) =~= first_part);
        }
        if at(toks, b, TokenKind::LBrace) {
            lemma_walks(toks, b);
            assert(toks.subrange(b, b) =~= Seq::empty());
            let whole = toks.subrange(i, b) + crate::inject::stmt(toks, braces, b).out;
            assert(first_part =~= whole);
        } else {
            let s = crate::inject::stmt(toks, braces, x).out;
            let whole = if add {
                toks.subrange(i, x) + seq![crate::inject::open_brace()] + s + seq![
                    crate::inject::close_brace(),
                ]
            } else {
                toks.subrange(i, x) + s
            };
            assert(first_part =~= whole);
        }
    }
}

} // verus!
