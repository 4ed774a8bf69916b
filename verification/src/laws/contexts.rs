//! What a `{` opens.

use crate::layout::{BraceCtx, Input, State};
use crate::token::{KindSet, Token, TokenKind};
use vstd::prelude::*;

verus! {

// ── Looking back ─────────────────────────────────────────────────────────────

pub proof fn lemma_back(toks: Seq<Token>, lo: int, hi: int, set: KindSet)
    requires
        -1 <= lo <= hi < toks.len(),
        lo >= 0 ==> !set.has(toks[lo].kind),
        forall|x: int| lo < x <= hi ==> set.has((#[trigger] toks[x]).kind),
    ensures
        crate::scan::back(toks, hi, set) == lo,
    decreases hi - lo,
{
    if lo < hi {
        assert(set.has(toks[hi].kind));
        lemma_back(toks, lo, hi - 1, set);
    }
}

/// What lies between `h` and the first token behind it.
proof fn lemma_between(toks: Seq<Token>, h: int, x: int)
    requires
        0 <= h <= x < crate::laws::statements::first(toks, h),
    ensures
        x < toks.len(),
        crate::laws::statements::is_trivial(toks[x].kind),
    decreases x - h,
{
    if h < x {
        lemma_between(toks, h + 1, x);
    }
}

proof fn lemma_between_layout(toks: Seq<Token>, h: int, x: int)
    requires
        0 <= h <= x < crate::laws::statements::past_layout(toks, h),
    ensures
        x < toks.len(),
        toks[x].kind == TokenKind::Whitespace || toks[x].kind == TokenKind::Newline,
    decreases x - h,
{
    if h < x {
        lemma_between_layout(toks, h + 1, x);
    }
}

/// The `(` that the `)` in front of `h` closes.
proof fn lemma_open_paren(toks: Seq<Token>, o: int, h: int, x: int, d: nat)
    requires
        crate::laws::statements::shut(toks, o, h),
        o < x < h,
        d == crate::laws::statements::nest(toks, o, x),
    ensures
        crate::scan::open_paren(toks, x - 1, d) == o,
    decreases x - o,
{
    assert(crate::laws::statements::nest(toks, o, x) > 0);
    if x - 1 == o {
        reveal_with_fuel(crate::laws::statements::nest, 2);
    } else {
        assert(crate::laws::statements::nest(toks, o, x - 1) > 0);
        lemma_open_paren(
            toks,
            o,
            h,
            x - 1,
            crate::laws::statements::nest(toks, o, x - 1) as nat,
        );
    }
}

/// The word at `i` heads the parentheses from `o` up to `h`, and the first
/// token behind them is the `{` in front of `p`.
pub open spec fn heads(toks: Seq<Token>, i: int, o: int, h: int, p: int) -> bool {
    &&& 0 <= i < o
    &&& crate::laws::statements::past_layout(toks, i + 1) == o
    &&& crate::laws::statements::shut(toks, o, h)
    &&& crate::laws::statements::first(toks, h) == p - 1
    &&& crate::laws::statements::at(toks, p - 1, TokenKind::LBrace)
    &&& toks[i].kind != TokenKind::Whitespace && toks[i].kind != TokenKind::Newline
}

proof fn lemma_head_word(toks: Seq<Token>, i: int, o: int, h: int, p: int)
    requires
        heads(toks, i, o, h, p),
    ensures
        crate::scan::head_word(toks, p) == i,
{
    assert forall|x: int| h - 1 < x <= p - 2 implies KindSet::LayoutOrComment.has(
        (#[trigger] toks[x]).kind,
    ) by {
        lemma_between(toks, h, x);
    }
    assert(h <= p - 1) by {
        crate::laws::statements::lemma_walks(toks, h);
    }
    assert(crate::laws::statements::nest(toks, o, h - 1) > 0 || h - 1 == o);
    assert(toks[h - 1].kind == TokenKind::RParen) by {
        reveal_with_fuel(crate::laws::statements::nest, 2);
    }
    lemma_back(toks, h - 1, p - 2, KindSet::LayoutOrComment);
    assert(h - 1 > o);
    assert(crate::laws::statements::nest(toks, o, h - 1) == 1);
    lemma_open_paren(toks, o, h, h - 1, 1);
    assert forall|x: int| i < x <= o - 1 implies KindSet::Layout.has((#[trigger] toks[x]).kind) by {
        lemma_between_layout(toks, i + 1, x);
    }
    lemma_back(toks, i, o - 1, KindSet::Layout);
}

// ── Contexts ─────────────────────────────────────────────────────────────────

/// The `{` behind the head of an `if`, `while`, `for` or `switch` opens a block;
/// where a `switch` awaits its `{`, that is the one. It is no function's,
/// whatever `fn_brace_newline` says.
pub proof fn law_control_heads_open_blocks(
    s: State,
    env: Input,
    i: int,
    o: int,
    h: int,
    p: int,
)
    requires
        heads(env.toks, i, o, h, p),
        env.toks[i].kind == TokenKind::KwIf || env.toks[i].kind == TokenKind::KwWhile
            || env.toks[i].kind == TokenKind::KwFor || env.toks[i].kind == TokenKind::KwSwitch,
        s.marks.prev == Some(TokenKind::RParen),
    ensures
        s.brace_ctx(env, p) == if s.marks.pending_switch {
            BraceCtx::Switch
        } else {
            BraceCtx::Block
        },
        crate::scan::closes_ctrl_flow(env.toks, p),
{
    reveal(State::brace_ctx);
    lemma_head_word(env.toks, i, o, h, p);
}

/// The end of a statement, the start or end of a block or a preprocessor line.
pub open spec fn is_boundary(k: TokenKind) -> bool {
    k == TokenKind::Semi || k == TokenKind::LBrace || k == TokenKind::RBrace || k
        == TokenKind::PreprocLine
}

/// The token at `b` is the last one before `i`, but for layout, `::` and `~`.
pub open spec fn precedes(toks: Seq<Token>, b: int, i: int) -> bool {
    &&& 0 <= b < i <= toks.len()
    &&& toks[b].kind != TokenKind::Whitespace && toks[b].kind != TokenKind::Newline && toks[b].kind
        != TokenKind::ColonColon && toks[b].kind != TokenKind::Tilde
    &&& forall|x: int|
        b < x < i ==> (#[trigger] toks[x]).kind == TokenKind::Whitespace || toks[x].kind
            == TokenKind::Newline || toks[x].kind == TokenKind::ColonColon || toks[x].kind
            == TokenKind::Tilde
}

/// The `{` behind a name with parentheses opens a function body, when the name
/// follows the rest of a declaration, as in `int f(void) {`, or stands in a
/// class; it opens a block when the name starts a statement: a macro that heads
/// one.
pub proof fn law_names_with_parentheses_head_functions(
    s: State,
    env: Input,
    b: int,
    i: int,
    o: int,
    h: int,
    p: int,
)
    requires
        heads(env.toks, i, o, h, p),
        env.toks[i].kind == TokenKind::Ident,
        precedes(env.toks, b, i),
        s.marks.prev == Some(TokenKind::RParen),
        !s.marks.pending_switch,
    ensures
        s.brace_ctx(env, p) == if s.depth.classes == 0 && is_boundary(env.toks[b].kind) {
            BraceCtx::Block
        } else {
            BraceCtx::Function
        },
        !crate::scan::closes_ctrl_flow(env.toks, p),
{
    reveal(State::brace_ctx);
    lemma_head_word(env.toks, i, o, h, p);
    assert forall|x: int| b < x <= i - 1 implies KindSet::LayoutOrScope.has(
        (#[trigger] env.toks[x]).kind,
    ) by {}
    lemma_back(env.toks, b, i - 1, KindSet::LayoutOrScope);
}

/// What a `{` opens behind a token other than a `)`: a block behind `else`, `do`
/// and `try`; a type behind `struct`, `class`, `union` or `enum` and behind the
/// name or base of one that is awaited; a namespace; a linkage block behind its
/// string; a block behind the `:` of a `case`. Behind an operator, a comma or an
/// opening bracket it opens an initializer.
pub proof fn law_braces_open_what_leads_to_them(s: State, env: Input, p: int)
    requires
        s.marks.prev is Some,
    ensures
        ({
            let k = s.marks.prev->0;
            let ctx = s.brace_ctx(env, p);
            &&& k == TokenKind::KwElse || k == TokenKind::KwDo || k == TokenKind::KwTry ==> ctx
                == BraceCtx::Block
            &&& k == TokenKind::KwStruct || k == TokenKind::KwClass || k == TokenKind::KwUnion || k
                == TokenKind::KwEnum ==> ctx == BraceCtx::Type
            &&& (k == TokenKind::Ident || k == TokenKind::Gt || k == TokenKind::Colon)
                && s.marks.pending_type ==> ctx == BraceCtx::Type
            &&& (k == TokenKind::Ident || k == TokenKind::Gt) && !s.marks.pending_type ==> ctx
                == BraceCtx::Function
            &&& k == TokenKind::KwNamespace ==> ctx == BraceCtx::Namespace
            &&& k == TokenKind::LitStr ==> ctx == if s.marks.pending_linkage {
                BraceCtx::Linkage
            } else {
                BraceCtx::Other
            }
            &&& k == TokenKind::Colon && !s.marks.pending_type ==> ctx
                == if s.marks.after_case_colon {
                BraceCtx::Block
            } else {
                BraceCtx::Other
            }
            &&& crate::laws::gaps::is_assignment(k) || k == TokenKind::Comma || k
                == TokenKind::LParen || k == TokenKind::LBrace || k == TokenKind::LBracket || k
                == TokenKind::KwReturn || k == TokenKind::Semi || k == TokenKind::RBracket ==> ctx
                == BraceCtx::Other
        }),
{
    reveal(State::brace_ctx);
}

/// A comment between a head and its `{` does not change what the `{` opens.
pub proof fn law_comments_do_not_hide_the_head(s: State, c: State, env: Input, p: int, b: int)
    requires
        2 <= p <= env.toks.len(),
        0 <= b < p - 1,
        forall|x: int|
            b < x < p - 1 ==> crate::laws::statements::is_trivial((#[trigger] env.toks[x]).kind)
                || env.toks[x].kind == TokenKind::PreprocLine,
        !crate::laws::statements::is_trivial(env.toks[b].kind) && env.toks[b].kind
            != TokenKind::PreprocLine,
        s.marks.prev == Some(env.toks[b].kind),
        c.marks.prev == Some(TokenKind::CommentBlock) || c.marks.prev == Some(
            TokenKind::CommentLine,
        ) || c.marks.prev == Some(TokenKind::PreprocLine),
        c.marks.pending_switch == s.marks.pending_switch,
        c.marks.pending_type == s.marks.pending_type,
        c.marks.pending_linkage == s.marks.pending_linkage,
        c.marks.after_case_colon == s.marks.after_case_colon,
        c.depth.classes == s.depth.classes,
    ensures
        c.brace_ctx(env, p) == s.brace_ctx(env, p),
{
    reveal(State::brace_ctx);
    assert forall|x: int| b < x <= p - 2 implies KindSet::Trivia.has((#[trigger] env.toks[x]).kind) by {}
    lemma_back(env.toks, b, p - 2, KindSet::Trivia);
}

// ── What is awaited ──────────────────────────────────────────────────────────

/// `struct`, `class`, `union` and `enum` await the body of a type until a `;`
/// or a `{`, `switch` awaits its body, and the word that starts a linkage
/// specification awaits, behind its string, a block.
pub proof fn law_words_await_their_body(s: State, env: Input, t: Token, p: int)
    requires
        s.blank_lines == 0 && !s.decls.owe_blank,
        !s.page.at_line_start,
    ensures
        ({
            let m = s.step(env, t, p).0.marks;
            &&& t.kind == TokenKind::KwStruct || t.kind == TokenKind::KwClass || t.kind
                == TokenKind::KwUnion || t.kind == TokenKind::KwEnum ==> m.pending_type
            &&& t.kind == TokenKind::KwSwitch ==> m.pending_switch
            &&& t.kind == TokenKind::Semi ==> !m.pending_type && !m.pending_linkage
            &&& t.kind == TokenKind::Keyword ==> m.pending_linkage == (t.lexeme@ == seq![
                'e',
                'x',
                't',
                'e',
                'r',
                'n',
            ])
            &&& t.kind == TokenKind::LitStr ==> m.pending_linkage == s.marks.pending_linkage
            &&& t.kind == TokenKind::Ident ==> !m.pending_linkage && m.pending_type
                == s.marks.pending_type
        }),
{
    crate::laws::gaps::lemma_flushed(s, env);
    if crate::laws::gaps::is_plain(t.kind) && t.kind != TokenKind::Lt && t.kind != TokenKind::Gt
        && t.kind != TokenKind::GtGt && t.kind != TokenKind::Star && t.kind != TokenKind::Amp {
        crate::laws::gaps::lemma_taken(s, env, t, p);
        crate::laws::gaps::lemma_operand_taken(s, env, t, p);
        reveal(State::write_spaced);
        reveal(State::lead_in);
    } else if t.kind == TokenKind::Semi {
        crate::laws::gaps::lemma_semi_taken(s, env, t, p);
    }
}

// ── Initializers ─────────────────────────────────────────────────────────────

/// The texts of a list of names and literals with commas between: each comma
/// right behind the item before it, each item behind a space.
pub open spec fn listed(items: Seq<Token>) -> Seq<char>
    decreases items.len(),
{
    if items.len() == 0 {
        Seq::empty()
    } else if items.last().kind == TokenKind::Comma {
        listed(items.drop_last()) + items.last().lexeme@
    } else if items.len() == 1 {
        items.last().lexeme@
    } else {
        listed(items.drop_last()) + seq![' '] + items.last().lexeme@
    }
}

/// The items are names, literals and commas.
pub open spec fn is_list(items: Seq<Token>) -> bool {
    forall|x: int|
        0 <= x < items.len() ==> crate::laws::gaps::is_atom((#[trigger] items[x]).kind)
            || items[x].kind == TokenKind::Comma
}

proof fn lemma_write_list(
    p: crate::layout::PageView,
    items: Seq<Token>,
    prev: TokenKind,
    unary: bool,
)
    requires
        is_list(items),
        !unary,
        prev == TokenKind::Comma || crate::laws::gaps::is_atom(prev),
    ensures
        p.write_items(items, prev, unary).out == p.out + spread(items),
    decreases items.len(),
{
    if items.len() > 0 {
        let t = items[0];
        let rest = items.drop_first();
        let spaced = if t.kind == TokenKind::Comma {
            p
        } else {
            p.write(seq![' '])
        };
        assert forall|x: int| 0 <= x < rest.len() implies crate::laws::gaps::is_atom(
            (#[trigger] rest[x]).kind,
        ) || rest[x].kind == TokenKind::Comma by {
            assert(rest[x] == items[x + 1]);
        }
        let w = spaced.write(t.lexeme@);
        lemma_write_list(w, rest, t.kind, false);
        assert(t.lexeme@.len() == 0 ==> spaced.out + t.lexeme@ =~= spaced.out);
        assert(w.out == spaced.out + t.lexeme@);
        assert(w.out + spread(rest) =~= p.out + spread(items));
    } else {
        assert(p.out + spread(items) =~= p.out);
    }
}

/// The same texts, with a space before the first item.
pub open spec fn spread(items: Seq<Token>) -> Seq<char>
    decreases items.len(),
{
    if items.len() == 0 {
        Seq::empty()
    } else {
        (if items[0].kind == TokenKind::Comma {
            Seq::empty()
        } else {
            seq![' ']
        }) + items[0].lexeme@ + spread(items.drop_first())
    }
}

proof fn lemma_spread_last(items: Seq<Token>)
    requires
        items.len() > 0,
    ensures
        spread(items) == spread(items.drop_last()) + (if items.last().kind == TokenKind::Comma {
            Seq::empty()
        } else {
            seq![' ']
        }) + items.last().lexeme@,
    decreases items.len(),
{
    let gap = if items.last().kind == TokenKind::Comma {
        Seq::empty()
    } else {
        seq![' ']
    };
    if items.len() == 1 {
        assert(items.drop_first() =~= Seq::empty());
        assert(items.drop_last() =~= Seq::empty());
        assert(spread(items) =~= spread(items.drop_last()) + gap + items.last().lexeme@);
    } else {
        let rest = items.drop_first();
        lemma_spread_last(rest);
        assert(rest.drop_last() =~= items.drop_last().drop_first());
        assert(spread(items) =~= spread(items.drop_last()) + gap + items.last().lexeme@);
    }
}

proof fn lemma_spread(items: Seq<Token>)
    requires
        items.len() > 0,
        items[0].kind != TokenKind::Comma,
    ensures
        spread(items) == seq![' '] + listed(items),
    decreases items.len(),
{
    lemma_spread_last(items);
    if items.len() == 1 {
        assert(items.drop_last() =~= Seq::empty());
        assert(spread(items) =~= seq![' '] + listed(items));
    } else {
        lemma_spread(items.drop_last());
        assert(spread(items) =~= seq![' '] + listed(items));
    }
}

/// In an initializer a sign in front of its first operand, or behind a comma or
/// a `(`, clings to the operand: `{ -1, 2 }`.
pub proof fn law_signs_in_initializers_cling(
    p: crate::layout::PageView,
    sign: Token,
    item: Token,
    rest: Seq<Token>,
    prev: TokenKind,
)
    requires
        prev == TokenKind::LBrace || prev == TokenKind::Comma || prev == TokenKind::LParen,
        crate::laws::gaps::is_sign(sign.kind),
        crate::laws::gaps::is_atom(item.kind),
        sign.lexeme@.len() > 0 && item.lexeme@.len() > 0,
    ensures
        ({
            let lead = if prev == TokenKind::Comma {
                seq![' ']
            } else {
                Seq::empty()
            };
            p.write_items(seq![sign, item] + rest, prev, false).out == p.write(
                lead + sign.lexeme@ + item.lexeme@,
            ).write_items(rest, item.kind, false).out
        }),
{
    let all = seq![sign, item] + rest;
    let one = all.drop_first();
    assert(one[0] == item);
    assert(one.drop_first() =~= rest);
    let lead = if prev == TokenKind::Comma {
        seq![' ']
    } else {
        Seq::empty()
    };
    let a = if prev == TokenKind::Comma {
        p.write(seq![' '])
    } else {
        p
    };
    let b = a.write(sign.lexeme@).write(item.lexeme@);
    let c = p.write(lead + sign.lexeme@ + item.lexeme@);
    assert(b.out =~= c.out);
    assert((lead + sign.lexeme@ + item.lexeme@).last() == item.lexeme@.last());
    assert(b == c);
    assert(p.write_items(all, prev, false) == a.write(sign.lexeme@).write_items(
        one,
        sign.kind,
        true,
    ));
}

/// Nothing stands around the `.` and `->` of an item, and none behind a `(`; a
/// designator's `.` behind a comma or the `{` is an item of its own.
pub proof fn law_members_in_initializers_are_tight(prev: TokenKind, k: TokenKind)
    ensures
        prev == TokenKind::Dot || prev == TokenKind::Arrow || prev == TokenKind::LParen || prev
            == TokenKind::LBrace ==> !crate::braces::item_space(prev, k, false),
        crate::laws::gaps::ends_operand(prev) && (k == TokenKind::Dot || k == TokenKind::Arrow)
            ==> !crate::braces::item_space(prev, k, false),
        prev == TokenKind::Comma && k == TokenKind::Dot ==> crate::braces::item_space(
            prev,
            k,
            false,
        ),
        k == TokenKind::Comma ==> !crate::braces::item_space(prev, k, false),
        crate::laws::gaps::is_binary(k) && crate::laws::gaps::ends_operand(prev)
            ==> crate::braces::item_space(prev, k, false),
        crate::laws::gaps::is_atom(k) && crate::laws::gaps::is_binary(prev)
            ==> crate::braces::item_space(prev, k, false),
        (crate::laws::gaps::is_atom(k) || crate::laws::gaps::is_word(k)) && (
        crate::laws::gaps::is_atom(prev) || crate::laws::gaps::is_word(prev) || prev
            == TokenKind::Comma || prev == TokenKind::RParen) ==> crate::braces::item_space(
            prev,
            k,
            false,
        ),
{
}

/// The tokens from `i` up to `j` without layout.
pub open spec fn solid(toks: Seq<Token>, i: int, j: int) -> Seq<Token>
    decreases j - i,
{
    if j <= i {
        Seq::empty()
    } else if toks[j - 1].kind == TokenKind::Whitespace || toks[j - 1].kind == TokenKind::Newline {
        solid(toks, i, j - 1)
    } else {
        solid(toks, i, j - 1).push(toks[j - 1])
    }
}

pub proof fn lemma_solid(toks: Seq<Token>, i: int, j: int)
    requires
        i <= j,
    ensures
        crate::scan::content(toks, i, j) == solid(toks, i, j),
    decreases j - i,
{
    if i < j {
        lemma_solid(toks, i, j - 1);
        crate::laws::weave::lemma_content_split(toks, i, j - 1, j);
        crate::laws::weave::lemma_content_one(toks, j - 1);
        reveal_with_fuel(crate::scan::content, 2);
        assert(crate::scan::content(toks, i, j) =~= solid(toks, i, j));
    }
}

/// The `}` at `e` closes an initializer that opens before `p`, with neither
/// braces nor line ends inside.
pub open spec fn is_flat(toks: Seq<Token>, p: int, e: int) -> bool {
    &&& 0 <= p <= e < toks.len()
    &&& toks[e].kind == TokenKind::RBrace
    &&& forall|x: int|
        p <= x < e ==> (#[trigger] toks[x]).kind != TokenKind::LBrace && toks[x].kind
            != TokenKind::RBrace && toks[x].kind != TokenKind::Newline
}

proof fn lemma_flat(toks: Seq<Token>, p: int, e: int)
    requires
        is_flat(toks, p, e),
    ensures
        crate::scan::skip(toks, p, KindSet::FlatInit) == e,
    decreases e - p,
{
    if p < e {
        assert(toks[p].kind != TokenKind::LBrace);
        lemma_flat(toks, p + 1, e);
    }
}

/// An initializer of at most sixteen tokens that stands on one line of the
/// source is written on one line: `{ a, b, c }`.
pub proof fn law_small_initializers_stay_on_one_line(
    s: State,
    env: Input,
    t: Token,
    p: int,
    e: int,
)
    requires
        crate::laws::gaps::mid_line(s),
        t.kind == TokenKind::LBrace && t.lexeme@ == seq!['{'],
        s.marks.prev == Some(TokenKind::Eq),
        crate::laws::gaps::behind(s, TokenKind::Eq),
        is_flat(env.toks, p, e),
        1 <= solid(env.toks, p, e).len() <= 16,
        is_list(solid(env.toks, p, e)),
        solid(env.toks, p, e)[0].kind != TokenKind::Comma,
    ensures
        ({
            let (r, q) = s.step(env, t, p);
            let lead = if env.config.spacing.space_around_binary_ops {
                seq![' ', '{', ' ']
            } else {
                seq!['{', ' ']
            };
            &&& q == e + 1
            &&& r.page.out == s.page.out + lead + listed(solid(env.toks, p, e)) + seq![' ', '}']
            &&& r.braces == s.braces && r.depth == s.depth
        }),
{
    assert(s.step(env, t, p) == s.on_lbrace(env, p, t.span.line)) by {
        reveal(State::step);
    }
    crate::laws::gaps::lemma_flushed(s, env);
    law_braces_open_what_leads_to_them(s, env, p);
    lemma_flat(env.toks, p, e);
    lemma_solid(env.toks, p, e);
    let items = solid(env.toks, p, e);
    let spaced = env.config.spacing.space_around_binary_ops;
    let b = s.place_brace(env, BraceCtx::Other, p);
    let open = if spaced {
        seq![' ', '{']
    } else {
        seq!['{']
    };
    assert(b.page.out =~= s.page.out + open && b.braces == s.braces && b.depth == s.depth) by {
        reveal(State::place_brace);
    }
    let first = items[0];
    let rest = items.drop_first();
    let w = b.page.write(seq![' ']).write(first.lexeme@);
    assert(first.lexeme@.len() == 0 ==> b.page.write(seq![' ']).out + first.lexeme@
        =~= b.page.write(seq![' ']).out);
    assert forall|x: int| 0 <= x < rest.len() implies crate::laws::gaps::is_atom(
        (#[trigger] rest[x]).kind,
    ) || rest[x].kind == TokenKind::Comma by {
        assert(rest[x] == items[x + 1]);
    }
    assert(crate::laws::gaps::is_atom(items[0].kind));
    lemma_write_list(w, rest, first.kind, false);
    lemma_spread(items);
    let inner = b.page.write(seq![' ']).write_items(items, TokenKind::LBrace, false);
    assert(inner == w.write_items(rest, first.kind, false));
    assert(inner.out =~= b.page.out + seq![' '] + (first.lexeme@ + spread(rest)));
    assert(seq![' '] + listed(items) =~= seq![' '] + first.lexeme@ + spread(rest));
    assert(listed(items) =~= first.lexeme@ + spread(rest)) by {
        let x = seq![' '] + listed(items);
        let y = seq![' '] + (first.lexeme@ + spread(rest));
        assert(y =~= seq![' '] + first.lexeme@ + spread(rest));
        assert(x == y);
        assert(x.skip(1) =~= listed(items));
        assert(y.skip(1) =~= first.lexeme@ + spread(rest));
    }
    let lead = if spaced {
        seq![' ', '{', ' ']
    } else {
        seq!['{', ' ']
    };
    assert(s.step(env, t, p).0.page.out =~= s.page.out + lead + listed(items) + seq![' ', '}']);
}

/// A longer initializer is no such: its `{` opens a body.
pub proof fn law_large_initializers_open_a_body(s: State, env: Input, t: Token, p: int, e: int)
    requires
        t.kind == TokenKind::LBrace,
        is_flat(env.toks, p, e),
        solid(env.toks, p, e).len() > 16,
    ensures
        s.step(env, t, p).1 == p,
        s.brace_ctx(env, p) == BraceCtx::Other ==> s.step(env, t, p).0.braces.last().large_init
            == env.config.braces.expand_large_initializers,
{
    assert(s.step(env, t, p) == s.on_lbrace(env, p, t.span.line)) by {
        reveal(State::step);
    }
    lemma_flat(env.toks, p, e);
    lemma_solid(env.toks, p, e);
    let end = crate::scan::skip(env.toks, p, KindSet::Layout);
    assert(!crate::scan::is_at(env.toks, end, TokenKind::RBrace)) by {
        crate::laws::gaps::lemma_layout(env.toks, p);
        if crate::scan::is_at(env.toks, end, TokenKind::RBrace) {
            lemma_not_empty(env.toks, p, e);
        }
    }
    reveal(State::open_body);
}

proof fn lemma_not_empty(toks: Seq<Token>, p: int, e: int)
    requires
        is_flat(toks, p, e),
        crate::laws::statements::at(
            toks,
            crate::laws::statements::past_layout(toks, p),
            TokenKind::RBrace,
        ),
    ensures
        solid(toks, p, e).len() == 0,
    decreases e - p,
{
    lemma_solid(toks, p, e);
    if p < e {
        assert(toks[p].kind != TokenKind::RBrace);
        lemma_not_empty(toks, p + 1, e);
        lemma_solid(toks, p + 1, e);
    }
}

} // verus!
