//! Injection adds braces and nothing else.

use crate::config::Config;
use crate::inject::Part;
use crate::token::{KindSet, Token, TokenKind};
use vstd::prelude::*;

verus! {

/// The token stands in the source.
pub open spec fn is_genuine(t: Token) -> bool {
    t.span.line > 0
}

/// All tokens stand in the source.
pub open spec fn all_genuine(toks: Seq<Token>) -> bool {
    forall|i: int| 0 <= i < toks.len() ==> is_genuine(#[trigger] toks[i])
}

/// The tokens that stand in the source.
pub open spec fn genuine<'a>(toks: Seq<Token<'a>>) -> Seq<Token<'a>>
    decreases toks.len(),
{
    if toks.len() == 0 {
        Seq::empty()
    } else if is_genuine(toks.last()) {
        genuine(toks.drop_last()).push(toks.last())
    } else {
        genuine(toks.drop_last())
    }
}

/// Every token stands in the source or is an injected brace.
pub open spec fn only_braces_added(toks: Seq<Token>) -> bool {
    forall|i: int|
        0 <= i < toks.len() ==> is_genuine(#[trigger] toks[i]) || toks[i]
            == crate::inject::open_brace() || toks[i] == crate::inject::close_brace()
}

/// How many injected tokens of kind `k` the list holds.
pub open spec fn added(toks: Seq<Token>, k: TokenKind) -> nat
    decreases toks.len(),
{
    if toks.len() == 0 {
        0
    } else {
        added(toks.drop_last(), k) + (if !is_genuine(toks.last()) && toks.last().kind == k {
            1nat
        } else {
            0nat
        })
    }
}

/// As many `{` as `}` were injected, and nowhere was a `}` injected before its
/// `{`.
pub open spec fn balanced(toks: Seq<Token>) -> bool {
    &&& added(toks, TokenKind::LBrace) == added(toks, TokenKind::RBrace)
    &&& forall|k: int| 0 <= k <= toks.len() ==> #[trigger] opens_first(toks.take(k))
}

/// No more `}` than `{` were injected.
pub open spec fn opens_first(toks: Seq<Token>) -> bool {
    added(toks, TokenKind::RBrace) <= added(toks, TokenKind::LBrace)
}

/// The body of the control keyword at `i` stands in braces, is empty or
/// missing; that of an `else` may also be another `if`.
pub open spec fn has_braces(toks: Seq<Token>, i: int) -> bool {
    match toks[i].kind {
        TokenKind::KwIf | TokenKind::KwFor | TokenKind::KwWhile => body_in_braces(
            toks,
            crate::inject::head_end(toks, i),
        ),
        TokenKind::KwElse => body_in_braces(toks, i + 1) || crate::scan::is_at(
            toks,
            crate::scan::skip(toks, i + 1, KindSet::LayoutOrComment),
            TokenKind::KwIf,
        ),
        _ => true,
    }
}

/// All bodies stand in braces, are empty or missing.
pub open spec fn all_braced(toks: Seq<Token>) -> bool {
    forall|i: int| 0 <= i < toks.len() ==> #[trigger] has_braces(toks, i)
}

/// The first token from `h` on that is neither layout nor a comment is a `{`,
/// or a `;` that stands for an empty body. There may be none.
pub open spec fn body_in_braces(toks: Seq<Token>, h: int) -> bool {
    let b = crate::scan::skip(toks, h, KindSet::LayoutOrComment);
    b >= toks.len() || toks[b].kind == TokenKind::LBrace || toks[b].kind == TokenKind::Semi
}

pub proof fn lemma_genuine_add(a: Seq<Token>, b: Seq<Token>)
    ensures
        genuine(a + b) == genuine(a) + genuine(b),
        forall|k: TokenKind| #[trigger] added(a + b, k) == added(a, k) + added(b, k),
    decreases b.len(),
{
    if b.len() == 0 {
        assert(a + b =~= a);
        assert(genuine(a) + genuine(b) =~= genuine(a));
    } else {
        assert((a + b).drop_last() =~= a + b.drop_last());
        assert((a + b).last() == b.last());
        lemma_genuine_add(a, b.drop_last());
        assert(genuine(a) + genuine(b.drop_last()).push(b.last()) =~= (genuine(a) + genuine(
            b.drop_last(),
        )).push(b.last()));
        assert forall|k: TokenKind| #[trigger] added(a + b, k) == added(a, k) + added(b, k) by {
            assert(added(a + b.drop_last(), k) == added(a, k) + added(b.drop_last(), k));
        }
    }
}

pub proof fn lemma_genuine_all(toks: Seq<Token>)
    requires
        all_genuine(toks),
    ensures
        genuine(toks) == toks,
        forall|k: TokenKind| #[trigger] added(toks, k) == 0,
    decreases toks.len(),
{
    if toks.len() > 0 {
        assert(is_genuine(toks[toks.len() - 1]));
        assert forall|i: int| 0 <= i < toks.drop_last().len() implies is_genuine(
            #[trigger] toks.drop_last()[i],
        ) by {
            assert(is_genuine(toks[i]));
        }
        lemma_genuine_all(toks.drop_last());
        assert(toks.drop_last().push(toks.last()) =~= toks);
        assert forall|k: TokenKind| #[trigger] added(toks, k) == 0 by {
            assert(added(toks.drop_last(), k) == 0);
        }
    }
}

/// Balanced lists in a row are balanced.
proof fn lemma_balanced_add(a: Seq<Token>, b: Seq<Token>)
    requires
        balanced(a),
        balanced(b),
    ensures
        balanced(a + b),
{
    let whole = a + b;
    lemma_genuine_add(a, b);
    assert(added(whole, TokenKind::LBrace) == added(whole, TokenKind::RBrace));
    assert forall|k: int| 0 <= k <= whole.len() implies #[trigger] opens_first(whole.take(k)) by {
        if k <= a.len() {
            assert(whole.take(k) =~= a.take(k));
            assert(opens_first(a.take(k)));
        } else {
            let t = b.take(k - a.len());
            assert(whole.take(k) =~= a + t);
            lemma_genuine_add(a, t);
            assert(opens_first(t));
            assert(added(a + t, TokenKind::RBrace) <= added(a + t, TokenKind::LBrace));
        }
    }
}

/// A balanced list in injected braces is balanced.
proof fn lemma_balanced_braced(s: Seq<Token>)
    requires
        balanced(s),
    ensures
        balanced(seq![crate::inject::open_brace()] + s + seq![crate::inject::close_brace()]),
        genuine(seq![crate::inject::open_brace()] + s + seq![crate::inject::close_brace()])
            == genuine(s),
{
    let open = seq![crate::inject::open_brace()];
    let close = seq![crate::inject::close_brace()];
    let whole = open + s + close;
    reveal_with_fuel(genuine, 2);
    reveal_with_fuel(added, 2);
    assert(open.drop_last() =~= Seq::empty());
    assert(close.drop_last() =~= Seq::empty());
    lemma_genuine_add(open, s);
    lemma_genuine_add(open + s, close);
    assert(genuine(open) =~= Seq::empty());
    assert(genuine(close) =~= Seq::empty());
    assert(Seq::empty() + genuine(s) + Seq::empty() =~= genuine(s));
    assert(added(whole, TokenKind::LBrace) == added(s, TokenKind::LBrace) + 1);
    assert(added(whole, TokenKind::RBrace) == added(s, TokenKind::RBrace) + 1);
    assert forall|k: int| 0 <= k <= whole.len() implies #[trigger] opens_first(whole.take(k)) by {
        if k == 0 {
            assert(whole.take(k) =~= Seq::empty());
        } else if k <= s.len() + 1 {
            let t = s.take(k - 1);
            assert(whole.take(k) =~= open + t);
            lemma_genuine_add(open, t);
            assert(opens_first(t));
            assert(added(open + t, TokenKind::RBrace) <= added(open + t, TokenKind::LBrace));
        } else {
            assert(whole.take(k) =~= whole);
        }
    }
}

/// A part stands for the tokens from `i` to its end, with balanced braces
/// added; none where all bodies have theirs or none are wanted.
spec fn sound(toks: Seq<Token>, config: Config, i: int, part: Part) -> bool {
    &&& i <= part.next <= toks.len()
    &&& all_genuine(toks) ==> {
        &&& genuine(part.out) == toks.subrange(i, part.next)
        &&& balanced(part.out)
        &&& only_braces_added(part.out)
    }
    &&& all_braced(toks) || !crate::formatter::injects(config) ==> part.out == toks.subrange(
        i,
        part.next,
    )
    &&& drawn(toks, part.out)
    &&& all_genuine(toks) && crate::laws::statements::well_nested(toks)
        ==> crate::laws::statements::all_enclose_one(toks, config.braces, i, part.out)
}

/// Every token comes from `toks` or is an injected brace.
pub open spec fn drawn(toks: Seq<Token>, out: Seq<Token>) -> bool {
    forall|k: int|
        0 <= k < out.len() ==> toks.contains(#[trigger] out[k]) || out[k]
            == crate::inject::open_brace() || out[k] == crate::inject::close_brace()
}

proof fn lemma_plain(toks: Seq<Token>, config: Config, i: int, j: int)
    requires
        0 <= i <= j <= toks.len(),
    ensures
        sound(toks, config, i, crate::inject::plain(toks, i, j)),
{
    let s = toks.subrange(i, j);
    assert forall|k: int| 0 <= k < s.len() implies toks.contains(#[trigger] s[k]) by {
        assert(toks[i + k] == s[k]);
    }
    if all_genuine(toks) {
        assert forall|k: int| 0 <= k < s.len() implies is_genuine(#[trigger] s[k]) by {
            assert(is_genuine(toks[i + k]));
        }
        lemma_genuine_all(s);
        crate::laws::statements::lemma_enclose_none(toks, config.braces, i, s);
        assert(added(s, TokenKind::LBrace) == 0 && added(s, TokenKind::RBrace) == 0);
        assert forall|k: int| 0 <= k <= s.len() implies #[trigger] opens_first(s.take(k)) by {
            assert forall|x: int| 0 <= x < k implies is_genuine(#[trigger] s.take(k)[x]) by {
                assert(is_genuine(s[x]));
            }
            lemma_genuine_all(s.take(k));
            assert(added(s.take(k), TokenKind::RBrace) == 0);
        }
    }
}

proof fn lemma_behind(toks: Seq<Token>, config: Config, i: int, j: int, part: Part)
    requires
        0 <= i <= j <= toks.len(),
        sound(toks, config, j, part),
    ensures
        sound(toks, config, i, crate::inject::behind(toks, i, j, part)),
{
    lemma_plain(toks, config, i, j);
    lemma_chain(toks, config, i, crate::inject::plain(toks, i, j), part);
}

proof fn lemma_chain(toks: Seq<Token>, config: Config, i: int, a: Part, b: Part)
    requires
        0 <= i,
        sound(toks, config, i, a),
        sound(toks, config, a.next, b),
    ensures
        sound(toks, config, i, crate::inject::chain(a, b)),
{
    assert(toks.subrange(i, a.next) + toks.subrange(a.next, b.next) =~= toks.subrange(i, b.next));
    let all = a.out + b.out;
    assert forall|k: int| 0 <= k < all.len() implies toks.contains(#[trigger] all[k]) || all[k]
        == crate::inject::open_brace() || all[k] == crate::inject::close_brace() by {
        if k < a.out.len() {
            assert(all[k] == a.out[k]);
        } else {
            assert(all[k] == b.out[k - a.out.len()]);
        }
    }
    if all_genuine(toks) {
        lemma_genuine_add(a.out, b.out);
        lemma_balanced_add(a.out, b.out);
        if crate::laws::statements::well_nested(toks) {
            crate::laws::statements::lemma_enclose_add(toks, config.braces, i, a.out, b.out);
        }
    }
}

proof fn lemma_block_rest(toks: Seq<Token>, config: Config, i: int)
    requires
        0 <= i <= toks.len(),
    ensures
        sound(toks, config, i, crate::inject::block_rest(toks, config.braces, i)),
    decreases toks.len() - i, 4int,
{
    lemma_plain(toks, config, i, i);
    if i < toks.len() {
        lemma_plain(toks, config, i, i + 1);
        if toks[i].kind != TokenKind::RBrace {
            lemma_item(toks, config, i);
            let first = crate::inject::item(toks, config.braces, i);
            lemma_block_rest(toks, config, first.next);
            lemma_chain(toks, config, i, first, crate::inject::block_rest(toks, config.braces, first.next));
        }
    }
}

proof fn lemma_block(toks: Seq<Token>, config: Config, i: int)
    requires
        0 <= i < toks.len(),
    ensures
        sound(toks, config, i, crate::inject::block(toks, config.braces, i)),
        i < crate::inject::block(toks, config.braces, i).next,
    decreases toks.len() - i, 1int,
{
    lemma_block_rest(toks, config, i + 1);
    lemma_behind(toks, config, i, i + 1, crate::inject::block_rest(toks, config.braces, i + 1));
}

proof fn lemma_stmt(toks: Seq<Token>, config: Config, i: int)
    requires
        0 <= i <= toks.len(),
    ensures
        sound(toks, config, i, crate::inject::stmt(toks, config.braces, i)),
    decreases toks.len() - i, 3int,
{
    let j = crate::scan::skip(toks, i, KindSet::LayoutOrComment);
    crate::scan::lemma_skip(toks, i, KindSet::LayoutOrComment);
    lemma_plain(toks, config, i, j);
    if j < toks.len() {
        let part = match toks[j].kind {
            TokenKind::LBrace => {
                lemma_block(toks, config, j);
                crate::inject::block(toks, config.braces, j)
            },
            TokenKind::KwIf => {
                lemma_if_stmt(toks, config, j);
                crate::inject::if_stmt(toks, config.braces, j)
            },
            TokenKind::KwElse => {
                lemma_else_stmt(toks, config, j);
                crate::inject::else_stmt(toks, config.braces, j)
            },
            TokenKind::KwFor | TokenKind::KwWhile => {
                lemma_loop_stmt(toks, config, j);
                crate::inject::loop_stmt(toks, config.braces, j)
            },
            TokenKind::KwDo => {
                lemma_do_stmt(toks, config, j);
                crate::inject::do_stmt(toks, config.braces, j)
            },
            TokenKind::KwSwitch => {
                lemma_switch_stmt(toks, config, j);
                crate::inject::switch_stmt(toks, config.braces, j)
            },
            TokenKind::KwTry => {
                lemma_try_stmt(toks, config, j);
                crate::inject::try_stmt(toks, config.braces, j)
            },
            TokenKind::Ident => {
                lemma_call_stmt(toks, config, j);
                crate::inject::call_stmt(toks, config.braces, j)
            },
            _ => {
                let end = crate::inject::stmt_end(toks, j, 0);
                crate::inject::lemma_stmt_end(toks, j, 0);
                lemma_plain(toks, config, j, end);
                crate::inject::plain(toks, j, end)
            },
        };
        lemma_behind(toks, config, i, j, part);
    }
}

/// The braces of a body are injected only where it has none.
proof fn lemma_body(toks: Seq<Token>, config: Config, h: int, add: bool)
    requires
        0 <= h <= toks.len(),
        all_braced(toks) ==> body_in_braces(toks, h),
        add ==> crate::formatter::injects(config),
        add && crate::laws::statements::well_nested(toks) ==> exists|k: int|
            #[trigger] crate::laws::statements::controls(
                toks,
                config.braces,
                k,
                crate::laws::statements::past_layout(toks, h),
            ),
    ensures
        sound(toks, config, h, crate::inject::body(toks, config.braces, h, add)),
    decreases toks.len() - h, 4int,
{
    let solid = crate::scan::skip(toks, h, KindSet::LayoutOrComment);
    let j = crate::scan::skip(toks, h, KindSet::Layout);
    crate::scan::lemma_skip(toks, h, KindSet::LayoutOrComment);
    crate::scan::lemma_skip(toks, h, KindSet::Layout);
    lemma_plain(toks, config, h, solid);
    if solid < toks.len() {
        if toks[solid].kind == TokenKind::LBrace {
            lemma_block(toks, config, solid);
            lemma_behind(toks, config, h, solid, crate::inject::block(toks, config.braces, solid));
        } else if toks[solid].kind == TokenKind::Semi {
            lemma_plain(toks, config, h, solid + 1);
        } else {
            lemma_stmt(toks, config, j);
            let s = crate::inject::stmt(toks, config.braces, j);
            if add {
                if all_genuine(toks) {
                    lemma_balanced_braced(s.out);
                    if crate::laws::statements::well_nested(toks) {
                        let t = crate::laws::statements::lemma_statement(toks, config.braces, j);
                        crate::laws::statements::lemma_body_first(toks, h);
                        assert(j == crate::laws::statements::past_layout(toks, h));
                        crate::laws::statements::lemma_enclose_braced(
                            toks,
                            config.braces,
                            j,
                            s.out,
                            t,
                        );
                    }
                }
                let wrapped = crate::inject::braced(s).out;
                assert forall|k: int| 0 <= k < wrapped.len() implies toks.contains(
                    #[trigger] wrapped[k],
                ) || wrapped[k] == crate::inject::open_brace() || wrapped[k]
                    == crate::inject::close_brace() by {
                    if 0 < k <= s.out.len() {
                        assert(wrapped[k] == s.out[k - 1]);
                    }
                }
                lemma_behind(toks, config, h, j, crate::inject::braced(s));
            } else {
                lemma_behind(toks, config, h, j, s);
            }
        }
    }
}

proof fn lemma_if_stmt(toks: Seq<Token>, config: Config, i: int)
    requires
        0 <= i < toks.len(),
        toks[i].kind == TokenKind::KwIf,
    ensures
        sound(toks, config, i, crate::inject::if_stmt(toks, config.braces, i)),
        i < crate::inject::if_stmt(toks, config.braces, i).next,
    decreases toks.len() - i, 1int,
{
    let h = crate::inject::head_end(toks, i);
    crate::inject::lemma_head_end(toks, i);
    assert(all_braced(toks) ==> has_braces(toks, i));
    if crate::laws::statements::well_nested(toks) {
        crate::laws::statements::lemma_controls(toks, config.braces, i);
    }
    lemma_body(toks, config, h, config.braces.add_braces_to_if);
    let inner = crate::inject::body(toks, config.braces, h, config.braces.add_braces_to_if);
    lemma_behind(toks, config, i, h, inner);
    let first = crate::inject::behind(toks, i, h, inner);
    let e = crate::scan::skip(toks, first.next, KindSet::LayoutOrComment);
    crate::scan::lemma_skip(toks, first.next, KindSet::LayoutOrComment);
    if crate::scan::is_at(toks, e, TokenKind::KwElse) {
        lemma_else_stmt(toks, config, e);
        let tail = crate::inject::else_stmt(toks, config.braces, e);
        lemma_behind(toks, config, first.next, e, tail);
        lemma_chain(toks, config, i, first, crate::inject::behind(toks, first.next, e, tail));
    }
}

proof fn lemma_else_stmt(toks: Seq<Token>, config: Config, i: int)
    requires
        0 <= i < toks.len(),
        toks[i].kind == TokenKind::KwElse,
    ensures
        sound(toks, config, i, crate::inject::else_stmt(toks, config.braces, i)),
        i < crate::inject::else_stmt(toks, config.braces, i).next,
    decreases toks.len() - i, 1int,
{
    let add = config.braces.add_braces_to_if;
    let j = crate::scan::skip(toks, i + 1, KindSet::LayoutOrComment);
    crate::scan::lemma_skip(toks, i + 1, KindSet::LayoutOrComment);
    assert(all_braced(toks) ==> has_braces(toks, i));
    if crate::scan::is_at(toks, j, TokenKind::KwIf) {
        lemma_if_stmt(toks, config, j);
        lemma_behind(toks, config, i, j, crate::inject::if_stmt(toks, config.braces, j));
    } else {
        assert(add ==> crate::laws::statements::controls(
            toks,
            config.braces,
            i,
            crate::laws::statements::past_layout(toks, i + 1),
        ));
        lemma_body(toks, config, i + 1, add);
        lemma_behind(toks, config, i, i + 1, crate::inject::body(toks, config.braces, i + 1, add));
    }
}

proof fn lemma_loop_stmt(toks: Seq<Token>, config: Config, i: int)
    requires
        0 <= i < toks.len(),
        toks[i].kind == TokenKind::KwFor || toks[i].kind == TokenKind::KwWhile,
    ensures
        sound(toks, config, i, crate::inject::loop_stmt(toks, config.braces, i)),
        i < crate::inject::loop_stmt(toks, config.braces, i).next,
    decreases toks.len() - i, 1int,
{
    let h = crate::inject::head_end(toks, i);
    let add = if toks[i].kind == TokenKind::KwFor {
        config.braces.add_braces_to_for
    } else {
        config.braces.add_braces_to_while
    };
    crate::inject::lemma_head_end(toks, i);
    assert(all_braced(toks) ==> has_braces(toks, i));
    if crate::laws::statements::well_nested(toks) {
        crate::laws::statements::lemma_controls(toks, config.braces, i);
    }
    lemma_body(toks, config, h, add);
    lemma_behind(toks, config, i, h, crate::inject::body(toks, config.braces, h, add));
}

proof fn lemma_do_stmt(toks: Seq<Token>, config: Config, i: int)
    requires
        0 <= i < toks.len(),
    ensures
        sound(toks, config, i, crate::inject::do_stmt(toks, config.braces, i)),
    decreases toks.len() - i, 1int,
{
    lemma_stmt(toks, config, i + 1);
    let inner = crate::inject::stmt(toks, config.braces, i + 1);
    lemma_behind(toks, config, i, i + 1, inner);
    let first = crate::inject::behind(toks, i, i + 1, inner);
    let w = crate::scan::skip(toks, first.next, KindSet::LayoutOrComment);
    crate::scan::lemma_skip(toks, first.next, KindSet::LayoutOrComment);
    if crate::scan::is_at(toks, w, TokenKind::KwWhile) {
        let end = crate::inject::stmt_end(toks, w, 0);
        crate::inject::lemma_stmt_end(toks, w, 0);
        lemma_plain(toks, config, first.next, end);
        lemma_chain(toks, config, i, first, crate::inject::plain(toks, first.next, end));
    }
}

proof fn lemma_switch_stmt(toks: Seq<Token>, config: Config, i: int)
    requires
        0 <= i < toks.len(),
    ensures
        sound(toks, config, i, crate::inject::switch_stmt(toks, config.braces, i)),
    decreases toks.len() - i, 1int,
{
    let h = crate::inject::head_end(toks, i);
    crate::inject::lemma_head_end(toks, i);
    lemma_stmt(toks, config, h);
    lemma_behind(toks, config, i, h, crate::inject::stmt(toks, config.braces, h));
}

proof fn lemma_try_stmt(toks: Seq<Token>, config: Config, i: int)
    requires
        0 <= i < toks.len(),
    ensures
        sound(toks, config, i, crate::inject::try_stmt(toks, config.braces, i)),
    decreases toks.len() - i, 1int,
{
    lemma_stmt(toks, config, i + 1);
    let inner = crate::inject::stmt(toks, config.braces, i + 1);
    lemma_behind(toks, config, i, i + 1, inner);
    let first = crate::inject::behind(toks, i, i + 1, inner);
    lemma_handlers(toks, config, first.next);
    lemma_chain(toks, config, i, first, crate::inject::handlers(toks, config.braces, first.next));
}

proof fn lemma_handlers(toks: Seq<Token>, config: Config, i: int)
    requires
        0 <= i <= toks.len(),
    ensures
        sound(toks, config, i, crate::inject::handlers(toks, config.braces, i)),
    decreases toks.len() - i, 4int,
{
    let c = crate::scan::skip(toks, i, KindSet::LayoutOrComment);
    crate::scan::lemma_skip(toks, i, KindSet::LayoutOrComment);
    lemma_plain(toks, config, i, i);
    if crate::scan::is_at(toks, c, TokenKind::KwCatch) {
        let h = crate::inject::head_end(toks, c);
        crate::inject::lemma_head_end(toks, c);
        lemma_stmt(toks, config, h);
        let inner = crate::inject::stmt(toks, config.braces, h);
        lemma_behind(toks, config, i, h, inner);
        let first = crate::inject::behind(toks, i, h, inner);
        lemma_handlers(toks, config, first.next);
        lemma_chain(toks, config, i, first, crate::inject::handlers(toks, config.braces, first.next));
    }
}

proof fn lemma_call_stmt(toks: Seq<Token>, config: Config, i: int)
    requires
        0 <= i < toks.len(),
    ensures
        sound(toks, config, i, crate::inject::call_stmt(toks, config.braces, i)),
    decreases toks.len() - i, 1int,
{
    let open = crate::scan::skip(toks, i + 1, KindSet::Layout);
    let h = crate::inject::paren_end(toks, open + 1, 1);
    let b = crate::scan::skip(toks, h, KindSet::LayoutOrComment);
    crate::scan::lemma_skip(toks, i + 1, KindSet::Layout);
    if i < b && crate::scan::is_at(toks, open, TokenKind::LParen) && crate::scan::is_at(
        toks,
        b,
        TokenKind::LBrace,
    ) {
        lemma_block(toks, config, b);
        lemma_behind(toks, config, i, b, crate::inject::block(toks, config.braces, b));
    } else {
        let end = crate::inject::stmt_end(toks, i, 0);
        crate::inject::lemma_stmt_end(toks, i, 0);
        lemma_plain(toks, config, i, end);
    }
}

proof fn lemma_item(toks: Seq<Token>, config: Config, i: int)
    requires
        0 <= i < toks.len(),
    ensures
        sound(toks, config, i, crate::inject::item(toks, config.braces, i)),
        i < crate::inject::item(toks, config.braces, i).next,
    decreases toks.len() - i, 2int,
{
    lemma_plain(toks, config, i, i + 1);
    match toks[i].kind {
        TokenKind::KwIf => lemma_if_stmt(toks, config, i),
        TokenKind::KwElse => lemma_else_stmt(toks, config, i),
        TokenKind::KwFor | TokenKind::KwWhile => lemma_loop_stmt(toks, config, i),
        TokenKind::LBrace => lemma_block(toks, config, i),
        _ => {},
    }
}

proof fn lemma_items(toks: Seq<Token>, config: Config, i: int)
    requires
        0 <= i <= toks.len(),
    ensures
        sound(
            toks,
            config,
            i,
            (Part { out: crate::inject::items(toks, config.braces, i), next: toks.len() as int }),
        ),
    decreases toks.len() - i,
{
    lemma_plain(toks, config, i, i);
    if i < toks.len() {
        lemma_item(toks, config, i);
        let first = crate::inject::item(toks, config.braces, i);
        lemma_items(toks, config, first.next);
        let rest = crate::inject::items(toks, config.braces, first.next);
        lemma_chain(toks, config, i, first, Part { out: rest, next: toks.len() as int });
    } else {
        assert(toks.subrange(i, i) =~= Seq::empty());
    }
}

/// Injection neither drops nor reorders a token of the source: without the
/// injected tokens the list is what it was. What is injected are braces, as
/// many `{` as `}`, and each `{` before its `}`.
pub proof fn law_injection_only_adds_braces(toks: Seq<Token>, config: Config)
    requires
        all_genuine(toks),
    ensures
        genuine(crate::inject::injected(toks, config)) == toks,
        only_braces_added(crate::inject::injected(toks, config)),
        balanced(crate::inject::injected(toks, config)),
{
    lemma_items(toks, config, 0);
    assert(toks.subrange(0, toks.len() as int) =~= toks);
}

/// Code whose bodies all stand in braces comes back as it is.
pub proof fn law_braced_code_is_kept(toks: Seq<Token>, config: Config)
    requires
        all_braced(toks),
    ensures
        crate::inject::injected(toks, config) == toks,
{
    lemma_items(toks, config, 0);
    assert(toks.subrange(0, toks.len() as int) =~= toks);
}

/// With all three settings off the tokens come back as they are.
pub proof fn law_nothing_is_injected_unasked(toks: Seq<Token>, config: Config)
    requires
        !config.braces.add_braces_to_if,
        !config.braces.add_braces_to_while,
        !config.braces.add_braces_to_for,
    ensures
        crate::inject::injected(toks, config) == toks,
{
    lemma_items(toks, config, 0);
    assert(toks.subrange(0, toks.len() as int) =~= toks);
}

/// Injection brings nothing but braces with it.
pub proof fn lemma_drawn(toks: Seq<Token>, config: Config)
    ensures
        drawn(toks, crate::inject::injected(toks, config)),
{
    lemma_items(toks, config, 0);
}

/// Each injected `{` encloses one statement.
pub proof fn lemma_encloses(toks: Seq<Token>, config: Config)
    requires
        all_genuine(toks),
        crate::laws::statements::well_nested(toks),
    ensures
        crate::laws::statements::all_enclose_one(
            toks,
            config.braces,
            0,
            crate::inject::injected(toks, config),
        ),
{
    lemma_items(toks, config, 0);
}

// ── Bodies ───────────────────────────────────────────────────────────────────

proof fn lemma_skip_inside(toks: Seq<Token>, i: int, set: KindSet)
    requires
        0 <= i <= toks.len(),
    ensures
        ({
            let j = crate::scan::skip(toks, i, set);
            &&& i <= j <= toks.len()
            &&& forall|k: int| i <= k < j ==> set.has((#[trigger] toks[k]).kind)
            &&& j < toks.len() ==> !set.has(toks[j].kind)
        }),
    decreases toks.len() - i,
{
    if crate::scan::any_at(toks, i, set) {
        lemma_skip_inside(toks, i + 1, set);
    }
}

pub proof fn lemma_skip_up_to(toks: Seq<Token>, i: int, j: int, set: KindSet)
    requires
        0 <= i <= j <= toks.len(),
        forall|k: int| i <= k < j ==> set.has((#[trigger] toks[k]).kind),
        j < toks.len() ==> !set.has(toks[j].kind),
    ensures
        crate::scan::skip(toks, i, set) == j,
    decreases j - i,
{
    if i < j {
        lemma_skip_up_to(toks, i + 1, j, set);
    }
}

/// A part that continues the tokens from `i` up to `j` with a `{` or a `;`, or
/// not at all, has its body in braces when only layout and comments lie
/// between `h` and `j`.
proof fn lemma_in_braces(toks: Seq<Token>, out: Seq<Token>, i: int, h: int, j: int)
    requires
        0 <= i <= h <= j <= toks.len(),
        out.len() >= j - i,
        out.take(j - i) == toks.subrange(i, j),
        forall|k: int| h <= k < j ==> KindSet::LayoutOrComment.has((#[trigger] toks[k]).kind),
        out.len() > j - i ==> out[j - i].kind == TokenKind::LBrace || out[j - i].kind
            == TokenKind::Semi,
    ensures
        body_in_braces(out, h - i),
{
    assert forall|k: int| h - i <= k < j - i implies KindSet::LayoutOrComment.has(
        (#[trigger] out[k]).kind,
    ) by {
        assert(out.take(j - i)[k] == out[k]);
        assert(toks.subrange(i, j)[k] == toks[i + k]);
    }
    lemma_skip_up_to(out, h - i, j - i, KindSet::LayoutOrComment);
}

/// A block starts with its `{`.
proof fn lemma_block_first(toks: Seq<Token>, config: Config, i: int)
    requires
        0 <= i < toks.len(),
    ensures
        crate::inject::block(toks, config.braces, i).out.len() > 0,
        crate::inject::block(toks, config.braces, i).out[0] == toks[i],
{
}

/// A part that continues the tokens from `i` up to `h` with a body whose braces
/// are wanted.
proof fn lemma_body_braces(toks: Seq<Token>, config: Config, i: int, h: int, rest: Seq<Token>)
    requires
        0 <= i <= h <= toks.len(),
    ensures
        ({
            let first = crate::inject::body(toks, config.braces, h, true);
            first.next < toks.len() || rest.len() == 0 ==> body_in_braces(
                toks.subrange(i, h) + first.out + rest,
                h - i,
            )
        }),
{
    let first = crate::inject::body(toks, config.braces, h, true);
    let out = toks.subrange(i, h) + first.out + rest;
    lemma_skip_inside(toks, h, KindSet::LayoutOrComment);
    lemma_skip_inside(toks, h, KindSet::Layout);
    let solid = crate::scan::skip(toks, h, KindSet::LayoutOrComment);
    let j = crate::scan::skip(toks, h, KindSet::Layout);
    if solid >= toks.len() {
        assert(out.take(solid - i) =~= toks.subrange(i, solid));
        if rest.len() == 0 {
            lemma_in_braces(toks, out, i, h, solid);
        }
    } else if toks[solid].kind == TokenKind::LBrace || toks[solid].kind == TokenKind::Semi {
        lemma_block_first(toks, config, solid);
        assert(out.take(solid - i) =~= toks.subrange(i, solid));
        assert(out[solid - i] == toks[solid]);
        lemma_in_braces(toks, out, i, h, solid);
    } else {
        assert(out.take(j - i) =~= toks.subrange(i, j));
        assert(out[j - i] == crate::inject::open_brace());
        lemma_in_braces(toks, out, i, h, j);
    }
}

/// With `add_braces_to_if`, `add_braces_to_while` and `add_braces_to_for` the
/// body of each such statement that the pass takes up stands in braces or is
/// empty: it gets braces where it had none.
pub proof fn law_bodies_stand_in_braces(toks: Seq<Token>, config: Config, i: int)
    requires
        0 <= i < toks.len(),
        (toks[i].kind == TokenKind::KwIf && config.braces.add_braces_to_if) || (toks[i].kind
            == TokenKind::KwWhile && config.braces.add_braces_to_while) || (toks[i].kind
            == TokenKind::KwFor && config.braces.add_braces_to_for),
    ensures
        body_in_braces(
            crate::inject::item(toks, config.braces, i).out,
            crate::inject::head_end(toks, i) - i,
        ),
{
    let h = crate::inject::head_end(toks, i);
    crate::inject::lemma_head_end(toks, i);
    let inner = crate::inject::body(toks, config.braces, h, true);
    let first = crate::inject::behind(toks, i, h, inner);
    let out = crate::inject::item(toks, config.braces, i).out;
    let e = crate::scan::skip(toks, inner.next, KindSet::LayoutOrComment);
    crate::scan::lemma_skip(toks, inner.next, KindSet::LayoutOrComment);
    let rest = out.skip(first.out.len() as int);
    assert(out =~= toks.subrange(i, h) + inner.out + rest);
    lemma_body_braces(toks, config, i, h, rest);
}

/// With `add_braces_to_if` the body of each `else` that the pass takes up
/// stands in braces, is empty or is another `if`.
pub proof fn law_else_bodies_stand_in_braces(toks: Seq<Token>, config: Config, i: int)
    requires
        0 <= i < toks.len(),
        toks[i].kind == TokenKind::KwElse,
        config.braces.add_braces_to_if,
    ensures
        crate::scan::is_at(
            toks,
            crate::scan::skip(toks, i + 1, KindSet::LayoutOrComment),
            TokenKind::KwIf,
        ) || body_in_braces(crate::inject::item(toks, config.braces, i).out, 1),
{
    let out = crate::inject::item(toks, config.braces, i).out;
    let j = crate::scan::skip(toks, i + 1, KindSet::LayoutOrComment);
    if !crate::scan::is_at(toks, j, TokenKind::KwIf) {
        let inner = crate::inject::body(toks, config.braces, i + 1, true);
        assert(out =~= toks.subrange(i, i + 1) + inner.out + Seq::empty());
        lemma_body_braces(toks, config, i, i + 1, Seq::empty());
    }
}

} // verus!
