//! Formatting changes white space, adds the braces that were asked for, and
//! nothing else.

use crate::config::{Config, Eol};
use crate::token::{Token, TokenKind};
use vstd::prelude::*;

verus! {

// ── What is laid out ─────────────────────────────────────────────────────────

proof fn lemma_brace_suits(t: Token)
    requires
        t == crate::inject::open_brace() || t == crate::inject::close_brace(),
    ensures
        crate::keep::suits(t),
        !crate::laws::injection::is_genuine(t),
        t.kind != TokenKind::Eof,
{
    reveal_strlit("{");
    reveal_strlit("}");
    assert("{"@ =~= seq!['{']);
    assert("}"@ =~= seq!['}']);
}

/// Each genuine token of a list occurs among its genuine tokens.
proof fn lemma_genuine_index(toks: Seq<Token>, i: int)
    requires
        0 <= i < toks.len(),
        crate::laws::injection::is_genuine(toks[i]),
    ensures
        ({
            let before = crate::laws::injection::genuine(toks.take(i));
            let all = crate::laws::injection::genuine(toks);
            before.len() < all.len() && all[before.len() as int] == toks[i] && before == all.take(
                before.len() as int,
            )
        }),
{
    let a = toks.take(i);
    let one = seq![toks[i]];
    let b = toks.skip(i + 1);
    assert(toks =~= a + (one + b));
    crate::laws::injection::lemma_genuine_add(a, one + b);
    crate::laws::injection::lemma_genuine_add(one, b);
    assert(one.drop_last() =~= Seq::empty());
    reveal_with_fuel(crate::laws::injection::genuine, 2);
    assert(crate::laws::injection::genuine(one) =~= one);
    let all = crate::laws::injection::genuine(toks);
    let before = crate::laws::injection::genuine(a);
    assert(before =~= all.take(before.len() as int));
}

/// The prepared tokens suit their kinds, are genuine or injected braces, and
/// without the latter are the tokens of the source.
pub proof fn lemma_prepared(src: Seq<char>, toks: Seq<Token>, config: Config)
    requires
        crate::lexer::all_stand_for(toks, src, crate::lexer::pieces(src)),
    ensures
        ({
            let shown = crate::formatter::prepared(toks, config);
            &&& crate::keep::well_formed(shown)
            &&& crate::laws::injection::only_braces_added(shown)
            &&& crate::laws::injection::genuine(shown) == toks
        }),
{
    let shown = crate::formatter::prepared(toks, config);
    crate::laws::lexing::law_lexer_is_lossless(src, toks);
    crate::laws::lexing::law_tokens_have_lines(src, toks);
    if crate::formatter::injects(config) {
        crate::laws::injection::law_injection_only_adds_braces(toks, config);
    } else {
        crate::laws::injection::lemma_genuine_all(toks);
    }
    assert forall|i: int| 0 <= i < shown.len() implies crate::keep::suits(#[trigger] shown[i]) by {
        if crate::laws::injection::is_genuine(shown[i]) {
            lemma_genuine_index(shown, i);
            let j = crate::laws::injection::genuine(shown.take(i)).len() as int;
            assert(toks[j] == shown[i]);
            assert(crate::keep::suits(toks[j]));
        } else {
            lemma_brace_suits(shown[i]);
        }
    }
}

/// The prepared tokens hold the end of the source.
pub proof fn lemma_has_end(src: Seq<char>, toks: Seq<Token>, config: Config) -> (k: int)
    requires
        crate::lexer::all_stand_for(toks, src, crate::lexer::pieces(src)),
    ensures
        0 <= k < crate::formatter::prepared(toks, config).len(),
        crate::formatter::prepared(toks, config)[k].kind == TokenKind::Eof,
{
    let shown = crate::formatter::prepared(toks, config);
    lemma_prepared(src, toks, config);
    crate::laws::lexing::law_lexer_is_lossless(src, toks);
    lemma_last_genuine(shown)
}

/// The last genuine token of a list stands in it.
proof fn lemma_last_genuine(toks: Seq<Token>) -> (k: int)
    requires
        crate::laws::injection::genuine(toks).len() > 0,
    ensures
        0 <= k < toks.len(),
        toks[k] == crate::laws::injection::genuine(toks).last(),
    decreases toks.len(),
{
    if crate::laws::injection::is_genuine(toks.last()) {
        toks.len() - 1
    } else {
        lemma_last_genuine(toks.drop_last())
    }
}

/// An end of the source among the prepared tokens is the last genuine one.
pub proof fn lemma_end_is_last(src: Seq<char>, toks: Seq<Token>, config: Config, k: int)
    requires
        crate::lexer::all_stand_for(toks, src, crate::lexer::pieces(src)),
        0 <= k < crate::formatter::prepared(toks, config).len(),
        crate::formatter::prepared(toks, config)[k].kind == TokenKind::Eof,
    ensures
        crate::laws::injection::genuine(crate::formatter::prepared(toks, config).take(k))
            == toks.drop_last(),
{
    let shown = crate::formatter::prepared(toks, config);
    lemma_prepared(src, toks, config);
    crate::laws::lexing::law_lexer_is_lossless(src, toks);
    if !crate::laws::injection::is_genuine(shown[k]) {
        lemma_brace_suits(shown[k]);
    }
    lemma_genuine_index(shown, k);
    let j = crate::laws::injection::genuine(shown.take(k)).len() as int;
    assert(toks[j].kind == TokenKind::Eof);
    assert(j == toks.len() - 1);
    assert(toks.take(j) =~= toks.drop_last());
}

// ── Content ──────────────────────────────────────────────────────────────────

/// The alignment passes keep the content of the text that was laid out.
proof fn lemma_passes_keep(text: Seq<char>, config: Config, eol: Eol)
    ensures
        crate::content::solid(
            crate::formatter::with_doxygen_aligned(
                crate::formatter::with_equals_aligned(
                    crate::formatter::with_comments_aligned(text, config, eol),
                    config,
                    eol,
                ),
                config,
                eol,
            ),
        ) == crate::content::solid(text),
{
    let s = config.spacing;
    let comments = crate::align::comment_rule(
        if s.align_right_cmt_gap < 1 {
            1
        } else {
            s.align_right_cmt_gap
        },
        s.align_right_cmt_style == crate::config::AlignCmtStyle::All,
        s.align_on_tabstop,
        config.indent.width as usize,
        s.align_right_cmt_span,
    );
    let equals = crate::align::equals_rule(s.align_on_tabstop, config.indent.width as usize);
    let a = crate::formatter::with_comments_aligned(text, config, eol);
    let b = crate::formatter::with_equals_aligned(a, config, eol);
    crate::laws::alignment::law_alignment_keeps_content(comments, text, eol);
    crate::laws::alignment::law_alignment_keeps_content(equals, a, eol);
    crate::laws::alignment::law_alignment_keeps_content(crate::align::doxygen_rule(), b, eol);
}

/// The tokens are those of the source, with injected braces among them. The
/// end of the source, which has no text, may be missing.
pub open spec fn shows(shown: Seq<Token>, toks: Seq<Token>) -> bool {
    &&& crate::laws::injection::only_braces_added(shown)
    &&& crate::laws::injection::genuine(shown) == toks || crate::laws::injection::genuine(shown)
        == toks.drop_last()
}

/// Formatting changes nothing but white space and braces: without its white
/// space, the formatted text is that of the source's tokens, in order, with
/// injected braces among them.
pub proof fn law_only_white_space_and_braces_change(
    src: Seq<char>,
    toks: Seq<Token>,
    config: Config,
    eol: Eol,
)
    requires
        crate::lexer::all_stand_for(toks, src, crate::lexer::pieces(src)),
    ensures
        exists|shown: Seq<Token>| #[trigger]
            shows(shown, toks) && crate::content::solid(
                crate::formatter::format_text(toks, config, eol),
            ) == crate::content::solid(crate::keep::all_texts(shown)),
{
    let prepared = crate::formatter::prepared(toks, config);
    lemma_prepared(src, toks, config);
    let k = crate::keep::lemma_layout_keeps(prepared, config, eol);
    lemma_passes_keep(crate::machine::layout_text(prepared, config, eol), config, eol);
    let shown = prepared.take(k);
    lemma_texts_take(prepared, 0, k);
    if k < prepared.len() {
        lemma_end_is_last(src, toks, config, k);
    } else {
        assert(shown =~= prepared);
    }
    assert(shows(shown, toks));
}

proof fn lemma_texts_take(toks: Seq<Token>, i: int, k: int)
    requires
        0 <= i,
        k <= toks.len(),
    ensures
        crate::keep::texts(toks.take(k), i, k) == crate::keep::texts(toks, i, k),
    decreases k - i,
{
    if i < k {
        lemma_texts_take(toks, i + 1, k);
    }
}

/// Where no braces are added, formatting changes nothing but white space: the
/// formatted text and the source are the same without it.
pub proof fn law_only_white_space_changes(
    src: Seq<char>,
    toks: Seq<Token>,
    config: Config,
    eol: Eol,
)
    requires
        crate::lexer::all_stand_for(toks, src, crate::lexer::pieces(src)),
        !crate::formatter::injects(config),
    ensures
        crate::content::solid(crate::formatter::format_text(toks, config, eol))
            == crate::content::solid(src),
{
    crate::laws::lexing::law_lexer_is_lossless(src, toks);
    let n = toks.len() as int;
    let k = crate::keep::lemma_layout_keeps(toks, config, eol);
    lemma_passes_keep(crate::machine::layout_text(toks, config, eol), config, eol);
    if k < n {
        assert(k == n - 1);
        crate::keep::lemma_texts_split(toks, 0, k, n);
        crate::keep::lemma_ink_one(toks, k);
        assert(crate::keep::suits(toks[k]));
        assert(crate::keep::ink_of(toks, 0, k) + Seq::<char>::empty() =~= crate::keep::ink_of(
            toks,
            0,
            k,
        ));
    }
}

} // verus!
