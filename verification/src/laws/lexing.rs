//! The lexer loses nothing.

use crate::lexer::Piece;
use crate::token::{KindSet, Token, TokenKind};
use vstd::prelude::*;

verus! {

pub proof fn lemma_blanks_end(src: Seq<char>, i: int)
    requires
        0 <= i <= src.len(),
    ensures
        i <= crate::lexer::blanks_end(src, i) <= src.len(),
        forall|k: int|
            i <= k < crate::lexer::blanks_end(src, i) ==> crate::lexer::is_blank(#[trigger] src[k]),
    decreases src.len() - i,
{
    if i < src.len() && crate::lexer::is_blank(src[i]) {
        lemma_blanks_end(src, i + 1);
    }
}

pub proof fn lemma_word_end(src: Seq<char>, i: int)
    requires
        0 <= i <= src.len(),
    ensures
        i <= crate::lexer::word_end(src, i) <= src.len(),
    decreases src.len() - i,
{
    if i < src.len() && crate::lexer::in_word(src[i]) {
        lemma_word_end(src, i + 1);
    }
}

proof fn lemma_line_end(src: Seq<char>, i: int)
    requires
        0 <= i <= src.len(),
    ensures
        i <= crate::lexer::line_end(src, i) <= src.len(),
    decreases src.len() - i,
{
    if i < src.len() {
        if crate::lexer::is_break(src[i]) {
            lemma_line_end(src, crate::lexer::break_end(src, i));
        } else {
            lemma_line_end(src, i + 1);
        }
    }
}

pub proof fn lemma_quoted(src: Seq<char>, i: int, quote: char)
    requires
        0 <= i,
    ensures
        i <= src.len() ==> i <= crate::lexer::quoted(src, i, quote).end,
        crate::lexer::quoted(src, i, quote).end <= src.len(),
    decreases src.len() + 1 - i,
{
    if i < src.len() {
        lemma_quoted(src, i + 1, quote);
        lemma_quoted(src, i + 2, quote);
        if crate::lexer::is_break(crate::lexer::at(src, i + 1)) {
            lemma_quoted(src, crate::lexer::break_end(src, i + 1), quote);
        }
    }
}

pub proof fn lemma_raw(src: Seq<char>, i: int)
    requires
        0 <= i <= src.len(),
    ensures
        i <= crate::lexer::raw(src, i).end <= src.len(),
{
    lemma_quoted(src, i, '"');
    crate::content::lemma_find_bounds(src, seq!['('], i);
    match crate::text::find_from(src, seq!['('], i) {
        Some(open) => {
            let close = seq![')'] + src.subrange(i, open) + seq!['"'];
            crate::content::lemma_find_bounds(src, close, open + 1);
        },
        None => {},
    }
}

pub proof fn lemma_number_end(src: Seq<char>, i: int, hex: bool)
    requires
        0 <= i <= src.len(),
    ensures
        i <= crate::lexer::number_end(src, i, hex) <= src.len(),
    decreases src.len() - i,
{
    if i < src.len() {
        lemma_number_end(src, i + 1, hex);
    }
}

proof fn lemma_preproc_end(src: Seq<char>, i: int)
    requires
        0 <= i <= src.len(),
    ensures
        i <= crate::lexer::preproc_end(src, i) <= src.len(),
    decreases src.len() - i,
{
    if i < src.len() {
        lemma_line_end(src, i);
        if crate::lexer::is_break(src[i]) {
            lemma_preproc_end(src, crate::lexer::break_end(src, i));
        } else {
            let next = if src[i] == '/' && crate::lexer::at(src, i + 1) == '*' {
                crate::lexer::block_end(src, i + 2)
            } else if src[i] == '"' || src[i] == '\'' {
                crate::lexer::quoted(src, i + 1, src[i]).end
            } else {
                i + 1
            };
            if i < next <= src.len() {
                lemma_preproc_end(src, next);
            }
        }
    }
}

/// A part of the source is spelled as its kind says.
pub open spec fn spelled(src: Seq<char>, p: Piece) -> bool {
    &&& KindSet::Layout.has(p.kind) ==> crate::content::all_white(src.subrange(p.start, p.end))
    &&& match crate::keep::fixed_text(p.kind) {
        Some(text) => src.subrange(p.start, p.end) == text,
        None => true,
    }
}

/// A kind that no spelling is fixed for.
spec fn is_free(k: TokenKind) -> bool {
    !KindSet::Layout.has(k) && crate::keep::fixed_text(k) is None && k != TokenKind::Eof
}

proof fn lemma_word_kind(w: Seq<char>)
    ensures
        is_free(crate::lexer::word_kind(w)),
{
}

proof fn lemma_word_piece(src: Seq<char>, i: int)
    requires
        0 <= i < src.len(),
    ensures
        ({
            let p = crate::lexer::word_piece(src, i);
            p.start == i && i < p.end <= src.len() && is_free(p.kind)
        }),
{
    lemma_word_end(src, i + 1);
    let e = crate::lexer::word_end(src, i + 1);
    lemma_word_kind(src.subrange(i, e));
    if e < src.len() {
        lemma_raw(src, e + 1);
        lemma_quoted(src, e + 1, '"');
        lemma_quoted(src, e + 1, '\'');
    }
}

proof fn lemma_symbol_piece(src: Seq<char>, i: int)
    requires
        0 <= i < src.len(),
    ensures
        ({
            let d = crate::lexer::at(src, i + 1);
            let sym = crate::lexer::symbol(src[i], d, crate::lexer::at(src, i + 2));
            &&& 1 <= sym.len
            &&& i + sym.len <= src.len()
            &&& sym.kind != TokenKind::Eof
            &&& !KindSet::Layout.has(sym.kind)
            &&& match crate::keep::fixed_text(sym.kind) {
                Some(text) => src.subrange(i, i + sym.len) == text,
                None => true,
            }
        }),
{
    let d = crate::lexer::at(src, i + 1);
    let sym = crate::lexer::symbol(src[i], d, crate::lexer::at(src, i + 2));
    match crate::keep::fixed_text(sym.kind) {
        Some(text) => {
            assert(src.subrange(i, i + sym.len) =~= text);
        },
        None => {},
    }
}

proof fn lemma_white_piece(src: Seq<char>, i: int, j: int)
    requires
        0 <= i <= j <= src.len(),
        forall|k: int| i <= k < j ==> crate::text::is_white(#[trigger] src[k]),
    ensures
        crate::content::all_white(src.subrange(i, j)),
{
    assert forall|k: int| 0 <= k < j - i implies crate::text::is_white(
        #[trigger] src.subrange(i, j)[k],
    ) by {
        assert(crate::text::is_white(src[i + k]));
    }
}

/// Every token takes at least one character, and none behind the end.
pub proof fn lemma_piece(src: Seq<char>, i: int, line_start: bool)
    requires
        0 <= i < src.len(),
    ensures
        ({
            let p = crate::lexer::piece_at(src, i, line_start);
            p.start == i && i < p.end <= src.len() && p.kind != TokenKind::Eof && spelled(src, p)
        }),
{
    let p = crate::lexer::piece_at(src, i, line_start);
    let c = src[i];
    let d = crate::lexer::at(src, i + 1);
    if crate::lexer::is_break(c) {
        lemma_white_piece(src, i, p.end);
    } else if crate::lexer::is_blank(c) {
        lemma_blanks_end(src, i + 1);
        lemma_white_piece(src, i, p.end);
    } else if c == '#' && line_start {
        lemma_preproc_end(src, i + 1);
    } else if c == '/' && d == '/' {
        lemma_line_end(src, i + 2);
    } else if c == '/' && d == '*' {
        crate::content::lemma_find_bounds(src, seq!['*', '/'], i + 2);
    } else if c == '"' {
        lemma_quoted(src, i + 1, '"');
    } else if c == '\'' {
        lemma_quoted(src, i + 1, '\'');
    } else if crate::lexer::is_digit(c) || (c == '.' && crate::lexer::is_digit(d)) {
        lemma_number_end(src, i + 1, crate::lexer::is_hex(src, i));
    } else if crate::lexer::starts_word(c) {
        lemma_word_piece(src, i);
    } else {
        lemma_symbol_piece(src, i);
    }
}

/// Part `k` lies within the source, ends where the next starts and is spelled
/// as its kind says. Only the last part is the end of the source.
spec fn tile(src: Seq<char>, ps: Seq<Piece>, k: int) -> bool {
    &&& 0 <= ps[k].start <= ps[k].end <= src.len()
    &&& k + 1 < ps.len() ==> ps[k].end == ps[k + 1].start
    &&& ps[k].kind == TokenKind::Eof ==> k == ps.len() - 1
    &&& spelled(src, ps[k])
}

/// The parts from `i` on tile the source up to its end.
proof fn lemma_pieces(src: Seq<char>, i: int, line_start: bool)
    requires
        0 <= i <= src.len(),
    ensures
        ({
            let ps = crate::lexer::pieces_from(src, i, line_start);
            &&& ps.len() > 0
            &&& ps[0].start == i
            &&& ps.last().kind == TokenKind::Eof
            &&& ps.last().start == src.len()
            &&& ps.last().end == src.len()
            &&& forall|k: int| 0 <= k < ps.len() ==> #[trigger] tile(src, ps, k)
        }),
    decreases src.len() - i,
{
    let ps = crate::lexer::pieces_from(src, i, line_start);
    if i < src.len() {
        lemma_piece(src, i, line_start);
        let p = crate::lexer::piece_at(src, i, line_start);
        let after = crate::lexer::line_start_after(p.kind, line_start);
        lemma_pieces(src, p.end, after);
        let rest = crate::lexer::pieces_from(src, p.end, after);
        assert(ps == seq![p] + rest);
        assert forall|k: int| 0 <= k < ps.len() implies #[trigger] tile(src, ps, k) by {
            if k > 0 {
                assert(tile(src, rest, k - 1));
                assert(ps[k] == rest[k - 1]);
                if k + 1 < ps.len() {
                    assert(ps[k + 1] == rest[k]);
                }
            } else {
                assert(ps[1] == rest[0]);
            }
        }
        assert(ps.last() == rest.last());
    } else {
        assert forall|k: int| 0 <= k < ps.len() implies #[trigger] tile(src, ps, k) by {
            assert(spelled(src, ps[0]));
        }
    }
}

proof fn lemma_texts_tile(toks: Seq<Token>, src: Seq<char>, ps: Seq<Piece>, k: int)
    requires
        crate::lexer::all_stand_for(toks, src, ps),
        0 <= k < ps.len(),
        forall|j: int| 0 <= j < ps.len() ==> #[trigger] tile(src, ps, j),
        ps.last().end == src.len(),
    ensures
        crate::keep::texts(toks, k, toks.len() as int) == src.skip(ps[k].start),
    decreases ps.len() - k,
{
    let n = toks.len() as int;
    assert(crate::lexer::stands_for(toks[k], src, ps[k]));
    assert(tile(src, ps, k));
    if k + 1 < n {
        lemma_texts_tile(toks, src, ps, k + 1);
        assert(src.subrange(ps[k].start, ps[k].end) + src.skip(ps[k].end) =~= src.skip(
            ps[k].start,
        ));
    } else {
        assert(crate::keep::texts(toks, k + 1, n) =~= Seq::<char>::empty());
        assert(src.subrange(ps[k].start, ps[k].end) + Seq::<char>::empty() =~= src.skip(
            ps[k].start,
        ));
    }
}

/// The lexer is lossless: the texts of the tokens, one behind the other, are
/// the source. The last token, and no other, is the end of the source; layout
/// tokens are white space and symbols are spelled as their kind says.
pub proof fn law_lexer_is_lossless(src: Seq<char>, toks: Seq<Token>)
    requires
        crate::lexer::all_stand_for(toks, src, crate::lexer::pieces(src)),
    ensures
        crate::keep::all_texts(toks) == src,
        crate::keep::well_formed(toks),
        toks.len() > 0,
        toks.last().kind == TokenKind::Eof,
        forall|i: int|
            0 <= i < toks.len() - 1 ==> (#[trigger] toks[i]).kind != TokenKind::Eof,
{
    let ps = crate::lexer::pieces(src);
    lemma_pieces(src, 0, true);
    lemma_texts_tile(toks, src, ps, 0);
    assert(src.skip(0) =~= src);
    assert forall|i: int| 0 <= i < toks.len() implies crate::keep::suits(#[trigger] toks[i]) && (
    toks[i].kind == TokenKind::Eof ==> i == toks.len() - 1) by {
        assert(crate::lexer::stands_for(toks[i], src, ps[i]));
        assert(tile(src, ps, i));
    }
    assert(crate::lexer::stands_for(toks[toks.len() - 1], src, ps[toks.len() - 1]));
}

/// Source lines are counted from one: every token of a source has a line.
pub proof fn law_tokens_have_lines(src: Seq<char>, toks: Seq<Token>)
    requires
        crate::lexer::all_stand_for(toks, src, crate::lexer::pieces(src)),
    ensures
        forall|i: int| 0 <= i < toks.len() ==> crate::laws::injection::is_genuine(#[trigger] toks[i]),
{
    lemma_pieces(src, 0, true);
    assert forall|i: int| 0 <= i < toks.len() implies crate::laws::injection::is_genuine(#[trigger] toks[i]) by {
        let ps = crate::lexer::pieces(src);
        assert(crate::lexer::stands_for(toks[i], src, ps[i]));
        lemma_line_positive(src, ps[i].start);
    }
}

proof fn lemma_line_positive(src: Seq<char>, i: int)
    ensures
        crate::lexer::line_of(src, i) >= 1,
    decreases i,
{
    if i > 0 {
        lemma_line_positive(src, i - 1);
    }
}

} // verus!
