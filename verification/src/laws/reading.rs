//! The output reads as the tokens that it was made of.

use crate::config::{Config, Eol};
use crate::lexer::Piece;
use crate::token::{KindSet, Token, TokenKind};
use vstd::prelude::*;

verus! {

// ── One token ────────────────────────────────────────────────────────────────

/// The text stands at `j`.
pub open spec fn has_text(src: Seq<char>, j: int, text: Seq<char>) -> bool {
    &&& 0 <= j
    &&& j + text.len() <= src.len()
    &&& forall|i: int| 0 <= i < text.len() ==> src[j + i] == #[trigger] text[i]
}

/// An ASCII character of white space.
pub open spec fn is_gap(c: char) -> bool {
    '\u{9}' <= c <= '\u{d}' || c == ' '
}

/// The number does not go on with `c`.
pub open spec fn ends_number(text: Seq<char>, c: char) -> bool {
    &&& !crate::lexer::in_word(c) && c != '.' && c != '\''
    &&& c == '+' || c == '-' ==> !crate::lexer::is_exponent(
        text.last(),
        crate::lexer::is_hex(text, 0),
    )
}

/// The word, or the literal that it is the prefix of, does not go on with `c`.
pub open spec fn ends_word(text: Seq<char>, c: char) -> bool {
    crate::lexer::word_end(text, 1) < text.len() || {
        &&& !crate::lexer::in_word(c)
        &&& c == '"' || c == '\'' ==> !crate::lexer::is_encoding(text)
            && !crate::lexer::is_raw_prefix(text)
    }
}

/// The symbol does not go on with `c`, and no comment or number starts.
pub open spec fn ends_symbol(text: Seq<char>, c: char) -> bool {
    let a = text[0];
    if text.len() == 1 {
        &&& forall|d: char| (#[trigger] crate::lexer::symbol(a, c, d)).len == 1
        &&& a == '/' ==> c != '/' && c != '*'
        &&& a == '.' ==> !crate::lexer::is_digit(c)
    } else if text.len() == 2 {
        crate::lexer::symbol(a, text[1], c).len == 2
    } else {
        true
    }
}

/// The text, read by itself, does not go on with `c`.
pub open spec fn ends_before(text: Seq<char>, c: char) -> bool {
    let a = text[0];
    let b = crate::lexer::at(text, 1);
    if a == '"' || a == '\'' || (a == '/' && b == '*') {
        true
    } else if crate::lexer::is_digit(a) || (a == '.' && crate::lexer::is_digit(b)) {
        ends_number(text, c)
    } else if crate::lexer::starts_word(a) {
        ends_word(text, c)
    } else {
        ends_symbol(text, c)
    }
}

/// A token that goes on to the end of its line.
pub open spec fn is_line(k: TokenKind) -> bool {
    k == TokenKind::CommentLine || k == TokenKind::PreprocLine
}

/// A raw string has its opening parenthesis.
pub open spec fn has_paren(text: Seq<char>) -> bool {
    let e = crate::lexer::word_end(text, 1);
    crate::lexer::starts_word(crate::lexer::at(text, 0)) && crate::lexer::at(text, e) == '"'
        && crate::lexer::is_raw_prefix(text.subrange(0, e)) ==> crate::text::find_from(
        text,
        seq!['('],
        e + 1,
    ) is Some
}

/// Read by itself, the text is one token of the kind, with its closing
/// delimiter.
pub open spec fn alone(text: Seq<char>, k: TokenKind) -> bool {
    let p = crate::lexer::piece_at(text, 0, k == TokenKind::PreprocLine);
    &&& !KindSet::Layout.has(k) && k != TokenKind::Eof
    &&& text.len() > 0
    &&& p.kind == k && p.end == text.len() && p.closed
    &&& has_paren(text)
}

/// The text at `j` is read as a token of the kind. One that goes on to the end
/// of its line takes the white space there with it.
pub open spec fn reads_at(src: Seq<char>, j: int, text: Seq<char>, k: TokenKind) -> bool {
    let p = crate::lexer::piece_at(src, j, k == TokenKind::PreprocLine);
    let end = j + text.len();
    &&& p.kind == k
    &&& if is_line(k) {
        end <= p.end <= src.len() && crate::laws::weave::blank(src.subrange(end, p.end))
    } else {
        p.end == end
    }
}

/// A part of the text stands at its place, too.
proof fn lemma_part_at(src: Seq<char>, j: int, text: Seq<char>, a: int, b: int)
    requires
        has_text(src, j, text),
        0 <= a <= b <= text.len(),
    ensures
        src.subrange(j + a, j + b) == text.subrange(a, b),
{
    let s = src.subrange(j + a, j + b);
    let t = text.subrange(a, b);
    assert forall|x: int| 0 <= x < t.len() implies #[trigger] s[x] == t[x] by {
        assert(src[j + (a + x)] == text[a + x]);
    }
    assert(s =~= t);
}

proof fn lemma_find_at(src: Seq<char>, j: int, text: Seq<char>, p: Seq<char>, i: int)
    requires
        has_text(src, j, text),
        0 <= i,
    ensures
        match crate::text::find_from(text, p, i) {
            Some(x) => crate::text::find_from(src, p, j + i) == Some(j + x),
            None => true,
        },
    decreases text.len() + 1 - i,
{
    if i + p.len() <= text.len() {
        lemma_part_at(src, j, text, i, i + p.len());
        if !crate::text::matches_at(text, i, p) {
            lemma_find_at(src, j, text, p, i + 1);
        }
    }
}

proof fn lemma_quoted_at(src: Seq<char>, j: int, text: Seq<char>, i: int, quote: char)
    requires
        has_text(src, j, text),
        0 <= i,
    ensures
        crate::lexer::quoted(text, i, quote).closed ==> {
            &&& crate::lexer::quoted(src, j + i, quote).closed
            &&& crate::lexer::quoted(src, j + i, quote).end == j + crate::lexer::quoted(
                text,
                i,
                quote,
            ).end
        },
    decreases text.len() + 1 - i,
{
    let n = text.len() as int;
    if i < n && crate::lexer::quoted(text, i, quote).closed {
        let c = text[i];
        assert(src[j + i] == c);
        if c == quote || crate::lexer::is_break(c) {
        } else if c == '\\' {
            assert(!crate::lexer::quoted(text, n, quote).closed);
            assert(!crate::lexer::quoted(text, n + 1, quote).closed);
            if i + 1 < n {
                assert(src[j + (i + 1)] == text[i + 1]);
                if i + 2 < n {
                    assert(src[j + (i + 2)] == text[i + 2]);
                }
                if crate::lexer::is_break(text[i + 1]) {
                    lemma_quoted_at(src, j, text, crate::lexer::break_end(text, i + 1), quote);
                } else {
                    lemma_quoted_at(src, j, text, i + 2, quote);
                }
            }
        } else {
            lemma_quoted_at(src, j, text, i + 1, quote);
        }
    }
}

proof fn lemma_raw_at(src: Seq<char>, j: int, text: Seq<char>, i: int)
    requires
        has_text(src, j, text),
        0 <= i <= text.len(),
        crate::lexer::raw(text, i).closed,
        crate::text::find_from(text, seq!['('], i) is Some,
    ensures
        crate::lexer::raw(src, j + i).closed,
        crate::lexer::raw(src, j + i).end == j + crate::lexer::raw(text, i).end,
{
    lemma_find_at(src, j, text, seq!['('], i);
    lemma_quoted_at(src, j, text, i, '"');
    crate::content::lemma_find_bounds(text, seq!['('], i);
    let open = crate::text::find_from(text, seq!['('], i)->0;
    lemma_part_at(src, j, text, i, open);
    lemma_find_at(src, j, text, seq![')'] + text.subrange(i, open) + seq!['"'], open + 1);
}

proof fn lemma_number_at(src: Seq<char>, j: int, text: Seq<char>, i: int, hex: bool)
    requires
        has_text(src, j, text),
        1 <= i <= text.len(),
        crate::lexer::number_end(text, i, hex) == text.len(),
        hex == crate::lexer::is_hex(text, 0),
        ends_number(text, crate::lexer::at(src, j + text.len())),
    ensures
        crate::lexer::number_end(src, j + i, hex) == j + text.len(),
    decreases text.len() - i,
{
    if i < text.len() {
        assert(src[j + i] == text[i]);
        assert(src[j + (i - 1)] == text[i - 1]);
        if i + 1 < text.len() {
            assert(src[j + (i + 1)] == text[i + 1]);
        }
        lemma_number_at(src, j, text, i + 1, hex);
    } else {
        assert(src[j + (i - 1)] == text[i - 1]);
    }
}

proof fn lemma_word_at(src: Seq<char>, j: int, text: Seq<char>, i: int)
    requires
        has_text(src, j, text),
        0 <= i <= text.len(),
        crate::lexer::word_end(text, i) < text.len() || !crate::lexer::in_word(
            crate::lexer::at(src, j + text.len()),
        ) || j + text.len() == src.len(),
    ensures
        crate::lexer::word_end(src, j + i) == j + crate::lexer::word_end(text, i),
        i <= crate::lexer::word_end(text, i) <= text.len(),
    decreases text.len() - i,
{
    if i < text.len() {
        assert(src[j + i] == text[i]);
        if crate::lexer::in_word(text[i]) {
            lemma_word_at(src, j, text, i + 1);
        }
    }
}

/// The symbol that the text is, read in the source.
proof fn lemma_symbol_at(src: Seq<char>, j: int, text: Seq<char>)
    requires
        has_text(src, j, text),
        text.len() > 0,
        crate::lexer::symbol(
            text[0],
            crate::lexer::at(text, 1),
            crate::lexer::at(text, 2),
        ).len == text.len(),
        ends_symbol(text, crate::lexer::at(src, j + text.len())),
    ensures
        crate::lexer::symbol(
            text[0],
            crate::lexer::at(src, j + 1),
            crate::lexer::at(src, j + 2),
        ) == crate::lexer::symbol(text[0], crate::lexer::at(text, 1), crate::lexer::at(text, 2)),
{
    if text.len() > 1 {
        lemma_char_at(src, j, text, 1);
    }
    if text.len() > 2 {
        lemma_char_at(src, j, text, 2);
    }
    lemma_symbol_len(text[0], crate::lexer::at(src, j + 1), crate::lexer::at(src, j + 2));
    lemma_symbol_len(text[0], crate::lexer::at(text, 1), crate::lexer::at(text, 2));
}

/// A symbol of one or two characters does not depend on those behind it.
proof fn lemma_symbol_len(a: char, b: char, c: char)
    ensures
        crate::lexer::symbol(a, b, c).len == 1 ==> forall|x: char, y: char|
            (#[trigger] crate::lexer::symbol(a, x, y)).len == 1 ==> crate::lexer::symbol(a, x, y)
                == crate::lexer::symbol(a, b, c),
        crate::lexer::symbol(a, b, c).len == 2 ==> forall|y: char|
            (#[trigger] crate::lexer::symbol(a, b, y)).len == 2 ==> crate::lexer::symbol(a, b, y)
                == crate::lexer::symbol(a, b, c),
        crate::lexer::symbol(a, b, c).len <= 3,
{
}

/// A symbol ends with the source.
proof fn lemma_symbol_end(a: char)
    ensures
        forall|b: char, c: char|
            (#[trigger] crate::lexer::symbol(a, b, c)).len == 2 ==> crate::lexer::symbol(
                a,
                b,
                '\0',
            ) == crate::lexer::symbol(a, b, c),
        crate::lexer::symbol(a, '\0', '\0').len == 1,
{
}

/// The character at a place of the text.
proof fn lemma_char_at(src: Seq<char>, j: int, text: Seq<char>, i: int)
    requires
        has_text(src, j, text),
        0 <= i < text.len(),
    ensures
        crate::lexer::at(src, j + i) == text[i],
        crate::lexer::at(text, i) == text[i],
{
    assert(src[j + i] == text[i]);
}

/// A word that ends before what follows.
proof fn lemma_word_reads(src: Seq<char>, j: int, text: Seq<char>)
    requires
        has_text(src, j, text),
        text.len() > 0,
        crate::lexer::starts_word(text[0]),
        crate::lexer::word_piece(text, 0).end == text.len(),
        crate::lexer::word_piece(text, 0).closed,
        has_paren(text),
        ends_word(text, crate::lexer::at(src, j + text.len())),
    ensures
        crate::lexer::word_piece(src, j).kind == crate::lexer::word_piece(text, 0).kind,
        crate::lexer::word_piece(src, j).end == j + text.len(),
{
    lemma_word_at(src, j, text, 1);
    let e = crate::lexer::word_end(text, 1);
    lemma_part_at(src, j, text, 0, e);
    if e < text.len() {
        lemma_char_at(src, j, text, e);
        lemma_quoted_at(src, j, text, e + 1, '"');
        lemma_quoted_at(src, j, text, e + 1, '\'');
        if text[e] == '"' && crate::lexer::is_raw_prefix(text.subrange(0, e)) {
            lemma_raw_at(src, j, text, e + 1);
        }
    } else {
        assert(text.subrange(0, e) =~= text);
    }
}

/// A number that ends before what follows.
proof fn lemma_number_reads(src: Seq<char>, j: int, text: Seq<char>)
    requires
        has_text(src, j, text),
        text.len() > 0,
        crate::lexer::number_piece(text, 0).end == text.len(),
        ends_number(text, crate::lexer::at(src, j + text.len())),
    ensures
        crate::lexer::number_piece(src, j).kind == crate::lexer::number_piece(text, 0).kind,
        crate::lexer::number_piece(src, j).end == j + text.len(),
{
    let hex = crate::lexer::is_hex(text, 0);
    lemma_char_at(src, j, text, 0);
    if text.len() > 1 {
        lemma_char_at(src, j, text, 1);
    }
    assert(crate::lexer::is_hex(src, j) == hex);
    lemma_number_at(src, j, text, 1, hex);
    lemma_part_at(src, j, text, 0, text.len() as int);
}

/// A token that ends before what follows is read as it is by itself.
proof fn lemma_reads(src: Seq<char>, j: int, text: Seq<char>, k: TokenKind)
    requires
        has_text(src, j, text),
        alone(text, k),
        !is_line(k),
        text[0] != '#',
        ends_before(text, crate::lexer::at(src, j + text.len())),
    ensures
        reads_at(src, j, text, k),
{
    lemma_char_at(src, j, text, 0);
    if text.len() > 1 {
        lemma_char_at(src, j, text, 1);
    }
    let c = text[0];
    let d = crate::lexer::at(text, 1);
    if crate::lexer::is_break(c) || crate::lexer::is_blank(c) {
    } else if c == '/' && d == '/' {
    } else if c == '/' && d == '*' {
        lemma_find_at(src, j, text, seq!['*', '/'], 2);
    } else if c == '"' {
        lemma_quoted_at(src, j, text, 1, '"');
    } else if c == '\'' {
        lemma_quoted_at(src, j, text, 1, '\'');
    } else if crate::lexer::is_digit(c) || (c == '.' && crate::lexer::is_digit(d)) {
        lemma_number_reads(src, j, text);
    } else if crate::lexer::starts_word(c) {
        lemma_word_reads(src, j, text);
    } else {
        lemma_symbol_at(src, j, text);
    }
}

/// A token ends before white space.
pub proof fn law_white_space_parts_tokens(text: Seq<char>, k: TokenKind, c: char)
    requires
        alone(text, k),
        !is_line(k),
        is_gap(c),
    ensures
        ends_before(text, c),
{
    if text.len() == 2 {
        lemma_symbol_white(text[0], text[1], c);
    }
}

proof fn lemma_symbol_white(a: char, b: char, c: char)
    requires
        is_gap(c),
    ensures
        crate::lexer::symbol(a, b, '\0').len == 2 ==> crate::lexer::symbol(a, b, c).len == 2,
{
}

// ── Lines ────────────────────────────────────────────────────────────────────

/// The white space from `end` up to `g` holds the end of the line, or the
/// source ends with it.
spec fn breaks_off(src: Seq<char>, end: int, g: int) -> bool {
    &&& 0 < end <= g <= src.len()
    &&& crate::laws::weave::blank(src.subrange(end, g))
    &&& g == src.len() || !crate::text::is_white(src[g]) && crate::laws::weave::feeds(
        src.subrange(end, g),
    ) > 0
}

/// No comment in the preprocessor line that goes on at `i` is left open.
pub open spec fn closes(src: Seq<char>, i: int) -> bool
    decreases src.len() - i,
{
    if !(0 <= i < src.len()) {
        true
    } else if crate::lexer::is_break(src[i]) {
        closes(src, crate::lexer::break_end(src, i))
    } else if src[i] == '/' && crate::lexer::at(src, i + 1) == '/' {
        true
    } else if src[i] == '/' && crate::lexer::at(src, i + 1) == '*' {
        match crate::text::find_from(src, seq!['*', '/'], i + 2) {
            Some(x) => i < x + 2 <= src.len() ==> closes(src, x + 2),
            None => false,
        }
    } else if src[i] == '"' || src[i] == '\'' {
        let e = crate::lexer::quoted(src, i + 1, src[i]).end;
        i < e <= src.len() ==> closes(src, e)
    } else {
        closes(src, i + 1)
    }
}

/// The line ends with the text: no backslash carries it on, and no comment.
pub open spec fn ends_line(text: Seq<char>, k: TokenKind) -> bool {
    &&& text.len() > 1
    &&& text.last() != '\\' && !crate::text::is_white(text.last())
    &&& k == TokenKind::PreprocLine ==> closes(text, 1)
}

/// The end of the line lies beyond the blanks from `x` on.
proof fn lemma_breaks_on(src: Seq<char>, x: int, g: int)
    requires
        breaks_off(src, x, g),
        x < g,
        !crate::lexer::is_break(src[x]),
    ensures
        breaks_off(src, x + 1, g),
        crate::text::is_white(src[x]),
{
    let s = src.subrange(x, g);
    let t = src.subrange(x + 1, g);
    assert(crate::text::is_white(s[0]));
    assert forall|y: int| 0 <= y < t.len() implies crate::text::is_white(#[trigger] t[y]) by {
        assert(t[y] == s[y + 1]);
    }
    assert(s =~= seq![src[x]] + t);
    crate::laws::weave::lemma_feeds_none(seq![src[x]]);
    crate::laws::weave::lemma_feeds_add(seq![src[x]], t);
}

/// A line end in the white space leads to no character beyond it.
proof fn lemma_break_within(src: Seq<char>, x: int, g: int)
    requires
        breaks_off(src, x, g),
        x < g,
    ensures
        x < crate::lexer::break_end(src, x) <= g,
{
    if x + 1 == g && g < src.len() {
        assert(src[g] != '\n');
    }
}

proof fn lemma_line_stops(src: Seq<char>, x: int, g: int)
    requires
        breaks_off(src, x, g),
        src[x - 1] != '\\',
    ensures
        x <= crate::lexer::line_end(src, x) <= g,
    decreases g - x,
{
    if x < g {
        if crate::lexer::is_break(src[x]) {
            lemma_break_within(src, x, g);
        } else {
            lemma_breaks_on(src, x, g);
            lemma_line_stops(src, x + 1, g);
        }
    } else {
        lemma_empty_gap(src, x);
    }
}

/// Without white space, the source ends.
proof fn lemma_empty_gap(src: Seq<char>, x: int)
    requires
        breaks_off(src, x, x),
    ensures
        x == src.len(),
{
    assert(src.subrange(x, x) =~= Seq::empty());
}

proof fn lemma_preproc_stops(src: Seq<char>, x: int, g: int)
    requires
        breaks_off(src, x, g),
        src[x - 1] != '\\',
    ensures
        x <= crate::lexer::preproc_end(src, x) <= g,
    decreases g - x,
{
    if x < g {
        if crate::lexer::is_break(src[x]) {
            lemma_break_within(src, x, g);
        } else {
            lemma_breaks_on(src, x, g);
            lemma_preproc_stops(src, x + 1, g);
        }
    } else {
        lemma_empty_gap(src, x);
    }
}

/// An unclosed literal ends in the white space, at its first line end.
proof fn lemma_quoted_stops(src: Seq<char>, x: int, g: int, quote: char)
    requires
        breaks_off(src, x, g),
        quote == '"' || quote == '\'',
    ensures
        ({
            let e = crate::lexer::quoted(src, x, quote).end;
            &&& x <= e <= g
            &&& breaks_off(src, e, g)
            &&& e > x ==> src[e - 1] != '\\'
        }),
    decreases g - x,
{
    if x < g {
        assert(crate::text::is_white(src.subrange(x, g)[0]));
        if !crate::lexer::is_break(src[x]) {
            lemma_breaks_on(src, x, g);
            lemma_quoted_stops(src, x + 1, g, quote);
        }
    } else {
        lemma_empty_gap(src, x);
    }
}

/// A line end in the text is carried on by a backslash, as in the source.
proof fn lemma_break_at(src: Seq<char>, j: int, text: Seq<char>, i: int)
    requires
        has_text(src, j, text),
        1 <= i < text.len(),
        !crate::text::is_white(text.last()),
        crate::lexer::is_break(text[i]),
    ensures
        crate::lexer::break_end(src, j + i) == j + crate::lexer::break_end(text, i),
        i < crate::lexer::break_end(text, i) < text.len(),
        crate::lexer::at(src, j + i - 1) == crate::lexer::at(text, i - 1),
{
    assert(src[j + i] == text[i]);
    assert(src[j + (i - 1)] == text[i - 1]);
    assert(i + 1 < text.len());
    assert(src[j + (i + 1)] == text[i + 1]);
}

/// The line that goes on at `i` of the text ends behind the text.
proof fn lemma_line_at(src: Seq<char>, j: int, text: Seq<char>, i: int, g: int)
    requires
        has_text(src, j, text),
        1 <= i <= text.len(),
        text.last() != '\\',
        !crate::text::is_white(text.last()),
        breaks_off(src, j + text.len(), g),
        crate::lexer::line_end(text, i) == text.len(),
    ensures
        j + text.len() <= crate::lexer::line_end(src, j + i) <= g,
    decreases text.len() - i,
{
    if i < text.len() {
        assert(src[j + i] == text[i]);
        if crate::lexer::is_break(text[i]) {
            lemma_break_at(src, j, text, i);
            lemma_line_at(src, j, text, crate::lexer::break_end(text, i), g);
        } else {
            lemma_line_at(src, j, text, i + 1, g);
        }
    } else {
        assert(src[j + (i - 1)] == text[i - 1]);
        lemma_line_stops(src, j + i, g);
    }
}

/// A literal of the text that is not closed in it.
proof fn lemma_open_at(src: Seq<char>, j: int, text: Seq<char>, i: int, g: int, quote: char)
    requires
        has_text(src, j, text),
        1 <= i <= text.len(),
        text.last() != '\\',
        !crate::text::is_white(text.last()),
        breaks_off(src, j + text.len(), g),
        quote == '"' || quote == '\'',
        !crate::lexer::quoted(text, i, quote).closed,
    ensures
        ({
            let e = crate::lexer::quoted(text, i, quote).end;
            let f = crate::lexer::quoted(src, j + i, quote).end;
            &&& i <= e <= text.len()
            &&& e < text.len() ==> f == j + e
            &&& e == text.len() ==> {
                &&& j + e <= f <= g
                &&& breaks_off(src, f, g)
                &&& src[f - 1] != '\\'
            }
        }),
    decreases text.len() - i,
{
    let n = text.len() as int;
    if i < n {
        assert(src[j + i] == text[i]);
        if text[i] == quote || crate::lexer::is_break(text[i]) {
        } else if text[i] == '\\' {
            assert(i + 1 < n);
            assert(src[j + (i + 1)] == text[i + 1]);
            if crate::lexer::is_break(text[i + 1]) {
                lemma_break_at(src, j, text, i + 1);
                lemma_open_at(src, j, text, crate::lexer::break_end(text, i + 1), g, quote);
            } else {
                lemma_open_at(src, j, text, i + 2, g, quote);
            }
        } else {
            lemma_open_at(src, j, text, i + 1, g, quote);
        }
    } else {
        assert(src[j + (i - 1)] == text[i - 1]);
        lemma_quoted_stops(src, j + i, g, quote);
    }
}

/// The preprocessor line that goes on at `i` of the text ends behind the text.
proof fn lemma_preproc_at(src: Seq<char>, j: int, text: Seq<char>, i: int, g: int)
    requires
        has_text(src, j, text),
        1 <= i <= text.len(),
        text.last() != '\\',
        !crate::text::is_white(text.last()),
        breaks_off(src, j + text.len(), g),
        crate::lexer::preproc_end(text, i) == text.len(),
        closes(text, i),
    ensures
        j + text.len() <= crate::lexer::preproc_end(src, j + i) <= g,
    decreases text.len() - i,
{
    let n = text.len() as int;
    if i < n {
        assert(src[j + i] == text[i]);
        lemma_slash_at(src, j, text, i, g);
        let d = crate::lexer::at(text, i + 1);
        if crate::lexer::is_break(text[i]) {
            lemma_break_at(src, j, text, i);
            lemma_preproc_at(src, j, text, crate::lexer::break_end(text, i), g);
        } else if text[i] == '/' && d == '/' {
            lemma_line_at(src, j, text, i, g);
        } else if text[i] == '/' && d == '*' {
            lemma_find_at(src, j, text, seq!['*', '/'], i + 2);
            crate::content::lemma_find_bounds(text, seq!['*', '/'], i + 2);
            lemma_preproc_at(src, j, text, crate::lexer::block_end(text, i + 2), g);
        } else if text[i] == '"' || text[i] == '\'' {
            let q = text[i];
            let e = crate::lexer::quoted(text, i + 1, q).end;
            let f = crate::lexer::quoted(src, j + i + 1, q).end;
            lemma_quoted_at(src, j, text, i + 1, q);
            crate::laws::lexing::lemma_quoted(text, i + 1, q);
            if crate::lexer::quoted(text, i + 1, q).closed || e < n {
                if !crate::lexer::quoted(text, i + 1, q).closed {
                    lemma_open_at(src, j, text, i + 1, g, q);
                }
                lemma_preproc_at(src, j, text, e, g);
            } else {
                lemma_open_at(src, j, text, i + 1, g, q);
                lemma_preproc_stops(src, f, g);
            }
        } else {
            lemma_preproc_at(src, j, text, i + 1, g);
        }
    } else {
        assert(src[j + (i - 1)] == text[i - 1]);
        lemma_preproc_stops(src, j + i, g);
    }
}

/// A comment starts in the source where one starts in the text.
proof fn lemma_slash_at(src: Seq<char>, j: int, text: Seq<char>, i: int, g: int)
    requires
        has_text(src, j, text),
        1 <= i < text.len(),
        breaks_off(src, j + text.len(), g),
    ensures
        (crate::lexer::at(src, j + i + 1) == '/') == (crate::lexer::at(text, i + 1) == '/'),
        (crate::lexer::at(src, j + i + 1) == '*') == (crate::lexer::at(text, i + 1) == '*'),
{
    let end = j + text.len();
    if i + 1 < text.len() {
        assert(src[j + (i + 1)] == text[i + 1]);
    } else if end < g {
        assert(crate::text::is_white(src.subrange(end, g)[0]));
    } else {
        lemma_empty_gap(src, end);
    }
}

/// What goes on to the end of its line is read as it is by itself, where the
/// line ends behind it.
proof fn lemma_line_reads(src: Seq<char>, j: int, text: Seq<char>, k: TokenKind, g: int)
    requires
        has_text(src, j, text),
        alone(text, k),
        is_line(k),
        ends_line(text, k),
        breaks_off(src, j + text.len(), g),
    ensures
        reads_at(src, j, text, k),
{
    let end = j + text.len();
    assert(src[j + 0] == text[0]);
    assert(src[j + 1] == text[1]);
    if k == TokenKind::PreprocLine {
        lemma_preproc_at(src, j, text, 1, g);
    } else {
        lemma_line_at(src, j, text, 2, g);
    }
    let e = crate::lexer::piece_at(src, j, k == TokenKind::PreprocLine).end;
    let s = src.subrange(end, e);
    assert forall|x: int| 0 <= x < s.len() implies crate::text::is_white(#[trigger] s[x]) by {
        assert(s[x] == src.subrange(end, g)[x]);
    }
}

// ── All tokens ───────────────────────────────────────────────────────────────

/// The tokens without layout and without the end of the source.
pub open spec fn inked(ps: Seq<Piece>) -> Seq<Piece>
    decreases ps.len(),
{
    if ps.len() == 0 {
        Seq::empty()
    } else if KindSet::Layout.has(ps[0].kind) || ps[0].kind == TokenKind::Eof {
        inked(ps.drop_first())
    } else {
        seq![ps[0]] + inked(ps.drop_first())
    }
}

/// Item `k`, whose text stands in the source, is read as a token of its kind.
/// Behind the text the token holds nothing but white space.
pub open spec fn read_as(
    src: Seq<char>,
    p: Piece,
    texts: Seq<Seq<char>>,
    items: Seq<Token>,
    starts: Seq<int>,
    k: int,
) -> bool {
    let end = starts[k] + texts[k].len();
    &&& p.kind == items[k].kind
    &&& p.start == starts[k]
    &&& end <= p.end <= src.len()
    &&& crate::laws::weave::blank(src.subrange(end, p.end))
}

/// The source reads as the items from `k` on.
pub open spec fn all_read(
    src: Seq<char>,
    ps: Seq<Piece>,
    texts: Seq<Seq<char>>,
    items: Seq<Token>,
    starts: Seq<int>,
    k: int,
) -> bool {
    &&& ps.len() == items.len() - k
    &&& forall|x: int|
        0 <= x < ps.len() ==> #[trigger] read_as(src, ps[x], texts, items, starts, k + x)
}

/// What is written of item `k` reads as that item by itself. It ends before
/// what follows, as it does before white space, or else it is known to read as
/// that item where it stands. Behind what goes on to the end of its line the
/// line ends. A `#` is that of a preprocessor line.
pub open spec fn parted(
    out: Seq<char>,
    texts: Seq<Seq<char>>,
    items: Seq<Token>,
    starts: Seq<int>,
    k: int,
) -> bool {
    let kind = items[k].kind;
    &&& alone(texts[k], kind)
    &&& if is_line(kind) {
        &&& ends_line(texts[k], kind)
        &&& k + 1 == items.len() || crate::laws::weave::feeds(
            crate::laws::blanks::gap(out, texts, starts, k + 1),
        ) > 0
    } else {
        ends_before(texts[k], crate::lexer::at(out, starts[k] + texts[k].len())) || reads_at(
            out,
            starts[k],
            texts[k],
            kind,
        )
    }
    &&& texts[k][0] == '#' ==> kind == TokenKind::PreprocLine
}

pub open spec fn all_parted(
    out: Seq<char>,
    texts: Seq<Seq<char>>,
    items: Seq<Token>,
    starts: Seq<int>,
) -> bool {
    forall|k: int| 0 <= k < items.len() ==> #[trigger] parted(out, texts, items, starts, k)
}

/// The white space from `i` up to `j` is read as layout. Where it holds a line
/// feed, a new line starts.
proof fn lemma_gap(src: Seq<char>, i: int, j: int, line_start: bool) -> (after: bool)
    requires
        0 <= i <= j <= src.len(),
        crate::laws::weave::blank(src.subrange(i, j)),
        j < src.len() ==> !crate::text::is_white(src[j]),
    ensures
        inked(crate::lexer::pieces_from(src, i, line_start)) == inked(
            crate::lexer::pieces_from(src, j, after),
        ),
        line_start ==> after,
        crate::laws::weave::feeds(src.subrange(i, j)) > 0 ==> after,
    decreases j - i,
{
    if i == j {
        line_start
    } else {
        let s = src.subrange(i, j);
        assert(crate::text::is_white(s[0]));
        assert(s[0] == src[i]);
        let p = crate::lexer::piece_at(src, i, line_start);
        if crate::lexer::is_break(src[i]) {
            if i + 1 == j && j < src.len() {
                assert(src[j] != '\n');
            }
        } else {
            crate::laws::lexing::lemma_blanks_end(src, i + 1);
            if p.end > j {
                assert(crate::lexer::is_blank(src[j]));
            }
            let t = src.subrange(i, p.end);
            assert forall|x: int| 0 <= x < t.len() implies #[trigger] t[x] != '\n' by {
                assert(t[x] == src[i + x]);
                if x > 0 {
                    assert(crate::lexer::is_blank(src[i + x]));
                }
            }
            crate::laws::weave::lemma_feeds_none(t);
        }
        assert(i < p.end <= j);
        let rest = src.subrange(p.end, j);
        assert forall|x: int| 0 <= x < rest.len() implies crate::text::is_white(
            #[trigger] rest[x],
        ) by {
            assert(rest[x] == s[p.end - i + x]);
        }
        assert(s =~= src.subrange(i, p.end) + rest);
        crate::laws::weave::lemma_feeds_add(src.subrange(i, p.end), rest);
        let next = crate::lexer::line_start_after(p.kind, line_start);
        let after = lemma_gap(src, p.end, j, next);
        let all = crate::lexer::pieces_from(src, i, line_start);
        assert(all.drop_first() =~= crate::lexer::pieces_from(src, p.end, next));
        after
    }
}

/// From the white space in front of item `k` on the source reads as the items.
proof fn lemma_reads_from(
    src: Seq<char>,
    texts: Seq<Seq<char>>,
    items: Seq<Token>,
    starts: Seq<int>,
    k: int,
    i: int,
    line_start: bool,
)
    requires
        crate::laws::blanks::placed(src, texts, starts),
        texts.len() == items.len(),
        all_parted(src, texts, items, starts),
        forall|x: int|
            0 <= x < texts.len() ==> #[trigger] crate::laws::blanks::starts_line(
                src,
                texts,
                starts,
                x,
            ),
        0 <= k <= items.len(),
        crate::laws::blanks::gap_from(texts, starts, k) <= i <= crate::laws::blanks::gap_to(
            src,
            texts,
            starts,
            k,
        ),
        i == crate::laws::blanks::gap_from(texts, starts, k) || line_start,
        k == 0 ==> line_start,
    ensures
        all_read(
            src,
            inked(crate::lexer::pieces_from(src, i, line_start)),
            texts,
            items,
            starts,
            k,
        ),
    decreases items.len() - k,
{
    let j = crate::laws::blanks::gap_to(src, texts, starts, k);
    let from = crate::laws::blanks::gap_from(texts, starts, k);
    let whole = crate::laws::blanks::gap(src, texts, starts, k);
    assert(crate::laws::blanks::stands_at(src, texts, starts, k));
    let s = src.subrange(i, j);
    assert forall|x: int| 0 <= x < s.len() implies crate::text::is_white(#[trigger] s[x]) by {
        assert(s[x] == whole[i - from + x]);
    }
    if k == items.len() {
        let after = lemma_gap(src, i, j, line_start);
        let end = crate::lexer::pieces_from(src, j, after);
        assert(end.drop_first() =~= Seq::empty());
        assert(inked(end.drop_first()) =~= Seq::empty());
        assert(inked(end) =~= Seq::empty());
    } else {
        let text = texts[k];
        let kind = items[k].kind;
        let end = j + text.len();
        assert(parted(src, texts, items, starts, k));
        assert(crate::laws::blanks::starts_line(src, texts, starts, k));
        assert(has_text(src, j, text)) by {
            assert forall|x: int| 0 <= x < text.len() implies src[j + x] == #[trigger] text[x] by {
                assert(src.subrange(j, end)[x] == src[j + x]);
            }
        }
        assert(src[j + 0] == text[0]);
        let after = lemma_gap(src, i, j, line_start);
        if !is_line(kind) && ends_before(text, crate::lexer::at(src, end)) {
            lemma_reads(src, j, text, kind);
        }
        if is_line(kind) {
            let g = crate::laws::blanks::gap_to(src, texts, starts, k + 1);
            assert(crate::laws::blanks::stands_at(src, texts, starts, k + 1));
            lemma_first(src, texts, items, starts, k + 1);
            lemma_line_reads(src, j, text, kind, g);
        }
        if text[0] == '#' && k > 0 && i == from {
            assert(s =~= whole);
        }
        let p = crate::lexer::piece_at(src, j, after);
        assert(p == crate::lexer::piece_at(src, j, kind == TokenKind::PreprocLine));
        assert(p.start == j);
        let next = crate::lexer::line_start_after(p.kind, after);
        let rest = crate::lexer::pieces_from(src, p.end, next);
        let all = crate::lexer::pieces_from(src, j, after);
        assert(all =~= seq![p] + rest);
        assert(all.drop_first() =~= rest);
        lemma_next(src, texts, items, starts, k, p.end);
        lemma_reads_from(src, texts, items, starts, k + 1, p.end, next);
        let ps = inked(all);
        assert(ps =~= seq![p] + inked(rest));
        assert(read_as(src, p, texts, items, starts, k)) by {
            if !is_line(kind) {
                assert(src.subrange(end, p.end) =~= Seq::empty());
            }
        }
        assert forall|x: int| 0 <= x < ps.len() implies #[trigger] read_as(
            src,
            ps[x],
            texts,
            items,
            starts,
            k + x,
        ) by {
            if x > 0 {
                let y = x - 1;
                assert(read_as(src, inked(rest)[y], texts, items, starts, k + 1 + y));
            }
        }
    }
}

/// No item starts with white space.
proof fn lemma_first(
    src: Seq<char>,
    texts: Seq<Seq<char>>,
    items: Seq<Token>,
    starts: Seq<int>,
    k: int,
)
    requires
        crate::laws::blanks::placed(src, texts, starts),
        texts.len() == items.len(),
        all_parted(src, texts, items, starts),
        0 <= k <= items.len(),
    ensures
        k < items.len() ==> !crate::text::is_white(src[starts[k]]),
{
    if k < items.len() {
        let j = starts[k];
        assert(crate::laws::blanks::stands_at(src, texts, starts, k));
        assert(parted(src, texts, items, starts, k));
        assert(src.subrange(j, j + texts[k].len())[0] == src[j]);
    }
}

/// White space behind a text does not reach beyond the next one.
proof fn lemma_next(
    src: Seq<char>,
    texts: Seq<Seq<char>>,
    items: Seq<Token>,
    starts: Seq<int>,
    k: int,
    e: int,
)
    requires
        crate::laws::blanks::placed(src, texts, starts),
        texts.len() == items.len(),
        all_parted(src, texts, items, starts),
        0 <= k < items.len(),
        starts[k] + texts[k].len() <= e <= src.len(),
        crate::laws::weave::blank(src.subrange(starts[k] + texts[k].len(), e)),
    ensures
        e <= crate::laws::blanks::gap_to(src, texts, starts, k + 1),
{
    let end = starts[k] + texts[k].len();
    if k + 1 < items.len() {
        let j = starts[k + 1];
        assert(crate::laws::blanks::stands_at(src, texts, starts, k + 1));
        lemma_first(src, texts, items, starts, k + 1);
        if e > j {
            assert(crate::text::is_white(src.subrange(end, e)[j - end]));
        }
    }
}

/// A text that is made of the texts of the items, with white space between
/// them, reads as the items: its tokens, layout aside, are theirs, in order.
/// A text that stands right in front of the next has to end there.
pub proof fn law_text_reads_as_its_tokens(
    out: Seq<char>,
    texts: Seq<Seq<char>>,
    items: Seq<Token>,
    starts: Seq<int>,
)
    requires
        crate::laws::blanks::placed(out, texts, starts),
        texts.len() == items.len(),
        all_parted(out, texts, items, starts),
        forall|k: int|
            0 <= k < texts.len() ==> #[trigger] crate::laws::blanks::starts_line(
                out,
                texts,
                starts,
                k,
            ),
    ensures
        all_read(out, inked(crate::lexer::pieces(out)), texts, items, starts, 0),
{
    assert(crate::laws::blanks::stands_at(out, texts, starts, 0));
    lemma_reads_from(out, texts, items, starts, 0, 0, true);
}

/// The output reads as the tokens that are laid out, in order, when every
/// marker that is aligned stands where a token starts: their texts stand in the
/// output with nothing but white space between them, and its tokens, layout
/// aside, are theirs. A token that is written right in front of the next has to
/// end there, unlike the first of `- -x` when no space is left between the two;
/// behind one that goes on to the end of its line the line has to end.
pub proof fn law_output_reads_as_its_tokens(toks: Seq<Token>, config: Config) -> (r: (
    Seq<Seq<char>>,
    Seq<int>,
))
    requires
        config.allows_eol(Eol::Lf),
        crate::laws::blanks::fit(crate::formatter::prepared(toks, config), config),
    ensures
        ({
            let out = crate::formatter::format_text(toks, config, Eol::Lf);
            let prepared = crate::formatter::prepared(toks, config);
            let items = crate::scan::content(prepared, 0, crate::laws::weave::end_of(prepared));
            &&& crate::laws::weave::tells(r.0, items, config)
            &&& crate::laws::moving::markers_stand(
                crate::laws::blanks::laid_out(toks, config),
                config,
                r.0,
            ) ==> {
                &&& crate::laws::blanks::placed(out, r.0, r.1)
                &&& all_parted(out, r.0, items, r.1) ==> all_read(
                    out,
                    inked(crate::lexer::pieces(out)),
                    r.0,
                    items,
                    r.1,
                    0,
                )
            }
        }),
{
    let out = crate::formatter::format_text(toks, config, Eol::Lf);
    let laid = crate::laws::blanks::laid_out(toks, config);
    let prepared = crate::formatter::prepared(toks, config);
    let items = crate::scan::content(prepared, 0, crate::laws::weave::end_of(prepared));
    let (texts, starts) = crate::laws::blanks::law_blank_lines_are_capped_throughout(
        toks,
        config,
        Eol::Lf,
    );
    if crate::laws::moving::markers_stand(laid, config, texts) {
        crate::laws::styles::lemma_layout_lacks(prepared, config);
        let moved = crate::laws::moving::lemma_aligned(laid, config, texts, starts);
        if all_parted(out, texts, items, moved) {
            assert forall|k: int|
                0 <= k < texts.len() implies #[trigger] crate::laws::blanks::starts_line(
                out,
                texts,
                moved,
                k,
            ) by {
                assert(crate::laws::blanks::starts_line(laid, texts, starts, k));
                let g = crate::laws::blanks::gap(out, texts, moved, k);
            }
            law_text_reads_as_its_tokens(out, texts, items, moved);
        }
        (texts, moved)
    } else {
        (texts, starts)
    }
}

// ── Tokens of a source ───────────────────────────────────────────────────────

proof fn lemma_find_within(src: Seq<char>, j: int, text: Seq<char>, p: Seq<char>, i: int)
    requires
        has_text(src, j, text),
        0 <= i,
    ensures
        match crate::text::find_from(src, p, j + i) {
            Some(x) => x + p.len() <= j + text.len() ==> crate::text::find_from(text, p, i) == Some(
                x - j,
            ),
            None => true,
        },
    decreases src.len() + 1 - j - i,
{
    crate::content::lemma_find_bounds(src, p, j + i);
    if i + p.len() <= text.len() {
        lemma_part_at(src, j, text, i, i + p.len());
        if !crate::text::matches_at(text, i, p) {
            lemma_find_within(src, j, text, p, i + 1);
        }
    }
}

/// A closed literal ends behind its quote.
proof fn lemma_quoted_ends(src: Seq<char>, i: int, quote: char)
    requires
        0 <= i,
    ensures
        crate::lexer::quoted(src, i, quote).closed ==> i < crate::lexer::quoted(src, i, quote).end,
    decreases src.len() + 1 - i,
{
    if i < src.len() {
        lemma_quoted_ends(src, i + 1, quote);
        lemma_quoted_ends(src, i + 2, quote);
        if crate::lexer::is_break(crate::lexer::at(src, i + 1)) {
            lemma_quoted_ends(src, crate::lexer::break_end(src, i + 1), quote);
        }
    }
}

proof fn lemma_quoted_within(src: Seq<char>, j: int, text: Seq<char>, i: int, quote: char)
    requires
        has_text(src, j, text),
        0 <= i,
        crate::lexer::quoted(src, j + i, quote).closed,
        crate::lexer::quoted(src, j + i, quote).end <= j + text.len(),
    ensures
        crate::lexer::quoted(text, i, quote).closed,
        j + crate::lexer::quoted(text, i, quote).end == crate::lexer::quoted(
            src,
            j + i,
            quote,
        ).end,
    decreases src.len() + 1 - j - i,
{
    lemma_quoted_ends(src, j + i, quote);
    let c = src[j + i];
    if i < text.len() {
        assert(c == text[i]);
        if c == quote || crate::lexer::is_break(c) {
        } else if c == '\\' {
            let e = if crate::lexer::is_break(crate::lexer::at(src, j + i + 1)) {
                crate::lexer::break_end(src, j + i + 1)
            } else {
                j + i + 2
            };
            lemma_quoted_within(src, j, text, e - j, quote);
            assert(src[j + (i + 1)] == text[i + 1]);
            if i + 2 < text.len() {
                assert(src[j + (i + 2)] == text[i + 2]);
            }
        } else {
            lemma_quoted_within(src, j, text, i + 1, quote);
        }
    }
}

proof fn lemma_raw_within(src: Seq<char>, j: int, text: Seq<char>, i: int)
    requires
        has_text(src, j, text),
        0 <= i <= text.len(),
        crate::lexer::raw(src, j + i).closed,
        crate::lexer::raw(src, j + i).end <= j + text.len(),
    ensures
        crate::lexer::raw(text, i).closed,
        j + crate::lexer::raw(text, i).end == crate::lexer::raw(src, j + i).end,
{
    let paren = seq!['('];
    lemma_find_at(src, j, text, paren, i);
    lemma_find_within(src, j, text, paren, i);
    crate::content::lemma_find_bounds(src, paren, j + i);
    match crate::text::find_from(src, paren, j + i) {
        Some(open) => {
            if open - j - i <= crate::lexer::RAW_DELIMITER {
                let close = seq![')'] + src.subrange(j + i, open) + seq!['"'];
                crate::content::lemma_find_bounds(src, close, open + 1);
                lemma_part_at(src, j, text, i, open - j);
                lemma_find_within(src, j, text, close, open - j + 1);
            } else {
                lemma_quoted_within(src, j, text, i, '"');
            }
        },
        None => {
            lemma_quoted_within(src, j, text, i, '"');
        },
    }
}

proof fn lemma_number_within(src: Seq<char>, j: int, text: Seq<char>, i: int, hex: bool)
    requires
        has_text(src, j, text),
        1 <= i <= text.len(),
        crate::lexer::number_end(src, j + i, hex) == j + text.len(),
    ensures
        crate::lexer::number_end(text, i, hex) == text.len(),
    decreases text.len() - i,
{
    if i < text.len() {
        assert(src[j + i] == text[i]);
        assert(src[j + (i - 1)] == text[i - 1]);
        if i + 1 < text.len() {
            assert(src[j + (i + 1)] == text[i + 1]);
        } else if src[j + i] == '\'' && j + i + 1 < src.len() && crate::lexer::in_word(
            src[j + i + 1],
        ) {
            crate::laws::lexing::lemma_number_end(src, j + i + 2, hex);
            assert(crate::lexer::number_end(src, j + i + 1, hex) == crate::lexer::number_end(
                src,
                j + i + 2,
                hex,
            ));
        }
        lemma_number_within(src, j, text, i + 1, hex);
    }
}

proof fn lemma_word_within(src: Seq<char>, j: int, text: Seq<char>, i: int)
    requires
        has_text(src, j, text),
        0 <= i <= text.len(),
        crate::lexer::word_end(src, j + i) <= j + text.len(),
    ensures
        j + crate::lexer::word_end(text, i) == crate::lexer::word_end(src, j + i),
    decreases text.len() - i,
{
    if i < text.len() {
        assert(src[j + i] == text[i]);
        if crate::lexer::in_word(text[i]) {
            lemma_word_within(src, j, text, i + 1);
        }
    } else if j + i < src.len() && crate::lexer::in_word(src[j + i]) {
        crate::laws::lexing::lemma_word_end(src, j + i + 1);
    }
}

proof fn lemma_word_alone(src: Seq<char>, j: int, text: Seq<char>)
    requires
        has_text(src, j, text),
        text.len() > 0,
        crate::lexer::starts_word(text[0]),
        crate::lexer::word_piece(src, j).end == j + text.len(),
        crate::lexer::word_piece(src, j).closed,
    ensures
        crate::lexer::word_piece(text, 0).kind == crate::lexer::word_piece(src, j).kind,
        crate::lexer::word_piece(text, 0).end == text.len(),
        crate::lexer::word_piece(text, 0).closed,
{
    let e = crate::lexer::word_end(src, j + 1);
    crate::laws::lexing::lemma_word_end(src, j + 1);
    if e < src.len() {
        crate::laws::lexing::lemma_quoted(src, e + 1, '"');
        crate::laws::lexing::lemma_quoted(src, e + 1, '\'');
        crate::laws::lexing::lemma_raw(src, e + 1);
    }
    lemma_word_within(src, j, text, 1);
    let w = src.subrange(j, e);
    let next = crate::lexer::at(src, e);
    lemma_part_at(src, j, text, 0, e - j);
    if e - j < text.len() {
        assert(src[j + (e - j)] == text[e - j]);
    }
    if next == '"' && crate::lexer::is_raw_prefix(w) {
        lemma_raw_within(src, j, text, e - j + 1);
    } else if next == '"' && crate::lexer::is_encoding(w) {
        lemma_quoted_within(src, j, text, e - j + 1, '"');
    } else if next == '\'' && crate::lexer::is_encoding(w) {
        lemma_quoted_within(src, j, text, e - j + 1, '\'');
    }
}

proof fn lemma_number_alone(src: Seq<char>, j: int, text: Seq<char>)
    requires
        has_text(src, j, text),
        text.len() > 0,
        crate::lexer::number_piece(src, j).end == j + text.len(),
    ensures
        crate::lexer::number_piece(text, 0).kind == crate::lexer::number_piece(src, j).kind,
        crate::lexer::number_piece(text, 0).end == text.len(),
{
    let hex = crate::lexer::is_hex(src, j);
    assert(src[j + 0] == text[0]);
    if text.len() > 1 {
        assert(src[j + 1] == text[1]);
    } else if j + 1 < src.len() && crate::lexer::in_word(src[j + 1]) {
        crate::laws::lexing::lemma_number_end(src, j + 2, hex);
    }
    assert(crate::lexer::is_hex(text, 0) == hex);
    lemma_number_within(src, j, text, 1, hex);
    lemma_part_at(src, j, text, 0, text.len() as int);
}

/// What is read as a token reads as that token by itself.
proof fn lemma_alone(src: Seq<char>, j: int, line_start: bool)
    requires
        0 <= j < src.len(),
    ensures
        ({
            let p = crate::lexer::piece_at(src, j, line_start);
            let text = src.subrange(j, p.end);
            !KindSet::Layout.has(p.kind) && !is_line(p.kind) && p.closed && has_paren(text)
                ==> alone(text, p.kind)
        }),
{
    let p = crate::lexer::piece_at(src, j, line_start);
    crate::laws::lexing::lemma_piece(src, j, line_start);
    let text = src.subrange(j, p.end);
    let n = text.len() as int;
    assert(has_text(src, j, text));
    let c = src[j];
    let d = crate::lexer::at(src, j + 1);
    assert(src[j + 0] == text[0]);
    if n > 1 {
        assert(src[j + 1] == text[1]);
    }
    if n > 2 {
        assert(src[j + 2] == text[2]);
    }
    if !p.closed || KindSet::Layout.has(p.kind) || is_line(p.kind) {
    } else if c == '/' && d == '*' {
        crate::content::lemma_find_bounds(src, seq!['*', '/'], j + 2);
        lemma_find_within(src, j, text, seq!['*', '/'], 2);
    } else if c == '"' {
        lemma_quoted_within(src, j, text, 1, '"');
    } else if c == '\'' {
        lemma_quoted_within(src, j, text, 1, '\'');
    } else if crate::lexer::is_digit(c) || (c == '.' && crate::lexer::is_digit(d)) {
        if !crate::lexer::is_digit(c) {
            crate::laws::lexing::lemma_number_end(src, j + 2, crate::lexer::is_hex(src, j));
        }
        lemma_number_alone(src, j, text);
    } else if crate::lexer::starts_word(c) {
        lemma_word_alone(src, j, text);
    } else {
        lemma_symbol_len(c, d, crate::lexer::at(src, j + 2));
        lemma_symbol_end(c);
    }
}

proof fn lemma_all_alone(src: Seq<char>, i: int, line_start: bool)
    requires
        0 <= i <= src.len(),
    ensures
        forall|k: int|
            #![trigger crate::lexer::pieces_from(src, i, line_start)[k]]
            0 <= k < crate::lexer::pieces_from(src, i, line_start).len() ==> {
                let p = crate::lexer::pieces_from(src, i, line_start)[k];
                let text = src.subrange(p.start, p.end);
                !KindSet::Layout.has(p.kind) && p.kind != TokenKind::Eof && !is_line(p.kind)
                    && p.closed && has_paren(text) ==> alone(text, p.kind)
            },
    decreases src.len() - i,
{
    if i < src.len() {
        let p = crate::lexer::piece_at(src, i, line_start);
        let next = crate::lexer::line_start_after(p.kind, line_start);
        crate::laws::lexing::lemma_piece(src, i, line_start);
        lemma_alone(src, i, line_start);
        lemma_all_alone(src, p.end, next);
        let rest = crate::lexer::pieces_from(src, p.end, next);
        let all = crate::lexer::pieces_from(src, i, line_start);
        assert forall|k: int|
            #![trigger all[k]]
            0 <= k < all.len() implies {
            let p = all[k];
            let text = src.subrange(p.start, p.end);
            !KindSet::Layout.has(p.kind) && p.kind != TokenKind::Eof && !is_line(p.kind)
                && p.closed && has_paren(text) ==> alone(text, p.kind)
        } by {
            if k > 0 {
                assert(all[k] == crate::lexer::pieces_from(src, p.end, next)[k - 1]);
            }
        }
    }
}

/// A token of a source that has its closing delimiter reads as itself when it
/// is taken out of the source. What goes on to the end of its line is left
/// out, and so is a raw string without a parenthesis.
pub proof fn law_tokens_read_alone(src: Seq<char>, toks: Seq<Token>, k: int)
    requires
        crate::lexer::all_stand_for(toks, src, crate::lexer::pieces(src)),
        0 <= k < toks.len() - 1,
        !KindSet::Layout.has(toks[k].kind),
        !is_line(toks[k].kind),
        crate::lexer::pieces(src)[k].closed,
        has_paren(toks[k].lexeme@),
    ensures
        alone(toks[k].lexeme@, toks[k].kind),
{
    lemma_all_alone(src, 0, true);
    crate::laws::lexing::law_lexer_is_lossless(src, toks);
    let p = crate::lexer::pieces(src)[k];
    assert(crate::lexer::stands_for(toks[k], src, p));
    assert(p == crate::lexer::pieces_from(src, 0, true)[k]);
}

} // verus!
