//! How comments and preprocessor lines are rewritten: line ends, the
//! whitespace at the ends of lines and nothing else.

use crate::config::{Config, Eol, IndentStyle};
use crate::text::{
    chars_of, cut, has_char, join_lines, occurs_at, position_of, prefix, push_all, push_spaces,
    replaced, same_text, split_lines, string_of, suffix, trimmed_len, trimmed_start, Class,
};
use vstd::prelude::*;

verus! {

// ── Line ends ────────────────────────────────────────────────────────────────

/// The text with every line end, in whatever style, written as `eol`.
pub open spec fn unify(s: Seq<char>, eol: Eol) -> Seq<char> {
    let lf = crate::text::replace(s, seq!['\r', '\n'], seq!['\n']);
    let no_cr = crate::text::replace(lf, seq!['\r'], seq!['\n']);
    crate::text::replace(no_cr, seq!['\n'], eol.text())
}

pub(crate) fn unified(s: &[char], eol: Eol) -> (r: Vec<char>)
    ensures
        r@ == unify(s@, eol),
{
    let crlf: [char; 2] = ['\r', '\n'];
    let cr: [char; 1] = ['\r'];
    let lf: [char; 1] = ['\n'];
    let end = chars_of(eol.as_str());
    proof {
        assert(crlf@ =~= seq!['\r', '\n']);
        assert(cr@ =~= seq!['\r']);
        assert(lf@ =~= seq!['\n']);
    }
    let a = replaced(s, crlf.as_slice(), lf.as_slice());
    let b = replaced(a.as_slice(), cr.as_slice(), lf.as_slice());
    replaced(b.as_slice(), lf.as_slice(), end.as_slice())
}

// ── Block comments ───────────────────────────────────────────────────────────

/// The line begins with `**`.
pub open spec fn starts_double_star(line: Seq<char>) -> bool {
    crate::text::begins_with(line, seq!['*', '*'])
}

/// Some line behind the first begins with `**`.
pub open spec fn double_starred(lines: Seq<Seq<char>>) -> bool {
    exists|i: int| 1 <= i < lines.len() && #[trigger] starts_double_star(lines[i])
}

/// A closing line of a bare `*/` reads ` */`, unless the comment is continued
/// with `**`.
pub open spec fn space_closing(s: Seq<char>, eol: Eol) -> Seq<char> {
    if double_starred(crate::text::split(s, eol.text())) {
        s
    } else {
        crate::text::replace(s, eol.text() + seq!['*', '/'], eol.text() + seq![' ', '*', '/'])
    }
}

/// A line with each leading tab written as `width` spaces.
pub open spec fn expand_tabs(line: Seq<char>, width: nat) -> Seq<char> {
    let rest = crate::text::trim_start(line, Class::Tab);
    crate::text::spaces(((line.len() - rest.len()) * width) as nat) + rest
}

/// Each line of the text with its leading tabs expanded.
pub open spec fn expand_all_tabs(s: Seq<char>, eol: Eol, width: nat) -> Seq<char> {
    crate::text::join(
        crate::text::split(s, eol.text()).map_values(|l: Seq<char>| expand_tabs(l, width)),
        eol.text(),
    )
}

/// Each line of the text without the white space at its end.
pub open spec fn trim_lines(s: Seq<char>, eol: Eol) -> Seq<char> {
    crate::text::join(
        crate::text::split(s, eol.text()).map_values(
            |l: Seq<char>| crate::text::trim_end(l, Class::White),
        ),
        eol.text(),
    )
}

/// A block comment as it is written.
pub open spec fn block_comment(s: Seq<char>, config: Config, eol: Eol) -> Seq<char> {
    let unified = unify(s, eol);
    let closed = if config.comments.normalize_block_comment_closing {
        space_closing(unified, eol)
    } else {
        unified
    };
    let expanded = if config.indent.style == IndentStyle::Spaces {
        expand_all_tabs(closed, eol, config.indent.width as nat)
    } else {
        closed
    };
    if expanded.contains(' ') || expanded.contains('\t') {
        trim_lines(expanded, eol)
    } else {
        expanded
    }
}

fn is_double_starred(lines: &Vec<Vec<char>>) -> (r: bool)
    ensures
        r == double_starred(crate::text::rows(lines@)),
{
    let stars: [char; 2] = ['*', '*'];
    assert(stars@ =~= seq!['*', '*']);
    let ghost rows = crate::text::rows(lines@);
    let mut i: usize = 1;
    while i < lines.len()
        invariant
            1 <= i,
            rows == crate::text::rows(lines@),
            stars@ == seq!['*', '*'],
            forall|j: int|
                1 <= j < i && j < lines@.len() ==> !#[trigger] starts_double_star(rows[j]),
        decreases lines@.len() - i,
    {
        assert(rows[i as int] == lines@[i as int]@);
        if occurs_at(lines[i].as_slice(), 0, stars.as_slice()) {
            assert(starts_double_star(rows[i as int]));
            return true;
        }
        i += 1;
    }
    false
}

fn closing_spaced(s: &[char], eol: Eol) -> (r: Vec<char>)
    ensures
        r@ == space_closing(s@, eol),
{
    let end = chars_of(eol.as_str());
    let lines = split_lines(s, end.as_slice());
    if is_double_starred(&lines) {
        let whole = cut(s, 0, s.len());
        assert(whole@ =~= s@);
        return whole;
    }
    let bare: [char; 2] = ['*', '/'];
    let spaced: [char; 3] = [' ', '*', '/'];
    let mut from = chars_of(eol.as_str());
    push_all(&mut from, bare.as_slice());
    let mut to = chars_of(eol.as_str());
    push_all(&mut to, spaced.as_slice());
    proof {
        assert(bare@ =~= seq!['*', '/']);
        assert(spaced@ =~= seq![' ', '*', '/']);
    }
    replaced(s, from.as_slice(), to.as_slice())
}

fn tabs_expanded(line: &[char], width: u8) -> (r: Vec<char>)
    ensures
        r@ == expand_tabs(line@, width as nat),
{
    let n = trimmed_start(line, Class::Tab);
    let rest = suffix(line, n);
    assert(n * width <= 0xffff_ffff_ffff_ffff * 0xff) by (nonlinear_arith)
        requires
            n <= 0xffff_ffff_ffff_ffff,
            width <= 0xff,
    ;
    let mut out: Vec<char> = Vec::new();
    push_spaces(&mut out, n as u128 * width as u128);
    push_all(&mut out, rest);
    assert(line@.len() - rest@.len() == n);
    assert(out@ =~= expand_tabs(line@, width as nat));
    out
}

fn all_tabs_expanded(s: &[char], eol: Eol, width: u8) -> (r: Vec<char>)
    ensures
        r@ == expand_all_tabs(s@, eol, width as nat),
{
    let end = chars_of(eol.as_str());
    let lines = split_lines(s, end.as_slice());
    let ghost rows = crate::text::rows(lines@);
    let mut out: Vec<Vec<char>> = Vec::new();
    for i in 0..lines.len()
        invariant
            rows == crate::text::rows(lines@),
            crate::text::rows(out@) =~= rows.take(i as int).map_values(
                |l: Seq<char>| expand_tabs(l, width as nat),
            ),
    {
        let ghost before = out@;
        let line = tabs_expanded(lines[i].as_slice(), width);
        out.push(line);
        assert(crate::text::rows(out@) =~= crate::text::rows(before).push(line@));
        assert(rows.take(i + 1) =~= rows.take(i as int).push(rows[i as int]));
    }
    assert(rows.take(lines@.len() as int) =~= rows);
    join_lines(&out, end.as_slice())
}

fn lines_trimmed(s: &[char], eol: Eol) -> (r: Vec<char>)
    ensures
        r@ == trim_lines(s@, eol),
{
    let end = chars_of(eol.as_str());
    let lines = split_lines(s, end.as_slice());
    let ghost rows = crate::text::rows(lines@);
    let mut out: Vec<Vec<char>> = Vec::new();
    for i in 0..lines.len()
        invariant
            rows == crate::text::rows(lines@),
            crate::text::rows(out@) =~= rows.take(i as int).map_values(
                |l: Seq<char>| crate::text::trim_end(l, Class::White),
            ),
    {
        let ghost before = out@;
        let n = trimmed_len(lines[i].as_slice(), Class::White);
        let line = cut(lines[i].as_slice(), 0, n);
        assert(line@ =~= lines@[i as int]@.take(n as int));
        out.push(line);
        assert(crate::text::rows(out@) =~= crate::text::rows(before).push(line@));
        assert(rows.take(i + 1) =~= rows.take(i as int).push(rows[i as int]));
    }
    assert(rows.take(lines@.len() as int) =~= rows);
    join_lines(&out, end.as_slice())
}

/// Rewrite a block comment.
pub(crate) fn block_comment_text(lexeme: &str, config: &Config, eol: Eol) -> (r: Vec<char>)
    ensures
        r@ == block_comment(lexeme@, *config, eol),
{
    let source = chars_of(lexeme);
    let mut text = unified(source.as_slice(), eol);
    if config.comments.normalize_block_comment_closing {
        text = closing_spaced(text.as_slice(), eol);
    }
    if config.indent.style == IndentStyle::Spaces {
        text = all_tabs_expanded(text.as_slice(), eol, config.indent.width);
    }
    if has_char(text.as_slice(), ' ') || has_char(text.as_slice(), '\t') {
        text = lines_trimmed(text.as_slice(), eol);
    }
    text
}

// ── Preprocessor lines ───────────────────────────────────────────────────────

/// How many characters stand before the first white space.
pub open spec fn word_len(s: Seq<char>) -> nat
    decreases s.len(),
{
    if s.len() == 0 || crate::text::is_white(s[0]) {
        0
    } else {
        1 + word_len(s.drop_first())
    }
}

/// The word behind the `#` that starts the line; empty if there is none.
pub open spec fn directive(s: Seq<char>) -> Seq<char> {
    let t = crate::text::trim_start(s, Class::White);
    if t.len() > 0 && t[0] == '#' {
        let rest = crate::text::trim_start(t.drop_first(), Class::White);
        rest.take(word_len(rest) as int)
    } else {
        Seq::empty()
    }
}

/// What a preprocessor line does to the nesting of conditional groups.
#[derive(Debug, Clone, Copy, PartialEq, Eq, Structural)]
pub enum Conditional {
    /// `#if`, `#ifdef`, `#ifndef`
    Open,
    /// `#elif`, `#else`
    Reopen,
    /// `#endif`
    Close,
    /// Any other line.
    Plain,
}

pub open spec fn conditional(s: Seq<char>) -> Conditional {
    let word = directive(s);
    if word == "if"@ || word == "ifdef"@ || word == "ifndef"@ {
        Conditional::Open
    } else if word == "elif"@ || word == "else"@ {
        Conditional::Reopen
    } else if word == "endif"@ {
        Conditional::Close
    } else {
        Conditional::Plain
    }
}

fn first_word(s: &[char]) -> (r: Vec<char>)
    ensures
        r@ == s@.take(word_len(s@) as int),
{
    let mut i: usize = 0;
    assert(s@.skip(0) =~= s@);
    while i < s.len() && !crate::text::white(s[i])
        invariant
            i <= s@.len(),
            word_len(s@) == i + word_len(s@.skip(i as int)),
        decreases s@.len() - i,
    {
        assert(s@.skip(i as int).drop_first() =~= s@.skip(i + 1));
        i += 1;
    }
    let r = cut(s, 0, i);
    assert(r@ =~= s@.take(i as int));
    r
}

fn directive_of(s: &[char]) -> (r: String)
    ensures
        r@ == directive(s@),
{
    let start = trimmed_start(s, Class::White);
    let t = suffix(s, start);
    if t.len() > 0 && t[0] == '#' {
        let rest = suffix(t, 1);
        assert(rest@ =~= t@.drop_first());
        let word = suffix(rest, trimmed_start(rest, Class::White));
        string_of(first_word(word).as_slice())
    } else {
        String::new()
    }
}

pub(crate) fn conditional_of(s: &[char]) -> (r: Conditional)
    ensures
        r == conditional(s@),
{
    let word = directive_of(s);
    let w = word.as_str();
    if same_text(w, "if") || same_text(w, "ifdef") || same_text(w, "ifndef") {
        Conditional::Open
    } else if same_text(w, "elif") || same_text(w, "else") {
        Conditional::Reopen
    } else if same_text(w, "endif") {
        Conditional::Close
    } else {
        Conditional::Plain
    }
}

/// The line with exactly `n` spaces before its first `/*`.
pub open spec fn space_endif(line: Seq<char>, n: nat) -> Seq<char> {
    match crate::text::find(line, seq!['/', '*']) {
        Some(i) => crate::text::trim_end(line.take(i), Class::White) + crate::text::spaces(n)
            + line.skip(i),
        None => line,
    }
}

fn endif_spaced(line: &[char], n: u32) -> (r: Vec<char>)
    ensures
        r@ == space_endif(line@, n as nat),
{
    let open: [char; 2] = ['/', '*'];
    assert(open@ =~= seq!['/', '*']);
    match position_of(line, open.as_slice()) {
        Some(i) => {
            let head = prefix(line, i);
            let keep = trimmed_len(head, Class::White);
            let mut out: Vec<char> = Vec::new();
            push_all(&mut out, prefix(head, keep));
            push_spaces(&mut out, n as u128);
            push_all(&mut out, suffix(line, i));
            assert(out@ =~= space_endif(line@, n as nat));
            out
        },
        None => {
            let whole = cut(line, 0, line.len());
            assert(whole@ =~= line@);
            whole
        },
    }
}

/// Normalizes the whitespace between `#endif` and a trailing `/*` comment to
/// exactly `spaces` spaces. Lines with no `/*` are returned unchanged.
pub fn normalize_endif_spacing(line: &str, spaces: u32) -> (r: String)
    ensures
        r@ == space_endif(line@, spaces as nat),
{
    string_of(endif_spaced(chars_of(line).as_slice(), spaces).as_slice())
}

/// A preprocessor line as it is written, but for its indentation.
pub open spec fn preproc_line(s: Seq<char>, config: Config, eol: Eol) -> Seq<char> {
    let line = unify(s, eol);
    if conditional(line) == Conditional::Close {
        space_endif(line, config.preprocessor.endif_comment_space as nat)
    } else {
        line
    }
}

/// Rewrite a preprocessor line and tell what it does to conditional groups.
pub(crate) fn preproc_text(lexeme: &str, config: &Config, eol: Eol) -> (r: (Vec<char>, Conditional))
    ensures
        r.0@ == preproc_line(lexeme@, *config, eol),
        r.1 == conditional(unify(lexeme@, eol)),
{
    let line = unified(chars_of(lexeme).as_slice(), eol);
    let cond = conditional_of(line.as_slice());
    if cond == Conditional::Close {
        (endif_spaced(line.as_slice(), config.preprocessor.endif_comment_space), cond)
    } else {
        (line, cond)
    }
}

} // verus!
