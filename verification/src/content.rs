//! The content of a text, its characters besides white space, and what keeps
//! it: trimming, replacing white space, splitting and joining lines.

use crate::config::{Config, Eol, IndentStyle};
use crate::text::Class;
use vstd::prelude::*;

verus! {

/// The characters of a text that are not white space.
pub open spec fn solid(s: Seq<char>) -> Seq<char>
    decreases s.len(),
{
    if s.len() == 0 {
        Seq::empty()
    } else if crate::text::is_white(s.last()) {
        solid(s.drop_last())
    } else {
        solid(s.drop_last()).push(s.last())
    }
}

/// The text holds nothing but white space.
pub open spec fn all_white(s: Seq<char>) -> bool {
    forall|i: int| 0 <= i < s.len() ==> crate::text::is_white(#[trigger] s[i])
}

pub proof fn lemma_solid_add(a: Seq<char>, b: Seq<char>)
    ensures
        solid(a + b) == solid(a) + solid(b),
    decreases b.len(),
{
    if b.len() == 0 {
        assert(a + b =~= a);
        assert(solid(a) + solid(b) =~= solid(a));
    } else {
        lemma_solid_add(a, b.drop_last());
        assert((a + b).drop_last() =~= a + b.drop_last());
        assert((a + b).last() == b.last());
        assert(solid(a) + solid(b.drop_last()).push(b.last()) =~= (solid(a) + solid(
            b.drop_last(),
        )).push(b.last()));
    }
}

pub proof fn lemma_solid_white(s: Seq<char>)
    requires
        all_white(s),
    ensures
        solid(s) == Seq::<char>::empty(),
    decreases s.len(),
{
    if s.len() > 0 {
        assert(crate::text::is_white(s[s.len() - 1]));
        assert forall|i: int| 0 <= i < s.drop_last().len() implies crate::text::is_white(
            #[trigger] s.drop_last()[i],
        ) by {
            assert(crate::text::is_white(s[i]));
        }
        lemma_solid_white(s.drop_last());
    }
}

/// White space behind a text does not change its content.
pub proof fn lemma_solid_tail(s: Seq<char>, t: Seq<char>)
    requires
        all_white(t),
    ensures
        solid(s + t) == solid(s),
{
    lemma_solid_add(s, t);
    lemma_solid_white(t);
    assert(solid(s) + Seq::<char>::empty() =~= solid(s));
}

pub proof fn lemma_spaces_white(n: nat)
    ensures
        all_white(crate::text::spaces(n)),
{
}

pub proof fn lemma_eol_white(eol: Eol)
    ensures
        all_white(eol.text()),
        eol.text().len() > 0,
{
}

pub proof fn lemma_repeat_white(t: Seq<char>, n: nat)
    requires
        all_white(t),
    ensures
        all_white(crate::text::repeat(t, n)),
    decreases n,
{
    if n > 0 {
        lemma_repeat_white(t, (n - 1) as nat);
        let a = crate::text::repeat(t, (n - 1) as nat);
        assert forall|i: int| 0 <= i < (a + t).len() implies crate::text::is_white(
            #[trigger] (a + t)[i],
        ) by {
            if i < a.len() {
                assert(crate::text::is_white(a[i]));
            } else {
                assert(crate::text::is_white(t[i - a.len()]));
            }
        }
    }
}

pub proof fn lemma_unit_white(config: Config)
    ensures
        all_white(config.indent_unit()),
{
}

pub proof fn lemma_solid_trim_end(s: Seq<char>, class: Class)
    ensures
        solid(crate::text::trim_end(s, class)) == solid(s),
    decreases s.len(),
{
    if s.len() > 0 && class.has(s.last()) {
        lemma_solid_trim_end(s.drop_last(), class);
    }
}

pub proof fn lemma_solid_trim_start(s: Seq<char>, class: Class)
    ensures
        solid(crate::text::trim_start(s, class)) == solid(s),
    decreases s.len(),
{
    if s.len() > 0 && class.has(s[0]) {
        lemma_solid_trim_start(s.drop_first(), class);
        assert(s =~= seq![s[0]] + s.drop_first());
        lemma_solid_add(seq![s[0]], s.drop_first());
        lemma_solid_white(seq![s[0]]);
        assert(Seq::<char>::empty() + solid(s.drop_first()) =~= solid(s.drop_first()));
    }
}

/// Replacing texts of the same content keeps the content.
pub proof fn lemma_solid_replace_from(s: Seq<char>, from: Seq<char>, to: Seq<char>, i: int)
    requires
        0 <= i <= s.len(),
        from.len() > 0,
        solid(from) == solid(to),
    ensures
        solid(crate::text::replace_from(s, from, to, i)) == solid(s.skip(i)),
    decreases s.len() - i,
{
    if i < s.len() {
        if crate::text::matches_at(s, i, from) {
            let j = i + from.len();
            lemma_solid_replace_from(s, from, to, j);
            lemma_solid_add(to, crate::text::replace_from(s, from, to, j));
            assert(s.skip(i) =~= from + s.skip(j));
            lemma_solid_add(from, s.skip(j));
        } else {
            lemma_solid_replace_from(s, from, to, i + 1);
            lemma_solid_add(seq![s[i]], crate::text::replace_from(s, from, to, i + 1));
            assert(s.skip(i) =~= seq![s[i]] + s.skip(i + 1));
            lemma_solid_add(seq![s[i]], s.skip(i + 1));
        }
    } else {
        assert(s.skip(i) =~= Seq::<char>::empty());
    }
}

pub proof fn lemma_solid_replace(s: Seq<char>, from: Seq<char>, to: Seq<char>)
    requires
        from.len() > 0,
        solid(from) == solid(to),
    ensures
        solid(crate::text::replace(s, from, to)) == solid(s),
{
    lemma_solid_replace_from(s, from, to, 0);
    assert(s.skip(0) =~= s);
}

/// The content of the lines, one behind the other.
pub open spec fn solid_lines(lines: Seq<Seq<char>>) -> Seq<char>
    decreases lines.len(),
{
    if lines.len() == 0 {
        Seq::empty()
    } else {
        solid_lines(lines.drop_last()) + solid(lines.last())
    }
}

pub proof fn lemma_solid_lines_add(a: Seq<Seq<char>>, b: Seq<Seq<char>>)
    ensures
        solid_lines(a + b) == solid_lines(a) + solid_lines(b),
    decreases b.len(),
{
    if b.len() == 0 {
        assert(a + b =~= a);
        assert(solid_lines(a) + Seq::<char>::empty() =~= solid_lines(a));
    } else {
        assert((a + b).drop_last() =~= a + b.drop_last());
        lemma_solid_lines_add(a, b.drop_last());
        assert(solid_lines(a) + (solid_lines(b.drop_last()) + solid(b.last())) =~= (solid_lines(a)
            + solid_lines(b.drop_last())) + solid(b.last()));
    }
}

pub proof fn lemma_solid_one_line(line: Seq<char>)
    ensures
        solid_lines(seq![line]) == solid(line),
{
    assert(seq![line].drop_last() =~= Seq::<Seq<char>>::empty());
    assert(solid_lines(seq![line].drop_last()) =~= Seq::<char>::empty());
    assert(Seq::<char>::empty() + solid(line) =~= solid(line));
}

/// Joining lines by white space keeps their content.
pub proof fn lemma_solid_join(lines: Seq<Seq<char>>, sep: Seq<char>)
    requires
        all_white(sep),
    ensures
        solid(crate::text::join(lines, sep)) == solid_lines(lines),
    decreases lines.len(),
{
    if lines.len() == 1 {
        lemma_solid_one_line(lines[0]);
        assert(lines =~= seq![lines[0]]);
    } else if lines.len() > 1 {
        let head = crate::text::join(lines.drop_last(), sep);
        lemma_solid_join(lines.drop_last(), sep);
        lemma_solid_tail(head, sep);
        lemma_solid_add(head + sep, lines.last());
    }
}

/// Splitting at white space keeps the content.
pub proof fn lemma_solid_split_from(s: Seq<char>, sep: Seq<char>, start: int, i: int)
    requires
        0 <= start <= i <= s.len(),
        all_white(sep),
        sep.len() > 0,
    ensures
        solid_lines(crate::text::split_from(s, sep, start, i)) == solid(s.skip(start)),
    decreases s.len() - i,
{
    if i >= s.len() {
        lemma_solid_one_line(s.skip(start));
    } else if crate::text::matches_at(s, i, sep) {
        let j = i + sep.len();
        lemma_solid_split_from(s, sep, j, j);
        let line = s.subrange(start, i);
        lemma_solid_lines_add(seq![line], crate::text::split_from(s, sep, j, j));
        lemma_solid_one_line(line);
        assert(s.skip(start) =~= (line + sep) + s.skip(j));
        lemma_solid_add(line + sep, s.skip(j));
        lemma_solid_tail(line, sep);
    } else {
        lemma_solid_split_from(s, sep, start, i + 1);
    }
}

/// Rewriting each line without touching its content keeps the content.
pub proof fn lemma_solid_map(lines: Seq<Seq<char>>, f: spec_fn(Seq<char>) -> Seq<char>)
    requires
        forall|l: Seq<char>| solid(#[trigger] f(l)) == solid(l),
    ensures
        solid_lines(lines.map_values(f)) == solid_lines(lines),
    decreases lines.len(),
{
    if lines.len() > 0 {
        lemma_solid_map(lines.drop_last(), f);
        assert(lines.map_values(f).drop_last() =~= lines.drop_last().map_values(f));
    }
}

/// Rewriting the lines of a text without touching their content keeps the
/// content of the text.
pub proof fn lemma_solid_by_lines(s: Seq<char>, sep: Seq<char>, lines: Seq<Seq<char>>)
    requires
        all_white(sep),
        sep.len() > 0,
        solid_lines(lines) == solid_lines(crate::text::split(s, sep)),
    ensures
        solid(crate::text::join(lines, sep)) == solid(s),
{
    lemma_solid_split_from(s, sep, 0, 0);
    lemma_solid_join(lines, sep);
    assert(s.skip(0) =~= s);
}

// ── Comments and preprocessor lines ──────────────────────────────────────────

/// Line ends may be rewritten without touching the content.
pub proof fn lemma_solid_unify(s: Seq<char>, eol: Eol)
    ensures
        solid(crate::trivia::unify(s, eol)) == solid(s),
{
    let crlf = seq!['\r', '\n'];
    let cr = seq!['\r'];
    let lf = seq!['\n'];
    lemma_solid_white(crlf);
    lemma_solid_white(cr);
    lemma_solid_white(lf);
    lemma_eol_white(eol);
    lemma_solid_white(eol.text());
    let a = crate::text::replace(s, crlf, lf);
    let b = crate::text::replace(a, cr, lf);
    lemma_solid_replace(s, crlf, lf);
    lemma_solid_replace(a, cr, lf);
    lemma_solid_replace(b, lf, eol.text());
}

proof fn lemma_solid_space_closing(s: Seq<char>, eol: Eol)
    ensures
        solid(crate::trivia::space_closing(s, eol)) == solid(s),
{
    let from = eol.text() + seq!['*', '/'];
    let to = eol.text() + seq![' ', '*', '/'];
    assert(solid(from) == solid(to)) by {
        lemma_solid_add(eol.text(), seq!['*', '/']);
        lemma_solid_add(eol.text(), seq![' ', '*', '/']);
        assert(seq![' ', '*', '/'] =~= seq![' '] + seq!['*', '/']);
        lemma_solid_add(seq![' '], seq!['*', '/']);
        lemma_solid_white(seq![' ']);
        assert(Seq::<char>::empty() + solid(seq!['*', '/']) =~= solid(seq!['*', '/']));
    }
    lemma_eol_white(eol);
    lemma_solid_replace(s, from, to);
}

proof fn lemma_solid_expand_tabs(line: Seq<char>, width: nat)
    ensures
        solid(crate::trivia::expand_tabs(line, width)) == solid(line),
{
    let rest = crate::text::trim_start(line, Class::Tab);
    let lead = crate::text::spaces(((line.len() - rest.len()) * width) as nat);
    lemma_solid_trim_start(line, Class::Tab);
    lemma_spaces_white(((line.len() - rest.len()) * width) as nat);
    lemma_solid_white(lead);
    lemma_solid_add(lead, rest);
    assert(Seq::<char>::empty() + solid(rest) =~= solid(rest));
}

/// A block comment keeps its content.
pub proof fn lemma_solid_block_comment(s: Seq<char>, config: Config, eol: Eol)
    ensures
        solid(crate::trivia::block_comment(s, config, eol)) == solid(s),
{
    lemma_eol_white(eol);
    lemma_solid_unify(s, eol);
    let unified = crate::trivia::unify(s, eol);
    let closed = if config.comments.normalize_block_comment_closing {
        crate::trivia::space_closing(unified, eol)
    } else {
        unified
    };
    lemma_solid_space_closing(unified, eol);
    let width = config.indent.width as nat;
    let expand = |l: Seq<char>| crate::trivia::expand_tabs(l, width);
    assert forall|l: Seq<char>| solid(#[trigger] expand(l)) == solid(l) by {
        lemma_solid_expand_tabs(l, width);
    }
    let closed_lines = crate::text::split(closed, eol.text());
    lemma_solid_map(closed_lines, expand);
    lemma_solid_by_lines(closed, eol.text(), closed_lines.map_values(expand));
    let expanded = if config.indent.style == IndentStyle::Spaces {
        crate::trivia::expand_all_tabs(closed, eol, width)
    } else {
        closed
    };
    let trim = |l: Seq<char>| crate::text::trim_end(l, Class::White);
    assert forall|l: Seq<char>| solid(#[trigger] trim(l)) == solid(l) by {
        lemma_solid_trim_end(l, Class::White);
    }
    let lines = crate::text::split(expanded, eol.text());
    lemma_solid_map(lines, trim);
    lemma_solid_by_lines(expanded, eol.text(), lines.map_values(trim));
}

pub proof fn lemma_find_bounds(s: Seq<char>, p: Seq<char>, i: int)
    requires
        0 <= i,
    ensures
        match crate::text::find_from(s, p, i) {
            Some(j) => i <= j && j + p.len() <= s.len(),
            None => true,
        },
    decreases s.len() + 1 - i,
{
    if i + p.len() <= s.len() && !crate::text::matches_at(s, i, p) {
        lemma_find_bounds(s, p, i + 1);
    }
}

/// Spacing the comment behind `#endif` keeps the content.
pub proof fn lemma_solid_space_endif(line: Seq<char>, n: nat)
    ensures
        solid(crate::trivia::space_endif(line, n)) == solid(line),
{
    lemma_find_bounds(line, seq!['/', '*'], 0);
    match crate::text::find(line, seq!['/', '*']) {
        Some(i) => {
            let head = crate::text::trim_end(line.take(i), Class::White);
            lemma_solid_trim_end(line.take(i), Class::White);
            lemma_spaces_white(n);
            lemma_solid_tail(head, crate::text::spaces(n));
            lemma_solid_add(head + crate::text::spaces(n), line.skip(i));
            lemma_solid_add(line.take(i), line.skip(i));
            assert(line.take(i) + line.skip(i) =~= line);
        },
        None => {},
    }
}

/// A preprocessor line keeps its content.
pub proof fn lemma_solid_preproc_line(s: Seq<char>, config: Config, eol: Eol)
    ensures
        solid(crate::trivia::preproc_line(s, config, eol)) == solid(s),
{
    lemma_solid_unify(s, eol);
    lemma_solid_space_endif(
        crate::trivia::unify(s, eol),
        config.preprocessor.endif_comment_space as nat,
    );
}

} // verus!
