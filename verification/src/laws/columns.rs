//! Which lines are marked for alignment, and where their markers go.

use crate::align::{Goal, Marker, Rule, Spot};
use crate::config::{Config, Eol};
use crate::text::Class;
use vstd::prelude::*;

verus! {

// ── Code without literals ────────────────────────────────────────────────────

/// Position `i` of the line starts neither a literal nor a comment.
pub open spec fn is_bare(line: Seq<char>, i: int) -> bool {
    &&& line[i] != '"' && line[i] != '\''
    &&& line[i] == '/' && i + 1 < line.len() ==> line[i + 1] != '/' && line[i + 1] != '*'
}

/// The line up to `n` holds neither literals nor comments.
pub open spec fn is_bare_to(line: Seq<char>, n: int) -> bool {
    forall|i: int| 0 <= i < n ==> #[trigger] is_bare(line, i)
}

pub proof fn lemma_bare_step(line: Seq<char>, k: int, spot: Spot)
    requires
        0 <= k < line.len(),
        is_bare(line, k),
    ensures
        crate::align::step(line, k, spot) is Some,
        (crate::align::step(line, k, spot)->0).0 == k + 1,
{
}

/// The first hit in front of which nothing but code stands.
pub proof fn lemma_first_hit(goal: Goal, line: Seq<char>, k: int, q: int, spot: Spot)
    requires
        0 <= k <= q < line.len(),
        is_bare_to(line, q),
        goal.hit(line, q),
        forall|i: int| k <= i < q ==> !#[trigger] goal.hit(line, i),
    ensures
        goal.first(line, k, spot) == Some(q),
    decreases q - k,
{
    if k < q {
        assert(is_bare(line, k));
        assert(!goal.hit(line, k));
        lemma_bare_step(line, k, spot);
        lemma_first_hit(goal, line, k + 1, q, (crate::align::step(line, k, spot)->0).1);
    }
}

proof fn lemma_no_hit(goal: Goal, line: Seq<char>, k: int, spot: Spot)
    requires
        0 <= k <= line.len(),
        is_bare_to(line, line.len() as int),
        forall|i: int| k <= i < line.len() ==> !#[trigger] goal.hit(line, i),
    ensures
        goal.first(line, k, spot) is None,
    decreases line.len() - k,
{
    if k < line.len() {
        assert(is_bare(line, k));
        assert(!goal.hit(line, k));
        lemma_bare_step(line, k, spot);
        lemma_no_hit(goal, line, k + 1, (crate::align::step(line, k, spot)->0).1);
    }
}

pub proof fn lemma_bare_matches(line: Seq<char>, i: int)
    requires
        0 <= i < line.len(),
        is_bare(line, i),
    ensures
        !crate::text::matches_at(line, i, seq!['/', '/']),
        !crate::text::matches_at(line, i, seq!['/', '*']),
        !crate::text::matches_at(line, i, seq!['/', '*', '*', '<']),
{
    if crate::text::matches_at(line, i, seq!['/', '/']) {
        assert(line.subrange(i, i + 2)[0] == '/' && line.subrange(i, i + 2)[1] == '/');
    }
    if crate::text::matches_at(line, i, seq!['/', '*']) {
        assert(line.subrange(i, i + 2)[0] == '/' && line.subrange(i, i + 2)[1] == '*');
    }
    if crate::text::matches_at(line, i, seq!['/', '*', '*', '<']) {
        assert(line.subrange(i, i + 4)[0] == '/' && line.subrange(i, i + 4)[1] == '*');
    }
}

pub proof fn lemma_trimmed_start(s: Seq<char>, n: int)
    requires
        0 <= n <= s.len(),
        forall|i: int| 0 <= i < n ==> crate::text::is_white(#[trigger] s[i]),
        n < s.len() ==> !crate::text::is_white(s[n]),
    ensures
        crate::text::trim_start(s, Class::White) == s.skip(n),
    decreases n,
{
    if n == 0 {
        assert(s.skip(0) =~= s);
    } else {
        assert(crate::text::is_white(s[0]));
        let t = s.drop_first();
        assert forall|i: int| 0 <= i < n - 1 implies crate::text::is_white(#[trigger] t[i]) by {
            assert(t[i] == s[i + 1]);
        }
        lemma_trimmed_start(t, n - 1);
        assert(t.skip(n - 1) =~= s.skip(n));
    }
}

// ── Enum members ─────────────────────────────────────────────────────────────

/// A character that makes a compound operator with the `=` behind it.
pub open spec fn makes_compound(c: char) -> bool {
    c == '=' || c == '!' || c == '<' || c == '>' || c == '+' || c == '-' || c == '*' || c == '/'
        || c == '%' || c == '&' || c == '|' || c == '^'
}

/// The line is, behind its indentation of `n` characters, a name and more, up to
/// a value; it holds neither literals nor comments.
pub open spec fn starts_with_name(line: Seq<char>, n: int) -> bool {
    &&& 0 <= n < line.len()
    &&& forall|i: int| 0 <= i < n ==> crate::text::is_white(#[trigger] line[i])
    &&& !crate::text::is_white(line[n])
    &&& crate::text::is_letter(line[n]) || line[n] == '_'
    &&& is_bare_to(line, line.len() as int)
}

proof fn lemma_member(line: Seq<char>, n: int)
    requires
        starts_with_name(line, n),
    ensures
        crate::align::code_part(line) == line,
        crate::text::trim_start(line, Class::White) == line.skip(n),
        crate::align::begins_name(line.skip(n)),
{
    assert forall|i: int| 0 <= i < line.len() implies !#[trigger] Goal::Note.hit(line, i) by {
        assert(is_bare(line, i));
        lemma_bare_matches(line, i);
    }
    lemma_no_hit(Goal::Note, line, 0, Spot::Code);
    lemma_trimmed_start(line, n);
}

/// A line of an enum that gives a member its value is marked at its `=`: a name,
/// an `=` that is no part of another operator, and a value that ends in `,`,
/// `)`, `_`, a letter or a digit.
pub proof fn law_members_with_values_are_marked(line: Seq<char>, n: int, q: int)
    requires
        starts_with_name(line, n),
        n < q < line.len(),
        line[q] == '=',
        forall|i: int| 0 <= i < q ==> #[trigger] line[i] != '=',
        q + 1 < line.len() ==> line[q + 1] != '=',
        !makes_compound(line[q - 1]),
        line.last() == ',' || line.last() == ')' || line.last() == '_'
            || crate::text::is_letter_or_digit(line.last()),
        !crate::text::is_white(line.last()),
    ensures
        crate::align::equals_start(line, 0) == Some(q),
{
    lemma_member(line, n);
    let t = line.skip(n);
    assert(t.last() == line.last());
    assert(crate::text::trim_end(t, Class::White) == t);
    assert forall|i: int| 0 <= i < q implies !#[trigger] Goal::Equals.hit(line, i) by {
        assert(line[i] != '=');
    }
    lemma_first_hit(Goal::Equals, line, 0, q, Spot::Code);
}

/// No other line is marked: not one that ends in another character, such as the
/// `;` of a statement, nor one that starts with no name, nor one without an
/// `=` of its own.
pub proof fn law_other_lines_are_no_members(line: Seq<char>, n: int)
    requires
        starts_with_name(line, n),
    ensures
        !crate::text::is_white(line.last()) && !(line.last() == ',' || line.last() == ')'
            || line.last() == '_' || crate::text::is_letter_or_digit(line.last()))
            ==> crate::align::equals_start(line, 0) is None,
        (forall|i: int|
            0 <= i < line.len() && #[trigger] line[i] == '=' ==> (i > 0 && makes_compound(
                line[i - 1],
            )) || (i + 1 < line.len() && line[i + 1] == '=')) ==> crate::align::equals_start(
            line,
            0,
        ) is None,
{
    lemma_member(line, n);
    let t = line.skip(n);
    assert(t.last() == line.last());
    if !crate::text::is_white(line.last()) {
        assert(crate::text::trim_end(t, Class::White) == t);
    }
    if forall|i: int|
        0 <= i < line.len() && #[trigger] line[i] == '=' ==> (i > 0 && makes_compound(line[i - 1]))
            || (i + 1 < line.len() && line[i + 1] == '=') {
        assert forall|i: int| 0 <= i < line.len() implies !#[trigger] Goal::Equals.hit(line, i) by {
            let c = line[i];
        }
        lemma_no_hit(Goal::Equals, line, 0, Spot::Code);
    }
}

// ── Comments ─────────────────────────────────────────────────────────────────

/// Two characters stand at `q`.
pub open spec fn pair_at(line: Seq<char>, q: int, a: char, b: char) -> bool {
    0 <= q && q + 1 < line.len() && line[q] == a && line[q + 1] == b
}

/// Code that holds neither literals nor comments stands before `q`; the first
/// character of the line that is no white space stands at `n`, and is no `#`.
pub open spec fn code_before(line: Seq<char>, n: int, q: int) -> bool {
    &&& 0 <= n < q <= line.len()
    &&& forall|i: int| 0 <= i < n ==> crate::text::is_white(#[trigger] line[i])
    &&& !crate::text::is_white(line[n]) && line[n] != '#'
    &&& is_bare_to(line, q)
}

proof fn lemma_code(line: Seq<char>, n: int, q: int, i: int)
    requires
        code_before(line, n, q),
        0 <= i < q,
    ensures
        !crate::align::comment_at(line, i),
        !crate::align::doxygen_at(line, i),
{
    assert(is_bare(line, i));
    lemma_bare_matches(line, i);
}

proof fn lemma_not_plain(line: Seq<char>, n: int, q: int)
    requires
        code_before(line, n, q),
    ensures
        !crate::align::is_plain_line(line),
        crate::align::has_code(line.take(q)),
        !crate::text::begins_with(
            crate::text::trim_start(line, Class::White),
            seq!['/', '*', '*', '<'],
        ),
{
    lemma_trimmed_start(line, n);
    let t = line.skip(n);
    assert(is_bare(line, n));
    if crate::text::begins_with(t, seq!['/', '/']) {
        assert(t[0] == '/' && t[1] == '/') by {
            assert(t.take(2) =~= seq!['/', '/'] || t.subrange(0, 2) =~= seq!['/', '/']);
            assert(t.subrange(0, 2)[0] == t[0] && t.subrange(0, 2)[1] == t[1]);
        }
    }
    if crate::text::begins_with(t, seq!['/', '*']) {
        assert(t[0] == '/' && t[1] == '*') by {
            assert(t.subrange(0, 2)[0] == t[0] && t.subrange(0, 2)[1] == t[1]);
        }
    }
    if crate::text::begins_with(t, seq!['/', '*', '*', '<']) {
        assert(t[0] == '/' && t[1] == '*') by {
            assert(t.subrange(0, 4)[0] == t[0] && t.subrange(0, 4)[1] == t[1]);
        }
    }
    assert(line.take(q)[n] == line[n]);
}

/// A `//` behind code starts a trailing comment, unless a `:` precedes it, as in
/// the address of a page.
pub proof fn law_line_comments_are_marked(line: Seq<char>, n: int, q: int)
    requires
        code_before(line, n, q),
        pair_at(line, q, '/', '/'),
        line[q - 1] != ':',
    ensures
        crate::align::comment_start(line, 0) == Some(q),
{
    lemma_not_plain(line, n, q);
    assert(line.subrange(q, q + 2) =~= seq!['/', '/']);
    assert forall|i: int| 0 <= i < q implies !#[trigger] Goal::Comment.hit(line, i) by {
        lemma_code(line, n, q, i);
    }
    lemma_first_hit(Goal::Comment, line, 0, q, Spot::Code);
}

/// A `/*` behind code starts a trailing comment when nothing but blanks stands
/// behind the first `*/` after it, at `r`, and it is no Doxygen comment.
pub proof fn law_block_comments_are_marked(line: Seq<char>, n: int, q: int, r: int)
    requires
        code_before(line, n, q),
        pair_at(line, q, '/', '*'),
        !(pair_at(line, q + 2, '*', '<')),
        q + 2 <= r,
        pair_at(line, r, '*', '/'),
        forall|i: int| q + 2 <= i < r ==> !#[trigger] pair_at(line, i, '*', '/'),
        forall|i: int| r + 2 <= i < line.len() ==> #[trigger] line[i] == ' ' || line[i] == '\t',
    ensures
        crate::align::comment_start(line, 0) == Some(q),
{
    lemma_not_plain(line, n, q);
    assert(line.subrange(q, q + 2) =~= seq!['/', '*']);
    lemma_close(line, q + 2, r);
    assert(!crate::align::has_code(line.skip(r + 2))) by {
        let t = line.skip(r + 2);
        assert forall|i: int| 0 <= i < t.len() implies #[trigger] t[i] == ' ' || t[i] == '\t' by {
            assert(t[i] == line[r + 2 + i]);
        }
    }
    assert(!crate::text::matches_at(line, q, seq!['/', '*', '*', '<'])) by {
        if crate::text::matches_at(line, q, seq!['/', '*', '*', '<']) {
            let t = line.subrange(q, q + 4);
            assert(t[2] == line[q + 2] && t[3] == line[q + 3]);
        }
    }
    assert forall|i: int| 0 <= i < q implies !#[trigger] Goal::Comment.hit(line, i) by {
        lemma_code(line, n, q, i);
    }
    lemma_first_hit(Goal::Comment, line, 0, q, Spot::Code);
}

proof fn lemma_close(line: Seq<char>, i: int, r: int)
    requires
        0 <= i <= r,
        pair_at(line, r, '*', '/'),
        forall|x: int| i <= x < r ==> !#[trigger] pair_at(line, x, '*', '/'),
    ensures
        crate::text::find_from(line, seq!['*', '/'], i) == Some(r),
    decreases r - i,
{
    if i == r {
        assert(line.subrange(r, r + 2) =~= seq!['*', '/']);
    } else {
        assert(!pair_at(line, i, '*', '/'));
        if crate::text::matches_at(line, i, seq!['*', '/']) {
            let t = line.subrange(i, i + 2);
            assert(t[0] == line[i] && t[1] == line[i + 1]);
        }
        lemma_close(line, i + 1, r);
    }
}

/// A `/**<` behind code starts a Doxygen comment, and no other trailing one.
pub proof fn law_doxygen_comments_are_marked(line: Seq<char>, n: int, q: int)
    requires
        code_before(line, n, q),
        pair_at(line, q, '/', '*'),
        pair_at(line, q + 2, '*', '<'),
    ensures
        crate::align::doxygen_start(line, 0) == Some(q),
        crate::align::comment_start(line, 0) != Some(q),
{
    lemma_not_plain(line, n, q);
    assert(line.subrange(q, q + 4) =~= seq!['/', '*', '*', '<']);
    assert forall|i: int| 0 <= i < q implies !#[trigger] Goal::Doxygen.hit(line, i) by {
        lemma_code(line, n, q, i);
    }
    lemma_first_hit(Goal::Doxygen, line, 0, q, Spot::Code);
    assert(!Goal::Comment.hit(line, q)) by {
        if crate::text::matches_at(line, q, seq!['/', '/']) {
            let t = line.subrange(q, q + 2);
            assert(t[1] == line[q + 1]);
        }
    }
    lemma_first_is_hit(Goal::Comment, line, 0, Spot::Code);
}

proof fn lemma_first_is_hit(goal: Goal, line: Seq<char>, k: int, spot: Spot)
    ensures
        match goal.first(line, k, spot) {
            Some(i) => goal.hit(line, i),
            None => true,
        },
    decreases line.len() - k,
{
    if 0 <= k < line.len() && !goal.hit(line, k) {
        match crate::align::step(line, k, spot) {
            Some((next, after)) => {
                if k < next <= line.len() {
                    lemma_first_is_hit(goal, line, next, after);
                }
            },
            None => {},
        }
    }
}

/// Code without a comment, a preprocessor line and a line that is all comment
/// hold no trailing comment.
pub proof fn law_other_lines_hold_no_trailing_comment(line: Seq<char>, n: int)
    requires
        0 <= n < line.len(),
        forall|i: int| 0 <= i < n ==> crate::text::is_white(#[trigger] line[i]),
        !crate::text::is_white(line[n]),
        is_bare_to(line, line.len() as int) || line[n] == '#' || pair_at(line, n, '/', '/')
            || pair_at(line, n, '/', '*'),
    ensures
        crate::align::comment_start(line, 0) is None,
{
    lemma_trimmed_start(line, n);
    let t = line.skip(n);
    if is_bare_to(line, line.len() as int) {
        assert forall|i: int| 0 <= i < line.len() implies !#[trigger] Goal::Comment.hit(line, i) by {
            assert(is_bare(line, i));
            lemma_bare_matches(line, i);
        }
        lemma_no_hit(Goal::Comment, line, 0, Spot::Code);
    } else if pair_at(line, n, '/', '/') {
        assert(t.take(2) =~= seq!['/', '/']);
        assert(t.subrange(0, 2) =~= seq!['/', '/']);
    } else if pair_at(line, n, '/', '*') {
        assert(t.take(2) =~= seq!['/', '*']);
        assert(t.subrange(0, 2) =~= seq!['/', '*']);
    }
}

pub proof fn lemma_hit_from(goal: Goal, line: Seq<char>, k: int, q: int, spot: Spot)
    requires
        0 <= k <= q < line.len(),
        forall|i: int| k <= i < q ==> #[trigger] is_bare(line, i),
        goal.hit(line, q),
        forall|i: int| k <= i < q ==> !#[trigger] goal.hit(line, i),
    ensures
        goal.first(line, k, spot) == Some(q),
    decreases q - k,
{
    if k < q {
        assert(is_bare(line, k));
        assert(!goal.hit(line, k));
        lemma_bare_step(line, k, spot);
        lemma_hit_from(goal, line, k + 1, q, (crate::align::step(line, k, spot)->0).1);
    }
}

// ── Groups ───────────────────────────────────────────────────────────────────

/// Line `k` is marked.
pub open spec fn is_marked(marker: Marker, lines: Seq<Seq<char>>, k: int) -> bool {
    0 <= k < lines.len() && marker.start_of(lines, k) is Some
}

/// Lines `k` and `l` are marked, and none between them is.
pub open spec fn follows(marker: Marker, lines: Seq<Seq<char>>, k: int, l: int) -> bool {
    &&& is_marked(marker, lines, k) && is_marked(marker, lines, l) && k < l
    &&& forall|x: int| k < x < l ==> !#[trigger] is_marked(marker, lines, x)
}

/// A line of white space.
pub open spec fn is_blank_line(line: Seq<char>) -> bool {
    forall|i: int| 0 <= i < line.len() ==> crate::text::is_white(#[trigger] line[i])
}

/// The first character of the line that is no white space is `c`.
pub open spec fn leads_with(line: Seq<char>, c: char) -> bool {
    exists|n: int|
        0 <= n < line.len() && #[trigger] line[n] == c && !crate::text::is_white(c) && forall|i: int|
            0 <= i < n ==> crate::text::is_white(#[trigger] line[i])
}

/// The markers of lines `k` and `l` belong to one group: trailing comments less
/// than `span` lines apart or on neighbouring lines; enum members with nothing
/// but empty lines, preprocessor lines and members without a value between;
/// Doxygen comments with no empty line and no `}` between.
pub open spec fn belongs(marker: Marker, lines: Seq<Seq<char>>, k: int, l: int) -> bool {
    match marker {
        Marker::Comment { span } => span > 0 && (l == k + 1 || l - k < span),
        Marker::Equals => forall|x: int|
            k < x < l ==> is_blank_line(#[trigger] lines[x]) || leads_with(lines[x], '#')
                || is_valueless(lines[x]),
        Marker::Doxygen => forall|x: int|
            k < x < l ==> !is_blank_line(#[trigger] lines[x]) && !leads_with(lines[x], '}'),
    }
}

/// A line of an enum that names a member without a value.
pub open spec fn is_valueless(line: Seq<char>) -> bool {
    exists|n: int|
        #[trigger] starts_with_name(line, n) && (forall|i: int|
            0 <= i < line.len() ==> #[trigger] line[i] != '=') && exists|i: int|
            n <= i < line.len() && #[trigger] line[i] == ','
}

pub proof fn lemma_blank_trim(line: Seq<char>)
    requires
        is_blank_line(line),
    ensures
        crate::text::trim_start(line, Class::White).len() == 0,
{
    lemma_trimmed_start(line, line.len() as int);
}

proof fn lemma_bridges(marker: Marker, lines: Seq<Seq<char>>, k: int, l: int, x: int)
    requires
        belongs(marker, lines, k, l),
        k < x < l,
    ensures
        marker.bridges(lines[x]),
{
    let line = lines[x];
    match marker {
        Marker::Comment { .. } => {},
        Marker::Equals => {
            assert(is_blank_line(lines[x]) || leads_with(lines[x], '#') || is_valueless(lines[x]));
            if is_blank_line(line) {
                lemma_blank_trim(line);
            } else if leads_with(line, '#') {
                let n = choose|n: int|
                    0 <= n < line.len() && #[trigger] line[n] == '#' && !crate::text::is_white('#')
                        && forall|i: int| 0 <= i < n ==> crate::text::is_white(#[trigger] line[i]);
                lemma_trimmed_start(line, n);
            } else {
                let n = choose|n: int|
                    #[trigger] starts_with_name(line, n) && (forall|i: int|
                        0 <= i < line.len() ==> #[trigger] line[i] != '=') && exists|i: int|
                        n <= i < line.len() && #[trigger] line[i] == ',';
                lemma_member(line, n);
                let t = line.skip(n);
                let i = choose|i: int| n <= i < line.len() && #[trigger] line[i] == ',';
                assert(t[i - n] == ',');
                assert(t.contains(','));
                assert(!t.contains('=')) by {
                    if t.contains('=') {
                        let y = choose|y: int| 0 <= y < t.len() && t[y] == '=';
                        assert(line[n + y] == '=');
                    }
                }
            }
        },
        Marker::Doxygen => {
            assert(!is_blank_line(lines[x]) && !leads_with(lines[x], '}'));
            let n = lemma_first_solid(line);
            lemma_trimmed_start(line, n);
            assert(line[n] != '}');
        },
    }
}

/// Where the first character that is no white space stands.
proof fn lemma_first_solid(line: Seq<char>) -> (n: int)
    requires
        !is_blank_line(line),
    ensures
        0 <= n < line.len(),
        !crate::text::is_white(line[n]),
        forall|i: int| 0 <= i < n ==> crate::text::is_white(#[trigger] line[i]),
    decreases line.len(),
{
    if !crate::text::is_white(line[0]) && line.len() > 0 {
        0
    } else {
        let rest = line.drop_first();
        assert(!is_blank_line(rest)) by {
            if is_blank_line(rest) {
                assert forall|i: int| 0 <= i < line.len() implies crate::text::is_white(
                    #[trigger] line[i],
                ) by {
                    if i > 0 {
                        assert(crate::text::is_white(rest[i - 1]));
                    }
                }
            }
        }
        let m = lemma_first_solid(rest);
        assert forall|i: int| 0 <= i < m + 1 implies crate::text::is_white(#[trigger] line[i]) by {
            if i > 0 {
                assert(crate::text::is_white(rest[i - 1]));
            }
        }
        m + 1
    }
}

/// From its last marked line `k` a group goes on to `l`.
proof fn lemma_reach_next(marker: Marker, lines: Seq<Seq<char>>, k: int, l: int, x: int)
    requires
        follows(marker, lines, k, l),
        belongs(marker, lines, k, l),
        0 <= k < x <= l,
    ensures
        marker.group_end(lines, k, x) == marker.group_end(lines, l, l + 1),
        marker.group_end(lines, k, x) > l,
    decreases l - x,
{
    marker.lemma_group_end(lines, l, l + 1);
    if x < l {
        assert(!is_marked(marker, lines, x));
        lemma_bridges(marker, lines, k, l, x);
        lemma_reach_next(marker, lines, k, l, x + 1);
    }
}

/// A group that holds `k` holds `l`.
proof fn lemma_reach(marker: Marker, lines: Seq<Seq<char>>, last: int, x: int, k: int, l: int)
    requires
        follows(marker, lines, k, l),
        belongs(marker, lines, k, l),
        0 <= last < x <= lines.len(),
        is_marked(marker, lines, last),
        forall|y: int| last < y < x ==> !#[trigger] is_marked(marker, lines, y),
        last <= k < marker.group_end(lines, last, x),
    ensures
        l < marker.group_end(lines, last, x),
    decreases lines.len() - x,
{
    if last == k {
        assert(x <= l) by {
            if l < x {
                assert(!is_marked(marker, lines, l));
            }
        }
        lemma_reach_next(marker, lines, k, l, x);
    } else if x < lines.len() {
        if is_marked(marker, lines, x) {
            assert(x <= k) by {
                if k < x {
                    assert(!is_marked(marker, lines, k));
                }
            }
            lemma_reach(marker, lines, x, x + 1, k, l);
        } else {
            lemma_reach(marker, lines, last, x + 1, k, l);
        }
    }
}

/// The group in which line `k` is aligned.
proof fn lemma_group_of(rule: Rule, lines: Seq<Seq<char>>, a: int, k: int) -> (r: (int, int))
    requires
        0 <= a <= k,
        is_marked(rule.marker, lines, k),
    ensures
        a <= r.0 <= k < r.1 <= lines.len(),
        is_marked(rule.marker, lines, r.0),
        r.1 == rule.marker.group_end(lines, r.0, r.0 + 1),
        forall|x: int|
            r.0 <= x < r.1 ==> #[trigger] rule.align_from(lines, a)[x - a] == rule.align_group(
                lines,
                r.0,
                r.1,
            )[x - r.0],
        rule.align_from(lines, a).len() == lines.len() - a,
        rule.align_group(lines, r.0, r.1).len() == r.1 - r.0,
    decreases lines.len() - a,
{
    crate::laws::alignment::lemma_align_from(rule, lines, a);
    let out = rule.align_from(lines, a);
    if rule.marker.start_of(lines, a) is Some {
        rule.marker.lemma_group_end(lines, a, a + 1);
        let j = rule.marker.group_end(lines, a, a + 1);
        let group = rule.align_group(lines, a, j);
        assert(group.len() == j - a);
        if k < j {
            assert forall|x: int| a <= x < j implies #[trigger] out[x - a] == group[x - a] by {}
            (a, j)
        } else {
            let r = lemma_group_of(rule, lines, j, k);
            let rest = rule.align_from(lines, j);
            assert forall|x: int| r.0 <= x < r.1 implies #[trigger] out[x - a] == rule.align_group(
                lines,
                r.0,
                r.1,
            )[x - r.0] by {
                assert(out[x - a] == rest[x - j]);
            }
            r
        }
    } else {
        let r = lemma_group_of(rule, lines, a + 1, k);
        let rest = rule.align_from(lines, a + 1);
        assert forall|x: int| r.0 <= x < r.1 implies #[trigger] out[x - a] == rule.align_group(
            lines,
            r.0,
            r.1,
        )[x - r.0] by {
            assert(out[x - a] == rest[x - (a + 1)]);
        }
        r
    }
}

proof fn lemma_count(marker: Marker, lines: Seq<Seq<char>>, i: int, j: int, k: int)
    requires
        i <= k < j,
        0 <= i && j <= lines.len(),
        is_marked(marker, lines, k),
    ensures
        marker.marked(lines, i, j) >= 1,
        forall|l: int|
            k < l < j && #[trigger] is_marked(marker, lines, l) ==> marker.marked(lines, i, j) >= 2,
    decreases j - i,
{
    if k < j - 1 {
        lemma_count(marker, lines, i, j - 1, k);
    }
}

/// The code of a line in front of its marker, which stands at `q`.
pub open spec fn code_of(line: Seq<char>, q: int) -> Seq<char> {
    crate::text::trim_end(line.take(q), Class::White)
}

/// The line has its marker at byte column `target`: its code, spaces and what
/// starts at the marker.
pub open spec fn has_column(line: Seq<char>, q: int, target: nat, new: Seq<char>) -> bool {
    let code = code_of(line, q);
    let n = target - crate::text::byte_len(code);
    n >= 1 && new == code + Seq::new(n as nat, |i: int| ' ') + line.skip(q)
}

/// The column is as far to the left as the gap and the step allow.
pub open spec fn is_tight(rule: Rule, lines: Seq<Seq<char>>, x: int, target: nat) -> bool {
    is_marked(rule.marker, lines, x) && target < crate::text::byte_len(
        code_of(lines[x], rule.marker.start_of(lines, x)->0),
    ) + rule.gap + if rule.step > 0 {
        rule.step as nat
    } else {
        1
    }
}

/// Markers that belong together are moved to the same column: a multiple of the
/// step, behind the code of both and the gap, and no further to the right than
/// some line of the group needs.
pub proof fn law_markers_share_a_column(rule: Rule, lines: Seq<Seq<char>>, k: int, l: int) -> (r: (
    nat,
    int,
))
    requires
        follows(rule.marker, lines, k, l),
        belongs(rule.marker, lines, k, l),
        1 <= rule.gap,
        rule.least <= 2,
    ensures
        ({
            let out = rule.align_from(lines, 0);
            let a = rule.marker.start_of(lines, k)->0;
            let b = rule.marker.start_of(lines, l)->0;
            &&& has_column(lines[k], a, r.0, out[k])
            &&& has_column(lines[l], b, r.0, out[l])
            &&& r.0 >= crate::text::byte_len(code_of(lines[k], a)) + rule.gap
            &&& r.0 >= crate::text::byte_len(code_of(lines[l], b)) + rule.gap
            &&& rule.step > 0 ==> r.0 % (rule.step as nat) == 0
            &&& is_tight(rule, lines, r.1, r.0)
        }),
{
    let (i, j) = lemma_group_of(rule, lines, 0, k);
    lemma_reach(rule.marker, lines, i, i + 1, k, l);
    lemma_count(rule.marker, lines, i, j, k);
    assert(is_marked(rule.marker, lines, l));
    let target = rule.target(lines, i, j);
    crate::laws::alignment::law_group_shares_a_column(rule, lines, i, j, k);
    crate::laws::alignment::law_group_shares_a_column(rule, lines, i, j, l);
    let out = rule.align_from(lines, 0);
    assert(out[k - 0] == rule.align_group(lines, i, j)[k - i]);
    assert(out[l - 0] == rule.align_group(lines, i, j)[l - i]);
    lemma_column_at(rule, lines, i, j, k);
    lemma_column_at(rule, lines, i, j, l);
    let x = lemma_tight(rule, lines, i, j);
    (target, x)
}

proof fn lemma_column_at(rule: Rule, lines: Seq<Seq<char>>, i: int, j: int, k: int)
    requires
        0 <= i <= k < j <= lines.len(),
        1 <= rule.gap,
        is_marked(rule.marker, lines, k),
        rule.marker.marked(lines, i, j) >= rule.least,
    ensures
        has_column(
            lines[k],
            rule.marker.start_of(lines, k)->0,
            rule.target(lines, i, j),
            rule.align_group(lines, i, j)[k - i],
        ),
{
    crate::laws::alignment::law_group_shares_a_column(rule, lines, i, j, k);
    let target = rule.target(lines, i, j);
    let code = rule.marker.code(lines[k], crate::align::entry_of(lines, k));
    let n = (target - crate::text::byte_len(code)) as nat;
    assert(crate::text::spaces(n) =~= Seq::new(n, |i: int| ' '));
    assert(rule.align_group(lines, i, j)[k - i] == rule.marker.place(
        lines[i + (k - i)],
        crate::align::entry_of(lines, i + (k - i)),
        target,
    ));
}

/// Some line of the group is the widest.
proof fn lemma_tight(rule: Rule, lines: Seq<Seq<char>>, i: int, j: int) -> (x: int)
    requires
        0 <= i < j <= lines.len(),
        is_marked(rule.marker, lines, i),
        1 <= rule.gap,
    ensures
        is_tight(rule, lines, x, rule.target(lines, i, j)),
{
    let x = lemma_widest_line(rule.marker, lines, i, j);
    let n = rule.marker.widest(lines, i, j) + rule.gap as nat;
    if rule.step > 0 {
        let s = rule.step as nat;
        crate::align::lemma_round_up(n, s);
        let q = (n + s - 1) as nat / s;
        assert(q * s < n + s) by (nonlinear_arith)
            requires
                s > 0,
                q == (n + s - 1) as nat / s,
        ;
    }
    x
}

proof fn lemma_widest_line(marker: Marker, lines: Seq<Seq<char>>, i: int, j: int) -> (x: int)
    requires
        0 <= i < j <= lines.len(),
        is_marked(marker, lines, i),
    ensures
        is_marked(marker, lines, x),
        crate::text::byte_len(code_of(lines[x], marker.start_of(lines, x)->0)) == marker.widest(
            lines,
            i,
            j,
        ),
    decreases j - i,
{
    let last = j - 1;
    let code = marker.code(lines[last], crate::align::entry_of(lines, last));
    if j == i + 1 {
        assert(marker.widest(lines, i, i) == 0);
        i
    } else {
        let x = lemma_widest_line(marker, lines, i, last);
        if is_marked(marker, lines, last) && crate::text::byte_len(code) > marker.widest(
            lines,
            i,
            last,
        ) {
            last
        } else {
            assert(!is_marked(marker, lines, last) ==> code.len() == 0);
            crate::laws::columns::lemma_no_bytes();
            x
        }
    }
}

pub proof fn lemma_no_bytes()
    ensures
        crate::text::byte_len(Seq::empty()) == 0,
{
}

// ── Lone markers ─────────────────────────────────────────────────────────────

/// A marked line of a group behind the first follows another one that reaches
/// it.
proof fn lemma_reached(marker: Marker, lines: Seq<Seq<char>>, last: int, x: int, k: int) -> (h: int)
    requires
        0 <= last < x <= lines.len(),
        is_marked(marker, lines, last),
        forall|y: int| last < y < x ==> !#[trigger] is_marked(marker, lines, y),
        last < k < marker.group_end(lines, last, x),
        is_marked(marker, lines, k),
    ensures
        last <= h < k,
        is_marked(marker, lines, h),
        marker.reaches(h, k),
    decreases lines.len() - x,
{
    assert(x <= k) by {
        if k < x {
            assert(!is_marked(marker, lines, k));
        }
    }
    if is_marked(marker, lines, x) {
        if x == k {
            last
        } else {
            lemma_reached(marker, lines, x, x + 1, k)
        }
    } else {
        lemma_reached(marker, lines, last, x + 1, k)
    }
}

/// A trailing comment with no other one less than `span` lines away, nor on a
/// neighbouring line, stays where it is, unless single comments are aligned,
/// too.
pub proof fn law_lone_comments_stay(rule: Rule, lines: Seq<Seq<char>>, k: int, span: usize)
    requires
        rule.marker == (Marker::Comment { span }),
        rule.least == 2,
        is_marked(rule.marker, lines, k),
        forall|x: int|
            x != k && #[trigger] is_marked(rule.marker, lines, x) ==> (x - k >= span || k - x
                >= span) && x != k + 1 && x != k - 1,
    ensures
        rule.align_from(lines, 0)[k] == lines[k],
{
    let (i, j) = lemma_group_of(rule, lines, 0, k);
    if i < k {
        let h = lemma_reached(rule.marker, lines, i, i + 1, k);
        assert(is_marked(rule.marker, lines, h));
    }
    assert(forall|x: int| k < x < j ==> !#[trigger] is_marked(rule.marker, lines, x)) by {
        if exists|x: int| k < x < j && #[trigger] is_marked(rule.marker, lines, x) {
            let x = choose|x: int| k < x < j && #[trigger] is_marked(rule.marker, lines, x);
            let m = lemma_first_marked(rule.marker, lines, k, x);
            let h = lemma_reached(rule.marker, lines, i, i + 1, m);
            assert(h == k) by {
                if h > k {
                    assert(!is_marked(rule.marker, lines, h));
                }
            }
        }
    }
    lemma_count_one(rule.marker, lines, k, j);
    assert(rule.align_from(lines, 0)[k - 0] == rule.align_group(lines, i, j)[k - i]);
    assert(lines.subrange(i, j)[k - i] == lines[k]);
}

/// The first marked line behind `k`, up to `x`.
proof fn lemma_first_marked(marker: Marker, lines: Seq<Seq<char>>, k: int, x: int) -> (m: int)
    requires
        0 <= k < x,
        is_marked(marker, lines, x),
    ensures
        k < m <= x,
        is_marked(marker, lines, m),
        forall|y: int| k < y < m ==> !#[trigger] is_marked(marker, lines, y),
    decreases x - k,
{
    if exists|y: int| k < y < x && #[trigger] is_marked(marker, lines, y) {
        let y = choose|y: int| k < y < x && #[trigger] is_marked(marker, lines, y);
        lemma_first_marked(marker, lines, k, y)
    } else {
        x
    }
}

proof fn lemma_count_one(marker: Marker, lines: Seq<Seq<char>>, k: int, j: int)
    requires
        0 <= k < j <= lines.len(),
        is_marked(marker, lines, k),
        forall|x: int| k < x < j ==> !#[trigger] is_marked(marker, lines, x),
    ensures
        marker.marked(lines, k, j) == 1,
    decreases j - k,
{
    if j == k + 1 {
        assert(marker.marked(lines, k, k) == 0);
    } else {
        assert(!is_marked(marker, lines, j - 1));
        lemma_count_one(marker, lines, k, j - 1);
    }
}

// ── Settings ─────────────────────────────────────────────────────────────────

/// The spans switch the alignments on; trailing comments keep at least
/// `align_right_cmt_gap` spaces, and one in any case, single ones are aligned in
/// the `all` style; columns are multiples of the indentation width with
/// `align_on_tabstop`, but those of Doxygen comments.
pub proof fn law_alignment_follows_the_settings(text: Seq<char>, config: Config, eol: Eol)
    ensures
        ({
            let c = config.spacing;
            let step = if c.align_on_tabstop {
                config.indent.width as usize
            } else {
                0
            };
            let comments = Rule {
                marker: Marker::Comment { span: c.align_right_cmt_span },
                gap: if c.align_right_cmt_gap == 0 {
                    1
                } else {
                    c.align_right_cmt_gap
                },
                least: if c.align_right_cmt_style is All {
                    1
                } else {
                    2
                },
                step,
            };
            let equals = Rule { marker: Marker::Equals, gap: 1, least: 2, step };
            let doxygen = Rule { marker: Marker::Doxygen, gap: 1, least: 2, step: 0 };
            &&& crate::formatter::with_comments_aligned(text, config, eol)
                == if c.align_right_cmt_span == 0 {
                text
            } else {
                comments.align(text, eol)
            }
            &&& crate::formatter::with_equals_aligned(text, config, eol)
                == if c.align_enum_equ_span == 0 {
                text
            } else {
                equals.align(text, eol)
            }
            &&& crate::formatter::with_doxygen_aligned(text, config, eol)
                == if c.align_doxygen_cmt_span == 0 {
                text
            } else {
                doxygen.align(text, eol)
            }
        }),
{
}

} // verus!
