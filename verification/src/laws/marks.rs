//! Literals and comments on the lines that are aligned.

use crate::align::{CarryView, Goal, Marker, Spot};
use crate::laws::columns::{is_bare, is_bare_to, makes_compound, pair_at};
use crate::text::Class;
use vstd::prelude::*;

verus! {

// ── Literals ─────────────────────────────────────────────────────────────────

/// From `i` up to `b` no quote like the one at `b` stands that no backslash
/// escapes.
pub open spec fn escaped_to(line: Seq<char>, i: int, b: int) -> bool
    decreases b - i,
{
    ||| i == b
    ||| i + 1 < b && line[i] == '\\' && escaped_to(line, i + 2, b)
    ||| i < b && line[i] != '\\' && line[i] != line[b] && escaped_to(line, i + 1, b)
}

/// A letter of ASCII, a digit or `_`.
pub open spec fn is_word_char(c: char) -> bool {
    'a' <= c <= 'z' || 'A' <= c <= 'Z' || '0' <= c <= '9' || c == '_'
}

/// A string or character literal reaches from `a` through `b`.
pub open spec fn quoted_between(line: Seq<char>, a: int, b: int) -> bool {
    &&& 0 <= a < b < line.len()
    &&& {
        ||| line[a] == '"' && (a > 0 ==> line[a - 1] != 'R')
        ||| line[a] == '\'' && (a > 0 ==> !is_word_char(line[a - 1]))
    }
    &&& line[b] == line[a] && line[b] != '\\'
    &&& escaped_to(line, a + 1, b)
}

/// The prefix of a raw string ends before `a`.
pub open spec fn has_raw_prefix(line: Seq<char>, a: int) -> bool {
    &&& a >= 1 && line[a - 1] == 'R'
    &&& {
        ||| a == 1 || !is_word_char(line[a - 2])
        ||| (line[a - 2] == 'L' || line[a - 2] == 'u' || line[a - 2] == 'U') && (a == 2
            || !is_word_char(line[a - 3]))
        ||| a >= 3 && line[a - 2] == '8' && line[a - 3] == 'u' && (a == 3 || !is_word_char(
            line[a - 4],
        ))
    }
}

/// A raw string opens at `a`, and its `(` stands at `d`.
pub open spec fn raw_opens(line: Seq<char>, a: int, d: int) -> bool {
    &&& 0 <= a < d < line.len()
    &&& line[a] == '"' && line[d] == '('
    &&& has_raw_prefix(line, a)
    &&& forall|i: int|
        a < i < d ==> !crate::text::is_white(#[trigger] line[i]) && line[i] != '(' && line[i] != ')'
            && line[i] != '\\' && line[i] != '"'
}

/// What closes it: `)`, the delimiter and a quote.
pub open spec fn raw_end(line: Seq<char>, a: int, d: int) -> Seq<char> {
    seq![')'] + line.subrange(a + 1, d) + seq!['"']
}

/// The text stands in the line at `i`.
pub open spec fn stands_at(line: Seq<char>, i: int, text: Seq<char>) -> bool {
    0 <= i && i + text.len() <= line.len() && line.subrange(i, i + text.len()) == text
}

/// A raw string reaches from `a` up to `e`: what closes it stands before `e`, and
/// nowhere in it.
pub open spec fn raw_between(line: Seq<char>, a: int, d: int, e: int) -> bool {
    let close = raw_end(line, a, d);
    let b = e - close.len();
    &&& raw_opens(line, a, d)
    &&& d < b && stands_at(line, b, close)
    &&& forall|i: int| d < i < b ==> !#[trigger] stands_at(line, i, close)
}

proof fn lemma_escaped(line: Seq<char>, i: int, b: int)
    requires
        0 <= i <= b < line.len(),
        line[b] != '\\',
        escaped_to(line, i, b),
    ensures
        crate::align::closing(line, i, line[b]) == Some(b + 1),
    decreases b - i,
{
    if i < b {
        if line[i] == '\\' {
            lemma_escaped(line, i + 2, b);
        } else {
            lemma_escaped(line, i + 1, b);
        }
    }
}

proof fn lemma_found(line: Seq<char>, t: Seq<char>, i: int, b: int)
    requires
        0 <= i <= b,
        t.len() > 0,
        stands_at(line, b, t),
        forall|x: int| i <= x < b ==> !#[trigger] stands_at(line, x, t),
    ensures
        crate::text::find_from(line, t, i) == Some(b),
    decreases b - i,
{
    if i < b {
        assert(!stands_at(line, i, t));
        lemma_found(line, t, i + 1, b);
    } else {
        assert(stands_at(line, b, t));
    }
}

proof fn lemma_not_found(line: Seq<char>, t: Seq<char>, i: int)
    requires
        0 <= i,
        t.len() > 0,
        forall|x: int| i <= x ==> !#[trigger] stands_at(line, x, t),
    ensures
        crate::text::find_from(line, t, i) is None,
    decreases line.len() - i,
{
    assert(!stands_at(line, i, t));
    if i < line.len() {
        lemma_not_found(line, t, i + 1);
    }
}

proof fn lemma_raw_opens(line: Seq<char>, a: int, d: int)
    requires
        raw_opens(line, a, d),
    ensures
        crate::align::opens_raw(line, a),
        crate::align::delimiter_end(line, a + 1) == d,
        crate::align::raw_close(line, a) == raw_end(line, a, d),
{
    lemma_delimiter(line, a + 1, d, a);
}

proof fn lemma_delimiter(line: Seq<char>, i: int, d: int, a: int)
    requires
        raw_opens(line, a, d),
        a < i <= d,
    ensures
        crate::align::delimiter_end(line, i) == d,
    decreases d - i,
{
    if i < d {
        assert(!crate::text::is_white(line[i]));
        lemma_delimiter(line, i + 1, d, a);
    }
}

/// From behind a literal the walk goes on as from the start.
proof fn lemma_past(
    goal: Goal,
    line: Seq<char>,
    k: int,
    a: int,
    e: int,
    q: int,
    spot: Spot,
)
    requires
        0 <= k <= a < e <= q < line.len(),
        line[a] == '"' || line[a] == '\'' && (a > 0 ==> !is_word_char(line[a - 1])),
        line[a] == '\'' && k == a ==> spot == Spot::Code,
        crate::align::literal_end(line, a) == Some(e),
        forall|i: int| 0 <= i < a ==> #[trigger] is_bare(line, i),
        forall|i: int| e <= i < q ==> #[trigger] is_bare(line, i),
        goal.hit(line, q),
        forall|i: int| k <= i <= a ==> !#[trigger] goal.hit(line, i),
        forall|i: int| e <= i < q ==> !#[trigger] goal.hit(line, i),
    ensures
        goal.first(line, k, spot) == Some(q),
    decreases a - k,
{
    assert(!goal.hit(line, k));
    if k < a {
        assert(is_bare(line, k));
        crate::laws::columns::lemma_bare_step(line, k, spot);
        lemma_past(goal, line, k + 1, a, e, q, (crate::align::step(line, k, spot)->0).1);
    } else {
        assert(crate::align::step(line, a, spot) == Some((e, Spot::Code)));
        crate::laws::columns::lemma_hit_from(goal, line, e, q, Spot::Code);
    }
}

proof fn lemma_starts_code(line: Seq<char>, n: int)
    requires
        0 <= n < line.len(),
        forall|i: int| 0 <= i < n ==> crate::text::is_white(#[trigger] line[i]),
        !crate::text::is_white(line[n]) && line[n] != '#',
        line[n] == '/' && n + 1 < line.len() ==> line[n + 1] != '/' && line[n + 1] != '*',
    ensures
        !crate::align::is_plain_line(line),
{
    crate::laws::columns::lemma_trimmed_start(line, n);
    let t = line.skip(n);
    assert(t[0] == line[n]);
    if crate::text::begins_with(t, seq!['/', '/']) {
        assert(t.subrange(0, 2)[0] == t[0] && t.subrange(0, 2)[1] == t[1]);
    }
    if crate::text::begins_with(t, seq!['/', '*']) {
        assert(t.subrange(0, 2)[0] == t[0] && t.subrange(0, 2)[1] == t[1]);
    }
}

proof fn lemma_bare_is_no_hit(line: Seq<char>, i: int)
    requires
        0 <= i < line.len(),
        is_bare(line, i),
    ensures
        !Goal::Comment.hit(line, i),
{
    crate::laws::columns::lemma_bare_matches(line, i);
}

proof fn lemma_no_slash(line: Seq<char>, i: int)
    requires
        0 <= i < line.len(),
        line[i] != '/',
    ensures
        !Goal::Comment.hit(line, i),
{
    if crate::text::matches_at(line, i, seq!['/', '/']) {
        assert(line.subrange(i, i + 2)[0] == line[i]);
    }
    if crate::text::matches_at(line, i, seq!['/', '*']) {
        assert(line.subrange(i, i + 2)[0] == line[i]);
    }
}

proof fn lemma_slashes_hit(line: Seq<char>, n: int, q: int)
    requires
        0 <= n < q,
        !crate::text::is_white(line[n]),
        pair_at(line, q, '/', '/') && line[q - 1] != ':',
    ensures
        Goal::Comment.hit(line, q),
{
    assert(line.take(q)[n] == line[n]);
    assert(line.subrange(q, q + 2) =~= seq!['/', '/']);
}

/// A literal hides what looks like a comment in it, or like its end: a quote
/// behind a backslash, or, in a raw string, a quote without the delimiter. The
/// `//` behind the literal is the one that counts.
pub proof fn law_literals_hide_what_they_hold(
    line: Seq<char>,
    n: int,
    a: int,
    d: int,
    e: int,
    q: int,
)
    requires
        quoted_between(line, a, e - 1) || raw_between(line, a, d, e),
        0 <= n <= a,
        forall|i: int| 0 <= i < n ==> crate::text::is_white(#[trigger] line[i]),
        !crate::text::is_white(line[n]) && line[n] != '#',
        forall|i: int| 0 <= i < a ==> #[trigger] is_bare(line, i),
        e <= q && pair_at(line, q, '/', '/') && line[q - 1] != ':',
        forall|i: int| e <= i < q ==> #[trigger] is_bare(line, i),
    ensures
        crate::align::comment_start(line, 0) == Some(q),
{
    if n < a {
        assert(is_bare(line, n));
    }
    lemma_starts_code(line, n);
    if raw_between(line, a, d, e) {
        lemma_raw_opens(line, a, d);
        let close = raw_end(line, a, d);
        lemma_found(line, close, d + 1, e - close.len());
    } else {
        lemma_escaped(line, a + 1, e - 1);
    }
    assert(crate::align::literal_end(line, a) == Some(e));
    lemma_slashes_hit(line, n, q);
    assert forall|i: int| 0 <= i <= a implies !#[trigger] Goal::Comment.hit(line, i) by {
        if i < a {
            assert(is_bare(line, i));
            lemma_bare_is_no_hit(line, i);
        } else {
            lemma_no_slash(line, i);
        }
    }
    assert forall|i: int| e <= i < q implies !#[trigger] Goal::Comment.hit(line, i) by {
        assert(is_bare(line, i));
        crate::laws::columns::lemma_bare_matches(line, i);
    }
    lemma_past(Goal::Comment, line, 0, a, e, q, Spot::Code);
}

// ── Lines inside of literals ─────────────────────────────────────────────────

proof fn lemma_left_open(line: Seq<char>, k: int, a: int, spot: Spot)
    requires
        0 <= k <= a < line.len(),
        line[a] == '"',
        forall|i: int| 0 <= i < a ==> #[trigger] is_bare(line, i),
        crate::align::literal_end(line, a) is None,
    ensures
        crate::align::left_open(line, k, spot) == crate::align::open_at(line, a),
    decreases a - k,
{
    if k < a {
        assert(is_bare(line, k));
        crate::laws::columns::lemma_bare_step(line, k, spot);
        lemma_left_open(line, k + 1, a, (crate::align::step(line, k, spot)->0).1);
    }
}

proof fn lemma_raw_carried(
    lines: Seq<Seq<char>>,
    k: int,
    a: int,
    d: int,
    l: int,
)
    requires
        0 <= k < l < lines.len(),
        crate::align::carry_to(lines, k) is Outside,
        raw_opens(lines[k], a, d),
        forall|i: int| 0 <= i < a ==> #[trigger] is_bare(lines[k], i),
        forall|i: int| d < i ==> !#[trigger] stands_at(lines[k], i, raw_end(lines[k], a, d)),
        forall|x: int, i: int|
            k < x < l ==> !#[trigger] stands_at(lines[x], i, raw_end(lines[k], a, d)),
    ensures
        crate::align::carry_to(lines, l) == (CarryView::Raw { close: raw_end(lines[k], a, d) }),
    decreases l - k,
{
    let close = raw_end(lines[k], a, d);
    if l == k + 1 {
        lemma_raw_opens(lines[k], a, d);
        lemma_not_found(lines[k], close, d + 1);
        lemma_left_open(lines[k], 0, a, Spot::Code);
    } else {
        lemma_raw_carried(lines, k, a, d, l - 1);
        lemma_not_found(lines[l - 1], close, 0);
    }
}

/// A line inside of a raw string has no marker, whatever it holds.
pub proof fn law_lines_of_raw_strings_are_not_marked(
    marker: Marker,
    lines: Seq<Seq<char>>,
    k: int,
    a: int,
    d: int,
    l: int,
)
    requires
        0 <= k < l < lines.len(),
        crate::align::carry_to(lines, k) is Outside,
        raw_opens(lines[k], a, d),
        forall|i: int| 0 <= i < a ==> #[trigger] is_bare(lines[k], i),
        forall|i: int| d < i ==> !#[trigger] stands_at(lines[k], i, raw_end(lines[k], a, d)),
        forall|x: int, i: int|
            k < x <= l ==> !#[trigger] stands_at(lines[x], i, raw_end(lines[k], a, d)),
    ensures
        marker.start_of(lines, l) is None,
{
    lemma_raw_carried(lines, k, a, d, l);
    lemma_not_found(lines[l], raw_end(lines[k], a, d), 0);
    assert(crate::align::entry_of(lines, l) == lines[l].len());
    let line = lines[l];
    if line.len() == 0 {
        assert(crate::align::code_part(line) =~= line);
        assert(crate::text::trim_start(line, Class::White) =~= line);
    }
}

/// Nor has one inside of a string that a backslash at its end continues.
pub proof fn law_lines_of_continued_strings_are_not_marked(
    marker: Marker,
    lines: Seq<Seq<char>>,
    k: int,
    a: int,
)
    requires
        0 <= k && k + 1 < lines.len(),
        crate::align::carry_to(lines, k) is Outside,
        0 <= a && a + 1 < lines[k].len(),
        lines[k][a] == '"' && (a > 0 ==> lines[k][a - 1] != 'R'),
        forall|i: int| 0 <= i < a ==> #[trigger] is_bare(lines[k], i),
        forall|i: int| a < i < lines[k].len() ==> #[trigger] lines[k][i] != '"',
        lines[k].last() == '\\',
        forall|i: int| 0 <= i < lines[k + 1].len() ==> #[trigger] lines[k + 1][i] != '"',
    ensures
        marker.start_of(lines, k + 1) is None,
{
    lemma_no_closing(lines[k], a + 1);
    assert(crate::align::literal_end(lines[k], a) is None);
    lemma_left_open(lines[k], 0, a, Spot::Code);
    assert(crate::align::carry_to(lines, k + 1) == (CarryView::Quote { mark: '"' }));
    lemma_no_closing(lines[k + 1], 0);
    let line = lines[k + 1];
    assert(crate::align::entry_of(lines, k + 1) == line.len());
    if line.len() == 0 {
        assert(crate::align::code_part(line) =~= line);
        assert(crate::text::trim_start(line, Class::White) =~= line);
    }
}

proof fn lemma_no_closing(line: Seq<char>, i: int)
    requires
        0 <= i,
        forall|x: int| i <= x < line.len() ==> #[trigger] line[x] != '"',
    ensures
        crate::align::closing(line, i, '"') is None,
    decreases line.len() + 1 - i,
{
    if i < line.len() {
        let c = line[i];
        lemma_no_closing(line, i + 1);
        if c == '\\' {
            lemma_no_closing(line, i + 2);
        }
    }
}

// ── Members with comments ────────────────────────────────────────────────────

/// A member with a value is marked at its `=` also where a comment follows it:
/// what counts is how the code in front of the comment ends.
pub proof fn law_commented_members_are_marked(
    line: Seq<char>,
    n: int,
    q: int,
    z: int,
    c: int,
)
    requires
        0 <= n < q <= z < c,
        forall|i: int| 0 <= i < n ==> crate::text::is_white(#[trigger] line[i]),
        !crate::text::is_white(line[n]),
        crate::text::is_letter(line[n]) || line[n] == '_',
        is_bare_to(line, c),
        line[q] == '=' && line[q + 1] != '=' && !makes_compound(line[q - 1]),
        forall|i: int| 0 <= i < q ==> #[trigger] line[i] != '=',
        !crate::text::is_white(line[z]),
        line[z] == ',' || line[z] == ')' || line[z] == '_' || crate::text::is_letter_or_digit(
            line[z],
        ),
        forall|i: int| z < i < c ==> crate::text::is_white(#[trigger] line[i]),
        pair_at(line, c, '/', '/') && line[c - 1] != ':',
    ensures
        crate::align::equals_start(line, 0) == Some(q),
{
    assert(line.subrange(c, c + 2) =~= seq!['/', '/']);
    assert forall|i: int| 0 <= i < c implies !#[trigger] Goal::Note.hit(line, i) by {
        assert(is_bare(line, i));
        crate::laws::columns::lemma_bare_matches(line, i);
    }
    crate::laws::columns::lemma_first_hit(Goal::Note, line, 0, c, Spot::Code);
    let code = line.take(c);
    assert(crate::align::code_part(line) == code);
    crate::laws::columns::lemma_trimmed_start(code, n);
    let t = code.skip(n);
    assert(t[0] == line[n]);
    lemma_trimmed_end(t, z - n);
    assert(t.take(z - n + 1).last() == line[z]);
    assert forall|i: int| 0 <= i < q implies !#[trigger] Goal::Equals.hit(line, i) by {
        assert(line[i] != '=');
    }
    crate::laws::columns::lemma_first_hit(Goal::Equals, line, 0, q, Spot::Code);
}

proof fn lemma_trimmed_end(s: Seq<char>, z: int)
    requires
        0 <= z < s.len(),
        !crate::text::is_white(s[z]),
        forall|i: int| z < i < s.len() ==> crate::text::is_white(#[trigger] s[i]),
    ensures
        crate::text::trim_end(s, Class::White) == s.take(z + 1),
    decreases s.len(),
{
    if z + 1 < s.len() {
        assert(crate::text::is_white(s[s.len() - 1]));
        lemma_trimmed_end(s.drop_last(), z);
        assert(s.drop_last().take(z + 1) =~= s.take(z + 1));
    } else {
        assert(s.take(z + 1) =~= s);
    }
}

/// A `'` between the digits of a number opens no literal: the `//` behind the
/// number starts a comment.
pub proof fn law_digit_separators_open_nothing(line: Seq<char>, n: int, a: int, q: int)
    requires
        0 <= n < a && a + 1 < q && pair_at(line, q, '/', '/') && line[q - 1] != ':',
        forall|i: int| 0 <= i < n ==> crate::text::is_white(#[trigger] line[i]),
        !crate::text::is_white(line[n]) && line[n] != '#',
        line[a] == '\'' && '0' <= line[a - 1] <= '9' && (a >= 2 ==> !is_word_char(line[a - 2])),
        is_word_char(line[a + 1]),
        forall|i: int| 0 <= i < q && i != a ==> #[trigger] is_bare(line, i),
    ensures
        crate::align::comment_start(line, 0) == Some(q),
{
    assert(is_bare(line, n));
    lemma_starts_code(line, n);
    lemma_slashes_hit(line, n, q);
    assert forall|i: int| 0 <= i < q implies !#[trigger] Goal::Comment.hit(line, i) by {
        if i != a {
            assert(is_bare(line, i));
            lemma_bare_is_no_hit(line, i);
        } else {
            lemma_no_slash(line, i);
        }
    }
    lemma_separated(line, 0, a, q, Spot::Code);
}

proof fn lemma_separated(line: Seq<char>, k: int, a: int, q: int, spot: Spot)
    requires
        0 <= k <= a && a + 1 < q < line.len(),
        a >= 1,
        line[a] == '\'' && '0' <= line[a - 1] <= '9' && (a >= 2 ==> !is_word_char(line[a - 2])),
        is_word_char(line[a + 1]),
        forall|i: int| 0 <= i < q && i != a ==> #[trigger] is_bare(line, i),
        Goal::Comment.hit(line, q),
        forall|i: int| 0 <= i < q ==> !#[trigger] Goal::Comment.hit(line, i),
        k == a - 1 ==> spot == Spot::Code,
        k == a ==> spot == Spot::Number,
    ensures
        Goal::Comment.first(line, k, spot) == Some(q),
    decreases a - k,
{
    assert(!Goal::Comment.hit(line, k));
    if k < a {
        assert(is_bare(line, k));
        crate::laws::columns::lemma_bare_step(line, k, spot);
        lemma_separated(line, k + 1, a, q, (crate::align::step(line, k, spot)->0).1);
    } else {
        assert(crate::align::step(line, a, spot) == Some((a + 1, Spot::Number)));
        crate::laws::columns::lemma_hit_from(Goal::Comment, line, a + 1, q, Spot::Number);
    }
}

} // verus!
