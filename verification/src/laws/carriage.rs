//! What carriage returns add to a text: the CRLF output is the LF output with
//! its line ends replaced.

use crate::config::{Config, Eol, IndentStyle};
use crate::text::Class;
use vstd::prelude::*;

verus! {

// ── Texts ────────────────────────────────────────────────────────────────────

/// The text without its carriage returns.
pub open spec fn strip(s: Seq<char>) -> Seq<char>
    decreases s.len(),
{
    if s.len() == 0 {
        Seq::empty()
    } else if s.last() == '\r' {
        strip(s.drop_last())
    } else {
        strip(s.drop_last()).push(s.last())
    }
}

/// Every carriage return is followed by a line feed.
pub open spec fn paired(s: Seq<char>) -> bool {
    forall|i: int|
        0 <= i < s.len() && #[trigger] s[i] == '\r' ==> i + 1 < s.len() && s[i + 1] == '\n'
}

/// The text with each line feed written as a pair.
pub open spec fn with_returns(s: Seq<char>) -> Seq<char> {
    crate::text::replace(s, Eol::Lf.text(), Eol::CrLf.text())
}

pub proof fn lemma_strip_add(a: Seq<char>, b: Seq<char>)
    ensures
        strip(a + b) == strip(a) + strip(b),
    decreases b.len(),
{
    if b.len() == 0 {
        assert(a + b =~= a);
        assert(strip(a) + strip(b) =~= strip(a));
    } else {
        assert((a + b).drop_last() =~= a + b.drop_last());
        lemma_strip_add(a, b.drop_last());
        assert(strip(a) + strip(b.drop_last()).push(b.last()) =~= (strip(a) + strip(
            b.drop_last(),
        )).push(b.last()));
    }
}

pub proof fn lemma_strip_plain(s: Seq<char>)
    requires
        crate::laws::lines::lacks(s, '\r'),
    ensures
        strip(s) == s,
        paired(s),
    decreases s.len(),
{
    if s.len() > 0 {
        let t = s.drop_last();
        assert forall|i: int| 0 <= i < t.len() implies #[trigger] t[i] != '\r' by {
            assert(s[i] != '\r');
        }
        lemma_strip_plain(t);
        assert(s[s.len() - 1] != '\r');
        assert(t.push(s.last()) =~= s);
    }
}

pub proof fn lemma_strip_lacks(s: Seq<char>)
    ensures
        crate::laws::lines::lacks(strip(s), '\r'),
        strip(s).len() <= s.len(),
    decreases s.len(),
{
    if s.len() > 0 {
        lemma_strip_lacks(s.drop_last());
        let t = strip(s);
        assert forall|i: int| 0 <= i < t.len() implies #[trigger] t[i] != '\r' by {
            if i < strip(s.drop_last()).len() {
                assert(t[i] == strip(s.drop_last())[i]);
            }
        }
    }
}

pub proof fn lemma_paired_add(a: Seq<char>, b: Seq<char>)
    requires
        paired(a),
        paired(b),
    ensures
        paired(a + b),
{
    let s = a + b;
    assert forall|i: int| 0 <= i < s.len() && #[trigger] s[i] == '\r' implies i + 1 < s.len()
        && s[i + 1] == '\n' by {
        if i < a.len() {
            assert(a[i] == '\r');
            assert(s[i + 1] == a[i + 1]);
        } else {
            assert(b[i - a.len()] == '\r');
            assert(s[i + 1] == b[i + 1 - a.len()]);
        }
    }
}

proof fn lemma_paired_take(s: Seq<char>, n: int)
    requires
        paired(s),
        0 <= n <= s.len(),
        n < s.len() ==> s[n] != '\n',
    ensures
        paired(s.take(n)),
        paired(s.skip(n)),
{
    assert forall|i: int| 0 <= i < n && #[trigger] s.take(n)[i] == '\r' implies i + 1 < n
        && s.take(n)[i + 1] == '\n' by {
        assert(s[i] == '\r');
    }
    assert forall|i: int| 0 <= i < s.len() - n && #[trigger] s.skip(n)[i] == '\r' implies i + 1
        < s.len() - n && s.skip(n)[i + 1] == '\n' by {
        assert(s[n + i] == '\r');
    }
}

/// The last character is never a carriage return.
pub proof fn lemma_strip_last(s: Seq<char>)
    requires
        paired(s),
    ensures
        s.len() > 0 ==> s.last() != '\r' && strip(s).len() > 0 && strip(s).last() == s.last(),
        s.len() == 0 ==> strip(s).len() == 0,
{
    if s.len() > 0 {
        assert(s[s.len() - 1] == s.last());
    }
}

pub proof fn lemma_strip_trim(s: Seq<char>, class: Class)
    requires
        paired(s),
        class == Class::Space || class == Class::AsciiWhite || class == Class::White,
    ensures
        strip(crate::text::trim_end(s, class)) == crate::text::trim_end(strip(s), class),
        paired(crate::text::trim_end(s, class)),
    decreases s.len(),
{
    lemma_strip_last(s);
    if s.len() > 0 && class.has(s.last()) {
        let t = s.drop_last();
        assert(strip(s).drop_last() =~= strip(t));
        assert(t =~= s.take(s.len() - 1));
        if s.last() == '\n' && t.len() > 0 && t.last() == '\r' {
            let u = t.drop_last();
            assert(u =~= s.take(s.len() - 2));
            assert(s[s.len() - 2] == '\r');
            lemma_paired_take(s, s.len() - 2);
            lemma_strip_trim(u, class);
            assert(class.has('\r'));
            assert(crate::text::trim_end(s, class) == crate::text::trim_end(t, class));
            assert(crate::text::trim_end(t, class) == crate::text::trim_end(u, class));
            assert(strip(t) == strip(u));
        } else {
            assert forall|i: int| 0 <= i < t.len() && #[trigger] t[i] == '\r' implies i + 1
                < t.len() && t[i + 1] == '\n' by {
                assert(s[i] == '\r');
            }
            lemma_strip_trim(t, class);
        }
    }
}

pub proof fn lemma_strip_tail_len(s: Seq<char>)
    requires
        paired(s),
    ensures
        crate::text::tail_len(strip(s)) == crate::text::tail_len(s),
    decreases s.len(),
{
    lemma_strip_last(s);
    if s.len() > 0 && s.last() != '\n' {
        let t = s.drop_last();
        assert(t =~= s.take(s.len() - 1));
        lemma_paired_take(s, s.len() - 1);
        lemma_strip_tail_len(t);
        assert(strip(s).drop_last() =~= strip(t));
    }
}

proof fn lemma_strip_end()
    ensures
        strip(Eol::CrLf.text()) == Eol::Lf.text(),
        strip(Eol::Lf.text()) == Eol::Lf.text(),
        paired(Eol::CrLf.text()),
{
    let a = Eol::CrLf.text();
    lemma_strip_plain(Eol::Lf.text());
    assert(a =~= seq!['\r'] + Eol::Lf.text());
    lemma_strip_add(seq!['\r'], Eol::Lf.text());
    let c = seq!['\r'];
    assert(c.drop_last() =~= Seq::empty());
    assert(strip(c.drop_last()) =~= Seq::empty());
    assert(strip(c) =~= Seq::empty());
    assert(Seq::<char>::empty() + Eol::Lf.text() =~= Eol::Lf.text());
}

pub proof fn lemma_strip_repeat(n: nat)
    ensures
        strip(crate::text::repeat(Eol::CrLf.text(), n)) == crate::text::repeat(Eol::Lf.text(), n),
        paired(crate::text::repeat(Eol::CrLf.text(), n)),
    decreases n,
{
    if n > 0 {
        let m = (n - 1) as nat;
        lemma_strip_repeat(m);
        lemma_strip_end();
        lemma_strip_add(crate::text::repeat(Eol::CrLf.text(), m), Eol::CrLf.text());
        lemma_paired_add(crate::text::repeat(Eol::CrLf.text(), m), Eol::CrLf.text());
    }
}

proof fn lemma_lacks_repeat(t: Seq<char>, n: nat)
    requires
        crate::laws::lines::lacks(t, '\r'),
    ensures
        crate::laws::lines::lacks(crate::text::repeat(t, n), '\r'),
    decreases n,
{
    if n > 0 {
        lemma_lacks_repeat(t, (n - 1) as nat);
        let all = crate::text::repeat(t, n);
        let init = crate::text::repeat(t, (n - 1) as nat);
        assert forall|i: int| 0 <= i < all.len() implies #[trigger] all[i] != '\r' by {
            if i < init.len() {
                assert(all[i] == init[i]);
            } else {
                assert(all[i] == t[i - init.len()]);
            }
        }
    }
}

pub proof fn lemma_indent_plain(config: Config, n: nat)
    ensures
        strip(crate::text::repeat(config.indent_unit(), n)) == crate::text::repeat(
            config.indent_unit(),
            n,
        ),
        paired(crate::text::repeat(config.indent_unit(), n)),
{
    assert(crate::laws::lines::lacks(config.indent_unit(), '\r'));
    lemma_lacks_repeat(config.indent_unit(), n);
    lemma_strip_plain(crate::text::repeat(config.indent_unit(), n));
}

pub proof fn lemma_spaces_plain(n: nat)
    ensures
        strip(crate::text::spaces(n)) == crate::text::spaces(n),
        paired(crate::text::spaces(n)),
{
    lemma_strip_plain(crate::text::spaces(n));
}

// ── Replacing ────────────────────────────────────────────────────────────────

/// Replacing looks at what follows only.
pub proof fn lemma_replace_shift(s: Seq<char>, from: Seq<char>, to: Seq<char>, d: int, i: int)
    requires
        0 <= d <= s.len(),
        0 <= i <= s.len() - d,
    ensures
        crate::text::replace_from(s, from, to, i + d) == crate::text::replace_from(
            s.skip(d),
            from,
            to,
            i,
        ),
    decreases s.len() - d - i,
{
    let t = s.skip(d);
    if i < t.len() && from.len() > 0 {
        if i + from.len() <= t.len() {
            assert(s.subrange(i + d, i + d + from.len()) =~= t.subrange(i, i + from.len()));
        }
        if crate::text::matches_at(t, i, from) {
            lemma_replace_shift(s, from, to, d, i + from.len());
        } else {
            lemma_replace_shift(s, from, to, d, i + 1);
        }
    }
}

/// A text that does not hold the first character of what is replaced stays.
pub proof fn lemma_replace_behind(a: Seq<char>, b: Seq<char>, from: Seq<char>, to: Seq<char>)
    requires
        from.len() > 0,
        crate::laws::lines::lacks(a, from[0]),
    ensures
        crate::text::replace(a + b, from, to) == a + crate::text::replace(b, from, to),
    decreases a.len(),
{
    let s = a + b;
    if a.len() == 0 {
        assert(s =~= b);
        assert(a + crate::text::replace(b, from, to) =~= crate::text::replace(b, from, to));
    } else {
        let rest = a.drop_first();
        assert forall|i: int| 0 <= i < rest.len() implies #[trigger] rest[i] != from[0] by {
            assert(a[i + 1] != from[0]);
        }
        assert(!crate::text::matches_at(s, 0, from)) by {
            if crate::text::matches_at(s, 0, from) {
                assert(s.subrange(0, from.len() as int)[0] == a[0]);
            }
        }
        lemma_replace_shift(s, from, to, 1, 0);
        assert(s.skip(1) =~= rest + b);
        lemma_replace_behind(rest, b, from, to);
        assert(seq![a[0]] + (rest + crate::text::replace(b, from, to)) =~= a
            + crate::text::replace(b, from, to));
    }
}

pub proof fn lemma_replace_none(s: Seq<char>, from: Seq<char>, to: Seq<char>)
    requires
        from.len() > 0,
        crate::laws::lines::lacks(s, from[0]),
    ensures
        crate::text::replace(s, from, to) == s,
{
    let none = Seq::<char>::empty();
    lemma_replace_behind(s, none, from, to);
    assert(s + none =~= s);
    assert(crate::text::replace(none, from, to) =~= none);
}

/// What is replaced leads a text.
pub proof fn lemma_replace_lead(b: Seq<char>, from: Seq<char>, to: Seq<char>)
    requires
        from.len() > 0,
    ensures
        crate::text::replace(from + b, from, to) == to + crate::text::replace(b, from, to),
{
    let s = from + b;
    assert(s.subrange(0, from.len() as int) =~= from);
    lemma_replace_shift(s, from, to, from.len() as int, 0);
    assert(s.skip(from.len() as int) =~= b);
}

/// With pairs only, dropping the carriage returns is replacing the pairs.
proof fn lemma_strip_is_replace(s: Seq<char>)
    requires
        paired(s),
    ensures
        crate::text::replace(s, Eol::CrLf.text(), Eol::Lf.text()) == strip(s),
    decreases s.len(),
{
    let from = Eol::CrLf.text();
    let to = Eol::Lf.text();
    if s.len() == 0 {
        assert(crate::text::replace(s, from, to) =~= strip(s));
    } else if s[0] == '\r' {
        let b = s.skip(2);
        assert(s =~= from + b);
        assert forall|i: int| 0 <= i < b.len() && #[trigger] b[i] == '\r' implies i + 1 < b.len()
            && b[i + 1] == '\n' by {
            assert(s[i + 2] == '\r');
        }
        lemma_strip_is_replace(b);
        lemma_replace_lead(b, from, to);
        lemma_strip_add(from, b);
        lemma_strip_end();
    } else {
        let a = s.take(1);
        let b = s.skip(1);
        assert(s =~= a + b);
        assert forall|i: int| 0 <= i < b.len() && #[trigger] b[i] == '\r' implies i + 1 < b.len()
            && b[i + 1] == '\n' by {
            assert(s[i + 1] == '\r');
        }
        lemma_strip_is_replace(b);
        lemma_replace_behind(a, b, from, to);
        lemma_strip_add(a, b);
        lemma_strip_plain(a);
    }
}

/// Unifying a text with pairs gives the text without them, paired again.
pub proof fn lemma_unify_paired(s: Seq<char>)
    requires
        paired(s),
    ensures
        crate::trivia::unify(s, Eol::CrLf) == with_returns(strip(s)),
        crate::trivia::unify(s, Eol::Lf) == strip(s),
{
    let t = strip(s);
    lemma_strip_is_replace(s);
    lemma_strip_lacks(s);
    lemma_replace_none(t, seq!['\r'], seq!['\n']);
    lemma_replace_same(t, 0);
}

proof fn lemma_replace_same(s: Seq<char>, i: int)
    requires
        0 <= i <= s.len(),
    ensures
        crate::text::replace_from(s, Eol::Lf.text(), Eol::Lf.text(), i) == s.skip(i),
    decreases s.len() - i,
{
    let lf = Eol::Lf.text();
    if i < s.len() {
        lemma_replace_same(s, i + 1);
        assert(seq![s[i]] + s.skip(i + 1) =~= s.skip(i));
        if crate::text::matches_at(s, i, lf) {
            assert(s.subrange(i, i + 1)[0] == s[i]);
            assert(lf =~= seq![s[i]]);
        }
    } else {
        assert(s.skip(i) =~= Seq::empty());
    }
}

// ── Lines ────────────────────────────────────────────────────────────────────

/// Every line lies within one line.
pub open spec fn all_within(lines: Seq<Seq<char>>) -> bool {
    forall|k: int| 0 <= k < lines.len() ==> crate::laws::lines::one_line(#[trigger] lines[k])
}

/// Lines joined with pairs are lines joined with line feeds, paired.
pub proof fn lemma_join_returns(lines: Seq<Seq<char>>)
    requires
        all_within(lines),
    ensures
        ({
            let a = crate::text::join(lines, Eol::CrLf.text());
            let b = crate::text::join(lines, Eol::Lf.text());
            &&& paired(a)
            &&& strip(a) == b
            &&& a == with_returns(b)
            &&& crate::laws::lines::lacks(b, '\r')
        }),
    decreases lines.len(),
{
    let cr = Eol::CrLf.text();
    let lf = Eol::Lf.text();
    let a = crate::text::join(lines, cr);
    let b = crate::text::join(lines, lf);
    if lines.len() == 0 {
        assert(with_returns(b) =~= a);
        assert(strip(a) =~= b);
    } else if lines.len() == 1 {
        assert(crate::laws::lines::one_line(lines[0]));
        lemma_strip_plain(a);
        lemma_replace_none(b, lf, cr);
    } else {
        let rest = lines.drop_first();
        let first = lines[0];
        assert(crate::laws::lines::one_line(lines[0]));
        assert forall|k: int| 0 <= k < rest.len() implies crate::laws::lines::one_line(
            #[trigger] rest[k],
        ) by {
            assert(crate::laws::lines::one_line(lines[k + 1]));
        }
        lemma_join_returns(rest);
        crate::laws::stability::lemma_join_first(lines, cr);
        crate::laws::stability::lemma_join_first(lines, lf);
        let ra = crate::text::join(rest, cr);
        let rb = crate::text::join(rest, lf);
        assert(a =~= first + (cr + ra));
        assert(b =~= first + (lf + rb));
        lemma_strip_end();
        lemma_strip_plain(first);
        lemma_paired_add(cr, ra);
        lemma_paired_add(first, cr + ra);
        lemma_strip_add(cr, ra);
        lemma_strip_add(first, cr + ra);
        lemma_replace_behind(first, lf + rb, lf, cr);
        lemma_replace_lead(rb, lf, cr);
        lemma_strip_lacks(a);
    }
}

/// The lines of a text without carriage returns.
pub proof fn lemma_split_within(s: Seq<char>)
    requires
        crate::laws::lines::lacks(s, '\r'),
    ensures
        all_within(crate::text::split(s, Eol::Lf.text())),
        crate::text::split(s, Eol::Lf.text()).len() > 0,
        crate::text::join(crate::text::split(s, Eol::Lf.text()), Eol::Lf.text()) == s,
{
    lemma_split_from(s, 0, 0);
    assert(s.skip(0) =~= s);
}

proof fn lemma_split_from(s: Seq<char>, start: int, i: int)
    requires
        crate::laws::lines::lacks(s, '\r'),
        0 <= start <= i <= s.len(),
        crate::laws::lines::lacks(s.subrange(start, i), '\n'),
    ensures
        ({
            let lines = crate::text::split_from(s, Eol::Lf.text(), start, i);
            &&& all_within(lines)
            &&& lines.len() > 0
            &&& crate::text::join(lines, Eol::Lf.text()) == s.skip(start)
        }),
    decreases s.len() - i,
{
    let lf = Eol::Lf.text();
    let lines = crate::text::split_from(s, lf, start, i);
    let first = s.subrange(start, i);
    assert forall|k: int| 0 <= k < first.len() implies #[trigger] first[k] != '\r' by {
        assert(s[start + k] != '\r');
    }
    if i >= s.len() {
        assert(s.skip(start) =~= first);
        assert(lines =~= seq![first]);
    } else if crate::text::matches_at(s, i, lf) {
        assert(s.subrange(i + 1, i + 1) =~= Seq::empty());
        lemma_split_from(s, i + 1, i + 1);
        let rest = crate::text::split_from(s, lf, i + 1, i + 1);
        assert(lines.drop_first() =~= rest);
        assert forall|k: int| 0 <= k < lines.len() implies crate::laws::lines::one_line(
            #[trigger] lines[k],
        ) by {
            if k > 0 {
                assert(lines[k] == rest[k - 1]);
            }
        }
        crate::laws::stability::lemma_join_first(lines, lf);
        assert(first + lf + s.skip(i + 1) =~= s.skip(start));
    } else {
        assert(s[i] != '\n') by {
            if s[i] == '\n' {
                assert(s.subrange(i, i + 1) =~= lf);
            }
        }
        let next = s.subrange(start, i + 1);
        assert forall|k: int| 0 <= k < next.len() implies #[trigger] next[k] != '\n' by {
            if k < i - start {
                assert(next[k] == first[k]);
            }
        }
        lemma_split_from(s, start, i + 1);
    }
}

/// Splitting joined lines gives them back, in either style.
pub proof fn lemma_split_joined(lines: Seq<Seq<char>>, eol: Eol)
    requires
        lines.len() > 0,
        all_within(lines),
    ensures
        crate::text::split(crate::text::join(lines, eol.text()), eol.text()) == lines,
{
    assert forall|k: int| 0 <= k < lines.len() implies crate::laws::stability::holds_no(
        #[trigger] lines[k],
        eol.text(),
    ) by {
        let line = lines[k];
        assert(crate::laws::lines::one_line(line));
        assert forall|x: int| !#[trigger] crate::text::matches_at(line, x, eol.text()) by {
            if crate::text::matches_at(line, x, eol.text()) {
                assert(line.subrange(x, x + eol.text().len())[0] == line[x]);
            }
        }
    }
    crate::laws::stability::lemma_split_join(lines, eol);
}

// ── Block comments ───────────────────────────────────────────────────────────

/// A bare closing line with the space that it gets.
pub open spec fn pad_closing(line: Seq<char>) -> Seq<char> {
    if crate::text::begins_with(line, seq!['*', '/']) {
        seq![' '] + line
    } else {
        line
    }
}

/// The lines with their bare closing lines padded; the first is none.
pub open spec fn closed_lines(lines: Seq<Seq<char>>) -> Seq<Seq<char>> {
    Seq::new(
        lines.len(),
        |k: int|
            if k > 0 {
                pad_closing(lines[k])
            } else {
                lines[k]
            },
    )
}

/// Some line holds the character.
pub open spec fn some_holds(lines: Seq<Seq<char>>, c: char) -> bool {
    exists|k: int| 0 <= k < lines.len() && #[trigger] lines[k].contains(c)
}

/// The lines of a block comment as they are written, in either style.
pub open spec fn comment_lines(text: Seq<char>, config: Config) -> Seq<Seq<char>> {
    let source = crate::text::split(text, Eol::Lf.text());
    let closed = if config.comments.normalize_block_comment_closing
        && !crate::trivia::double_starred(source) {
        closed_lines(source)
    } else {
        source
    };
    let expanded = if config.indent.style == IndentStyle::Spaces {
        closed.map_values(
            |l: Seq<char>| crate::trivia::expand_tabs(l, config.indent.width as nat),
        )
    } else {
        closed
    };
    if some_holds(expanded, ' ') || some_holds(expanded, '\t') {
        expanded.map_values(|l: Seq<char>| crate::text::trim_end(l, Class::White))
    } else {
        expanded
    }
}

proof fn lemma_join_lead(lines: Seq<Seq<char>>, lead: Seq<char>, sep: Seq<char>)
    requires
        lines.len() > 0,
    ensures
        crate::text::join(lines.update(0, lead + lines[0]), sep) == lead + crate::text::join(
            lines,
            sep,
        ),
{
    let new = lines.update(0, lead + lines[0]);
    if lines.len() > 1 {
        crate::laws::stability::lemma_join_first(lines, sep);
        crate::laws::stability::lemma_join_first(new, sep);
        assert(new.drop_first() =~= lines.drop_first());
        assert(crate::text::join(new, sep) =~= lead + crate::text::join(lines, sep));
    }
}

/// No bare closing line follows the line end.
proof fn lemma_no_closing(rest: Seq<Seq<char>>, eol: Eol)
    requires
        rest.len() > 0,
        all_within(rest),
        !crate::text::begins_with(rest[0], seq!['*', '/']),
    ensures
        ({
            let from = eol.text() + seq!['*', '/'];
            let to = eol.text() + seq![' ', '*', '/'];
            let tail = crate::text::join(rest, eol.text());
            crate::text::replace(eol.text() + tail, from, to) == eol.text() + crate::text::replace(
                tail,
                from,
                to,
            )
        }),
{
    let sep = eol.text();
    let from = sep + seq!['*', '/'];
    let to = sep + seq![' ', '*', '/'];
    let tail = crate::text::join(rest, sep);
    let s = sep + tail;
    let n = sep.len() as int;
    assert(crate::laws::lines::one_line(rest[0]));
    assert(!crate::text::matches_at(s, 0, from)) by {
        if crate::text::matches_at(s, 0, from) {
            let part = s.subrange(0, n + 2);
            assert(part[n] == tail[0] && part[n + 1] == tail[1]);
            assert(tail[0] == '*' && tail[1] == '/');
            if rest.len() > 1 {
                crate::laws::stability::lemma_join_first(rest, sep);
                assert(rest[0].len() < 2 ==> tail[rest[0].len() as int] == sep[0]);
            }
            assert(rest[0].len() >= 2);
            assert(rest[0][0] == tail[0] && rest[0][1] == tail[1]);
            assert(rest[0].subrange(0, 2) =~= seq!['*', '/']);
        }
    }
    lemma_replace_shift(s, from, to, 1, 0);
    match eol {
        Eol::Lf => {
            assert(s.skip(1) =~= tail);
            assert(seq![s[0]] =~= sep);
        },
        Eol::CrLf => {
            assert(s.skip(1) =~= Eol::Lf.text() + tail);
            lemma_replace_behind(Eol::Lf.text(), tail, from, to);
            assert(seq![s[0]] + (Eol::Lf.text() + crate::text::replace(tail, from, to)) =~= sep
                + crate::text::replace(tail, from, to));
        },
    }
}

proof fn lemma_closing(lines: Seq<Seq<char>>, eol: Eol)
    requires
        lines.len() > 0,
        all_within(lines),
    ensures
        crate::text::replace(
            crate::text::join(lines, eol.text()),
            eol.text() + seq!['*', '/'],
            eol.text() + seq![' ', '*', '/'],
        ) == crate::text::join(closed_lines(lines), eol.text()),
    decreases lines.len(),
{
    let sep = eol.text();
    let bare = seq!['*', '/'];
    let from = sep + bare;
    let to = sep + seq![' ', '*', '/'];
    let first = lines[0];
    let new = closed_lines(lines);
    assert(crate::laws::lines::one_line(lines[0]));
    assert(from[0] == sep[0]);
    if lines.len() == 1 {
        lemma_replace_none(first, from, to);
        assert(new =~= lines);
    } else {
        let rest = lines.drop_first();
        assert forall|k: int| 0 <= k < rest.len() implies crate::laws::lines::one_line(
            #[trigger] rest[k],
        ) by {
            assert(crate::laws::lines::one_line(lines[k + 1]));
        }
        let tail = crate::text::join(rest, sep);
        crate::laws::stability::lemma_join_first(lines, sep);
        crate::laws::stability::lemma_join_first(new, sep);
        assert(crate::text::join(lines, sep) =~= first + (sep + tail));
        lemma_replace_behind(first, sep + tail, from, to);
        if crate::text::begins_with(rest[0], bare) {
            let cut = rest.update(0, rest[0].skip(2));
            assert forall|k: int| 0 <= k < cut.len() implies crate::laws::lines::one_line(
                #[trigger] cut[k],
            ) by {
                assert(crate::laws::lines::one_line(rest[0]));
                if k > 0 {
                    assert(cut[k] == rest[k]);
                } else {
                    assert forall|x: int| 0 <= x < cut[0].len() implies (#[trigger] cut[0][x])
                        != '\n' && cut[0][x] != '\r' by {
                        assert(cut[0][x] == rest[0][x + 2]);
                    }
                }
            }
            assert(rest[0] =~= bare + cut[0]) by {
                assert(rest[0].subrange(0, 2) =~= bare);
                assert(rest[0] =~= rest[0].subrange(0, 2) + rest[0].skip(2));
            }
            assert(rest =~= cut.update(0, bare + cut[0]));
            lemma_join_lead(cut, bare, sep);
            let inner = crate::text::join(cut, sep);
            assert(sep + tail =~= from + inner);
            lemma_replace_lead(inner, from, to);
            lemma_closing(cut, eol);
            let done = closed_lines(cut);
            lemma_join_lead(done, seq![' ', '*', '/'], sep);
            assert(new.drop_first() =~= done.update(0, seq![' ', '*', '/'] + done[0])) by {
                assert(seq![' '] + rest[0] =~= seq![' ', '*', '/'] + done[0]);
            }
            assert(first + (to + crate::text::join(done, sep)) =~= first + sep + (seq![
                ' ',
                '*',
                '/',
            ] + crate::text::join(done, sep)));
        } else {
            lemma_no_closing(rest, eol);
            lemma_closing(rest, eol);
            assert(new.drop_first() =~= closed_lines(rest));
            assert(first + (sep + crate::text::join(closed_lines(rest), sep)) =~= first + sep
                + crate::text::join(closed_lines(rest), sep));
        }
    }
}

proof fn lemma_contains_add(a: Seq<char>, b: Seq<char>, c: char)
    ensures
        (a + b).contains(c) == (a.contains(c) || b.contains(c)),
{
    let s = a + b;
    if a.contains(c) {
        let k = choose|k: int| 0 <= k < a.len() && a[k] == c;
        assert(s[k] == c);
    }
    if b.contains(c) {
        let k = choose|k: int| 0 <= k < b.len() && b[k] == c;
        assert(s[a.len() + k] == c);
    }
    if s.contains(c) {
        let k = choose|k: int| 0 <= k < s.len() && s[k] == c;
        if k < a.len() {
            assert(a[k] == c);
        } else {
            assert(b[k - a.len()] == c);
        }
    }
}

pub proof fn lemma_join_contains(lines: Seq<Seq<char>>, eol: Eol, c: char)
    requires
        c == ' ' || c == '\t',
    ensures
        crate::text::join(lines, eol.text()).contains(c) == some_holds(lines, c),
    decreases lines.len(),
{
    let sep = eol.text();
    if lines.len() == 1 {
        if lines[0].contains(c) {
            assert(some_holds(lines, c));
        }
    } else if lines.len() > 1 {
        let init = lines.drop_last();
        lemma_join_contains(init, eol, c);
        lemma_contains_add(crate::text::join(init, sep), sep, c);
        lemma_contains_add(crate::text::join(init, sep) + sep, lines.last(), c);
        assert(!sep.contains(c));
        if some_holds(init, c) {
            let k = choose|k: int| 0 <= k < init.len() && #[trigger] init[k].contains(c);
            assert(lines[k].contains(c));
        }
        if lines.last().contains(c) {
            assert(lines[lines.len() - 1].contains(c));
        }
        if some_holds(lines, c) {
            let k = choose|k: int| 0 <= k < lines.len() && #[trigger] lines[k].contains(c);
            if k < init.len() {
                assert(init[k].contains(c));
            }
        }
    }
}

proof fn lemma_within_expanded(line: Seq<char>, width: nat)
    requires
        crate::laws::lines::one_line(line),
    ensures
        crate::laws::lines::one_line(crate::trivia::expand_tabs(line, width)),
{
    let rest = crate::text::trim_start(line, Class::Tab);
    lemma_trim_start_suffix(line, Class::Tab);
    let n = ((line.len() - rest.len()) * width) as nat;
    let new = crate::trivia::expand_tabs(line, width);
    assert forall|k: int| 0 <= k < new.len() implies (#[trigger] new[k]) != '\n' && new[k]
        != '\r' by {
        if k >= n {
            assert(new[k] == rest[k - n]);
            assert(rest[k - n] == line[line.len() - rest.len() + k - n]);
        }
    }
}

pub proof fn lemma_trim_start_suffix(s: Seq<char>, class: Class)
    ensures
        ({
            let t = crate::text::trim_start(s, class);
            t.len() <= s.len() && t == s.skip(s.len() - t.len())
        }),
    decreases s.len(),
{
    if s.len() > 0 && class.has(s[0]) {
        lemma_trim_start_suffix(s.drop_first(), class);
        let t = crate::text::trim_start(s, class);
        assert(s.drop_first().skip(s.len() - 1 - t.len()) =~= s.skip(s.len() - t.len()));
    } else {
        assert(s.skip(0) =~= s);
    }
}

proof fn lemma_within_trimmed(line: Seq<char>)
    requires
        crate::laws::lines::one_line(line),
    ensures
        crate::laws::lines::one_line(crate::text::trim_end(line, Class::White)),
{
    crate::laws::lines::lemma_trim_end_prefix(line, Class::White);
    let new = crate::text::trim_end(line, Class::White);
    assert forall|k: int| 0 <= k < new.len() implies (#[trigger] new[k]) != '\n' && new[k]
        != '\r' by {
        assert(new[k] == line[k]);
    }
}

proof fn lemma_within_closed(lines: Seq<Seq<char>>)
    requires
        all_within(lines),
    ensures
        all_within(closed_lines(lines)),
{
    let new = closed_lines(lines);
    assert forall|k: int| 0 <= k < new.len() implies crate::laws::lines::one_line(
        #[trigger] new[k],
    ) by {
        let line = lines[k];
        assert(crate::laws::lines::one_line(lines[k]));
        let padded = seq![' '] + line;
        assert forall|x: int| 0 <= x < padded.len() implies (#[trigger] padded[x]) != '\n'
            && padded[x] != '\r' by {
            if x > 0 {
                assert(padded[x] == line[x - 1]);
            }
        }
        assert(new[k] == line || new[k] == padded);
    }
}

/// A text is its lines, joined in the style that it is unified to.
pub proof fn lemma_unify_lines(text: Seq<char>, eol: Eol)
    requires
        crate::laws::lines::lacks(text, '\r'),
    ensures
        crate::trivia::unify(text, eol) == crate::text::join(
            crate::text::split(text, Eol::Lf.text()),
            eol.text(),
        ),
        all_within(crate::text::split(text, Eol::Lf.text())),
        crate::text::split(text, Eol::Lf.text()).len() > 0,
{
    lemma_strip_plain(text);
    lemma_unify_paired(text);
    lemma_split_within(text);
    lemma_join_returns(crate::text::split(text, Eol::Lf.text()));
}

/// Mapping the lines of a joined text.
proof fn lemma_map_lines(
    lines: Seq<Seq<char>>,
    eol: Eol,
    f: spec_fn(Seq<char>) -> Seq<char>,
)
    requires
        lines.len() > 0,
        all_within(lines),
        forall|l: Seq<char>|
            crate::laws::lines::one_line(l) ==> crate::laws::lines::one_line(#[trigger] f(l)),
    ensures
        crate::text::split(crate::text::join(lines, eol.text()), eol.text()) == lines,
        all_within(lines.map_values(f)),
{
    lemma_split_joined(lines, eol);
    assert forall|k: int| 0 <= k < lines.len() implies crate::laws::lines::one_line(
        #[trigger] lines.map_values(f)[k],
    ) by {
        assert(crate::laws::lines::one_line(lines[k]));
        assert(lines.map_values(f)[k] == f(lines[k]));
    }
}

pub proof fn lemma_comment_lines(text: Seq<char>, config: Config, eol: Eol)
    requires
        crate::laws::lines::lacks(text, '\r'),
    ensures
        crate::trivia::block_comment(text, config, eol) == crate::text::join(
            comment_lines(text, config),
            eol.text(),
        ),
        all_within(comment_lines(text, config)),
{
    let sep = eol.text();
    let source = crate::text::split(text, Eol::Lf.text());
    lemma_unify_lines(text, eol);
    lemma_split_joined(source, eol);
    let closed = if config.comments.normalize_block_comment_closing
        && !crate::trivia::double_starred(source) {
        closed_lines(source)
    } else {
        source
    };
    lemma_closing(source, eol);
    lemma_within_closed(source);
    let width = config.indent.width as nat;
    let tabs = |l: Seq<char>| crate::trivia::expand_tabs(l, width);
    let trim = |l: Seq<char>| crate::text::trim_end(l, Class::White);
    assert forall|l: Seq<char>| crate::laws::lines::one_line(l) implies crate::laws::lines::one_line(
        #[trigger] tabs(l),
    ) by {
        lemma_within_expanded(l, width);
    }
    assert forall|l: Seq<char>| crate::laws::lines::one_line(l) implies crate::laws::lines::one_line(
        #[trigger] trim(l),
    ) by {
        lemma_within_trimmed(l);
    }
    lemma_map_lines(closed, eol, tabs);
    let expanded = if config.indent.style == IndentStyle::Spaces {
        closed.map_values(tabs)
    } else {
        closed
    };
    lemma_map_lines(expanded, eol, trim);
    lemma_join_contains(expanded, eol, ' ');
    lemma_join_contains(expanded, eol, '\t');
}

/// The lines of a block comment that starts with no white space: the first
/// starts as before, and where one holds a space, none ends in one.
pub proof fn lemma_comment_shape(text: Seq<char>, config: Config)
    requires
        crate::laws::lines::lacks(text, '\r'),
        text.len() > 0,
        !crate::text::is_white(text[0]),
    ensures
        ({
            let lines = comment_lines(text, config);
            &&& lines.len() > 0
            &&& lines[0].len() > 0 && lines[0][0] == text[0]
            &&& some_holds(lines, ' ') ==> forall|k: int|
                0 <= k < lines.len() ==> !#[trigger] crate::text::ends_with(lines[k], ' ')
        }),
{
    let source = crate::text::split(text, Eol::Lf.text());
    lemma_split_within(text);
    assert(source[0].len() > 0 && source[0][0] == text[0]) by {
        if source.len() > 1 {
            crate::laws::stability::lemma_join_first(source, Eol::Lf.text());
        }
        let joined = crate::text::join(source, Eol::Lf.text());
        assert(joined == text);
        if source[0].len() == 0 && source.len() > 1 {
            assert(joined[0] == '\n');
        }
    }
    let closed = if config.comments.normalize_block_comment_closing
        && !crate::trivia::double_starred(source) {
        closed_lines(source)
    } else {
        source
    };
    assert(closed[0] == source[0]);
    let width = config.indent.width as nat;
    let tabs = |l: Seq<char>| crate::trivia::expand_tabs(l, width);
    let expanded = if config.indent.style == IndentStyle::Spaces {
        closed.map_values(tabs)
    } else {
        closed
    };
    assert(expanded[0].len() > 0 && expanded[0][0] == text[0]) by {
        if config.indent.style == IndentStyle::Spaces {
            let line = source[0];
            assert(crate::text::trim_start(line, Class::Tab) == line);
            assert(crate::trivia::expand_tabs(line, width) =~= line) by {
                assert((line.len() - line.len()) * width == 0) by (nonlinear_arith);
            }
            assert(expanded[0] == tabs(closed[0]));
        }
    }
    let lines = comment_lines(text, config);
    if some_holds(expanded, ' ') || some_holds(expanded, '\t') {
        let trim = |l: Seq<char>| crate::text::trim_end(l, Class::White);
        assert(lines =~= expanded.map_values(trim));
        assert(lines[0] == crate::text::trim_end(expanded[0], Class::White));
        lemma_first_stays(expanded[0]);
        assert forall|k: int| 0 <= k < lines.len() implies !#[trigger] crate::text::ends_with(
            lines[k],
            ' ',
        ) by {
            assert(lines[k] == crate::text::trim_end(expanded[k], Class::White));
            crate::laws::rules::lemma_trimmed(expanded[k], Class::White);
        }
    }
}

/// Trimming the end does not reach what is not white space.
proof fn lemma_first_stays(s: Seq<char>)
    requires
        s.len() > 0,
        !crate::text::is_white(s[0]),
    ensures
        crate::text::trim_end(s, Class::White).len() > 0,
        crate::text::trim_end(s, Class::White)[0] == s[0],
    decreases s.len(),
{
    if crate::text::is_white(s.last()) {
        lemma_first_stays(s.drop_last());
    }
}

/// A block comment is the same in both styles, but for its line ends.
pub proof fn lemma_block_comment(text: Seq<char>, config: Config)
    requires
        crate::laws::lines::lacks(text, '\r'),
    ensures
        ({
            let a = crate::trivia::block_comment(text, config, Eol::CrLf);
            paired(a) && strip(a) == crate::trivia::block_comment(text, config, Eol::Lf)
        }),
{
    lemma_comment_lines(text, config, Eol::CrLf);
    lemma_comment_lines(text, config, Eol::Lf);
    lemma_join_returns(comment_lines(text, config));
}

// ── Preprocessor lines ───────────────────────────────────────────────────────

proof fn lemma_strip_first(s: Seq<char>)
    requires
        s.len() > 0,
    ensures
        strip(s) == if s[0] == '\r' {
            strip(s.drop_first())
        } else {
            seq![s[0]] + strip(s.drop_first())
        },
{
    let a = seq![s[0]];
    assert(s =~= a + s.drop_first());
    lemma_strip_add(a, s.drop_first());
    if s[0] == '\r' {
        assert(a.drop_last() =~= Seq::empty());
        assert(strip(a.drop_last()) =~= Seq::empty());
        assert(strip(a) =~= Seq::empty());
        assert(Seq::<char>::empty() + strip(s.drop_first()) =~= strip(s.drop_first()));
    } else {
        lemma_strip_plain(a);
    }
}

proof fn lemma_paired_rest(s: Seq<char>)
    requires
        paired(s),
        s.len() > 0,
    ensures
        paired(s.drop_first()),
{
    let t = s.drop_first();
    assert forall|i: int| 0 <= i < t.len() && #[trigger] t[i] == '\r' implies i + 1 < t.len()
        && t[i + 1] == '\n' by {
        assert(s[i + 1] == '\r');
    }
}

pub proof fn lemma_strip_trim_start(s: Seq<char>)
    requires
        paired(s),
    ensures
        strip(crate::text::trim_start(s, Class::White)) == crate::text::trim_start(
            strip(s),
            Class::White,
        ),
        paired(crate::text::trim_start(s, Class::White)),
    decreases s.len(),
{
    if s.len() > 0 {
        lemma_strip_first(s);
        lemma_paired_rest(s);
        if crate::text::is_white(s[0]) {
            lemma_strip_trim_start(s.drop_first());
            if s[0] != '\r' {
                assert(strip(s).drop_first() =~= strip(s.drop_first()));
            }
        }
    }
}

proof fn lemma_strip_word(s: Seq<char>)
    requires
        paired(s),
    ensures
        strip(s).take(crate::trivia::word_len(strip(s)) as int) == s.take(
            crate::trivia::word_len(s) as int,
        ),
    decreases s.len(),
{
    if s.len() > 0 {
        lemma_strip_first(s);
        lemma_paired_rest(s);
        let rest = s.drop_first();
        if crate::text::is_white(s[0]) {
            if s[0] == '\r' {
                assert(s[1] == '\n');
                assert(rest[0] == '\n');
                lemma_strip_first(rest);
            }
            assert(strip(s)[0] == s[0] || strip(s)[0] == '\n');
            assert(strip(s).take(0) =~= s.take(0));
        } else {
            lemma_strip_word(rest);
            let n = crate::trivia::word_len(rest) as int;
            let m = crate::trivia::word_len(strip(rest)) as int;
            lemma_word_len(rest);
            lemma_word_len(strip(rest));
            assert(strip(s).drop_first() =~= strip(rest));
            assert(s.take(n + 1) =~= seq![s[0]] + rest.take(n));
            assert(strip(s).take(m + 1) =~= seq![s[0]] + strip(rest).take(m));
        }
    } else {
        assert(strip(s) =~= s);
    }
}

proof fn lemma_word_len(s: Seq<char>)
    ensures
        crate::trivia::word_len(s) <= s.len(),
    decreases s.len(),
{
    if s.len() > 0 {
        lemma_word_len(s.drop_first());
    }
}

proof fn lemma_strip_conditional(s: Seq<char>)
    requires
        paired(s),
    ensures
        crate::trivia::conditional(strip(s)) == crate::trivia::conditional(s),
{
    let t = crate::text::trim_start(s, Class::White);
    lemma_strip_trim_start(s);
    if t.len() > 0 {
        lemma_strip_first(t);
        lemma_paired_rest(t);
        lemma_trim_start_lead(s);
        assert(strip(t).drop_first() =~= strip(t.drop_first()));
        lemma_strip_trim_start(t.drop_first());
        lemma_strip_word(crate::text::trim_start(t.drop_first(), Class::White));
    } else {
        assert(strip(t) =~= t);
    }
}

/// What is left when the leading white space is trimmed starts with none.
pub proof fn lemma_trim_start_lead(s: Seq<char>)
    ensures
        ({
            let t = crate::text::trim_start(s, Class::White);
            t.len() > 0 ==> !crate::text::is_white(t[0])
        }),
    decreases s.len(),
{
    if s.len() > 0 && crate::text::is_white(s[0]) {
        lemma_trim_start_lead(s.drop_first());
    }
}

proof fn lemma_strip_find(s: Seq<char>)
    requires
        paired(s),
    ensures
        match crate::text::find(s, seq!['/', '*']) {
            Some(i) => 0 <= i && i + 2 <= s.len() && s[i] == '/' && crate::text::find(
                strip(s),
                seq!['/', '*'],
            ) == Some(strip(s.take(i)).len() as int),
            None => crate::text::find(strip(s), seq!['/', '*']) is None,
        },
    decreases s.len(),
{
    let open = seq!['/', '*'];
    if s.len() < 2 {
        lemma_strip_lacks(s);
    } else {
        let rest = s.drop_first();
        lemma_strip_first(s);
        lemma_strip_first(rest);
        lemma_paired_rest(s);
        lemma_strip_find(rest);
        assert(s.skip(1) =~= rest);
        lemma_find_rest(s, open);
        let t = strip(s);
        if crate::text::matches_at(s, 0, open) {
            let part = s.subrange(0, 2);
            assert(part[0] == s[0] && part[1] == s[1]);
            assert(rest[0] == '*');
            assert(t[0] == '/' && t[1] == '*');
            assert(t.subrange(0, 2) =~= open);
            assert(strip(s.take(0)) =~= Seq::empty());
        } else {
            match crate::text::find(rest, open) {
                Some(i) => {
                    assert(s.take(i + 1).drop_first() =~= rest.take(i));
                    lemma_strip_first(s.take(i + 1));
                },
                None => {},
            }
            if s[0] != '\r' {
                assert(t.drop_first() =~= strip(rest));
                assert(!crate::text::matches_at(t, 0, open)) by {
                    if crate::text::matches_at(t, 0, open) {
                        let part = t.subrange(0, 2);
                        assert(part[0] == t[0] && part[1] == t[1]);
                        assert(t[1] == strip(rest)[0]);
                        if rest[0] == '\r' {
                            assert(rest[1] == '\n');
                            lemma_strip_first(rest.drop_first());
                        }
                        assert(s.subrange(0, 2) =~= open);
                    }
                }
                lemma_find_rest(t, open);
            }
        }
    }
}

/// The search goes on behind the first character.
proof fn lemma_find_rest(s: Seq<char>, p: Seq<char>)
    requires
        s.len() > 0,
        p.len() > 0,
    ensures
        crate::text::find(s, p) == if crate::text::matches_at(s, 0, p) {
            Some(0int)
        } else {
            match crate::text::find(s.drop_first(), p) {
                Some(i) => Some(i + 1),
                None => None,
            }
        },
{
    let t = s.drop_first();
    assert(t.skip(0) =~= s.skip(1));
    crate::laws::walking::lemma_find_shift(t, s, p, 0, 1);
}

proof fn lemma_strip_endif(s: Seq<char>, n: nat)
    requires
        paired(s),
    ensures
        strip(crate::trivia::space_endif(s, n)) == crate::trivia::space_endif(strip(s), n),
        paired(crate::trivia::space_endif(s, n)),
{
    lemma_strip_find(s);
    match crate::text::find(s, seq!['/', '*']) {
        Some(i) => {
            let a = s.take(i);
            let b = s.skip(i);
            let head = crate::text::trim_end(a, Class::White);
            let gap = crate::text::spaces(n);
            assert(s =~= a + b);
            lemma_strip_add(a, b);
            let j = strip(a).len() as int;
            assert(strip(s).take(j) =~= strip(a));
            assert(strip(s).skip(j) =~= strip(b));
            lemma_paired_take(s, i);
            lemma_strip_trim(a, Class::White);
            lemma_spaces_plain(n);
            lemma_strip_add(head, gap);
            lemma_strip_add(head + gap, b);
            lemma_paired_add(head, gap);
            lemma_paired_add(head + gap, b);
        },
        None => {},
    }
}

/// A preprocessor line is the same in both styles, but for its line ends.
pub proof fn lemma_preproc_line(text: Seq<char>, config: Config)
    requires
        crate::laws::lines::lacks(text, '\r'),
    ensures
        ({
            let a = crate::trivia::preproc_line(text, config, Eol::CrLf);
            paired(a) && strip(a) == crate::trivia::preproc_line(text, config, Eol::Lf)
        }),
        crate::trivia::conditional(crate::trivia::unify(text, Eol::CrLf))
            == crate::trivia::conditional(crate::trivia::unify(text, Eol::Lf)),
{
    let a = crate::trivia::unify(text, Eol::CrLf);
    lemma_unify_lines(text, Eol::CrLf);
    lemma_unify_lines(text, Eol::Lf);
    lemma_join_returns(crate::text::split(text, Eol::Lf.text()));
    lemma_strip_conditional(a);
    lemma_strip_endif(a, config.preprocessor.endif_comment_space as nat);
}

} // verus!
