//! Texts whose lines do not end in a space.

use crate::config::{Config, Eol};
use crate::text::Class;
use vstd::prelude::*;

verus! {

/// No line end follows a space.
#[verifier::opaque]
pub open spec fn neat(s: Seq<char>) -> bool {
    forall|i: int| 0 < i < s.len() && #[trigger] s[i] == '\n' ==> s[i - 1] != ' '
}

/// The text holds no line feed, or is neat and does not start with one: it can
/// be written behind any other.
pub open spec fn fits(t: Seq<char>) -> bool {
    crate::laws::lines::lacks(t, '\n') || (neat(t) && (t.len() > 0 ==> t[0] != '\n'))
}

pub proof fn lemma_neat_add(a: Seq<char>, b: Seq<char>)
    requires
        neat(a),
        neat(b),
        a.len() > 0 && b.len() > 0 && b[0] == '\n' ==> a.last() != ' ',
    ensures
        neat(a + b),
{
    reveal(neat);
    let s = a + b;
    assert forall|i: int| 0 < i < s.len() && #[trigger] s[i] == '\n' implies s[i - 1] != ' ' by {
        if i < a.len() {
            assert(a[i] == '\n');
        } else if i > a.len() {
            assert(b[i - a.len()] == '\n');
        } else {
            assert(s[i - 1] == a.last());
            assert(s[i] == b[0]);
        }
    }
}

pub proof fn lemma_neat_plain(t: Seq<char>)
    requires
        crate::laws::lines::lacks(t, '\n') || crate::laws::lines::lacks(t, ' '),
    ensures
        neat(t),
{
    reveal(neat);
}

pub proof fn lemma_fits_add(a: Seq<char>, t: Seq<char>)
    requires
        neat(a),
        fits(t),
    ensures
        neat(a + t),
{
    if crate::laws::lines::lacks(t, '\n') {
        lemma_neat_plain(t);
    }
    lemma_neat_add(a, t);
}

pub proof fn lemma_neat_take(s: Seq<char>, n: int)
    requires
        neat(s),
        0 <= n <= s.len(),
    ensures
        neat(s.take(n)),
        neat(s.skip(n)),
{
    reveal(neat);
    assert forall|i: int| 0 < i < n && #[trigger] s.take(n)[i] == '\n' implies s.take(n)[i - 1]
        != ' ' by {
        assert(s[i] == '\n');
    }
    assert forall|i: int| 0 < i < s.len() - n && #[trigger] s.skip(n)[i] == '\n' implies s.skip(
        n,
    )[i - 1] != ' ' by {
        assert(s[n + i] == '\n');
    }
}

pub proof fn lemma_neat_trim(s: Seq<char>, class: Class)
    requires
        neat(s),
    ensures
        neat(crate::text::trim_end(s, class)),
{
    crate::laws::lines::lemma_trim_end_prefix(s, class);
    lemma_neat_take(s, crate::text::trim_end(s, class).len() as int);
}

/// What is left of a text that fits still fits when its end is cut off.
pub proof fn lemma_fits_trim(t: Seq<char>, class: Class)
    requires
        fits(t),
    ensures
        fits(crate::text::trim_end(t, class)),
{
    let u = crate::text::trim_end(t, class);
    crate::laws::lines::lemma_trim_end_prefix(t, class);
    if crate::laws::lines::lacks(t, '\n') {
        assert forall|i: int| 0 <= i < u.len() implies #[trigger] u[i] != '\n' by {
            assert(u[i] == t[i]);
        }
    } else {
        lemma_neat_trim(t, class);
    }
}

/// What starts with no white space and is neat fits.
pub proof fn lemma_fits_trim_start(t: Seq<char>)
    requires
        fits(t),
    ensures
        fits(crate::text::trim_start(t, Class::White)),
{
    let u = crate::text::trim_start(t, Class::White);
    crate::laws::carriage::lemma_trim_start_suffix(t, Class::White);
    crate::laws::carriage::lemma_trim_start_lead(t);
    if crate::laws::lines::lacks(t, '\n') {
        lemma_neat_plain(t);
    }
    lemma_neat_take(t, t.len() - u.len());
}

proof fn lemma_repeat_lacks(t: Seq<char>, n: nat, c: char)
    requires
        crate::laws::lines::lacks(t, c),
    ensures
        crate::laws::lines::lacks(crate::text::repeat(t, n), c),
    decreases n,
{
    if n > 0 {
        lemma_repeat_lacks(t, (n - 1) as nat, c);
        let all = crate::text::repeat(t, n);
        let init = crate::text::repeat(t, (n - 1) as nat);
        assert forall|i: int| 0 <= i < all.len() implies #[trigger] all[i] != c by {
            if i < init.len() {
                assert(all[i] == init[i]);
            } else {
                assert(all[i] == t[i - init.len()]);
            }
        }
    }
}

pub proof fn lemma_units_lack(config: Config, n: nat)
    ensures
        crate::laws::lines::lacks(crate::text::repeat(config.indent_unit(), n), '\n'),
{
    assert(crate::laws::lines::lacks(config.indent_unit(), '\n'));
    lemma_repeat_lacks(config.indent_unit(), n, '\n');
}

/// Line ends behind a text without spaces at its end.
pub proof fn lemma_neat_ends(s: Seq<char>, eol: Eol, n: nat)
    requires
        neat(s),
    ensures
        neat(crate::text::trim_end(s, Class::Space) + crate::text::repeat(eol.text(), n)),
{
    let head = crate::text::trim_end(s, Class::Space);
    lemma_neat_trim(s, Class::Space);
    crate::laws::rules::lemma_trimmed(s, Class::Space);
    assert(crate::laws::lines::lacks(eol.text(), ' '));
    lemma_repeat_lacks(eol.text(), n, ' ');
    lemma_neat_plain(crate::text::repeat(eol.text(), n));
    lemma_neat_add(head, crate::text::repeat(eol.text(), n));
}

// ── Lines ────────────────────────────────────────────────────────────────────

/// No line but the last ends in a space.
pub open spec fn lines_neat(lines: Seq<Seq<char>>) -> bool {
    forall|k: int|
        0 <= k < lines.len() - 1 ==> !#[trigger] crate::text::ends_with(lines[k], ' ')
}

/// Joined, lines within which no line ends, and which do not end in a space,
/// are neat.
pub proof fn lemma_neat_join(lines: Seq<Seq<char>>)
    requires
        crate::laws::carriage::all_within(lines),
        lines_neat(lines),
    ensures
        neat(crate::text::join(lines, Eol::Lf.text())),
    decreases lines.len(),
{
    let lf = Eol::Lf.text();
    let s = crate::text::join(lines, lf);
    if lines.len() == 0 {
        lemma_neat_plain(s);
    } else if lines.len() == 1 {
        assert(crate::laws::lines::one_line(lines[0]));
        lemma_neat_plain(s);
    } else {
        let rest = lines.drop_first();
        assert forall|k: int| 0 <= k < rest.len() implies crate::laws::lines::one_line(
            #[trigger] rest[k],
        ) by {
            assert(crate::laws::lines::one_line(lines[k + 1]));
        }
        assert forall|k: int| 0 <= k < rest.len() - 1 implies !#[trigger] crate::text::ends_with(
            rest[k],
            ' ',
        ) by {
            assert(!crate::text::ends_with(lines[k + 1], ' '));
        }
        lemma_neat_join(rest);
        crate::laws::stability::lemma_join_first(lines, lf);
        assert(crate::laws::lines::one_line(lines[0]));
        assert(!crate::text::ends_with(lines[0], ' '));
        lemma_neat_plain(lines[0]);
        lemma_neat_plain(lf);
        lemma_neat_add(lines[0], lf);
        lemma_neat_add(lines[0] + lf, crate::text::join(rest, lf));
    }
}

/// The lines of a neat text do not end in a space.
pub proof fn lemma_neat_split(s: Seq<char>, start: int, i: int)
    requires
        neat(s),
        0 <= start <= i <= s.len(),
    ensures
        lines_neat(crate::text::split_from(s, Eol::Lf.text(), start, i)),
        crate::text::split_from(s, Eol::Lf.text(), start, i).len() > 0,
    decreases s.len() - i,
{
    let lf = Eol::Lf.text();
    let lines = crate::text::split_from(s, lf, start, i);
    if i < s.len() {
        if crate::text::matches_at(s, i, lf) {
            let rest = crate::text::split_from(s, lf, i + 1, i + 1);
            lemma_neat_split(s, i + 1, i + 1);
            assert forall|k: int|
                0 <= k < lines.len() - 1 implies !#[trigger] crate::text::ends_with(
                lines[k],
                ' ',
            ) by {
                if k > 0 {
                    assert(lines[k] == rest[k - 1]);
                } else if i > start {
                    reveal(neat);
                    assert(s.subrange(i, i + 1)[0] == s[i]);
                    assert(lines[0].last() == s[i - 1]);
                }
            }
        } else {
            lemma_neat_split(s, start, i + 1);
        }
    }
}

// ── Comments and preprocessor lines ──────────────────────────────────────────

/// A block comment is written neatly.
pub proof fn lemma_fits_comment(text: Seq<char>, config: Config)
    requires
        crate::laws::lines::lacks(text, '\r'),
        text.len() > 0,
        !crate::text::is_white(text[0]),
    ensures
        fits(crate::trivia::block_comment(text, config, Eol::Lf)),
{
    let lines = crate::laws::carriage::comment_lines(text, config);
    let body = crate::text::join(lines, Eol::Lf.text());
    crate::laws::carriage::lemma_comment_lines(text, config, Eol::Lf);
    crate::laws::carriage::lemma_comment_shape(text, config);
    if crate::laws::carriage::some_holds(lines, ' ') {
        lemma_neat_join(lines);
    } else {
        crate::laws::carriage::lemma_join_contains(lines, Eol::Lf, ' ');
        assert(crate::laws::lines::lacks(body, ' ')) by {
            assert forall|i: int| 0 <= i < body.len() implies #[trigger] body[i] != ' ' by {
                if body[i] == ' ' {
                    assert(body.contains(' '));
                }
            }
        }
        lemma_neat_plain(body);
    }
    assert(body.len() > 0 && body[0] == lines[0][0]) by {
        if lines.len() > 1 {
            crate::laws::stability::lemma_join_first(lines, Eol::Lf.text());
        }
    }
}

/// A preprocessor line that fits is written neatly.
pub proof fn lemma_fits_preproc(text: Seq<char>, config: Config)
    requires
        crate::laws::lines::lacks(text, '\r'),
        fits(text),
    ensures
        fits(crate::trivia::preproc_line(text, config, Eol::Lf)),
{
    let n = config.preprocessor.endif_comment_space as nat;
    crate::laws::carriage::lemma_strip_plain(text);
    crate::laws::carriage::lemma_unify_paired(text);
    if crate::laws::lines::lacks(text, '\n') {
        lemma_neat_plain(text);
    }
    match crate::text::find(text, seq!['/', '*']) {
        Some(i) => {
            crate::laws::rules::lemma_found(text, seq!['/', '*'], 0);
            assert(text.subrange(i, i + 2)[0] == text[i]);
            let head = crate::text::trim_end(text.take(i), Class::White);
            let gap = crate::text::spaces(n);
            lemma_neat_take(text, i);
            lemma_neat_trim(text.take(i), Class::White);
            crate::laws::lines::lemma_trim_end_prefix(text.take(i), Class::White);
            lemma_neat_plain(gap);
            lemma_neat_add(head, gap);
            lemma_neat_add(head + gap, text.skip(i));
            let all = head + gap + text.skip(i);
            assert(all[0] != '\n') by {
                if head.len() > 0 {
                    assert(all[0] == text[0]);
                    assert(text.len() > 0 ==> text[0] != '\n');
                } else if n > 0 {
                    assert(all[0] == ' ');
                } else {
                    assert(all[0] == text[i]);
                }
            }
        },
        None => {},
    }
}

} // verus!
