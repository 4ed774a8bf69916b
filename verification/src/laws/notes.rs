//! How comments and preprocessor lines are rewritten.

use crate::config::{Config, Eol};
use crate::layout::{Input, State};
use crate::text::Class;
use crate::token::{Token, TokenKind};
use crate::trivia::Conditional;
use vstd::prelude::*;

verus! {

// ── Line ends ────────────────────────────────────────────────────────────────

/// The text with its line ends, a carriage return and a line feed being one,
/// written as `eol`.
pub open spec fn with_ends(s: Seq<char>, eol: Eol) -> Seq<char>
    decreases s.len(),
{
    if s.len() == 0 {
        Seq::empty()
    } else if s.len() >= 2 && s[0] == '\r' && s[1] == '\n' {
        eol.text() + with_ends(s.skip(2), eol)
    } else if s[0] == '\r' || s[0] == '\n' {
        eol.text() + with_ends(s.skip(1), eol)
    } else {
        seq![s[0]] + with_ends(s.skip(1), eol)
    }
}

/// Every line end of a comment or a preprocessor line, in whatever style, is
/// written in that of the output.
pub proof fn law_line_ends_are_unified(s: Seq<char>, eol: Eol)
    ensures
        crate::trivia::unify(s, eol) == with_ends(s, eol),
    decreases s.len(),
{
    let pair = seq!['\r', '\n'];
    let cr = seq!['\r'];
    let lf = seq!['\n'];
    if s.len() == 0 {
        assert(crate::text::replace(s, pair, lf) =~= s);
        assert(crate::text::replace(s, cr, lf) =~= s);
        assert(crate::text::replace(s, lf, eol.text()) =~= s);
    } else if s.len() >= 2 && s[0] == '\r' && s[1] == '\n' {
        let b = s.skip(2);
        law_line_ends_are_unified(b, eol);
        assert(s =~= pair + b);
        crate::laws::carriage::lemma_replace_lead(b, pair, lf);
        let x = crate::text::replace(b, pair, lf);
        crate::laws::carriage::lemma_replace_behind(lf, x, cr, lf);
        crate::laws::carriage::lemma_replace_lead(
            crate::text::replace(x, cr, lf),
            lf,
            eol.text(),
        );
    } else {
        let b = s.skip(1);
        let c = seq![s[0]];
        law_line_ends_are_unified(b, eol);
        assert(s =~= c + b);
        let x = crate::text::replace(b, pair, lf);
        let y = crate::text::replace(x, cr, lf);
        assert(crate::text::replace(s, pair, lf) == c + x) by {
            if s[0] == '\r' {
                assert(!crate::text::matches_at(s, 0, pair)) by {
                    if crate::text::matches_at(s, 0, pair) {
                        assert(s.subrange(0, 2)[1] == s[1]);
                    }
                }
                crate::laws::carriage::lemma_replace_shift(s, pair, lf, 1, 0);
            } else {
                crate::laws::carriage::lemma_replace_behind(c, b, pair, lf);
            }
        }
        if s[0] == '\r' {
            crate::laws::carriage::lemma_replace_lead(x, cr, lf);
            crate::laws::carriage::lemma_replace_lead(y, lf, eol.text());
        } else {
            crate::laws::carriage::lemma_replace_behind(c, x, cr, lf);
            if s[0] == '\n' {
                crate::laws::carriage::lemma_replace_lead(y, lf, eol.text());
            } else {
                crate::laws::carriage::lemma_replace_behind(c, y, lf, eol.text());
            }
        }
    }
}

// ── Directives ───────────────────────────────────────────────────────────────

/// Behind white space stands a `#` at `h`, and behind more white space the word
/// from `a` up to `b`.
pub open spec fn has_directive(s: Seq<char>, h: int, a: int, b: int) -> bool {
    &&& 0 <= h < a < b <= s.len()
    &&& forall|i: int| 0 <= i < h ==> crate::text::is_white(#[trigger] s[i])
    &&& s[h] == '#'
    &&& forall|i: int| h < i < a ==> crate::text::is_white(#[trigger] s[i])
    &&& forall|i: int| a <= i < b ==> !crate::text::is_white(#[trigger] s[i])
    &&& b < s.len() ==> crate::text::is_white(s[b])
}

proof fn lemma_word_len(s: Seq<char>, n: int)
    requires
        0 <= n <= s.len(),
        forall|i: int| 0 <= i < n ==> !crate::text::is_white(#[trigger] s[i]),
        n < s.len() ==> crate::text::is_white(s[n]),
    ensures
        crate::trivia::word_len(s) == n,
    decreases n,
{
    if n > 0 {
        assert(!crate::text::is_white(s[0]));
        let t = s.drop_first();
        assert forall|i: int| 0 <= i < n - 1 implies !crate::text::is_white(#[trigger] t[i]) by {
            assert(t[i] == s[i + 1]);
        }
        lemma_word_len(t, n - 1);
    }
}

proof fn lemma_directive(s: Seq<char>, h: int, a: int, b: int)
    requires
        has_directive(s, h, a, b),
    ensures
        crate::trivia::directive(s) == s.subrange(a, b),
{
    crate::laws::columns::lemma_trimmed_start(s, h);
    let t = s.skip(h).drop_first();
    assert(t =~= s.skip(h + 1));
    assert forall|i: int| 0 <= i < a - h - 1 implies crate::text::is_white(#[trigger] t[i]) by {
        assert(t[i] == s[h + 1 + i]);
    }
    assert(t[a - h - 1] == s[a]);
    crate::laws::columns::lemma_trimmed_start(t, a - h - 1);
    let rest = t.skip(a - h - 1);
    assert(rest =~= s.skip(a));
    assert forall|i: int| 0 <= i < b - a implies !crate::text::is_white(#[trigger] rest[i]) by {
        assert(rest[i] == s[a + i]);
    }
    if b < s.len() {
        assert(rest[b - a] == s[b]);
    }
    lemma_word_len(rest, b - a);
    assert(rest.take(b - a) =~= s.subrange(a, b));
}

/// `#if`, `#ifdef` and `#ifndef` open a group, `#elif` and `#else` go on with
/// it, `#endif` closes it; every other directive does nothing to it.
pub proof fn law_directives_make_groups(s: Seq<char>, h: int, a: int, b: int)
    requires
        has_directive(s, h, a, b),
    ensures
        ({
            let w = s.subrange(a, b);
            crate::trivia::conditional(s) == if w == seq!['i', 'f'] || w == seq![
                'i',
                'f',
                'd',
                'e',
                'f',
            ] || w == seq!['i', 'f', 'n', 'd', 'e', 'f'] {
                Conditional::Open
            } else if w == seq!['e', 'l', 'i', 'f'] || w == seq!['e', 'l', 's', 'e'] {
                Conditional::Reopen
            } else if w == seq!['e', 'n', 'd', 'i', 'f'] {
                Conditional::Close
            } else {
                Conditional::Plain
            }
        }),
{
    lemma_directive(s, h, a, b);
    reveal_strlit("if");
    reveal_strlit("ifdef");
    reveal_strlit("ifndef");
    reveal_strlit("elif");
    reveal_strlit("else");
    reveal_strlit("endif");
    assert("if"@ =~= seq!['i', 'f']);
    assert("ifdef"@ =~= seq!['i', 'f', 'd', 'e', 'f']);
    assert("ifndef"@ =~= seq!['i', 'f', 'n', 'd', 'e', 'f']);
    assert("elif"@ =~= seq!['e', 'l', 'i', 'f']);
    assert("else"@ =~= seq!['e', 'l', 's', 'e']);
    assert("endif"@ =~= seq!['e', 'n', 'd', 'i', 'f']);
}

/// The comment behind `#endif` stands behind `endif_comment_space` spaces; a
/// line without a comment is left alone.
pub proof fn law_endif_comments_are_spaced(line: Seq<char>, n: nat, q: int)
    requires
        0 <= q <= line.len(),
        forall|i: int| 0 <= i < q ==> !#[trigger] crate::laws::columns::pair_at(line, i, '/', '*'),
        q == line.len() || (crate::laws::columns::pair_at(line, q, '/', '*') && q > 0),
    ensures
        crate::trivia::space_endif(line, n) == if q == line.len() {
            line
        } else {
            crate::laws::columns::code_of(line, q) + crate::laws::placement::blanks(n) + line.skip(q)
        },
{
    let open = seq!['/', '*'];
    assert forall|i: int| 0 <= i < q implies !#[trigger] crate::text::matches_at(line, i, open) by {
        if crate::text::matches_at(line, i, open) {
            let t = line.subrange(i, i + 2);
            assert(t[0] == line[i] && t[1] == line[i + 1]);
            assert(crate::laws::columns::pair_at(line, i, '/', '*'));
        }
    }
    if q < line.len() {
        assert(line.subrange(q, q + 2) =~= open);
        crate::laws::rules::lemma_find_first(line, open, 0, q);
        assert(crate::text::spaces(n) =~= crate::laws::placement::blanks(n));
    } else {
        lemma_find_none(line, open, 0);
    }
}

proof fn lemma_find_none(s: Seq<char>, p: Seq<char>, i: int)
    requires
        0 <= i,
        p.len() > 0,
        forall|k: int| i <= k < s.len() ==> !#[trigger] crate::text::matches_at(s, k, p),
    ensures
        crate::text::find_from(s, p, i) is None,
    decreases s.len() + 1 - i,
{
    if i + p.len() <= s.len() {
        lemma_find_none(s, p, i + 1);
    }
}

/// A directive other than `#endif` is written as it stands, but for its line
/// ends. With `pp_indent` it is indented by the groups around it: an `#else`,
/// `#elif` or `#endif` as its `#if`.
pub proof fn law_directives_are_indented_by_their_groups(
    s: State,
    config: Config,
    c: Conditional,
    line: Seq<char>,
)
    requires
        config.preprocessor.pp_indent,
        line.len() > 0 && !crate::text::is_white(line[0]),
    ensures
        ({
            let r = s.write_preproc(config, c, line);
            let n = if c == Conditional::Close || c == Conditional::Reopen {
                crate::laws::placement::less(s.depth.pp_groups, 1)
            } else {
                s.depth.pp_groups
            };
            &&& r.page.out == s.page.out + crate::laws::placement::indentation(config, n) + line
            &&& r.depth.pp_groups == if c == Conditional::Open || c == Conditional::Reopen {
                n + 1
            } else {
                n
            }
        }),
{
    let n = if c == Conditional::Close || c == Conditional::Reopen {
        crate::laws::placement::less(s.depth.pp_groups, 1)
    } else {
        s.depth.pp_groups
    };
    crate::laws::placement::lemma_indentation(config, n);
    let lead = crate::laws::placement::indentation(config, n);
    assert(crate::text::trim_start(line, Class::White) == line);
    assert(lead.len() == 0 ==> s.page.out + lead =~= s.page.out);
}

/// A directive starts a line of the output and ends it.
pub proof fn law_directives_stand_on_their_line(s: State, env: Input, t: Token, p: int)
    requires
        t.kind == TokenKind::PreprocLine,
        crate::laws::placement::settled(s),
        crate::laws::placement::no_space(s.page.out),
        !env.config.preprocessor.pp_indent,
        t.lexeme@.len() > 0 && (t.lexeme@.last() == '\n' || t.lexeme@.last() == '\r'),
        crate::trivia::conditional(with_ends(t.lexeme@, env.eol)) != Conditional::Close,
    ensures
        s.step(env, t, p).0.page.out == crate::laws::placement::next_line(s, env) + with_ends(
            t.lexeme@,
            env.eol,
        ),
{
    law_line_ends_are_unified(t.lexeme@, env.eol);
    assert(s.step(env, t, p).0 == s.on_preproc(env, t.lexeme@)) by {
        reveal(State::step);
    }
    crate::laws::gaps::lemma_flushed(s, env);
    crate::laws::placement::lemma_nl(s, env);
    lemma_ends_kept(t.lexeme@, env.eol);
}

/// The comment behind an `#endif` stands behind `endif_comment_space` spaces, and
/// the rest of the line is kept.
pub proof fn law_endifs_space_their_comment(
    s: State,
    env: Input,
    t: Token,
    p: int,
    h: int,
    a: int,
    b: int,
    q: int,
)
    requires
        t.kind == TokenKind::PreprocLine,
        crate::laws::placement::settled(s),
        crate::laws::placement::no_space(s.page.out),
        !env.config.preprocessor.pp_indent,
        forall|i: int| 0 <= i < t.lexeme@.len() ==> #[trigger] t.lexeme@[i] != '\n' && t.lexeme@[i]
            != '\r',
        has_directive(t.lexeme@, h, a, b),
        t.lexeme@.subrange(a, b) == seq!['e', 'n', 'd', 'i', 'f'],
        b <= q && crate::laws::columns::pair_at(t.lexeme@, q, '/', '*'),
        forall|i: int|
            0 <= i < q ==> !#[trigger] crate::laws::columns::pair_at(t.lexeme@, i, '/', '*'),
        t.lexeme@.last() != ' ',
    ensures
        s.step(env, t, p).0.page.out == crate::laws::placement::next_line(s, env)
            + crate::laws::columns::code_of(t.lexeme@, q) + crate::laws::placement::blanks(
            env.config.preprocessor.endif_comment_space as nat,
        ) + t.lexeme@.skip(q) + env.eol.text(),
{
    let text = t.lexeme@;
    let n = env.config.preprocessor.endif_comment_space as nat;
    law_line_ends_are_unified(text, env.eol);
    lemma_no_ends(text, env.eol);
    law_directives_make_groups(text, h, a, b);
    assert(text.subrange(a, b)[0] == 'e' && text.subrange(a, b)[1] == 'n');
    law_endif_comments_are_spaced(text, n, q);
    assert(s.step(env, t, p).0 == s.on_preproc(env, text)) by {
        reveal(State::step);
    }
    crate::laws::gaps::lemma_flushed(s, env);
    crate::laws::placement::lemma_nl(s, env);
    let line = crate::trivia::preproc_line(text, env.config, env.eol);
    let before = crate::laws::placement::next_line(s, env);
    assert(line.last() == text.last());
    let w = before + line;
    assert(w.last() == text.last());
    assert(crate::text::trim_end(w, Class::Space) == w);
    assert(crate::text::repeat(env.eol.text(), 1) =~= env.eol.text()) by {
        reveal_with_fuel(crate::text::repeat, 2);
    }
    assert(w + env.eol.text() =~= before + crate::laws::columns::code_of(text, q)
        + crate::laws::placement::blanks(n) + text.skip(q) + env.eol.text());
}

proof fn lemma_ends_kept(s: Seq<char>, eol: Eol)
    requires
        s.len() > 0,
        s.last() == '\n' || s.last() == '\r',
    ensures
        with_ends(s, eol).len() > 0,
        with_ends(s, eol).last() == '\n',
    decreases s.len(),
{
    if s.len() >= 2 && s[0] == '\r' && s[1] == '\n' {
        if s.len() > 2 {
            assert(s.skip(2).last() == s.last());
            lemma_ends_kept(s.skip(2), eol);
        } else {
            assert(with_ends(s.skip(2), eol).len() == 0);
            assert(with_ends(s, eol) =~= eol.text());
        }
    } else if s.len() > 1 {
        assert(s.skip(1).last() == s.last());
        lemma_ends_kept(s.skip(1), eol);
    } else {
        assert(with_ends(s.skip(1), eol).len() == 0);
        assert(with_ends(s, eol) =~= eol.text());
    }
}

// ── Block comments ───────────────────────────────────────────────────────────

/// A comment of one line that ends in no white space is left alone, but for
/// tabs in front of it.
pub proof fn law_one_line_comments_are_kept(s: Seq<char>, config: Config, eol: Eol)
    requires
        s.len() > 0,
        forall|i: int| 0 <= i < s.len() ==> #[trigger] s[i] != '\n' && s[i] != '\r',
        s[0] != '\t',
        !crate::text::is_white(s.last()),
    ensures
        crate::trivia::block_comment(s, config, eol) == s,
{
    law_line_ends_are_unified(s, eol);
    lemma_no_ends(s, eol);
    lemma_one_line(s, eol);
    let lines = seq![s];
    assert(!crate::trivia::double_starred(lines));
    let from = eol.text() + seq!['*', '/'];
    assert(crate::trivia::space_closing(s, eol) == s) by {
        assert(crate::laws::lines::lacks(s, from[0]));
        crate::laws::carriage::lemma_replace_none(s, from, eol.text() + seq![' ', '*', '/']);
    }
    let w = config.indent.width as nat;
    assert(crate::text::trim_start(s, Class::Tab) == s);
    assert(0 * w == 0);
    assert(crate::trivia::expand_tabs(s, w) =~= s);
    let expanded = lines.map_values(|l: Seq<char>| crate::trivia::expand_tabs(l, w));
    assert(expanded =~= lines);
    assert(crate::text::trim_end(s, Class::White) == s);
    let trimmed = lines.map_values(|l: Seq<char>| crate::text::trim_end(l, Class::White));
    assert(trimmed =~= lines);
}

proof fn lemma_no_ends(s: Seq<char>, eol: Eol)
    requires
        forall|i: int| 0 <= i < s.len() ==> #[trigger] s[i] != '\n' && s[i] != '\r',
    ensures
        with_ends(s, eol) == s,
    decreases s.len(),
{
    if s.len() > 0 {
        let t = s.skip(1);
        assert(s[0] != '\n');
        assert forall|i: int| 0 <= i < t.len() implies #[trigger] t[i] != '\n' && t[i] != '\r' by {
            assert(t[i] == s[i + 1]);
        }
        lemma_no_ends(t, eol);
        assert(seq![s[0]] + t =~= s);
    }
}

/// A text without line ends is one line.
proof fn lemma_one_line(s: Seq<char>, eol: Eol)
    requires
        forall|i: int| 0 <= i < s.len() ==> #[trigger] s[i] != '\n' && s[i] != '\r',
    ensures
        crate::text::split(s, eol.text()) == seq![s],
        crate::text::join(seq![s], eol.text()) == s,
{
    let lines = seq![s];
    assert(crate::laws::carriage::all_within(lines)) by {
        assert forall|k: int| 0 <= k < lines.len() implies crate::laws::lines::one_line(
            #[trigger] lines[k],
        ) by {}
    }
    crate::laws::carriage::lemma_split_joined(lines, eol);
}

/// Tabs in front of a line are written as the width of an indentation each,
/// where spaces indent.
pub proof fn law_leading_tabs_are_expanded(line: Seq<char>, n: int, width: nat)
    requires
        0 <= n <= line.len(),
        forall|i: int| 0 <= i < n ==> #[trigger] line[i] == '\t',
        n < line.len() ==> line[n] != '\t',
    ensures
        crate::trivia::expand_tabs(line, width) == crate::laws::placement::blanks(
            (n * width) as nat,
        ) + line.skip(n),
{
    lemma_tabs(line, n);
    assert(line.len() - line.skip(n).len() == n);
    assert(crate::text::spaces((n * width) as nat) =~= crate::laws::placement::blanks(
        (n * width) as nat,
    ));
}

proof fn lemma_tabs(line: Seq<char>, n: int)
    requires
        0 <= n <= line.len(),
        forall|i: int| 0 <= i < n ==> #[trigger] line[i] == '\t',
        n < line.len() ==> line[n] != '\t',
    ensures
        crate::text::trim_start(line, Class::Tab) == line.skip(n),
    decreases n,
{
    if n == 0 {
        assert(line.skip(0) =~= line);
    } else {
        assert(line[0] == '\t');
        let t = line.drop_first();
        assert forall|i: int| 0 <= i < n - 1 implies #[trigger] t[i] == '\t' by {
            assert(t[i] == line[i + 1]);
        }
        lemma_tabs(t, n - 1);
        assert(t.skip(n - 1) =~= line.skip(n));
    }
}

/// The line starts with `**`, or with `*/`.
pub open spec fn starts_with_star(line: Seq<char>, c: char) -> bool {
    line.len() >= 2 && line[0] == '*' && line[1] == c
}

/// A line of a comment as it is written: a `*/` at the start of a line is moved
/// behind a space where that is wanted, the tabs in front are expanded where
/// spaces indent, and the white space at the end is cut off.
pub open spec fn rewritten(line: Seq<char>, moves: bool, config: Config) -> Seq<char> {
    let closed = if moves && starts_with_star(line, '/') {
        seq![' '] + line
    } else {
        line
    };
    let expanded = if config.indent.style is Spaces {
        crate::trivia::expand_tabs(closed, config.indent.width as nat)
    } else {
        closed
    };
    crate::text::trim_end(expanded, Class::White)
}

/// The lines of a comment with a space in it are rewritten one by one. With
/// `normalize_block_comment_closing` a `*/` at the start of a line gets a space
/// in front, unless a line behind the first starts with `**`.
pub proof fn law_comment_lines_are_rewritten(lines: Seq<Seq<char>>, config: Config, eol: Eol)
    requires
        lines.len() > 0,
        crate::laws::carriage::all_within(lines),
        exists|k: int| 0 <= k < lines.len() && (#[trigger] lines[k]).contains(' '),
    ensures
        ({
            let starred = exists|i: int|
                1 <= i < lines.len() && starts_with_star(#[trigger] lines[i], '*');
            let moves = config.comments.normalize_block_comment_closing && !starred;
            crate::trivia::block_comment(crate::text::join(lines, Eol::Lf.text()), config, eol)
                == crate::text::join(
                Seq::new(lines.len(), |k: int| rewritten(lines[k], moves && k > 0, config)),
                eol.text(),
            )
        }),
{
    let starred = exists|i: int| 1 <= i < lines.len() && starts_with_star(#[trigger] lines[i], '*');
    let moves = config.comments.normalize_block_comment_closing && !starred;
    let text = crate::text::join(lines, Eol::Lf.text());
    crate::laws::carriage::lemma_join_returns(lines);
    crate::laws::carriage::lemma_split_joined(lines, Eol::Lf);
    crate::laws::carriage::lemma_comment_lines(text, config, eol);
    assert(crate::trivia::double_starred(lines) == starred) by {
        assert forall|i: int| 0 <= i < lines.len() implies crate::trivia::starts_double_star(
            lines[i],
        ) == starts_with_star(#[trigger] lines[i], '*') by {
            lemma_star(lines[i], '*');
        }
        if starred {
            let i = choose|i: int|
                1 <= i < lines.len() && starts_with_star(#[trigger] lines[i], '*');
            assert(crate::trivia::starts_double_star(lines[i]));
        }
        if crate::trivia::double_starred(lines) {
            let i = choose|i: int|
                1 <= i < lines.len() && #[trigger] crate::trivia::starts_double_star(lines[i]);
            assert(starts_with_star(lines[i], '*'));
        }
    }
    let closed = if moves {
        crate::laws::carriage::closed_lines(lines)
    } else {
        lines
    };
    let tabs = |l: Seq<char>| crate::trivia::expand_tabs(l, config.indent.width as nat);
    let expanded = if config.indent.style is Spaces {
        closed.map_values(tabs)
    } else {
        closed
    };
    let h = choose|k: int| 0 <= k < lines.len() && (#[trigger] lines[k]).contains(' ');
    assert(closed[h].contains(' ')) by {
        lemma_behind(lines[h], ' ');
    }
    assert(expanded[h].contains(' ')) by {
        if config.indent.style is Spaces {
            lemma_space_kept(closed[h], config.indent.width as nat);
            assert(expanded[h] == tabs(closed[h]));
        }
    }
    assert(crate::laws::carriage::some_holds(expanded, ' '));
    let goal = Seq::new(lines.len(), |k: int| rewritten(lines[k], moves && k > 0, config));
    let all = crate::laws::carriage::comment_lines(text, config);
    assert(all == expanded.map_values(|l: Seq<char>| crate::text::trim_end(l, Class::White)));
    assert forall|k: int| 0 <= k < lines.len() implies all[k] == #[trigger] goal[k] by {
        lemma_star(lines[k], '/');
        assert(all[k] == crate::text::trim_end(expanded[k], Class::White));
    }
    assert(all =~= goal);
}

proof fn lemma_star(line: Seq<char>, c: char)
    ensures
        crate::text::begins_with(line, seq!['*', c]) == starts_with_star(line, c),
{
    if crate::text::begins_with(line, seq!['*', c]) {
        assert(line.subrange(0, 2)[0] == '*' && line.subrange(0, 2)[1] == c);
    }
    if starts_with_star(line, c) {
        assert(line.subrange(0, 2) =~= seq!['*', c]);
    }
}

proof fn lemma_behind(line: Seq<char>, c: char)
    requires
        line.contains(c),
    ensures
        (seq![' '] + line).contains(c),
{
    let i = choose|i: int| 0 <= i < line.len() && line[i] == c;
    assert((seq![' '] + line)[i + 1] == c);
}

proof fn lemma_space_kept(line: Seq<char>, width: nat)
    requires
        line.contains(' '),
    ensures
        crate::trivia::expand_tabs(line, width).contains(' '),
{
    let rest = crate::text::trim_start(line, Class::Tab);
    lemma_space_behind(line);
    let i = choose|i: int| 0 <= i < rest.len() && rest[i] == ' ';
    let lead = crate::text::spaces(((line.len() - rest.len()) * width) as nat);
    assert(crate::trivia::expand_tabs(line, width)[lead.len() + i] == ' ');
}

proof fn lemma_space_behind(line: Seq<char>)
    requires
        line.contains(' '),
    ensures
        crate::text::trim_start(line, Class::Tab).contains(' '),
    decreases line.len(),
{
    if line[0] == '\t' {
        let i = choose|i: int| 0 <= i < line.len() && line[i] == ' ';
        assert(line.drop_first()[i - 1] == ' ');
        lemma_space_behind(line.drop_first());
    }
}

/// A block comment stands behind a space on the line of the code before it, or
/// behind the indentation of its level; the line ends behind it where that of
/// the source does.
pub proof fn law_block_comments_are_placed(s: State, env: Input, t: Token, p: int)
    requires
        t.kind == TokenKind::CommentBlock,
        crate::laws::gaps::mid_line(s) || crate::laws::placement::fresh(s),
        ({
            let text = crate::trivia::block_comment(t.lexeme@, env.config, env.eol);
            text.len() > 0 && text.last() != ' '
        }),
    ensures
        s.step(env, t, p).0.page.out == s.page.out + (if s.page.at_line_start {
            crate::laws::placement::indentation(env.config, s.depth.indent)
        } else {
            seq![' ']
        }) + crate::trivia::block_comment(t.lexeme@, env.config, env.eol)
            + if crate::laws::statements::at(env.toks, p, TokenKind::Newline) {
            env.eol.text()
        } else {
            Seq::empty()
        },
{
    let text = crate::trivia::block_comment(t.lexeme@, env.config, env.eol);
    assert(s.step(env, t, p).0 == s.on_block_comment(env, t.lexeme@, p)) by {
        reveal(State::step);
    }
    crate::laws::gaps::lemma_flushed(s, env);
    let w = s.lead_in(env.config, true).write(text);
    lemma_led_text(s, env, text);
    crate::laws::placement::lemma_nl(w, env);
    assert(w.page.out + Seq::<char>::empty() =~= w.page.out);
}

/// A text behind its indentation or a space.
proof fn lemma_led_text(s: State, env: Input, text: Seq<char>)
    requires
        crate::laws::gaps::mid_line(s) || crate::laws::placement::fresh(s),
        text.len() > 0 && text.last() != ' ',
    ensures
        s.lead_in(env.config, true).write(text).page.out == s.page.out + (if s.page.at_line_start {
            crate::laws::placement::indentation(env.config, s.depth.indent)
        } else {
            seq![' ']
        }) + text,
        crate::laws::placement::no_space(s.lead_in(env.config, true).write(text).page.out),
{
    if s.page.at_line_start {
        crate::laws::placement::lemma_start(s, env.config);
        reveal(State::lead_in);
    } else {
        crate::laws::gaps::lemma_led(s, env, true, text);
    }
}

} // verus!
