//! Where lines start and end: indentation, braces and labels.

use crate::config::{BraceStyle, Config, Eol, ExternCBrace, IndentStyle};
use crate::layout::{BraceCtx, Input, State};
use crate::token::{Token, TokenKind};
use vstd::prelude::*;

verus! {

// ── Lines ────────────────────────────────────────────────────────────────────

/// The indentation of level `n`: `n` times `width` spaces, or `n` tabs.
pub open spec fn indentation(config: Config, n: nat) -> Seq<char> {
    match config.indent.style {
        IndentStyle::Spaces => Seq::new(n * config.indent.width as nat, |i: int| ' '),
        IndentStyle::Tabs => Seq::new(n, |i: int| '\t'),
    }
}

pub proof fn lemma_indentation(config: Config, n: nat)
    ensures
        crate::text::repeat(config.indent_unit(), n) == indentation(config, n),
    decreases n,
{
    let w = config.indent.width as nat;
    if n == 0 {
        assert(0 * w == 0);
        assert(crate::text::repeat(config.indent_unit(), n) =~= indentation(config, n));
    } else {
        let m = (n - 1) as nat;
        lemma_indentation(config, m);
        assert(n * w == m * w + w) by (nonlinear_arith)
            requires
                n == m + 1,
        ;
        assert(crate::text::repeat(config.indent_unit(), n) =~= indentation(config, n));
    }
}

/// `a - b`, or zero.
pub open spec fn less(a: nat, b: nat) -> nat {
    if a >= b {
        (a - b) as nat
    } else {
        0
    }
}

/// No line end is owed to the next token.
pub open spec fn settled(s: State) -> bool {
    s.blank_lines == 0 && !s.decls.owe_blank
}

/// A new line was begun and nothing stands on it; no parenthesis and no
/// assignment is open.
pub open spec fn fresh(s: State) -> bool {
    settled(s) && s.page.at_line_start && s.parens.len() == 0 && s.assign is None
}

/// The text behind the end of its line, if it is begun.
pub open spec fn next_line(s: State, env: Input) -> Seq<char> {
    if s.page.at_line_start {
        s.page.out
    } else {
        s.page.out + env.eol.text()
    }
}

/// A text that ends in no space.
pub open spec fn no_space(out: Seq<char>) -> bool {
    out.len() > 0 ==> out.last() != ' '
}

pub proof fn lemma_nl(s: State, env: Input)
    requires
        no_space(s.page.out),
    ensures
        s.nl(env.eol).page.out == s.page.out + env.eol.text(),
        s.nl(env.eol).page.at_line_start,
{
    assert(crate::text::trim_end(s.page.out, crate::text::Class::Space) == s.page.out);
    assert(crate::text::repeat(env.eol.text(), 1) =~= env.eol.text()) by {
        reveal_with_fuel(crate::text::repeat, 2);
    }
}

pub proof fn lemma_start(s: State, config: Config)
    requires
        s.parens.len() == 0,
        s.assign is None,
    ensures
        s.start_line(config).page.out == s.page.out + indentation(config, s.depth.indent),
        s.start_line(config).depth == s.depth,
        s.start_line(config).marks == s.marks,
        s.start_line(config).braces == s.braces,
        s.start_line(config).cases == s.cases,
        s.start_line(config).decls == s.decls,
        s.start_line(config).parens == s.parens,
        s.start_line(config).assign == s.assign,
        s.start_line(config).blank_lines == s.blank_lines,
{
    reveal(State::start_line);
    lemma_indentation(config, s.depth.indent);
}

pub proof fn lemma_text_add(a: Seq<char>, b: Seq<char>, t: Seq<char>)
    ensures
        t.len() == 0 ==> a + b + t == a + b && a + t == a,
{
    if t.len() == 0 {
        assert(a + b + t =~= a + b);
        assert(a + t =~= a);
    }
}

/// A line starts with the indentation of its level.
pub proof fn law_lines_are_indented(s: State, env: Input, t: Token, p: int)
    requires
        fresh(s),
        crate::laws::gaps::is_atom(t.kind) || t.kind == TokenKind::Keyword || t.kind
            == TokenKind::KwIf || t.kind == TokenKind::KwFor || t.kind == TokenKind::KwWhile
            || t.kind == TokenKind::KwReturn || t.kind == TokenKind::KwStruct || t.kind
            == TokenKind::KwSwitch || t.kind == TokenKind::KwDo || t.kind == TokenKind::KwElse
            || t.kind == TokenKind::KwBreak || t.kind == TokenKind::KwContinue || t.kind
            == TokenKind::KwGoto || t.kind == TokenKind::KwThrow || t.kind == TokenKind::KwTry
            || t.kind == TokenKind::KwTypedef || t.kind == TokenKind::KwTemplate || t.kind
            == TokenKind::KwUsing || t.kind == TokenKind::KwNamespace || t.kind
            == TokenKind::KwClass || t.kind == TokenKind::KwEnum || t.kind == TokenKind::KwUnion
            || t.kind == TokenKind::KwDelete || t.kind == TokenKind::KwCatch || t.kind
            == TokenKind::KwNew,
        t.kind == TokenKind::Ident ==> !crate::laws::statements::at(
            env.toks,
            crate::laws::statements::past_layout(env.toks, p),
            TokenKind::Colon,
        ),
    ensures
        s.step(env, t, p).0.page.out == s.page.out + indentation(env.config, s.depth.indent)
            + t.lexeme@,
{
    crate::laws::gaps::lemma_taken(s, env, t, p);
    crate::laws::gaps::lemma_flushed(s, env);
    crate::laws::gaps::lemma_layout(env.toks, p);
    lemma_start(s, env.config);
    lemma_start_spaced(s, env, t.kind, t.lexeme@);
    assert(s.step_operand(env, t, p) == s.on_other(env, t.kind, t.lexeme@)
        || crate::laws::gaps::is_word(t.kind)) by {
        reveal(State::step_operand);
    }
    assert(t.kind != TokenKind::KwSwitch && t.kind != TokenKind::KwClass && t.kind
        != TokenKind::KwStruct && t.kind != TokenKind::KwUnion && t.kind != TokenKind::KwEnum
        ==> s.step_operand(env, t, p) == s.on_other(env, t.kind, t.lexeme@)) by {
        reveal(State::step_operand);
    }
}

pub proof fn lemma_start_spaced(s: State, env: Input, k: TokenKind, text: Seq<char>)
    requires
        fresh(s),
    ensures
        s.write_spaced(env, k, text).page.out == s.page.out + indentation(
            env.config,
            s.depth.indent,
        ) + text,
{
    reveal(State::write_spaced);
    reveal(State::lead_in);
    crate::laws::gaps::lemma_flushed(s, env);
    lemma_start(s, env.config);
    lemma_text_add(s.page.out, indentation(env.config, s.depth.indent), text);
}

// ── Continuation lines ───────────────────────────────────────────────────────

/// The last character, white space aside.
pub open spec fn last_solid(out: Seq<char>) -> Option<char>
    decreases out.len(),
{
    if out.len() == 0 {
        None
    } else if crate::text::is_white(out.last()) {
        last_solid(out.drop_last())
    } else {
        Some(out.last())
    }
}

pub proof fn lemma_last_solid(s: State, c: char)
    ensures
        s.page.tail_is(c) == (last_solid(s.page.out) == Some(c)),
    decreases s.page.out.len(),
{
    let out = s.page.out;
    if out.len() > 0 && crate::text::is_white(out.last()) {
        let t = State {
            page: crate::layout::PageView { out: out.drop_last(), ..s.page },
            ..s
        };
        lemma_last_solid(t, c);
    }
}

/// `n` spaces.
pub open spec fn blanks(n: nat) -> Seq<char> {
    Seq::new(n, |i: int| ' ')
}

/// A line inside of parentheses starts below the character behind the innermost
/// `(`, or, where that `(` ended its line, at the column set for that.
pub proof fn law_arguments_align_to_their_paren(s: State, env: Input, t: Token, p: int)
    requires
        settled(s),
        s.page.at_line_start,
        s.parens.len() > 0,
        crate::laws::gaps::is_atom(t.kind) || t.kind == TokenKind::Keyword,
    ensures
        ({
            let top = s.parens.last();
            let col = if top.eol || last_solid(s.page.out) == Some('(') {
                top.eol_col
            } else {
                top.col
            };
            s.step(env, t, p).0.page.out == s.page.out + blanks(col) + t.lexeme@
        }),
{
    crate::laws::gaps::lemma_taken(s, env, t, p);
    crate::laws::gaps::lemma_flushed(s, env);
    lemma_last_solid(s, '(');
    assert(s.step_operand(env, t, p) == s.on_other(env, t.kind, t.lexeme@)) by {
        reveal(State::step_operand);
    }
    reveal(State::write_spaced);
    reveal(State::lead_in);
    reveal(State::start_line);
    let top = s.parens.last();
    let col = if top.eol || last_solid(s.page.out) == Some('(') {
        top.eol_col
    } else {
        top.col
    };
    assert(crate::text::spaces(col) =~= blanks(col));
    lemma_text_add(s.page.out, blanks(col), t.lexeme@);
}

/// What a new line starts with: inside of parentheses the column of the innermost
/// one, in an assignment that of its right-hand side, else the indentation of
/// its level.
pub open spec fn lead(s: State, env: Input) -> Seq<char> {
    if s.parens.len() > 0 {
        let top = s.parens.last();
        blanks(
            if top.eol || last_solid(s.page.out) == Some('(') {
                top.eol_col
            } else {
                top.col
            },
        )
    } else if s.assign is Some {
        let a = s.assign->0;
        if a.eol || last_solid(s.page.out) == Some('=') {
            indentation(env.config, s.depth.indent + 1)
        } else {
            blanks(a.col)
        }
    } else {
        indentation(env.config, s.depth.indent)
    }
}

pub proof fn lemma_lead(s: State, env: Input)
    ensures
        s.start_line(env.config).page.out == s.page.out + lead(s, env),
{
    reveal(State::start_line);
    lemma_last_solid(s, '(');
    lemma_last_solid(s, '=');
    lemma_indentation(env.config, s.depth.indent);
    lemma_indentation(env.config, s.depth.indent + 1);
    if s.parens.len() > 0 {
        let top = s.parens.last();
        assert(crate::text::spaces(top.eol_col) =~= blanks(top.eol_col));
        assert(crate::text::spaces(top.col) =~= blanks(top.col));
    } else if s.assign is Some {
        let a = s.assign->0;
        assert(crate::text::spaces(a.col) =~= blanks(a.col));
    }
}

/// `n` line ends.
pub open spec fn line_ends(eol: Eol, n: nat) -> Seq<char>
    decreases n,
{
    if n == 0 {
        Seq::empty()
    } else {
        line_ends(eol, (n - 1) as nat) + eol.text()
    }
}

pub proof fn lemma_line_ends(eol: Eol, n: nat)
    ensures
        crate::text::repeat(eol.text(), n) == line_ends(eol, n),
    decreases n,
{
    if n > 0 {
        lemma_line_ends(eol, (n - 1) as nat);
    }
}

pub proof fn lemma_solid_kept(a: Seq<char>, eol: Eol, n: nat)
    ensures
        last_solid(a + line_ends(eol, n)) == last_solid(a),
    decreases n,
{
    let b = a + line_ends(eol, n);
    if n == 0 {
        assert(b =~= a);
    } else {
        let c = a + line_ends(eol, (n - 1) as nat);
        lemma_solid_kept(a, eol, (n - 1) as nat);
        assert(b =~= c + eol.text());
        reveal_with_fuel(last_solid, 3);
        if eol is Lf {
            assert(b.drop_last() =~= c);
        } else {
            assert(b.drop_last().drop_last() =~= c);
        }
    }
}

/// The line ends that are due before the next token: those of the source, and
/// behind the declarations as many as make an empty line, but no more than
/// `max_blank_lines`.
pub open spec fn due(s: State, env: Input) -> nat {
    let least: nat = if !s.decls.owe_blank {
        0
    } else if s.page.at_line_start {
        1
    } else {
        2
    };
    let n = if s.blank_lines < least {
        least
    } else {
        s.blank_lines
    };
    if n <= env.config.newlines.max_blank_lines {
        n
    } else {
        env.config.newlines.max_blank_lines as nat
    }
}

/// A token that starts a line, or in front of which the source has a line end,
/// stands behind the line ends that are due and what its line starts with. No
/// space stands before it.
pub proof fn law_new_lines_start_with_their_lead(s: State, env: Input, t: Token, p: int)
    requires
        no_space(s.page.out),
        s.page.at_line_start || due(s, env) > 0,
        crate::laws::gaps::is_plain(t.kind) || t.kind == TokenKind::LParen || t.kind
            == TokenKind::Comma,
        t.kind == TokenKind::LParen ==> t.lexeme@ == seq!['('],
        t.kind == TokenKind::Comma ==> t.lexeme@ == seq![','] && !(s.braces.len() > 0
            && s.braces.last().large_init),
        t.kind != TokenKind::Lt && t.kind != TokenKind::Gt && t.kind != TokenKind::GtGt && t.kind
            != TokenKind::KwCase && t.kind != TokenKind::KwDefault && t.kind != TokenKind::KwPublic
            && t.kind != TokenKind::KwPrivate && t.kind != TokenKind::KwProtected,
        t.kind == TokenKind::Star || t.kind == TokenKind::Amp ==> !s.at_declarator(env, p),
        t.kind == TokenKind::Ident ==> !crate::laws::statements::at(
            env.toks,
            crate::laws::statements::past_layout(env.toks, p),
            TokenKind::Colon,
        ),
    ensures
        s.step(env, t, p).0.page.out == s.page.out + line_ends(env.eol, due(s, env)) + lead(s, env)
            + t.lexeme@,
{
    let f = s.flush(env.config, env.eol);
    lemma_flush_due(s, env);
    lemma_lead(f, env);
    lemma_solid_kept(s.page.out, env.eol, due(s, env));
    assert(lead(f, env) == lead(s, env));
    crate::laws::gaps::lemma_layout(env.toks, p);
    assert(forall|wanted: bool| #[trigger] f.lead_in(env.config, wanted) == f.start_line(env.config))
        by {
        reveal(State::lead_in);
    }
    let l = f.start_line(env.config);
    assert(t.lexeme@.len() == 0 ==> l.page.out + t.lexeme@ =~= l.page.out);
    assert(l.write(t.lexeme@).page.out == l.page.out + t.lexeme@);
    if t.kind == TokenKind::LParen {
        lemma_paren_taken(s, env, t, p);
        let w = f.spaces_paren(env, p);
        assert(f.lead_in(env.config, w) == l);
    } else if t.kind == TokenKind::Comma {
        assert(s.step(env, t, p).0 == s.on_comma(env, p, t.span.line)) by {
            reveal(State::step);
        }
        assert(f.lead_in(env.config, false) == l);
        assert(l.braces == s.braces) by {
            reveal(State::start_line);
        }
    } else {
        crate::laws::gaps::lemma_taken(s, env, t, p);
        lemma_plain_start(s, env, t, p);
    }
}

proof fn lemma_plain_start(s: State, env: Input, t: Token, p: int)
    requires
        crate::laws::gaps::is_plain(t.kind),
        t.kind != TokenKind::Lt && t.kind != TokenKind::Gt && t.kind != TokenKind::GtGt && t.kind
            != TokenKind::KwCase && t.kind != TokenKind::KwDefault && t.kind != TokenKind::KwPublic
            && t.kind != TokenKind::KwPrivate && t.kind != TokenKind::KwProtected,
        t.kind == TokenKind::Star || t.kind == TokenKind::Amp ==> !s.at_declarator(env, p),
        !s.is_goto_label(env, t.kind, p),
        s.flush(env.config, env.eol).page.at_line_start,
    ensures
        s.step(env, t, p).0.page.out == s.flush(env.config, env.eol).start_line(env.config).write(
            t.lexeme@,
        ).page.out,
{
    crate::laws::gaps::lemma_taken(s, env, t, p);
    let f = s.flush(env.config, env.eol);
    let k = t.kind;
    assert(s.step_operand(env, t, p) == if crate::laws::gaps::is_sign(k) {
        s.on_sign(env, k, t.lexeme@)
    } else if crate::laws::gaps::is_assignment(k) {
        s.on_assign(env, k, t.lexeme@)
    } else {
        s.on_other(env, k, t.lexeme@)
    }) by {
        reveal(State::step_operand);
    }
    let w = f.needs_space(env.config, k);
    assert(f.lead_in(env.config, w) == f.start_line(env.config)) by {
        reveal(State::lead_in);
    }
    assert(s.write_spaced(env, k, t.lexeme@) == f.start_line(env.config).write(t.lexeme@)) by {
        reveal(State::write_spaced);
    }
}

pub proof fn lemma_flush_due(s: State, env: Input)
    requires
        no_space(s.page.out),
        s.page.at_line_start || due(s, env) > 0,
    ensures
        ({
            let f = s.flush(env.config, env.eol);
            &&& f.page.out == s.page.out + line_ends(env.eol, due(s, env))
            &&& f.page.at_line_start
            &&& f.parens == s.parens && f.assign == s.assign && f.depth == s.depth && f.marks
                == s.marks && f.braces == s.braces
        }),
{
    reveal(State::flush);
    lemma_line_ends(env.eol, s.owed_lines(env.config));
    assert(s.owed_lines(env.config) == due(s, env));
    assert(crate::text::trim_end(s.page.out, crate::text::Class::Space) == s.page.out);
    assert(s.page.out + line_ends(env.eol, 0) =~= s.page.out);
}

/// How many characters stand behind the last line feed.
pub open spec fn column(out: Seq<char>) -> nat
    decreases out.len(),
{
    if out.len() == 0 || out.last() == '\n' {
        0
    } else {
        column(out.drop_last()) + 1
    }
}

pub proof fn lemma_column(out: Seq<char>)
    ensures
        crate::text::tail_len(out) == column(out),
    decreases out.len(),
{
    if out.len() > 0 && out.last() != '\n' {
        lemma_column(out.drop_last());
    }
}

/// A `(` notes the column behind it, and one more where a space is to follow
/// it; for the case that it ends its line, one indentation per parenthesis
/// opened on the line.
pub proof fn law_parens_note_their_column(s: State, env: Input, t: Token, p: int)
    requires
        t.kind == TokenKind::LParen && t.lexeme@ == seq!['('],
        s.line_parens <= s.parens.len(),
        !s.page.at_line_start,
        settled(s),
    ensures
        ({
            let r = s.step(env, t, p).0;
            let spaced = crate::laws::gaps::asks(
                env.config.spacing.space_inside_parens,
                crate::laws::statements::at(env.toks, p, TokenKind::Whitespace),
            );
            &&& r.parens.len() == s.parens.len() + 1
            &&& r.parens.last().col == column(r.page.out) + if spaced {
                1nat
            } else {
                0nat
            }
            &&& !r.parens.last().eol
            &&& r.parens.last().eol_col == s.page.line_indent + (s.parens.len() + 1
                - s.line_parens) * env.config.indent.width as nat
            &&& r.parens.drop_last() == s.parens
        }),
{
    lemma_paren_taken(s, env, t, p);
    crate::laws::gaps::lemma_flushed(s, env);
    reveal(State::lead_in);
    lemma_column(s.step(env, t, p).0.page.out);
    assert(s.step(env, t, p).0.parens.drop_last() =~= s.parens);
}

proof fn lemma_paren_taken(s: State, env: Input, t: Token, p: int)
    ensures
        t.kind == TokenKind::LParen ==> s.step(env, t, p).0 == s.on_lparen(env, p),
        t.kind == TokenKind::RParen ==> s.step(env, t, p).0 == s.on_rparen(env),
{
    reveal(State::step);
}

/// A `)` closes the innermost `(`, and tells whether that opened a cast.
pub proof fn law_parens_are_closed(s: State, env: Input, t: Token, p: int)
    requires
        t.kind == TokenKind::RParen && t.lexeme@ == seq![')'],
        !s.page.at_line_start,
        settled(s),
        s.parens.len() > 0,
    ensures
        s.step(env, t, p).0.parens == s.parens.drop_last(),
        s.step(env, t, p).0.marks.after_cast == s.parens.last().cast,
        s.step(env, t, p).0.marks.prev == Some(TokenKind::RParen),
{
    lemma_paren_taken(s, env, t, p);
    crate::laws::gaps::lemma_flushed(s, env);
}

/// The right-hand side of an assignment goes on below its start, one space
/// behind the operator; behind an `=` that ends its line, one level deeper than
/// the statement.
pub proof fn law_assignments_align(s: State, env: Input, t: Token, p: int)
    requires
        settled(s),
    ensures
        crate::laws::gaps::is_assignment(t.kind) && !s.page.at_line_start && s.parens.len() == 0
            && s.depth.brackets == 0 && s.assign is None ==> {
            let r = s.step(env, t, p).0;
            &&& r.assign is Some
            &&& (r.assign->0).col == column(r.page.out)
                + if env.config.spacing.space_around_binary_ops {
                1nat
            } else {
                0nat
            }
            &&& !(r.assign->0).eol
        },
        crate::laws::gaps::is_atom(t.kind) && s.page.at_line_start && s.parens.len() == 0
            && s.assign is Some && !(t.kind == TokenKind::Ident && crate::laws::statements::at(
            env.toks,
            crate::laws::statements::past_layout(env.toks, p),
            TokenKind::Colon,
        )) ==> {
            let a = s.assign->0;
            let lead = if a.eol || last_solid(s.page.out) == Some('=') {
                indentation(env.config, s.depth.indent + 1)
            } else {
                blanks(a.col)
            };
            s.step(env, t, p).0.page.out == s.page.out + lead + t.lexeme@
        },
{
    crate::laws::gaps::lemma_flushed(s, env);
    crate::laws::gaps::lemma_layout(env.toks, p);
    if crate::laws::gaps::is_assignment(t.kind) && !s.page.at_line_start {
        crate::laws::gaps::lemma_taken(s, env, t, p);
        crate::laws::gaps::lemma_operand_taken(s, env, t, p);
        reveal(State::write_spaced);
        reveal(State::lead_in);
        lemma_column(s.write_spaced(env, t.kind, t.lexeme@).page.out);
    } else if crate::laws::gaps::is_atom(t.kind) && s.page.at_line_start && s.parens.len() == 0
        && s.assign is Some && !s.is_goto_label(env, t.kind, p) {
        crate::laws::gaps::lemma_taken(s, env, t, p);
        lemma_aligned(s, env, t, p);
    }
}

proof fn lemma_aligned(s: State, env: Input, t: Token, p: int)
    requires
        settled(s),
        crate::laws::gaps::is_atom(t.kind),
        s.page.at_line_start,
        s.parens.len() == 0,
        s.assign is Some,
        !s.is_goto_label(env, t.kind, p),
    ensures
        ({
            let a = s.assign->0;
            let lead = if a.eol || last_solid(s.page.out) == Some('=') {
                indentation(env.config, s.depth.indent + 1)
            } else {
                blanks(a.col)
            };
            s.step_operand(env, t, p).page.out == s.page.out + lead + t.lexeme@
        }),
{
    crate::laws::gaps::lemma_flushed(s, env);
    assert(s.step_operand(env, t, p) == s.on_other(env, t.kind, t.lexeme@)) by {
        reveal(State::step_operand);
    }
    lemma_last_solid(s, '=');
    reveal(State::write_spaced);
    reveal(State::lead_in);
    reveal(State::start_line);
    let a = s.assign->0;
    lemma_indentation(env.config, s.depth.indent + 1);
    assert(crate::text::spaces(a.col) =~= blanks(a.col));
    let lead = if a.eol || last_solid(s.page.out) == Some('=') {
        indentation(env.config, s.depth.indent + 1)
    } else {
        blanks(a.col)
    };
    lemma_text_add(s.page.out, lead, t.lexeme@);
}

// ── Closing braces ───────────────────────────────────────────────────────────

/// What the innermost open `{` opened.
pub open spec fn innermost(s: State) -> BraceCtx {
    if s.braces.len() > 0 {
        s.braces.last().ctx
    } else {
        BraceCtx::Other
    }
}

/// The level at which the `}` of the innermost body stands: that of the line
/// that opened it.
pub open spec fn outer_level(s: State, config: Config) -> nat {
    let ctx = innermost(s);
    let body: nat = if ctx == BraceCtx::Linkage {
        0
    } else {
        1
    };
    let case: nat = if ctx == BraceCtx::Switch && config.indent.indent_switch_case && s.cases.len()
        > 0 && s.cases.last() {
        1
    } else {
        0
    };
    less(s.depth.indent, body + case)
}

/// A `}` is written on a line of its own at the level outside of its body; what
/// follows it on the line is `tail`.
pub open spec fn closes_with(s: State, env: Input, t: Token, p: int, tail: Seq<char>) -> bool {
    s.step(env, t, p).0.page.out == next_line(s, env) + indentation(
        env.config,
        outer_level(s, env.config),
    ) + seq!['}'] + tail
}

/// The first token behind `p`, layout aside.
pub open spec fn next_kind(env: Input, p: int) -> Option<TokenKind> {
    let i = crate::laws::statements::past_layout(env.toks, p);
    if 0 <= i < env.toks.len() {
        Some(env.toks[i].kind)
    } else {
        None
    }
}

/// A comment of source line `line` follows.
pub open spec fn comment_shares(env: Input, p: int, line: u32) -> bool {
    let c = crate::laws::statements::past_blanks(env.toks, p);
    (crate::laws::statements::at(env.toks, c, TokenKind::CommentLine)
        || crate::laws::statements::at(env.toks, c, TokenKind::CommentBlock))
        && env.toks[c].span.line == line
}

/// A `}` can be closed here: no line end is owed, no parenthesis is open.
pub open spec fn can_close(s: State, t: Token) -> bool {
    &&& settled(s) && s.parens.len() == 0 && no_space(s.page.out)
    &&& t.kind == TokenKind::RBrace && t.lexeme@ == seq!['}']
}

/// The step of a `}`.
proof fn lemma_closing(s: State, env: Input, t: Token, p: int) -> (b: State)
    requires
        can_close(s, t),
    ensures
        b.page.out == next_line(s, env) + indentation(env.config, outer_level(s, env.config))
            + seq!['}'],
        !b.page.at_line_start,
        !b.page.suppress_space,
        s.step(env, t, p).0.page == b.post_brace(
            env,
            innermost(s),
            next_kind(env, p),
            p,
            t.span.line,
        ).page,
        b.blank_lines == 0,
{
    assert(s.step(env, t, p).0 == s.on_rbrace(env, p, t.span.line)) by {
        reveal(State::step);
    }
    crate::laws::gaps::lemma_layout(env.toks, p);
    let a = s.dedent(env.config);
    crate::laws::gaps::lemma_flushed(a, env);
    lemma_nl(a, env);
    lemma_start(a, env.config);
    lemma_start(a.nl(env.eol), env.config);
    let o = a.own_line(env.config, env.eol);
    reveal(State::own_line);
    o.write(seq!['}']).close_body()
}

/// A `}` in front of a `;` is followed by nothing.
pub proof fn law_semicolons_follow_their_brace(s: State, env: Input, t: Token, p: int)
    requires
        can_close(s, t),
        next_kind(env, p) == Some(TokenKind::Semi),
    ensures
        closes_with(s, env, t, p, Seq::empty()),
{
    let b = lemma_closing(s, env, t, p);
    reveal(State::post_brace);
    assert(b.page.out + Seq::<char>::empty() =~= b.page.out);
}

/// The name that a type definition declares follows its `}` behind a space.
pub proof fn law_declared_names_follow_their_type(s: State, env: Input, t: Token, p: int)
    requires
        can_close(s, t),
        innermost(s) == BraceCtx::Type,
        next_kind(env, p) == Some(TokenKind::Ident),
    ensures
        closes_with(s, env, t, p, seq![' ']),
{
    let b = lemma_closing(s, env, t, p);
    reveal(State::post_brace);
    assert(b.page.out.push(' ') =~= b.page.out + seq![' ']);
}

/// In the K&R style the `while` that ends a `do` statement follows the `}` of
/// its body behind a space; so does a `catch` with `cuddle_catch`, and an `else`
/// with `cuddle_else` and without `nl_brace_else`.
pub proof fn law_cuddled_words_follow_their_brace(s: State, env: Input, t: Token, p: int)
    requires
        can_close(s, t),
        env.config.braces.style == BraceStyle::Kr,
        ({
            ||| next_kind(env, p) == Some(TokenKind::KwWhile) && innermost(s) == BraceCtx::Block
            ||| next_kind(env, p) == Some(TokenKind::KwCatch) && env.config.braces.cuddle_catch
            ||| next_kind(env, p) == Some(TokenKind::KwElse) && env.config.braces.cuddle_else
                && !env.config.newlines.nl_brace_else
        }),
    ensures
        closes_with(s, env, t, p, seq![' ']),
{
    let b = lemma_closing(s, env, t, p);
    reveal(State::post_brace);
    assert(b.page.out.push(' ') =~= b.page.out + seq![' ']);
}

/// Everywhere else a `}` ends its line, unless a comment shares it: before any
/// other token; before an `else` or `catch` that is not cuddled; and in the
/// Allman and Stroustrup styles before every word.
pub proof fn law_closing_braces_end_their_line(s: State, env: Input, t: Token, p: int)
    requires
        can_close(s, t),
        next_kind(env, p) != Some(TokenKind::Semi),
        !(innermost(s) == BraceCtx::Type && next_kind(env, p) == Some(TokenKind::Ident)),
        ({
            ||| env.config.braces.style != BraceStyle::Kr
            ||| next_kind(env, p) == Some(TokenKind::KwElse) && (!env.config.braces.cuddle_else
                || env.config.newlines.nl_brace_else)
            ||| next_kind(env, p) == Some(TokenKind::KwCatch) && !env.config.braces.cuddle_catch
            ||| next_kind(env, p) == Some(TokenKind::KwWhile) && innermost(s) != BraceCtx::Block
            ||| next_kind(env, p) != Some(TokenKind::KwElse) && next_kind(env, p) != Some(
                TokenKind::KwCatch,
            ) && next_kind(env, p) != Some(TokenKind::KwWhile)
        }),
    ensures
        closes_with(
            s,
            env,
            t,
            p,
            if comment_shares(env, p, t.span.line) {
                Seq::empty()
            } else {
                env.eol.text()
            },
        ),
{
    let b = lemma_closing(s, env, t, p);
    reveal(State::post_brace);
    crate::laws::gaps::lemma_blanks(env.toks, p);
    crate::laws::gaps::lemma_layout(env.toks, p);
    lemma_blanks_lead(env.toks, p);
    lemma_nl(b, env);
    assert(b.page.out + Seq::<char>::empty() =~= b.page.out);
}

/// Behind the blanks stands the first token behind the layout, or a line end.
proof fn lemma_blanks_lead(toks: Seq<Token>, p: int)
    ensures
        ({
            let c = crate::laws::statements::past_blanks(toks, p);
            crate::laws::statements::past_layout(toks, c) == crate::laws::statements::past_layout(
                toks,
                p,
            )
        }),
    decreases toks.len() - p,
{
    if 0 <= p < toks.len() && toks[p].kind == TokenKind::Whitespace {
        lemma_blanks_lead(toks, p + 1);
    }
}

// ── Opening braces ───────────────────────────────────────────────────────────

/// The `{` opens a body: it is no initializer, and something other than its
/// `}` follows, or empty bodies are not collapsed.
pub open spec fn opens_body(s: State, env: Input, t: Token, p: int, ctx: BraceCtx) -> bool {
    &&& t.kind == TokenKind::LBrace && t.lexeme@ == seq!['{']
    &&& s.brace_ctx(env, p) == ctx
    &&& ctx != BraceCtx::Other
    &&& next_kind(env, p) != Some(TokenKind::RBrace) || !env.config.braces.collapse_empty_body
}

pub proof fn lemma_opening(s: State, env: Input, t: Token, p: int, ctx: BraceCtx)
    requires
        settled(s),
        opens_body(s, env, t, p, ctx),
    ensures
        s.step(env, t, p).0 == s.place_brace(env, ctx, p).open_body(env, ctx, p),
        s.step(env, t, p).1 == p,
{
    assert(s.step(env, t, p) == s.on_lbrace(env, p, t.span.line)) by {
        reveal(State::step);
    }
    crate::laws::gaps::lemma_flushed(s, env);
    crate::laws::gaps::lemma_layout(env.toks, p);
}

/// What opening a body does: the line ends, the level is one deeper, but for a
/// linkage block and for a block that takes over the level of a `case`, and the
/// brace is noted.
proof fn lemma_opened(s: State, env: Input, ctx: BraceCtx, p: int)
    requires
        no_space(s.page.out),
        ctx != BraceCtx::Other,
    ensures
        ({
            let r = s.open_body(env, ctx, p);
            &&& r.page.out == s.page.out + env.eol.text()
            &&& r.page.at_line_start
            &&& r.braces.len() == s.braces.len() + 1 && r.braces.last().ctx == ctx
            &&& !(ctx == BraceCtx::Block && s.marks.after_case_colon
                && env.config.indent.indent_switch_case) ==> r.depth.indent == s.depth.indent
                + if ctx == BraceCtx::Linkage {
                0nat
            } else {
                1nat
            }
            &&& r.blank_lines == if env.config.newlines.blank_line_after_open_brace && (ctx
                == BraceCtx::Function || ctx == BraceCtx::Block) && s.blank_lines == 0 {
                1
            } else {
                s.blank_lines
            }
            &&& r.decls.owe_blank == s.decls.owe_blank
            &&& env.config.newlines.blank_line_after_var_decl_block && (ctx == BraceCtx::Function
                || (ctx == BraceCtx::Block && s.braces.len() == 0)) ==> r.decls.running
                && r.decls.at_stmt_start && !r.decls.seen
            &&& !(ctx == BraceCtx::Function || (ctx == BraceCtx::Block && s.braces.len() == 0))
                ==> r.decls == s.decls
            &&& r.skip_newline
            &&& r.assign is None
        }),
{
    reveal(State::open_body);
    lemma_nl(s, env);
}

/// In the K&R and Stroustrup styles the `{` of a control statement or of a type
/// stands behind its head and a space, and ends the line. The body behind it is
/// one level deeper.
pub proof fn law_blocks_open_behind_their_head(
    s: State,
    env: Input,
    t: Token,
    p: int,
    ctx: BraceCtx,
)
    requires
        crate::laws::gaps::mid_line(s),
        opens_body(s, env, t, p, ctx),
        ctx == BraceCtx::Block || ctx == BraceCtx::Switch || ctx == BraceCtx::Type || ctx
            == BraceCtx::Namespace,
        env.config.braces.style != BraceStyle::Allman,
        !s.marks.after_case_colon,
    ensures
        ({
            let r = s.step(env, t, p).0;
            &&& r.page.out == s.page.out + seq![' ', '{'] + env.eol.text()
            &&& r.depth.indent == s.depth.indent + 1
            &&& r.braces.len() == s.braces.len() + 1 && r.braces.last().ctx == ctx
            &&& r.skip_newline && r.page.at_line_start
        }),
{
    lemma_opening(s, env, t, p, ctx);
    let b = s.place_brace(env, ctx, p);
    assert(b.page.out =~= s.page.out + seq![' ', '{'] && b.depth == s.depth && b.braces == s.braces
        && b.marks == s.marks) by {
        reveal(State::place_brace);
    }
    lemma_opened(b, env, ctx, p);
}

/// In the Allman style, and for a function with `fn_brace_newline`, the `{`
/// stands on a line of its own at the level of its head.
pub proof fn law_blocks_open_below_their_head(s: State, env: Input, t: Token, p: int, ctx: BraceCtx)
    requires
        settled(s),
        no_space(s.page.out),
        s.parens.len() == 0,
        s.assign is None,
        opens_body(s, env, t, p, ctx),
        ctx != BraceCtx::Linkage,
        env.config.braces.style == BraceStyle::Allman || (ctx == BraceCtx::Function
            && env.config.braces.fn_brace_newline && !crate::scan::closes_ctrl_flow(env.toks, p)),
        !s.marks.after_case_colon,
    ensures
        ({
            let r = s.step(env, t, p).0;
            &&& r.page.out == next_line(s, env) + indentation(env.config, s.depth.indent)
                + seq!['{'] + env.eol.text()
            &&& r.depth.indent == s.depth.indent + 1
            &&& r.braces.len() == s.braces.len() + 1 && r.braces.last().ctx == ctx
            &&& r.skip_newline && r.page.at_line_start
        }),
{
    lemma_opening(s, env, t, p, ctx);
    lemma_nl(s, env);
    lemma_start(s, env.config);
    lemma_start(s.nl(env.eol), env.config);
    let b = s.place_brace(env, ctx, p);
    assert(b.page.out == next_line(s, env) + indentation(env.config, s.depth.indent) + seq!['{']
        && b.depth == s.depth && b.braces == s.braces && b.marks == s.marks) by {
        reveal(State::place_brace);
        reveal(State::own_line);
    }
    lemma_opened(b, env, ctx, p);
}

/// A linkage block is not indented. With `force_same_line` its `{` stands behind
/// its head, else where the source has it.
pub proof fn law_linkage_blocks_are_not_indented(s: State, env: Input, t: Token, p: int)
    requires
        settled(s),
        no_space(s.page.out),
        !s.page.suppress_space,
        opens_body(s, env, t, p, BraceCtx::Linkage),
    ensures
        ({
            let r = s.step(env, t, p).0;
            &&& r.depth.indent == s.depth.indent
            &&& !s.page.at_line_start && s.page.out.len() > 0 ==> r.page.out == s.page.out + seq![
                ' ',
                '{',
            ] + env.eol.text()
            &&& s.page.at_line_start && env.config.braces.extern_c_brace is Preserve ==> r.page.out
                == s.page.out + seq!['{'] + env.eol.text()
        }),
{
    lemma_opening(s, env, t, p, BraceCtx::Linkage);
    let b = s.place_brace(env, BraceCtx::Linkage, p);
    assert(b.depth == s.depth && !b.page.at_line_start && b.page.out.last() == '{') by {
        reveal(State::place_brace);
    }
    assert(!s.page.at_line_start && s.page.out.len() > 0 ==> b.page.out =~= s.page.out + seq![
        ' ',
        '{',
    ]) by {
        reveal(State::place_brace);
    }
    assert(s.page.at_line_start && env.config.braces.extern_c_brace == ExternCBrace::Preserve
        ==> b.page.out == s.page.out + seq!['{']) by {
        reveal(State::place_brace);
    }
    lemma_opened(b, env, BraceCtx::Linkage, p);
}

/// With `blank_line_after_open_brace` the body of a function or a control
/// statement starts with an empty line, without it with none; the declarations
/// of a function body begin.
pub proof fn law_bodies_start_as_wanted(s: State, env: Input, t: Token, p: int, ctx: BraceCtx)
    requires
        settled(s),
        opens_body(s, env, t, p, ctx),
        ctx == BraceCtx::Function || ctx == BraceCtx::Block || ctx == BraceCtx::Type || ctx
            == BraceCtx::Switch,
    ensures
        ({
            let r = s.step(env, t, p).0;
            &&& r.blank_lines == if env.config.newlines.blank_line_after_open_brace && (ctx
                == BraceCtx::Function || ctx == BraceCtx::Block) {
                1nat
            } else {
                0nat
            }
            &&& env.config.newlines.blank_line_after_var_decl_block && (ctx == BraceCtx::Function
                || (ctx == BraceCtx::Block && s.braces.len() == 0)) ==> r.decls.running
                && r.decls.at_stmt_start && !r.decls.seen && !r.decls.owe_blank
            &&& !(ctx == BraceCtx::Function || (ctx == BraceCtx::Block && s.braces.len() == 0))
                ==> r.decls == s.decls
        }),
{
    lemma_opening(s, env, t, p, ctx);
    let b = s.place_brace(env, ctx, p);
    assert(b.blank_lines == 0 && b.decls == s.decls && b.braces == s.braces && b.page.out.last()
        == '{') by {
        reveal(State::place_brace);
        reveal(State::own_line);
        reveal(State::start_line);
    }
    lemma_opened(b, env, ctx, p);
}

// ── Labels ───────────────────────────────────────────────────────────────────

proof fn lemma_label_taken(s: State, env: Input, t: Token, p: int)
    ensures
        t.kind == TokenKind::KwCase || t.kind == TokenKind::KwDefault ==> s.step(env, t, p).0
            == s.on_case(env, t.kind, t.lexeme@),
        t.kind == TokenKind::KwPublic || t.kind == TokenKind::KwPrivate || t.kind
            == TokenKind::KwProtected ==> s.step(env, t, p).0 == s.on_access(
            env,
            t.kind,
            t.lexeme@,
        ),
{
    reveal(State::step);
}

/// With `indent_switch_case` a `case` or `default` label stands at the level of
/// the `switch` body, and the statements behind it one deeper: the next label
/// goes back to the level of the first. Without it the label stands one level
/// further out, at that of the `switch`.
pub proof fn law_case_labels_are_indented(s: State, env: Input, t: Token, p: int)
    requires
        fresh(s),
        t.kind == TokenKind::KwCase || t.kind == TokenKind::KwDefault,
    ensures
        ({
            let r = s.step(env, t, p).0;
            let deep = s.cases.len() > 0 && s.cases.last();
            let level = if env.config.indent.indent_switch_case {
                if deep {
                    less(s.depth.indent, 1)
                } else {
                    s.depth.indent
                }
            } else if s.depth.switches > 0 {
                less(s.depth.indent, 1)
            } else {
                s.depth.indent
            };
            &&& r.page.out == s.page.out + indentation(env.config, level) + t.lexeme@
            &&& r.depth.indent == if env.config.indent.indent_switch_case && deep {
                less(s.depth.indent, 1)
            } else {
                s.depth.indent
            }
            &&& r.marks.in_case_label
            &&& env.config.indent.indent_switch_case && deep ==> !r.cases.last()
        }),
{
    lemma_label_taken(s, env, t, p);
    crate::laws::gaps::lemma_flushed(s, env);
    reveal(State::start_case_line);
    reveal(State::start_line_at);
    let one = crate::layout::minus(s.depth.indent, 1);
    let d = crate::layout::DepthView { indent: one, ..s.depth };
    let a = State { depth: d, ..s };
    lemma_start(s, env.config);
    lemma_start(a, env.config);
    if s.cases.len() > 0 {
        let b = State { depth: d, cases: s.cases.update(s.cases.len() - 1, false), ..s };
        lemma_start(b, env.config);
    }
    lemma_text_add(s.page.out, indentation(env.config, one), t.lexeme@);
    lemma_text_add(s.page.out, indentation(env.config, s.depth.indent), t.lexeme@);
}

/// An access label of a class stands one level further out than the members.
pub proof fn law_access_labels_are_outdented(s: State, env: Input, t: Token, p: int)
    requires
        fresh(s),
        t.kind == TokenKind::KwPublic || t.kind == TokenKind::KwPrivate || t.kind
            == TokenKind::KwProtected,
        s.depth.classes > 0,
    ensures
        ({
            let r = s.step(env, t, p).0;
            &&& r.page.out == s.page.out + indentation(env.config, less(s.depth.indent, 1))
                + t.lexeme@
            &&& r.marks.in_access_label
            &&& r.depth.indent == s.depth.indent
        }),
{
    lemma_label_taken(s, env, t, p);
    crate::laws::gaps::lemma_flushed(s, env);
    reveal(State::start_line_at);
    let one = crate::layout::minus(s.depth.indent, 1);
    let d = crate::layout::DepthView { indent: one, ..s.depth };
    lemma_start(State { depth: d, ..s }, env.config);
    lemma_text_add(s.page.out, indentation(env.config, one), t.lexeme@);
}

// ── Comments ─────────────────────────────────────────────────────────────────

/// The line ends at the end of the text cut off.
pub open spec fn chomp(text: Seq<char>) -> Seq<char>
    decreases text.len(),
{
    if text.len() > 0 && (text.last() == '\n' || text.last() == '\r') {
        chomp(text.drop_last())
    } else {
        text
    }
}

proof fn lemma_chomp(text: Seq<char>)
    ensures
        crate::text::trim_end(text, crate::text::Class::Break) == chomp(text),
    decreases text.len(),
{
    if text.len() > 0 && (text.last() == '\n' || text.last() == '\r') {
        lemma_chomp(text.drop_last());
    }
}

/// A `//` comment stands behind a space on the line of the code before it, or
/// behind the indentation of its level, and ends its line.
pub proof fn law_line_comments_end_their_line(s: State, env: Input, t: Token, p: int)
    requires
        t.kind == TokenKind::CommentLine,
        chomp(t.lexeme@).len() > 0 && chomp(t.lexeme@).last() != ' ',
        ({
            ||| crate::laws::gaps::mid_line(s)
            ||| fresh(s) && !env.config.newlines.merge_line_comment
        }),
    ensures
        s.step(env, t, p).0.page.out == s.page.out + (if s.page.at_line_start {
            indentation(env.config, s.depth.indent)
        } else {
            seq![' ']
        }) + chomp(t.lexeme@) + env.eol.text(),
{
    assert(s.step(env, t, p).0 == s.on_line_comment(env, t.lexeme@)) by {
        reveal(State::step);
    }
    crate::laws::gaps::lemma_flushed(s, env);
    lemma_chomp(t.lexeme@);
    let body = chomp(t.lexeme@);
    let l = s.lead_in(env.config, true);
    if s.page.at_line_start {
        lemma_start(s, env.config);
        reveal(State::lead_in);
    } else {
        crate::laws::gaps::lemma_led(s, env, true, body);
        reveal(State::lead_in);
        assert(s.page.out.push(' ') =~= s.page.out + seq![' ']);
    }
    let w = l.write(body);
    assert(w.page.out.last() == body.last());
    lemma_nl(w, env);
}

/// With `merge_line_comment` a `//` comment that stands alone below a `{`, `}`
/// or `;` moves up to the end of that line.
pub proof fn law_line_comments_merge(s: State, env: Input, t: Token, p: int, above: Seq<char>)
    requires
        t.kind == TokenKind::CommentLine,
        chomp(t.lexeme@).len() > 0 && chomp(t.lexeme@).last() != ' ',
        env.config.newlines.merge_line_comment,
        settled(s),
        s.page.at_line_start && !s.page.suppress_space,
        s.marks.prev == Some(TokenKind::LBrace) || s.marks.prev == Some(TokenKind::RBrace)
            || s.marks.prev == Some(TokenKind::Semi),
        s.page.out == above + env.eol.text(),
        above.len() > 0 && !crate::text::is_white(above.last()),
    ensures
        s.step(env, t, p).0.page.out == above + seq![' '] + chomp(t.lexeme@) + env.eol.text(),
{
    assert(s.step(env, t, p).0 == s.on_line_comment(env, t.lexeme@)) by {
        reveal(State::step);
    }
    crate::laws::gaps::lemma_flushed(s, env);
    lemma_chomp(t.lexeme@);
    let body = chomp(t.lexeme@);
    assert(crate::text::trim_end(s.page.out, crate::text::Class::AsciiWhite) == above) by {
        reveal_with_fuel(crate::text::trim_end, 4);
        if env.eol is Lf {
            assert(s.page.out.drop_last() =~= above);
        } else {
            assert(s.page.out.drop_last().drop_last() =~= above);
        }
    }
    let j = s.join_line();
    assert(j.page.out == above);
    crate::laws::gaps::lemma_led(j, env, true, body);
    reveal(State::lead_in);
    let w = j.lead_in(env.config, true).write(body);
    assert(w.page.out.last() == body.last());
    lemma_nl(w, env);
}

/// At the end of the source the line is ended, if it is begun and
/// `final_newline` is set.
pub proof fn law_the_last_line_is_ended(s: State, env: Input)
    requires
        no_space(s.page.out),
    ensures
        s.on_eof(env).page.out == if env.config.newlines.final_newline {
            next_line(s, env)
        } else {
            s.page.out
        },
{
    lemma_nl(s, env);
}

} // verus!
