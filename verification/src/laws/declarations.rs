//! The declarations that lead a function body, and the empty lines between
//! statements.

use crate::laws::placement::line_ends;
use crate::layout::{BraceCtx, Input, State};
use crate::token::{KindSet, Token, TokenKind};
use vstd::prelude::*;

verus! {

// ── The run of declarations ──────────────────────────────────────────────────

/// A word that opens a declaration: a type word or qualifier, `struct`,
/// `class`, `union`, `enum`, `typename` or `typedef`.
pub open spec fn opens_declaration(k: TokenKind) -> bool {
    k == TokenKind::Keyword || k == TokenKind::KwStruct || k == TokenKind::KwClass || k
        == TokenKind::KwUnion || k == TokenKind::KwEnum || k == TokenKind::KwTypename || k
        == TokenKind::KwTypedef
}

/// What may stand between the name of a type and the name that it declares.
pub open spec fn may_intervene(k: TokenKind) -> bool {
    k == TokenKind::Whitespace || k == TokenKind::Star || k == TokenKind::Amp || k
        == TokenKind::Keyword || k == TokenKind::KwStruct || k == TokenKind::KwClass || k
        == TokenKind::KwUnion || k == TokenKind::KwEnum || k == TokenKind::KwTypename
}

/// The name in front of `p` is followed, at `j`, by another that it declares.
pub open spec fn declares(toks: Seq<Token>, p: int, j: int) -> bool {
    &&& 0 <= p <= j < toks.len()
    &&& toks[j].kind == TokenKind::Ident
    &&& forall|x: int| p <= x < j ==> may_intervene((#[trigger] toks[x]).kind)
}

/// The name in front of `p` is followed, at `j`, by something else than a name.
pub open spec fn declares_not(toks: Seq<Token>, p: int, j: int) -> bool {
    &&& 0 <= p <= j <= toks.len()
    &&& j < toks.len() ==> toks[j].kind != TokenKind::Ident && !may_intervene(toks[j].kind)
    &&& forall|x: int| p <= x < j ==> may_intervene((#[trigger] toks[x]).kind)
}

proof fn lemma_skip_to(toks: Seq<Token>, p: int, j: int)
    requires
        0 <= p <= j <= toks.len(),
        j < toks.len() ==> !may_intervene(toks[j].kind),
        forall|x: int| p <= x < j ==> may_intervene((#[trigger] toks[x]).kind),
    ensures
        crate::scan::skip(toks, p, KindSet::Declarator) == j,
    decreases j - p,
{
    if p < j {
        assert(may_intervene(toks[p].kind));
        lemma_skip_to(toks, p + 1, j);
    }
}

/// The next token starts a statement among the declarations that lead a
/// function body.
pub open spec fn leads(s: State, env: Input) -> bool {
    env.config.newlines.blank_line_after_var_decl_block && s.decls.running && s.decls.at_stmt_start
}

/// The declarations go on: nothing is owed for them.
pub open spec fn goes_on(s: State, r: State) -> bool {
    &&& r.decls.running && r.decls.seen && !r.decls.at_stmt_start
    &&& r.decls.owe_blank == s.decls.owe_blank
    &&& r.page == s.page && r.blank_lines == s.blank_lines && r.depth == s.depth && r.marks
        == s.marks
}

/// The declarations are over; if there were any, an empty line is owed.
pub open spec fn is_over(s: State, r: State) -> bool {
    &&& !r.decls.running && !r.decls.at_stmt_start
    &&& r.decls.owe_blank == (s.decls.owe_blank || s.decls.seen)
    &&& r.page == s.page && r.blank_lines == s.blank_lines && r.depth == s.depth && r.marks
        == s.marks
}

/// A statement that begins with a word that opens a declaration goes on with
/// the declarations.
pub proof fn law_type_words_go_on_with_the_declarations(s: State, env: Input, k: TokenKind, p: int)
    requires
        leads(s, env),
        opens_declaration(k),
    ensures
        goes_on(s, s.track_decls(env, k, p)),
{
    reveal(State::track_decls);
}

/// So does one that begins with a name in front of another name of its line,
/// with nothing but `*`, `&` and type words between.
pub proof fn law_named_types_go_on_with_the_declarations(s: State, env: Input, p: int, j: int)
    requires
        leads(s, env),
        declares(env.toks, p, j),
    ensures
        goes_on(s, s.track_decls(env, TokenKind::Ident, p)),
{
    reveal(State::track_decls);
    lemma_skip_to(env.toks, p, j);
}

/// Every other statement ends the declarations.
pub proof fn law_statements_end_the_declarations(
    s: State,
    env: Input,
    k: TokenKind,
    p: int,
    j: int,
)
    requires
        leads(s, env),
        !opens_declaration(k),
        k != TokenKind::CommentLine && k != TokenKind::CommentBlock,
        k == TokenKind::Ident ==> declares_not(env.toks, p, j),
    ensures
        is_over(s, s.track_decls(env, k, p)),
{
    reveal(State::track_decls);
    if k == TokenKind::Ident {
        lemma_skip_to(env.toks, p, j);
    }
}

/// A comment behind code, before the first declaration or in front of another
/// one decides nothing; one on a line of its own in front of something else
/// ends the declarations.
pub proof fn law_comments_among_the_declarations(
    s: State,
    env: Input,
    k: TokenKind,
    p: int,
    i: int,
)
    requires
        leads(s, env),
        k == TokenKind::CommentLine || k == TokenKind::CommentBlock,
        0 <= p <= env.toks.len(),
        i == crate::laws::statements::first(env.toks, p),
    ensures
        !s.page.at_line_start || !s.decls.seen ==> s.track_decls(env, k, p) == s,
        i < env.toks.len() && opens_declaration(env.toks[i].kind) ==> s.track_decls(env, k, p) == s,
        s.page.at_line_start && s.decls.seen && (i >= env.toks.len() || (!opens_declaration(
            env.toks[i].kind,
        ) && env.toks[i].kind != TokenKind::Ident)) ==> is_over(s, s.track_decls(env, k, p)),
{
    reveal(State::track_decls);
    crate::laws::statements::lemma_walks(env.toks, p);
}

/// A comment of its own line in front of a name decides as the name does.
pub proof fn law_comments_in_front_of_names(
    s: State,
    env: Input,
    k: TokenKind,
    p: int,
    i: int,
    j: int,
)
    requires
        leads(s, env),
        k == TokenKind::CommentLine || k == TokenKind::CommentBlock,
        0 <= p <= env.toks.len(),
        i == crate::laws::statements::first(env.toks, p),
        i < env.toks.len() && env.toks[i].kind == TokenKind::Ident,
        s.page.at_line_start && s.decls.seen,
    ensures
        declares(env.toks, i + 1, j) ==> s.track_decls(env, k, p) == s,
        declares_not(env.toks, i + 1, j) ==> is_over(s, s.track_decls(env, k, p)),
{
    reveal(State::track_decls);
    crate::laws::statements::lemma_walks(env.toks, p);
    if declares(env.toks, i + 1, j) || declares_not(env.toks, i + 1, j) {
        lemma_skip_to(env.toks, i + 1, j);
    }
}

/// Away from the start of a statement, outside of the run or without the
/// setting nothing is decided.
pub proof fn law_other_tokens_decide_nothing(s: State, env: Input, k: TokenKind, p: int)
    requires
        !leads(s, env),
    ensures
        s.track_decls(env, k, p) == s,
{
    reveal(State::track_decls);
}

/// The `;` that ends a declaration of the function body leads to the next
/// statement; one inside of parentheses or of an inner block does not.
pub proof fn law_semicolons_lead_to_the_next_statement(s: State, env: Input, t: Token, p: int)
    requires
        t.kind == TokenKind::Semi,
        crate::laws::placement::settled(s),
        s.decls.running,
    ensures
        ({
            let body = s.braces.len() > 0 && (s.braces.last().ctx == BraceCtx::Function || (
            s.braces.last().ctx == BraceCtx::Block && s.braces.len() == 1));
            s.step(env, t, p).0.decls.at_stmt_start == (s.decls.at_stmt_start || (s.parens.len()
                == 0 && body))
        }),
{
    crate::laws::gaps::lemma_semi_taken(s, env, t, p);
    crate::laws::gaps::lemma_flushed(s, env);
}

/// The `}` of a function body ends its declarations, and owes nothing.
pub proof fn law_function_ends_forget_the_declarations(s: State, env: Input, t: Token, p: int)
    requires
        t.kind == TokenKind::RBrace,
        s.braces.len() > 0,
        s.braces.last().ctx == BraceCtx::Function || (s.braces.last().ctx == BraceCtx::Block
            && s.braces.len() == 1),
    ensures
        ({
            let d = s.step(env, t, p).0.decls;
            !d.running && !d.at_stmt_start && !d.owe_blank
        }),
{
    assert(s.step(env, t, p).0 == s.on_rbrace(env, p, t.span.line)) by {
        reveal(State::step);
    }
    reveal(State::flush);
    reveal(State::own_line);
    reveal(State::start_line);
    reveal(State::post_brace);
}

// ── Empty lines ──────────────────────────────────────────────────────────────

/// The lesser of two numbers.
pub open spec fn lesser(a: nat, b: nat) -> nat {
    if a <= b {
        a
    } else {
        b
    }
}

/// The empty lines that are due before the next token of a fresh line: those of
/// the source, and one at least behind the declarations, but no more than
/// `max_blank_lines`.
pub open spec fn due(s: State, env: Input) -> nat {
    lesser(
        if s.decls.owe_blank && s.blank_lines == 0 {
            1
        } else {
            s.blank_lines
        },
        env.config.newlines.max_blank_lines as nat,
    )
}

/// In front of a token that starts a line stand the empty lines that are due
/// and the indentation of its level.
pub proof fn law_due_lines_are_written(s: State, env: Input, t: Token, p: int)
    requires
        s.page.at_line_start,
        s.parens.len() == 0,
        s.assign is None,
        crate::laws::placement::no_space(s.page.out),
        crate::laws::gaps::is_atom(t.kind) || t.kind == TokenKind::Keyword || t.kind
            == TokenKind::KwIf || t.kind == TokenKind::KwReturn || t.kind == TokenKind::KwFor
            || t.kind == TokenKind::KwWhile || t.kind == TokenKind::KwStruct,
        t.kind == TokenKind::Ident ==> !crate::laws::statements::at(
            env.toks,
            crate::laws::statements::past_layout(env.toks, p),
            TokenKind::Colon,
        ),
    ensures
        s.step(env, t, p).0.page.out == s.page.out + line_ends(env.eol, due(s, env))
            + crate::laws::placement::indentation(env.config, s.depth.indent) + t.lexeme@,
        s.step(env, t, p).0.blank_lines == 0 && !s.step(env, t, p).0.decls.owe_blank,
{
    let f = s.flush(env.config, env.eol);
    crate::laws::placement::lemma_line_ends(env.eol, s.owed_lines(env.config));
    assert(crate::text::trim_end(s.page.out, crate::text::Class::Space) == s.page.out);
    assert(f.page.out == s.page.out + line_ends(env.eol, due(s, env)) && f.page.at_line_start
        && f.blank_lines == 0 && !f.decls.owe_blank && f.parens == s.parens && f.assign == s.assign
        && f.depth == s.depth) by {
        reveal(State::flush);
        assert(s.page.out + line_ends(env.eol, 0) =~= s.page.out);
        assert(s.owed_lines(env.config) == due(s, env));
    }
    crate::laws::gaps::lemma_taken(s, env, t, p);
    crate::laws::gaps::lemma_layout(env.toks, p);
    assert(s.step(env, t, p).0.page == s.write_spaced(env, t.kind, t.lexeme@).page && s.step(
        env,
        t,
        p,
    ).0.blank_lines == s.write_spaced(env, t.kind, t.lexeme@).blank_lines && s.step(
        env,
        t,
        p,
    ).0.decls == s.write_spaced(env, t.kind, t.lexeme@).decls) by {
        reveal(State::step_operand);
    }
    reveal(State::write_spaced);
    reveal(State::lead_in);
    crate::laws::placement::lemma_start(f, env.config);
    crate::laws::placement::lemma_text_add(
        f.page.out,
        crate::laws::placement::indentation(env.config, s.depth.indent),
        t.lexeme@,
    );
}

/// How many line ends stand from `i` up to `j`.
pub open spec fn breaks(toks: Seq<Token>, i: int, j: int) -> nat
    decreases j - i,
{
    if j <= i {
        0
    } else {
        breaks(toks, i, j - 1) + if toks[j - 1].kind == TokenKind::Newline {
            1nat
        } else {
            0nat
        }
    }
}

proof fn lemma_breaks_first(toks: Seq<Token>, i: int, j: int)
    requires
        i < j,
    ensures
        breaks(toks, i, j) == breaks(toks, i + 1, j) + if toks[i].kind == TokenKind::Newline {
            1nat
        } else {
            0nat
        },
    decreases j - i,
{
    reveal_with_fuel(breaks, 2);
    if i + 1 < j {
        lemma_breaks_first(toks, i, j - 1);
    }
}

proof fn lemma_breaks(toks: Seq<Token>, i: int, j: int)
    ensures
        crate::machine::count_kind(toks, i, j, TokenKind::Newline) == breaks(toks, i, j),
    decreases j - i,
{
    if i < j {
        lemma_breaks(toks, i + 1, j);
        lemma_breaks_first(toks, i, j);
    }
}

/// The line ends of the source between two tokens are due, but for the one that
/// a line end already written stands for.
pub proof fn law_line_ends_of_the_source_are_due(s: State, toks: Seq<Token>, i: int, j: int)
    requires
        i <= j,
    ensures
        ({
            let r = s.pass_layout(toks, i, j);
            let n = breaks(toks, i, j);
            &&& r.blank_lines == s.blank_lines + if s.skip_newline && n > 0 {
                (n - 1) as nat
            } else {
                n
            }
            &&& !r.skip_newline
            &&& r.page == s.page && r.decls == s.decls && r.depth == s.depth && r.marks == s.marks
        }),
        s.pass_layout(toks, i, j).src_space == exists|x: int|
            i <= x < j && (#[trigger] toks[x]).kind == TokenKind::Whitespace,
{
    lemma_breaks(toks, i, j);
    lemma_blanks_counted(toks, i, j);
}

proof fn lemma_blanks_counted(toks: Seq<Token>, i: int, j: int)
    ensures
        (crate::machine::count_kind(toks, i, j, TokenKind::Whitespace) > 0) == exists|x: int|
            i <= x < j && (#[trigger] toks[x]).kind == TokenKind::Whitespace,
    decreases j - i,
{
    if i < j {
        lemma_blanks_counted(toks, i + 1, j);
        if toks[i].kind == TokenKind::Whitespace {
            assert(i <= i < j && toks[i].kind == TokenKind::Whitespace);
        }
    }
}

/// An empty line parts the declarations that lead a function body from the
/// statement behind them, also where the source has none.
pub proof fn law_an_empty_line_follows_the_declarations(
    s: State,
    env: Input,
    t: Token,
    p: int,
    j: int,
)
    requires
        leads(s, env),
        s.decls.seen && !s.decls.owe_blank,
        crate::laws::placement::fresh(s),
        crate::laws::placement::no_space(s.page.out),
        env.config.newlines.max_blank_lines >= 1,
        t.kind == TokenKind::KwIf || t.kind == TokenKind::KwReturn || t.kind == TokenKind::KwFor
            || t.kind == TokenKind::KwWhile || (t.kind == TokenKind::Ident && declares_not(
            env.toks,
            p,
            j,
        ) && !crate::laws::statements::at(
            env.toks,
            crate::laws::statements::past_layout(env.toks, p),
            TokenKind::Colon,
        )),
    ensures
        s.track_decls(env, t.kind, p).step(env, t, p).0.page.out == s.page.out + env.eol.text()
            + crate::laws::placement::indentation(env.config, s.depth.indent) + t.lexeme@,
{
    let r = s.track_decls(env, t.kind, p);
    law_statements_end_the_declarations(s, env, t.kind, p, j);
    assert(r.parens == s.parens && r.assign == s.assign) by {
        reveal(State::track_decls);
    }
    law_due_lines_are_written(r, env, t, p);
    reveal_with_fuel(line_ends, 2);
    assert(line_ends(env.eol, 1) =~= env.eol.text());
}

} // verus!
