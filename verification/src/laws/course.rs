//! The course of the layout: every token is taken in turn, and leaves behind
//! what the next one goes by.

use crate::config::{Config, Eol};
use crate::layout::{BraceCtx, Input, State};
use crate::token::{Token, TokenKind};
use crate::trivia::Conditional;
use vstd::prelude::*;

verus! {

// ── Turns ────────────────────────────────────────────────────────────────────

/// The tokens are taken one behind the other: the layout in front of one is
/// passed over, it is noted whether it goes on with the declarations, and it is
/// written. The end of the source ends the last line.
pub proof fn law_tokens_are_taken_in_turn(s: State, env: Input, i: int)
    requires
        0 <= i <= env.toks.len(),
    ensures
        ({
            let at = crate::laws::statements::past_layout(env.toks, i);
            let a = s.pass_layout(env.toks, i, at);
            &&& i <= at <= env.toks.len()
            &&& at == env.toks.len() ==> s.run(env, i) == a
            &&& at < env.toks.len() && env.toks[at].kind == TokenKind::Eof ==> s.run(env, i)
                == a.track_decls(env, TokenKind::Eof, at + 1).on_eof(env)
            &&& at < env.toks.len() && env.toks[at].kind != TokenKind::Eof ==> {
                let t = env.toks[at];
                let (r, q) = a.track_decls(env, t.kind, at + 1).step(env, t, at + 1);
                i < q <= env.toks.len() ==> s.run(env, i) == r.run(env, q)
            }
        }),
{
    crate::laws::gaps::lemma_layout(env.toks, i);
    crate::scan::lemma_skip(env.toks, i, crate::token::KindSet::Layout);
}

/// The output is laid out from an empty page, outside of everything, and then
/// aligned: trailing comments first, then enum members, then Doxygen comments.
pub proof fn law_output_is_laid_out_and_aligned(toks: Seq<Token>, config: Config)
    ensures
        ({
            let s = crate::layout::initial_state();
            &&& s.page.out.len() == 0 && s.page.at_line_start && !s.page.suppress_space
            &&& s.depth.indent == 0 && s.braces.len() == 0 && s.parens.len() == 0
            &&& s.marks.prev is None && s.assign is None && s.blank_lines == 0
            &&& !s.decls.owe_blank && !s.decls.running && s.depth.templates == 0
            &&& s.depth.ternaries == 0 && s.depth.brackets == 0 && s.depth.classes == 0
            &&& s.depth.switches == 0 && s.cases.len() == 0 && !s.skip_newline
        }),
        crate::machine::layout_text(toks, config, Eol::Lf) == crate::layout::initial_state().run(
            Input { toks, config, eol: Eol::Lf },
            0,
        ).page.out,
        ({
            let tight = config.spacing.align_right_cmt_span == 0
                && config.spacing.align_enum_equ_span == 0
                && config.spacing.align_doxygen_cmt_span == 0;
            let plain = !config.braces.add_braces_to_if && !config.braces.add_braces_to_while
                && !config.braces.add_braces_to_for;
            &&& tight && plain ==> crate::formatter::format_text(toks, config, Eol::Lf)
                == crate::machine::layout_text(toks, config, Eol::Lf)
            &&& tight && !plain ==> crate::formatter::format_text(toks, config, Eol::Lf)
                == crate::machine::layout_text(
                crate::inject::injected(toks, config),
                config,
                Eol::Lf,
            )
        }),
        forall|eol: Eol| #[trigger]
            crate::formatter::format_text(toks, config, eol)
                == crate::formatter::with_doxygen_aligned(
                crate::formatter::with_equals_aligned(
                    crate::formatter::with_comments_aligned(
                        crate::machine::layout_text(
                            crate::formatter::prepared(toks, config),
                            config,
                            eol,
                        ),
                        config,
                        eol,
                    ),
                    config,
                    eol,
                ),
                config,
                eol,
            ),
{
}

// ── Frames ───────────────────────────────────────────────────────────────────

/// Only the text and what is known of the last token change.
pub open spec fn keeps_nesting(s: State, r: State) -> bool {
    &&& r.depth == s.depth && r.braces == s.braces && r.parens == s.parens && r.cases == s.cases
    &&& r.pp_saved == s.pp_saved && r.decls == s.decls && r.blank_lines == s.blank_lines
    &&& r.skip_newline == s.skip_newline && r.src_space == s.src_space
}

/// The marks behind a token of kind `k` that neither closes template arguments
/// nor a cast and is not the word `operator`.
pub open spec fn notes(m: crate::layout::Marks, k: TokenKind) -> bool {
    &&& m.prev == Some(k)
    &&& !m.after_template && !m.after_cast && !m.after_case_colon
}

/// Behind a name, a literal, a word or an operator that kind is noted, the line
/// is begun, no space is suppressed, and no nesting changes.
pub proof fn law_tokens_are_noted(s: State, env: Input, t: Token, p: int)
    requires
        crate::laws::gaps::mid_line(s),
        crate::laws::gaps::is_plain(t.kind),
        t.kind != TokenKind::Lt && t.kind != TokenKind::Gt && t.kind != TokenKind::GtGt && t.kind
            != TokenKind::Star && t.kind != TokenKind::Amp && t.kind != TokenKind::Plus && t.kind
            != TokenKind::Minus && t.kind != TokenKind::Question,
        t.lexeme@.len() > 0 && t.lexeme@.last() != '\n',
    ensures
        ({
            let r = s.step(env, t, p).0;
            &&& s.step(env, t, p).1 == p
            &&& notes(r.marks, t.kind)
            &&& r.marks.after_operator == (t.kind == TokenKind::Keyword && t.lexeme@
                == "operator"@)
            &&& r.marks.after_overload == s.marks.after_operator
            &&& !r.page.at_line_start && !r.page.suppress_space
            &&& keeps_nesting(s, r)
            &&& !crate::laws::gaps::is_assignment(t.kind) ==> r.assign == s.assign
        }),
{
    crate::laws::gaps::lemma_taken(s, env, t, p);
    crate::laws::gaps::lemma_operand_taken(s, env, t, p);
    crate::laws::gaps::lemma_flushed(s, env);
    lemma_step_takes_one(s, env, t, p);
    reveal(State::write_spaced);
    reveal(State::lead_in);
}

proof fn lemma_step_takes_one(s: State, env: Input, t: Token, p: int)
    ensures
        t.kind != TokenKind::LBrace ==> s.step(env, t, p).1 == p,
{
    reveal(State::step);
}

/// Behind a comma, a `;`, a bracket or a `:` that is noted, too; a `[` opens and
/// a `]` closes a bracket.
pub proof fn law_punctuation_is_noted(s: State, env: Input, t: Token, p: int)
    requires
        crate::laws::placement::settled(s),
    ensures
        ({
            let r = s.step(env, t, p).0;
            &&& t.kind == TokenKind::Comma ==> notes(r.marks, TokenKind::Comma)
            &&& t.kind == TokenKind::Semi ==> notes(r.marks, TokenKind::Semi) && r.depth == s.depth
                && r.braces == s.braces && r.parens == s.parens
            &&& t.kind == TokenKind::LBracket ==> notes(r.marks, TokenKind::LBracket)
                && r.depth.brackets == s.depth.brackets + 1 && r.parens == s.parens
            &&& t.kind == TokenKind::RBracket ==> notes(r.marks, TokenKind::RBracket)
                && r.depth.brackets == crate::laws::placement::less(s.depth.brackets, 1)
            &&& t.kind == TokenKind::LParen ==> notes(r.marks, TokenKind::LParen)
            &&& t.kind == TokenKind::Colon ==> r.marks.prev == Some(TokenKind::Colon)
                && r.marks.after_case_colon == s.marks.in_case_label && !r.marks.in_case_label
            &&& t.kind == TokenKind::Semi && s.parens.len() == 0 ==> r.assign is None
        }),
{
    crate::laws::gaps::lemma_flushed(s, env);
    assert(t.kind == TokenKind::Comma ==> s.step(env, t, p).0 == s.on_comma(env, p, t.span.line))
        by {
        reveal(State::step);
    }
    assert(t.kind == TokenKind::Semi ==> s.step(env, t, p).0 == s.on_semi(env, p, t.span.line)) by {
        reveal(State::step);
    }
    assert(t.kind == TokenKind::LBracket ==> s.step(env, t, p).0 == s.on_lbracket(env)) by {
        reveal(State::step);
    }
    assert(t.kind == TokenKind::RBracket ==> s.step(env, t, p).0 == s.on_rbracket(env)) by {
        reveal(State::step);
    }
    assert(t.kind == TokenKind::LParen ==> s.step(env, t, p).0 == s.on_lparen(env, p)) by {
        reveal(State::step);
    }
    assert(t.kind == TokenKind::Colon ==> s.step(env, t, p).0 == s.on_colon(env, p)) by {
        reveal(State::step);
    }
    lemma_lead_keeps(s, env, false);
    lemma_lead_keeps(s, env, true);
}

proof fn lemma_lead_keeps(s: State, env: Input, wanted: bool)
    ensures
        ({
            let r = s.lead_in(env.config, wanted);
            r.marks == s.marks && r.depth == s.depth && r.braces == s.braces && r.decls == s.decls
                && r.blank_lines == s.blank_lines
        }),
{
    reveal(State::lead_in);
    reveal(State::start_line);
}

// ── The word `operator` ──────────────────────────────────────────────────────

/// The symbol that `operator` overloads clings to it, but `new` and `delete`
/// stand behind a space.
pub proof fn law_overloaded_symbols_cling(s: State, env: Input, t: Token, p: int)
    requires
        crate::laws::gaps::mid_line(s),
        s.marks.prev == Some(TokenKind::Keyword) && s.marks.after_operator,
        s.depth.templates == 0,
        crate::laws::gaps::is_plain(t.kind),
        t.kind == TokenKind::Lt ==> !s.opens_template(env, p),
    ensures
        crate::laws::gaps::parted_if(
            t.kind == TokenKind::KwNew || t.kind == TokenKind::KwDelete,
            s,
            env,
            t,
            p,
        ),
{
    crate::laws::gaps::lemma_plain(s, env, t, p);
}

/// The `(` behind an overloaded symbol is that of a call.
pub proof fn law_overloads_are_called(s: State, env: Input, t: Token, p: int)
    requires
        crate::laws::gaps::mid_line(s),
        s.marks.prev is Some,
        crate::laws::gaps::is_binary(s.marks.prev->0) || s.marks.prev->0 == TokenKind::RBracket
            || s.marks.prev->0 == TokenKind::RParen || s.marks.prev->0 == TokenKind::KwNew,
        s.marks.after_overload && !s.marks.after_operator,
        s.depth.templates == 0,
        t.kind == TokenKind::LParen && t.lexeme@ == seq!['('],
        crate::laws::gaps::no_star_follows(env.toks, p),
    ensures
        crate::laws::gaps::parted_if(env.config.spacing.space_before_call_paren, s, env, t, p),
{
    crate::laws::gaps::lemma_paren(s, env, t, p);
    crate::laws::gaps::lemma_layout(env.toks, p);
}

// ── Labels ───────────────────────────────────────────────────────────────────

/// A name in front of a `:` that starts a line is a goto label: it stands in the
/// first column, or, with `indent_goto_labels`, at the level of the code.
pub proof fn law_goto_labels_are_placed(s: State, env: Input, t: Token, p: int)
    requires
        crate::laws::placement::fresh(s),
        t.kind == TokenKind::Ident,
        crate::laws::statements::at(
            env.toks,
            crate::laws::statements::past_layout(env.toks, p),
            TokenKind::Colon,
        ),
        s.depth.brackets == 0 && s.depth.templates == 0 && s.depth.ternaries == 0,
        !s.marks.in_case_label && !s.marks.in_access_label,
    ensures
        ({
            let r = s.step(env, t, p).0;
            &&& r.page.out == s.page.out + (if env.config.indent.indent_goto_labels {
                crate::laws::placement::indentation(env.config, s.depth.indent)
            } else {
                Seq::empty()
            }) + t.lexeme@
            &&& r.marks.in_goto_label == (s.marks.in_goto_label
                || !env.config.indent.indent_goto_labels)
        }),
{
    crate::laws::gaps::lemma_taken(s, env, t, p);
    crate::laws::gaps::lemma_flushed(s, env);
    crate::laws::gaps::lemma_layout(env.toks, p);
    let label = s.is_goto_label(env, t.kind, p);
    assert(s.step_operand(env, t, p) == if label {
        s.on_goto_label(env, t.kind, t.lexeme@)
    } else {
        s.on_other(env, t.kind, t.lexeme@)
    }) by {
        reveal(State::step_operand);
    }
    if label {
        assert(s.page.out + Seq::<char>::empty() =~= s.page.out);
        assert(t.lexeme@.len() == 0 ==> s.page.out + t.lexeme@ =~= s.page.out);
    } else {
        crate::laws::placement::lemma_start_spaced(s, env, t.kind, t.lexeme@);
        reveal(State::write_spaced);
        lemma_lead_keeps(s, env, s.needs_space(env.config, t.kind));
    }
}

// ── Bodies ───────────────────────────────────────────────────────────────────

/// The `{` and `}` of an empty body stand side by side behind their head, in the
/// K&R and Stroustrup styles.
pub proof fn law_empty_blocks_are_closed_at_once(s: State, env: Input, t: Token, p: int)
    requires
        crate::laws::gaps::mid_line(s),
        t.kind == TokenKind::LBrace && t.lexeme@ == seq!['{'],
        s.brace_ctx(env, p) == BraceCtx::Block,
        env.config.braces.collapse_empty_body,
        env.config.braces.style != crate::config::BraceStyle::Allman,
        crate::laws::placement::next_kind(env, p) == Some(TokenKind::RBrace),
        ({
            let q = crate::laws::statements::past_layout(env.toks, p) + 1;
            crate::laws::placement::next_kind(env, q) == Some(TokenKind::Ident)
                && !crate::laws::placement::comment_shares(env, q, t.span.line)
        }),
    ensures
        ({
            let (r, q) = s.step(env, t, p);
            &&& q == crate::laws::statements::past_layout(env.toks, p) + 1
            &&& r.page.out == s.page.out + seq![' ', '{', '}'] + env.eol.text()
            &&& r.depth == s.depth && r.braces == s.braces
        }),
{
    assert(s.step(env, t, p) == s.on_lbrace(env, p, t.span.line)) by {
        reveal(State::step);
    }
    crate::laws::gaps::lemma_flushed(s, env);
    crate::laws::gaps::lemma_layout(env.toks, p);
    let q = crate::laws::statements::past_layout(env.toks, p) + 1;
    crate::laws::gaps::lemma_layout(env.toks, q);
    crate::laws::gaps::lemma_blanks(env.toks, q);
    let b = s.place_brace(env, BraceCtx::Block, p);
    assert(b.page.out =~= s.page.out + seq![' ', '{'] && b.depth == s.depth && b.braces == s.braces)
        by {
        reveal(State::place_brace);
    }
    let c = b.write(seq!['}']);
    assert(c.page.out =~= s.page.out + seq![' ', '{', '}']);
    crate::laws::placement::lemma_nl(c, env);
    reveal(State::close_empty);
    reveal(State::post_brace);
}

/// The elements of a large initializer stand on lines of their own: the line
/// ends behind each comma, unless a `//` comment shares it.
pub proof fn law_large_initializers_are_expanded(s: State, env: Input, t: Token, p: int)
    requires
        crate::laws::gaps::mid_line(s),
        t.kind == TokenKind::Comma && t.lexeme@ == seq![','],
        s.braces.len() > 0 && s.braces.last().large_init,
        s.parens.len() == 0,
    ensures
        ({
            let c = crate::laws::statements::past_blanks(env.toks, p);
            let shared = crate::laws::statements::at(env.toks, c, TokenKind::CommentLine)
                && env.toks[c].span.line == t.span.line;
            s.step(env, t, p).0.page.out == s.page.out + seq![','] + if shared {
                Seq::empty()
            } else {
                env.eol.text()
            }
        }),
{
    assert(s.step(env, t, p).0 == s.on_comma(env, p, t.span.line)) by {
        reveal(State::step);
    }
    crate::laws::gaps::lemma_flushed(s, env);
    crate::laws::gaps::lemma_blanks(env.toks, p);
    crate::laws::gaps::lemma_led(s, env, false, seq![',']);
    let w = s.lead_in(env.config, false).write(seq![',']);
    assert(w.page.out.last() == ',');
    assert(w.page == s.page.write(seq![',']) && w.braces == s.braces && w.parens == s.parens) by {
        reveal(State::lead_in);
    }
    crate::laws::placement::lemma_nl(w, env);
    assert(w.page.out + Seq::<char>::empty() =~= w.page.out);
}

/// The block of a `case` takes over the level of the statements behind the
/// label: it goes no deeper than they would.
pub proof fn law_case_blocks_do_not_indent_twice(s: State, env: Input, t: Token, p: int)
    requires
        crate::laws::placement::settled(s),
        crate::laws::placement::opens_body(s, env, t, p, BraceCtx::Block),
        s.marks.after_case_colon,
        env.config.indent.indent_switch_case,
        s.depth.indent > 0,
        s.cases.len() > 0,
    ensures
        s.step(env, t, p).0.depth.indent == s.depth.indent,
        !s.step(env, t, p).0.cases.last(),
{
    crate::laws::placement::lemma_opening(s, env, t, p, BraceCtx::Block);
    let b = s.place_brace(env, BraceCtx::Block, p);
    assert(b.depth == s.depth && b.marks == s.marks && b.cases == s.cases) by {
        reveal(State::place_brace);
        reveal(State::own_line);
        reveal(State::start_line);
    }
    reveal(State::open_body);
}

// ── Conditional groups ───────────────────────────────────────────────────────

/// An `#if` notes the level of the code, an `#else` goes back to it, and an
/// `#endif` forgets it.
pub proof fn law_groups_note_the_level(s: State, env: Input, t: Token, p: int)
    requires
        t.kind == TokenKind::PreprocLine,
    ensures
        ({
            let r = s.step(env, t, p).0;
            let c = crate::trivia::conditional(crate::laws::notes::with_ends(t.lexeme@, env.eol));
            &&& c == Conditional::Open ==> r.pp_saved == s.pp_saved.push(s.depth.indent)
                && r.depth.indent == s.depth.indent
            &&& c == Conditional::Reopen && s.pp_saved.len() > 0 ==> r.depth.indent
                == s.pp_saved.last() && r.pp_saved == s.pp_saved
            &&& c == Conditional::Close && s.pp_saved.len() > 0 ==> r.pp_saved
                == s.pp_saved.drop_last() && r.depth.indent == s.depth.indent
            &&& c == Conditional::Plain ==> r.depth.indent == s.depth.indent && r.pp_saved
                == s.pp_saved
            &&& r.marks.prev == Some(TokenKind::PreprocLine)
            &&& r.braces == s.braces && r.parens == s.parens
        }),
{
    crate::laws::notes::law_line_ends_are_unified(t.lexeme@, env.eol);
    assert(s.step(env, t, p).0 == s.on_preproc(env, t.lexeme@)) by {
        reveal(State::step);
    }
    reveal(State::flush);
}

} // verus!
