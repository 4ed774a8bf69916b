//! What a token changes of the nesting, and what it leaves alone.

use crate::laws::gaps::{is_assignment, is_plain, mid_line};
use crate::laws::placement::{
    blanks, column, due, last_solid, lead, less, line_ends, no_space, opens_body, settled,
};
use crate::layout::{AssignView, Brace, BraceCtx, Input, Marks, ParenView, State};
use crate::token::{Token, TokenKind};
use vstd::prelude::*;

verus! {

// ── New lines ────────────────────────────────────────────────────────────────

/// A new line inside of parentheses notes whether the innermost `(` ended its
/// line, one in an assignment whether its `=` did; the lines behind it follow
/// the same column. The indentation of the line and the parentheses open at its
/// start are noted, too.
pub proof fn law_new_lines_note_their_lead(s: State, env: Input, t: Token, p: int)
    requires
        no_space(s.page.out),
        s.page.at_line_start || due(s, env) > 0,
        is_plain(t.kind),
        t.kind != TokenKind::Lt && t.kind != TokenKind::Gt && t.kind != TokenKind::GtGt && t.kind
            != TokenKind::KwCase && t.kind != TokenKind::KwDefault && t.kind != TokenKind::KwPublic
            && t.kind != TokenKind::KwPrivate && t.kind != TokenKind::KwProtected && t.kind
            != TokenKind::Question,
        t.kind == TokenKind::Star || t.kind == TokenKind::Amp ==> !s.at_declarator(env, p),
        t.kind == TokenKind::Ident ==> !crate::laws::statements::at(
            env.toks,
            crate::laws::statements::past_layout(env.toks, p),
            TokenKind::Colon,
        ),
    ensures
        ({
            let r = s.step(env, t, p).0;
            let begun = s.page.out + line_ends(env.eol, due(s, env)) + lead(s, env);
            &&& r.parens == if s.parens.len() > 0 {
                let top = s.parens.last();
                s.parens.drop_last().push(
                    ParenView { eol: top.eol || last_solid(s.page.out) == Some('('), ..top },
                )
            } else {
                s.parens
            }
            &&& s.assign is Some ==> r.assign == if s.parens.len() > 0 {
                s.assign
            } else {
                Some(
                    AssignView {
                        col: (s.assign->0).col,
                        eol: (s.assign->0).eol || last_solid(s.page.out) == Some('='),
                    },
                )
            }
            &&& s.assign is None && !is_assignment(t.kind) ==> r.assign is None
            &&& r.line_parens == s.parens.len()
            &&& r.page.line_indent == column(begun)
            &&& r.depth == s.depth && r.braces == s.braces && r.cases == s.cases
            &&& r.blank_lines == 0 && !r.decls.owe_blank
            &&& r.marks.prev == Some(t.kind)
        }),
{
    let f = s.flush(env.config, env.eol);
    crate::laws::placement::lemma_flush_due(s, env);
    crate::laws::placement::lemma_lead(f, env);
    crate::laws::placement::lemma_solid_kept(s.page.out, env.eol, due(s, env));
    assert(lead(f, env) == lead(s, env));
    crate::laws::gaps::lemma_layout(env.toks, p);
    crate::laws::gaps::lemma_taken(s, env, t, p);
    let l = f.start_line(env.config);
    let k = t.kind;
    assert(s.step_operand(env, t, p) == if crate::laws::gaps::is_sign(k) {
        s.on_sign(env, k, t.lexeme@)
    } else if is_assignment(k) {
        s.on_assign(env, k, t.lexeme@)
    } else {
        s.step_operand(env, t, p)
    }) by {
        reveal(State::step_operand);
    }
    assert(f.lead_in(env.config, f.needs_space(env.config, k)) == l) by {
        reveal(State::lead_in);
    }
    assert(s.write_spaced(env, k, t.lexeme@) == l.write(t.lexeme@)) by {
        reveal(State::write_spaced);
    }
    assert(f.decls.owe_blank == false && f.blank_lines == 0 && f.cases == s.cases) by {
        reveal(State::flush);
    }
    crate::laws::placement::lemma_last_solid(f, '(');
    crate::laws::placement::lemma_last_solid(f, '=');
    crate::laws::placement::lemma_column(l.page.out);
    reveal(State::start_line);
    reveal(State::step_operand);
}

// ── Commas and parentheses ───────────────────────────────────────────────────

/// A comma ends the assignment before it, unless it stands in parentheses or
/// brackets. It changes no nesting.
pub proof fn law_commas_end_assignments(s: State, env: Input, t: Token, p: int)
    requires
        mid_line(s),
        t.kind == TokenKind::Comma,
    ensures
        ({
            let r = s.step(env, t, p).0;
            &&& r.assign == if s.parens.len() == 0 && s.depth.brackets == 0 {
                None
            } else {
                s.assign
            }
            &&& r.depth == s.depth && r.braces == s.braces && r.parens == s.parens && r.cases
                == s.cases && r.decls == s.decls
        }),
{
    assert(s.step(env, t, p).0 == s.on_comma(env, p, t.span.line)) by {
        reveal(State::step);
    }
    crate::laws::gaps::lemma_flushed(s, env);
    reveal(State::lead_in);
}

/// A `)` that starts a line stands where a token inside of its parentheses would.
pub proof fn law_closing_parentheses_align(s: State, env: Input, t: Token, p: int)
    requires
        settled(s),
        s.page.at_line_start,
        s.parens.len() > 0,
        t.kind == TokenKind::RParen && t.lexeme@ == seq![')'],
    ensures
        ({
            let r = s.step(env, t, p).0;
            let top = s.parens.last();
            let col = if top.eol || last_solid(s.page.out) == Some('(') {
                top.eol_col
            } else {
                top.col
            };
            &&& r.page.out == s.page.out + blanks(col) + seq![')']
            &&& r.parens =~= s.parens.drop_last()
            &&& r.marks.prev == Some(TokenKind::RParen)
        }),
{
    assert(s.step(env, t, p).0 == s.on_rparen(env)) by {
        reveal(State::step);
    }
    crate::laws::gaps::lemma_flushed(s, env);
    crate::laws::placement::lemma_last_solid(s, '(');
    let top = s.parens.last();
    assert(crate::text::spaces(top.eol_col) =~= blanks(top.eol_col));
    assert(crate::text::spaces(top.col) =~= blanks(top.col));
}

/// Parentheses and brackets change nothing around them: no level, no brace and
/// no assignment. Behind a closing one the next space is not suppressed.
pub proof fn law_parentheses_keep_the_rest(s: State, env: Input, t: Token, p: int)
    requires
        mid_line(s),
        t.kind == TokenKind::LParen || t.kind == TokenKind::RParen || t.kind == TokenKind::LBracket
            || t.kind == TokenKind::RBracket,
    ensures
        ({
            let r = s.step(env, t, p).0;
            &&& r.assign == s.assign && r.braces == s.braces && r.cases == s.cases && r.decls
                == s.decls && r.pp_saved == s.pp_saved
            &&& r.depth.indent == s.depth.indent && r.depth.switches == s.depth.switches
                && r.depth.classes == s.depth.classes && r.depth.templates == s.depth.templates
                && r.depth.ternaries == s.depth.ternaries
            &&& t.kind == TokenKind::LParen || t.kind == TokenKind::RParen ==> r.depth.brackets
                == s.depth.brackets
            &&& !r.page.suppress_space && !r.page.at_line_start
            &&& waits(r.marks) == waits(s.marks)
        }),
{
    crate::laws::gaps::lemma_flushed(s, env);
    reveal(State::step);
    reveal(State::lead_in);
}

/// What is still awaited: bodies of a type, a `switch` or a linkage block, and
/// the `:` of labels.
pub open spec fn waits(m: Marks) -> Seq<bool> {
    seq![
        m.pending_type,
        m.pending_switch,
        m.pending_linkage,
        m.in_case_label,
        m.in_access_label,
        m.in_goto_label,
    ]
}

/// A symbol that `operator` overloads is noted up to the end of it: `operator[]`
/// and `operator()` have two tokens.
pub proof fn law_overloads_of_two_symbols(s: State, env: Input, t: Token, p: int)
    requires
        mid_line(s),
        t.kind == TokenKind::LParen || t.kind == TokenKind::LBracket || t.kind
            == TokenKind::RBracket,
    ensures
        ({
            let r = s.step(env, t, p).0;
            &&& t.kind == TokenKind::LParen || t.kind == TokenKind::LBracket
                ==> r.marks.after_overload == s.marks.after_operator
            &&& t.kind == TokenKind::RBracket && !s.marks.after_operator ==> r.marks.after_overload
                == s.marks.after_overload
            &&& !r.marks.after_operator
        }),
{
    crate::laws::gaps::lemma_flushed(s, env);
    reveal(State::step);
    reveal(State::lead_in);
}

// ── Braces ───────────────────────────────────────────────────────────────────

/// The `{` of a body is the innermost one until its `}`. Nothing awaits a body
/// any more, assignments around it no longer align, and the bodies of types and
/// `switch` statements are counted.
pub proof fn law_bodies_nest(s: State, env: Input, t: Token, p: int, ctx: BraceCtx)
    requires
        settled(s),
        s.parens.len() == 0,
        opens_body(s, env, t, p, ctx),
        !s.marks.after_case_colon,
    ensures
        ({
            let r = s.step(env, t, p).0;
            &&& r.braces == s.braces.push(Brace { ctx, large_init: false })
            &&& r.assign is None && r.parens == s.parens
            &&& !r.marks.pending_type && !r.marks.pending_switch && !r.marks.pending_linkage
            &&& r.marks.prev == Some(TokenKind::LBrace)
            &&& r.depth.switches == s.depth.switches + if ctx == BraceCtx::Switch {
                1nat
            } else {
                0nat
            }
            &&& r.depth.classes == s.depth.classes + if ctx == BraceCtx::Type {
                1nat
            } else {
                0nat
            }
            &&& r.depth.indent == s.depth.indent + if ctx == BraceCtx::Linkage {
                0nat
            } else {
                1nat
            }
            &&& r.cases == if ctx == BraceCtx::Switch {
                s.cases.push(false)
            } else {
                s.cases
            }
            &&& r.depth.brackets == s.depth.brackets && r.depth.ternaries == s.depth.ternaries
        }),
{
    crate::laws::placement::lemma_opening(s, env, t, p, ctx);
    let placed = s.place_brace(env, ctx, p);
    assert(placed.braces == s.braces && placed.depth == s.depth && placed.cases == s.cases
        && placed.parens == s.parens && placed.marks == s.marks) by {
        reveal(State::place_brace);
        reveal(State::own_line);
        reveal(State::start_line);
    }
    reveal(State::open_body);
}

/// The `}` of a body leaves it: its level, with that of the statements of a
/// `case` in it, and its count.
pub proof fn law_bodies_are_left(s: State, env: Input, t: Token, p: int)
    requires
        settled(s),
        s.parens.len() == 0,
        t.kind == TokenKind::RBrace && t.lexeme@ == seq!['}'],
        s.braces.len() > 0,
    ensures
        ({
            let r = s.step(env, t, p).0;
            let ctx = s.braces.last().ctx;
            let cased = ctx == BraceCtx::Switch && env.config.indent.indent_switch_case
                && s.cases.len() > 0;
            let own: nat = if ctx == BraceCtx::Linkage {
                0
            } else {
                1
            };
            &&& r.braces == s.braces.drop_last()
            &&& r.assign is None && r.parens == s.parens
            &&& r.marks.prev == Some(TokenKind::RBrace)
            &&& r.depth.indent == less(
                s.depth.indent,
                if cased && s.cases.last() {
                    own + 1
                } else {
                    own
                },
            )
            &&& r.cases == if cased {
                s.cases.drop_last()
            } else {
                s.cases
            }
            &&& r.depth.switches == if ctx == BraceCtx::Switch {
                less(s.depth.switches, 1)
            } else {
                s.depth.switches
            }
            &&& r.depth.classes == if ctx == BraceCtx::Type {
                less(s.depth.classes, 1)
            } else {
                s.depth.classes
            }
            &&& r.depth.brackets == s.depth.brackets && r.depth.ternaries == s.depth.ternaries
        }),
{
    assert(s.step(env, t, p).0 == s.on_rbrace(env, p, t.span.line)) by {
        reveal(State::step);
    }
    let d = s.dedent(env.config);
    crate::laws::gaps::lemma_flushed(d, env);
    reveal(State::own_line);
    reveal(State::start_line);
    reveal(State::post_brace);
}

/// What a body adds to the nesting its `}` takes away: the levels, the counts
/// and the open braces are those before the `{`, when nothing in between
/// changed them.
pub proof fn law_bodies_leave_no_trace(
    s: State,
    env: Input,
    t: Token,
    p: int,
    ctx: BraceCtx,
    r: State,
    u: Token,
    q: int,
)
    requires
        settled(s) && settled(r),
        s.parens.len() == 0,
        opens_body(s, env, t, p, ctx),
        !s.marks.after_case_colon,
        u.kind == TokenKind::RBrace && u.lexeme@ == seq!['}'],
        ({
            let b = s.step(env, t, p).0;
            r.depth == b.depth && r.braces == b.braces && r.parens == b.parens && r.cases == b.cases
        }),
        env.config.indent.indent_switch_case,
    ensures
        ({
            let e = r.step(env, u, q).0;
            e.depth.indent == s.depth.indent && e.depth.switches == s.depth.switches
                && e.depth.classes == s.depth.classes && e.braces =~= s.braces && e.cases
                =~= s.cases
        }),
{
    law_bodies_nest(s, env, t, p, ctx);
    law_bodies_are_left(r, env, u, q);
}

/// An empty initializer is `{}`.
pub proof fn law_empty_initializers(s: State, env: Input, t: Token, p: int)
    requires
        mid_line(s),
        s.marks.prev == Some(TokenKind::Eq),
        crate::laws::gaps::behind(s, TokenKind::Eq),
        t.kind == TokenKind::LBrace && t.lexeme@ == seq!['{'],
        crate::laws::statements::at(env.toks, p, TokenKind::RBrace),
    ensures
        s.step(env, t, p).0.page.out == s.page.out + (
        if env.config.spacing.space_around_binary_ops {
            seq![' ', '{', '}']
        } else {
            seq!['{', '}']
        }),
        s.step(env, t, p).1 == p + 1,
{
    assert(s.step(env, t, p) == s.on_lbrace(env, p, t.span.line)) by {
        reveal(State::step);
    }
    crate::laws::gaps::lemma_flushed(s, env);
    assert(s.brace_ctx(env, p) == BraceCtx::Other) by {
        reveal(State::brace_ctx);
    }
    assert(crate::scan::skip(env.toks, p, crate::token::KindSet::FlatInit) == p);
    assert(crate::scan::content(env.toks, p, p) =~= Seq::<Token>::empty());
    assert(crate::scan::small_init_end(env.toks, p) == Some(p));
    reveal(State::place_brace);
    let o = s.place_brace(env, BraceCtx::Other, p);
    assert(o.page.out + seq!['}'] =~= s.page.out + (if env.config.spacing.space_around_binary_ops {
        seq![' ', '{', '}']
    } else {
        seq!['{', '}']
    }));
}

// ── Comments and directives ──────────────────────────────────────────────────

/// A comment changes no nesting and ends no assignment; its kind is noted.
pub proof fn law_comments_keep_the_rest(s: State, env: Input, t: Token, p: int)
    requires
        mid_line(s),
        t.kind == TokenKind::CommentLine || t.kind == TokenKind::CommentBlock,
    ensures
        ({
            let r = s.step(env, t, p).0;
            &&& r.assign == s.assign && r.braces == s.braces && r.cases == s.cases && r.decls
                == s.decls && r.pp_saved == s.pp_saved && r.parens == s.parens && r.depth == s.depth
            &&& r.marks.prev == Some(t.kind)
            &&& waits(r.marks) == waits(s.marks)
            &&& s.step(env, t, p).1 == p
        }),
{
    crate::laws::gaps::lemma_flushed(s, env);
    reveal(State::step);
    reveal(State::lead_in);
}

/// So does a preprocessor line, but for the levels that its group notes.
pub proof fn law_directives_keep_the_rest(s: State, env: Input, t: Token, p: int)
    requires
        settled(s),
        t.kind == TokenKind::PreprocLine,
    ensures
        ({
            let r = s.step(env, t, p).0;
            &&& r.assign == s.assign && r.braces == s.braces && r.cases == s.cases && r.decls
                == s.decls && r.parens == s.parens
            &&& r.depth.switches == s.depth.switches && r.depth.classes == s.depth.classes
                && r.depth.brackets == s.depth.brackets && r.depth.ternaries == s.depth.ternaries
                && r.depth.templates == s.depth.templates
            &&& r.marks.prev == Some(t.kind)
            &&& waits(r.marks) == waits(s.marks)
            &&& s.step(env, t, p).1 == p
        }),
{
    assert(s.step(env, t, p) == (s.on_preproc(env, t.lexeme@), p)) by {
        reveal(State::step);
    }
    crate::laws::gaps::lemma_flushed(s, env);
    let c = crate::trivia::conditional(crate::trivia::unify(t.lexeme@, env.eol));
    let line = crate::trivia::preproc_line(t.lexeme@, env.config, env.eol);
    lemma_group_line(s.fresh_line(env.eol).track_group(c), env, c, line);
}

proof fn lemma_group_line(s: State, env: Input, c: crate::trivia::Conditional, line: Seq<char>)
    ensures
        ({
            let r = s.write_preproc(env.config, c, line);
            &&& r.assign == s.assign && r.braces == s.braces && r.cases == s.cases && r.decls
                == s.decls && r.parens == s.parens && r.marks == s.marks
            &&& r.depth.switches == s.depth.switches && r.depth.classes == s.depth.classes
                && r.depth.brackets == s.depth.brackets && r.depth.ternaries == s.depth.ternaries
                && r.depth.templates == s.depth.templates
        }),
{
}

} // verus!
