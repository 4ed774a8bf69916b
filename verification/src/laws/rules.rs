//! What the settings promise of single steps.

use crate::config::{Config, Eol, SpacingConfig};
use crate::layout::{BraceCtx, Input, State};
use crate::text::Class;
use crate::token::{KindSet, Token, TokenKind};
use crate::trivia::Conditional;
use vstd::prelude::*;

verus! {

// ── Blank lines ──────────────────────────────────────────────────────────────

/// Before a token at most `max_blank_lines` line ends are written.
pub proof fn law_blank_lines_are_capped(s: State, config: Config, eol: Eol)
    ensures
        s.owed_lines(config) <= config.newlines.max_blank_lines,
        s.flush(config, eol).page == s.page.end_lines(eol, s.owed_lines(config)),
        s.flush(config, eol).blank_lines == 0,
{
    reveal(State::flush);
}

/// With `blank_line_after_var_decl_block` the first statement behind the
/// declarations that lead a function body is owed a blank line: one line end
/// at the start of a line, two elsewhere, within `max_blank_lines`.
pub proof fn law_blank_line_follows_declarations(s: State, env: Input, k: TokenKind, p: int)
    requires
        env.config.newlines.blank_line_after_var_decl_block,
        s.decls.running && s.decls.at_stmt_start && s.decls.seen,
        !s.comment_is_transparent(env, k, p),
        !crate::scan::starts_decl(env.toks, k, p),
    ensures
        s.track_decls(env, k, p).owed_lines(env.config) >= crate::layout::min(
            if s.page.at_line_start {
                1
            } else {
                2
            },
            env.config.newlines.max_blank_lines as nat,
        ),
        !s.track_decls(env, k, p).decls.running,
{
    reveal(State::track_decls);
}

// ── Braces ───────────────────────────────────────────────────────────────────

/// Blanks and tabs only.
pub open spec fn is_indentation(s: Seq<char>) -> bool {
    forall|i: int| 0 <= i < s.len() ==> #[trigger] s[i] == ' ' || s[i] == '\t'
}

/// The text ends with a `{` that nothing but indentation precedes on its line.
pub open spec fn brace_on_own_line(out: Seq<char>) -> bool {
    exists|above: Seq<char>, lead: Seq<char>|
        out == #[trigger] (above + lead).push('{') && crate::laws::lines::ends_line(above)
            && is_indentation(lead)
}

proof fn lemma_repeat_indentation(config: Config, n: nat)
    ensures
        is_indentation(crate::text::repeat(config.indent_unit(), n)),
    decreases n,
{
    if n > 0 {
        let m = (n - 1) as nat;
        lemma_repeat_indentation(config, m);
        let a = crate::text::repeat(config.indent_unit(), m);
        let s = a + config.indent_unit();
        assert forall|i: int| 0 <= i < s.len() implies #[trigger] s[i] == ' ' || s[i] == '\t' by {
            if i < a.len() {
                assert(s[i] == a[i]);
            } else {
                assert(s[i] == config.indent_unit()[i - a.len()]);
            }
        }
    }
}

proof fn lemma_start_line_leads(s: State, config: Config) -> (lead: Seq<char>)
    ensures
        s.start_line(config).page.out == s.page.out + lead,
        is_indentation(lead),
{
    reveal(State::start_line);
    lemma_repeat_indentation(config, s.depth.indent);
    lemma_repeat_indentation(config, s.depth.indent + 1);
    if s.parens.len() > 0 {
        let top = s.parens.last();
        let eol = top.eol || s.page.tail_is('(');
        crate::text::spaces(
            if eol {
                top.eol_col
            } else {
                top.col
            },
        )
    } else {
        match s.assign {
            Some(a) => {
                if a.eol || s.page.tail_is('=') {
                    crate::text::repeat(config.indent_unit(), s.depth.indent + 1)
                } else {
                    crate::text::spaces(a.col)
                }
            },
            None => crate::text::repeat(config.indent_unit(), s.depth.indent),
        }
    }
}

/// With `fn_brace_newline` the `{` of a function definition stands on a line
/// of its own, whatever the brace style. In the Allman style every `{` does
/// that opens a body.
pub proof fn law_brace_gets_its_own_line(s: State, env: Input, ctx: BraceCtx, p: int)
    requires
        s.sound(),
        ctx != BraceCtx::Other && ctx != BraceCtx::Linkage,
        env.config.braces.style == crate::config::BraceStyle::Allman || (ctx == BraceCtx::Function
            && env.config.braces.fn_brace_newline && !crate::scan::closes_ctrl_flow(env.toks, p)),
    ensures
        brace_on_own_line(s.place_brace(env, ctx, p).page.out),
{
    reveal(State::place_brace);
    reveal(State::own_line);
    let fresh = if s.page.at_line_start {
        s
    } else {
        s.nl(env.eol)
    };
    assert(crate::text::repeat(env.eol.text(), 1).last() == '\n');
    assert(crate::laws::lines::ends_line(fresh.page.out));
    let lead = lemma_start_line_leads(fresh, env.config);
    let out = s.place_brace(env, ctx, p).page.out;
    assert(out =~= (fresh.page.out + lead).push('{'));
}

/// In the K&R and Stroustrup styles every other `{` that opens a body follows
/// its head on the same line, behind a space: a line end between the two is
/// taken back.
pub proof fn law_brace_follows_its_head(s: State, env: Input, ctx: BraceCtx, p: int)
    requires
        !s.page.suppress_space,
        ctx != BraceCtx::Other && ctx != BraceCtx::Linkage,
        env.config.braces.style != crate::config::BraceStyle::Allman,
        !(ctx == BraceCtx::Function && env.config.braces.fn_brace_newline
            && !crate::scan::closes_ctrl_flow(env.toks, p)),
    ensures
        ({
            let head = if s.page.at_line_start {
                crate::text::trim_end(s.page.out, Class::AsciiWhite)
            } else {
                s.page.out
            };
            s.place_brace(env, ctx, p).page.out == if crate::text::ends_with(head, ' ') {
                head.push('{')
            } else {
                head.push(' ').push('{')
            }
        }),
{
    reveal(State::place_brace);
    let head = if s.page.at_line_start {
        crate::text::trim_end(s.page.out, Class::AsciiWhite)
    } else {
        s.page.out
    };
    let spaced = if crate::text::ends_with(head, ' ') {
        head
    } else {
        head.push(' ')
    };
    assert(s.place_brace(env, ctx, p).page.out =~= spaced.push('{'));
}

pub proof fn lemma_trimmed(s: Seq<char>, class: Class)
    ensures
        ({
            let t = crate::text::trim_end(s, class);
            t.len() > 0 ==> !class.has(t.last())
        }),
    decreases s.len(),
{
    if s.len() > 0 && class.has(s.last()) {
        lemma_trimmed(s.drop_last(), class);
    }
}

/// With `collapse_empty_body` the `}` of a body that holds nothing but layout
/// directly follows its `{`, and both are taken at once.
pub proof fn law_empty_bodies_collapse(s: State, env: Input, p: int, line: u32)
    requires
        env.config.braces.collapse_empty_body,
        1 <= p,
        crate::scan::is_at(
            env.toks,
            crate::scan::skip(env.toks, p, KindSet::Layout),
            TokenKind::RBrace,
        ),
    ensures
        ({
            let (next, q) = s.on_lbrace(env, p, line);
            &&& q == crate::scan::skip(env.toks, p, KindSet::Layout) + 1
            &&& exists|before: Seq<char>, after: Seq<char>|
                next.page.out == #[trigger] (before.push('{').push('}') + after)
                    && crate::content::all_white(after)
        }),
{
    let ctx = s.brace_ctx(env, p);
    let f = s.flush(env.config, env.eol);
    let opened = f.place_brace(env, ctx, p);
    let before = opened.page.out.drop_last();
    assert(opened.page.out =~= before.push('{')) by {
        reveal(State::place_brace);
    }
    let end = crate::scan::skip(env.toks, p, KindSet::Layout);
    lemma_layout_is_flat(env.toks, p);
    let next = s.on_lbrace(env, p, line).0;
    let small = crate::scan::small_init_end(env.toks, p);
    if ctx == BraceCtx::Other && small is Some {
        assert(next.page.out =~= before.push('{').push('}') + Seq::<char>::empty());
    } else {
        let kind = crate::scan::kind_at(
            env.toks,
            crate::scan::skip(env.toks, end + 1, KindSet::Layout),
        );
        let closed = opened.write(seq!['}']);
        assert(closed.page.out =~= before.push('{').push('}'));
        let after = lemma_post_brace_tail(closed, env, ctx, kind, end + 1, line);
        assert(next.page.out == closed.post_brace(env, ctx, kind, end + 1, line).page.out) by {
            reveal(State::close_empty);
        }
        assert(next.page.out =~= before.push('{').push('}') + after);
    }
}

/// Layout that ends at a `}` and holds no line end is an empty initializer.
proof fn lemma_layout_is_flat(toks: Seq<Token>, p: int)
    requires
        0 <= p,
        crate::scan::is_at(toks, crate::scan::skip(toks, p, KindSet::Layout), TokenKind::RBrace),
    ensures
        match crate::scan::small_init_end(toks, p) {
            Some(e) => e == crate::scan::skip(toks, p, KindSet::Layout) && crate::scan::content(
                toks,
                p,
                e,
            ).len() == 0,
            None => true,
        },
    decreases toks.len() - p,
{
    if crate::scan::any_at(toks, p, KindSet::Layout) {
        lemma_layout_is_flat(toks, p + 1);
    }
}

/// What follows a `}` is white space.
proof fn lemma_post_brace_tail(
    s: State,
    env: Input,
    ctx: BraceCtx,
    next: Option<TokenKind>,
    p: int,
    line: u32,
) -> (tail: Seq<char>)
    requires
        crate::text::ends_with(s.page.out, '}'),
    ensures
        s.post_brace(env, ctx, next, p, line).page.out == s.page.out + tail,
        crate::content::all_white(tail),
{
    reveal(State::post_brace);
    let after = s.post_brace(env, ctx, next, p, line).page;
    crate::content::lemma_eol_white(env.eol);
    assert(crate::text::repeat(env.eol.text(), 1) =~= env.eol.text()) by {
        reveal_with_fuel(crate::text::repeat, 2);
    }
    if after.out == s.page.out {
        assert(s.page.out + Seq::<char>::empty() =~= s.page.out);
        Seq::empty()
    } else if after.out == s.page.out.push(' ') {
        assert(s.page.out.push(' ') =~= s.page.out + seq![' ']);
        seq![' ']
    } else {
        assert(after.out == s.page.out + env.eol.text());
        env.eol.text()
    }
}

/// Closing a body undoes what opening it did to the nesting: the indentation
/// level and the stack of braces are what they were. A block that took over
/// the extra level of a `case` label gives that level up.
pub proof fn law_closing_undoes_opening(s: State, env: Input, ctx: BraceCtx, p: int)
    ensures
        ({
            let closed = s.open_body(env, ctx, p).dedent(env.config).close_body();
            let takes_level = ctx == BraceCtx::Block && s.marks.after_case_colon
                && env.config.indent.indent_switch_case;
            &&& closed.braces == s.braces
            &&& closed.depth.switches == s.depth.switches
            &&& closed.depth.classes == s.depth.classes
            &&& closed.depth.indent == if takes_level {
                crate::layout::minus(s.depth.indent, 1)
            } else {
                s.depth.indent
            }
            &&& !takes_level && env.config.indent.indent_switch_case ==> closed.cases == s.cases
        }),
{
    reveal(State::open_body);
    let opened = s.open_body(env, ctx, p);
    assert(opened.inner_ctx() == ctx);
    let closed = opened.dedent(env.config).close_body();
    assert(closed.braces =~= s.braces);
    if ctx == BraceCtx::Switch {
        assert(s.cases.push(false).drop_last() =~= s.cases);
    }
}

/// With `nl_brace_else`, or without `cuddle_else`, a `}` never shares its line
/// with the `else` behind it.
pub proof fn law_else_starts_a_line(s: State, env: Input, ctx: BraceCtx, p: int, line: u32)
    requires
        env.config.newlines.nl_brace_else || !env.config.braces.cuddle_else,
        crate::scan::is_at(
            env.toks,
            crate::scan::skip(env.toks, p, KindSet::Layout),
            TokenKind::KwElse,
        ),
    ensures
        s.post_brace(env, ctx, Some(TokenKind::KwElse), p, line) == s.break_line(env.eol),
{
    reveal(State::post_brace);
    lemma_blanks_are_layout(env.toks, p);
}

/// Behind the blanks lies the same token as behind the layout, or a line end.
proof fn lemma_blanks_are_layout(toks: Seq<Token>, p: int)
    ensures
        crate::scan::skip(toks, crate::scan::skip(toks, p, KindSet::Blank), KindSet::Layout)
            == crate::scan::skip(toks, p, KindSet::Layout),
    decreases toks.len() - p,
{
    if crate::scan::any_at(toks, p, KindSet::Blank) {
        lemma_blanks_are_layout(toks, p + 1);
    }
}

// ── Labels ───────────────────────────────────────────────────────────────────

/// Unless `indent_goto_labels` is set, goto labels start in the first column.
pub proof fn law_goto_labels_start_the_line(s: State, env: Input, k: TokenKind, text: Seq<char>, p: int)
    requires
        s.sound(),
        s.is_goto_label(env, k, p),
    ensures
        exists|above: Seq<char>|
            s.on_goto_label(env, k, text).page.out == #[trigger] (above + text)
                && crate::laws::lines::ends_line(above),
{
    let f = s.flush(env.config, env.eol);
    s.lemma_flush(env.config, env.eol);
    assert(f.page.at_line_start) by {
        reveal(State::flush);
    }
    assert(text.len() == 0 ==> f.page.out + text =~= f.page.out);
    assert(s.on_goto_label(env, k, text).page.out == f.page.out + text);
}

// ── Pointers ─────────────────────────────────────────────────────────────────

/// The settings differ at most in `pointer_align`.
pub open spec fn differ_in_pointer_align(a: Config, b: Config) -> bool {
    b == (Config {
        spacing: SpacingConfig { pointer_align: b.spacing.pointer_align, ..a.spacing },
        ..a
    })
}

proof fn lemma_flush_ignores(s: State, a: Config, b: Config, eol: Eol)
    requires
        differ_in_pointer_align(a, b),
    ensures
        s.flush(a, eol) == s.flush(b, eol),
{
    reveal(State::flush);
}

proof fn lemma_lead_in_ignores(s: State, a: Config, b: Config, wanted: bool)
    requires
        differ_in_pointer_align(a, b),
    ensures
        s.lead_in(a, wanted) == s.lead_in(b, wanted),
{
    reveal(State::lead_in);
    reveal(State::start_line);
    assert(a.indent_unit() == b.indent_unit());
}

proof fn lemma_needs_space_ignores(s: State, a: Config, b: Config, k: TokenKind)
    requires
        differ_in_pointer_align(a, b),
    ensures
        s.needs_space(a, k) == s.needs_space(b, k),
{
}

/// `pointer_align` moves declarators only: a `*` or `&` that multiplies,
/// dereferences, masks, takes an address or is overloaded is written the same
/// under every value of it.
pub proof fn law_pointer_align_moves_declarators_only(
    s: State,
    a: Input,
    b: Input,
    t: Token,
    p: int,
)
    requires
        a.toks == b.toks,
        a.eol == b.eol,
        differ_in_pointer_align(a.config, b.config),
        t.kind == TokenKind::Star || t.kind == TokenKind::Amp,
        !s.at_declarator(a, p),
    ensures
        s.step(a, t, p) == s.step(b, t, p),
{
    let f = s.flush(a.config, a.eol);
    lemma_flush_ignores(s, a.config, b.config, a.eol);
    lemma_needs_space_ignores(f, a.config, b.config, t.kind);
    lemma_lead_in_ignores(f, a.config, b.config, f.needs_space(a.config, t.kind));
    assert(s.on_sign(a, t.kind, t.lexeme@) == s.on_sign(b, t.kind, t.lexeme@));
    assert(s.step_operand(a, t, p) == s.on_sign(a, t.kind, t.lexeme@)) by {
        reveal(State::step_operand);
    }
    assert(s.step_operand(b, t, p) == s.on_sign(b, t.kind, t.lexeme@)) by {
        reveal(State::step_operand);
    }
    reveal(State::step);
}

/// A `++` or `--` in front of its operand is spaced as the operand would be:
/// behind an operator, a comma, a keyword or a `;` inside of parentheses.
pub proof fn law_increments_keep_their_distance(s: State, config: Config, k: TokenKind)
    requires
        k == TokenKind::PlusPlus || k == TokenKind::MinusMinus,
        s.marks.prev is Some,
        !s.marks.after_operator,
        s.depth.templates == 0,
    ensures
        ({
            let prev = s.marks.prev->0;
            &&& KindSet::BinaryOp.has(prev) ==> s.needs_space(config, k)
                == config.spacing.space_around_binary_ops
            &&& prev == TokenKind::Comma ==> s.needs_space(config, k)
                == config.spacing.space_after_comma
            &&& KindSet::AnyKw.has(prev) ==> s.needs_space(config, k)
            &&& prev == TokenKind::Semi && s.parens.len() > 0 ==> s.needs_space(config, k)
            &&& KindSet::EndsExpr.has(prev) && !s.marks.after_cast ==> !s.needs_space(config, k)
        }),
{
}

// ── Conditional groups ───────────────────────────────────────────────────────

/// Both branches of a conditional group start from the same indentation: at an
/// `#else` or `#elif` the level is the one at the `#if`, whatever stood
/// between them.
pub proof fn law_branches_start_alike(s: State, t: State)
    requires
        t.pp_saved == s.track_group(Conditional::Open).pp_saved,
    ensures
        t.track_group(Conditional::Reopen).depth.indent == s.depth.indent,
        t.track_group(Conditional::Reopen).pp_saved == t.pp_saved,
        t.track_group(Conditional::Close).pp_saved == s.pp_saved,
{
    assert(s.pp_saved.push(s.depth.indent).drop_last() =~= s.pp_saved);
}

// ── Pass-through ─────────────────────────────────────────────────────────────

/// Preprocessor lines are passed through: unless they are to be indented, they
/// are written as they are, but for their line ends and, on an `#endif`, the
/// spaces before a comment.
pub proof fn law_preprocessor_lines_pass_through(s: State, config: Config, eol: Eol, text: Seq<char>)
    requires
        !config.preprocessor.pp_indent,
    ensures
        ({
            let c = crate::trivia::conditional(crate::trivia::unify(text, eol));
            let line = crate::trivia::preproc_line(text, config, eol);
            &&& s.write_preproc(config, c, line).page == s.page.write(line)
            &&& c != Conditional::Close ==> line == crate::trivia::unify(text, eol)
        }),
{
}

/// A `//` comment is written as it is, up to the end of its line.
pub proof fn law_line_comments_pass_through(s: State, env: Input, text: Seq<char>)
    ensures
        exists|before: Seq<char>|
            s.on_line_comment(env, text).page.out == #[trigger] crate::text::trim_end(
                before + crate::text::trim_end(text, Class::Break),
                Class::Space,
            ) + env.eol.text(),
{
    let f = s.flush(env.config, env.eol);
    let placed = if s.merges_comment(env.config) {
        f.join_line()
    } else {
        f
    };
    let led = placed.lead_in(env.config, true);
    let body = crate::text::trim_end(text, Class::Break);
    let before = led.page.out;
    assert(body.len() == 0 ==> before + body =~= before);
    assert(crate::text::repeat(env.eol.text(), 1) =~= env.eol.text()) by {
        reveal_with_fuel(crate::text::repeat, 2);
    }
    assert(s.on_line_comment(env, text).page.out == crate::text::trim_end(
        before + body,
        Class::Space,
    ) + env.eol.text());
}

// ── Words ────────────────────────────────────────────────────────────────────

/// A token that reads as a word: next to another one it needs white space.
pub open spec fn is_wordlike(k: TokenKind) -> bool {
    k == TokenKind::Ident || k == TokenKind::LitInt || k == TokenKind::LitFloat
        || KindSet::AnyKw.has(k)
}

/// The text is empty or ends with white space.
pub open spec fn ends_white(s: Seq<char>) -> bool {
    s.len() == 0 || crate::text::is_white(s.last())
}

/// Words stay apart: a word that follows a word is written behind white space.
/// The exception is the word behind `operator`. No space is suppressed behind
/// a word: that ends with the token that is written next.
pub proof fn law_words_stay_apart(s: State, env: Input, k: TokenKind, text: Seq<char>)
    requires
        s.sound(),
        s.marks.prev is Some,
        is_wordlike(s.marks.prev->0),
        is_wordlike(k),
        !s.marks.after_operator,
        !s.page.suppress_space,
    ensures
        exists|before: Seq<char>|
            s.write_spaced(env, k, text).page.out == #[trigger] (before + text) && ends_white(
                before,
            ),
        text.len() > 0 ==> !s.write_spaced(env, k, text).page.suppress_space,
{
    reveal(State::write_spaced);
    reveal(State::flush);
    reveal(State::lead_in);
    let f = s.flush(env.config, env.eol);
    assert(crate::text::repeat(env.eol.text(), f.owed_lines(env.config)).len() >= 0);
    assert(f.needs_space(env.config, k));
    s.lemma_flush(env.config, env.eol);
    let led = f.lead_in(env.config, true);
    if f.page.at_line_start {
        let lead = lemma_start_line_leads(f, env.config);
        assert(led.page.out == f.page.out + lead);
        assert(ends_white(led.page.out)) by {
            if lead.len() > 0 {
                assert(led.page.out.last() == lead[lead.len() - 1]);
            } else {
                assert(led.page.out =~= f.page.out);
            }
        }
    } else {
        assert(ends_white(led.page.out));
    }
    assert(text.len() == 0 ==> led.page.out + text =~= led.page.out);
    assert(s.write_spaced(env, k, text).page.out == led.page.out + text);
}

// ── `#endif` ─────────────────────────────────────────────────────────────────

pub proof fn lemma_find_first(s: Seq<char>, p: Seq<char>, i: int, j: int)
    requires
        0 <= i <= j,
        crate::text::matches_at(s, j, p),
        forall|k: int| i <= k < j ==> !#[trigger] crate::text::matches_at(s, k, p),
    ensures
        crate::text::find_from(s, p, i) == Some(j),
    decreases j - i,
{
    if i < j {
        lemma_find_first(s, p, i + 1, j);
    }
}

pub proof fn lemma_found(s: Seq<char>, p: Seq<char>, i: int)
    requires
        0 <= i,
        crate::text::find_from(s, p, i) is Some,
    ensures
        ({
            let j = crate::text::find_from(s, p, i)->0;
            &&& i <= j
            &&& crate::text::matches_at(s, j, p)
            &&& forall|k: int| i <= k < j ==> !#[trigger] crate::text::matches_at(s, k, p)
        }),
    decreases s.len() + 1 - i,
{
    if !crate::text::matches_at(s, i, p) {
        lemma_found(s, p, i + 1);
    }
}

pub proof fn lemma_trim_spaces(s: Seq<char>, n: nat)
    requires
        s.len() > 0 ==> !crate::text::is_white(s.last()),
    ensures
        crate::text::trim_end(s + crate::text::spaces(n), Class::White) == s,
    decreases n,
{
    let t = s + crate::text::spaces(n);
    if n == 0 {
        assert(t =~= s);
    } else {
        lemma_trim_spaces(s, (n - 1) as nat);
        assert(t.drop_last() =~= s + crate::text::spaces((n - 1) as nat));
    }
}

/// Of two spacings of the comment behind `#endif` the last one counts: no trace
/// of the first is left.
pub proof fn law_endif_spacing_is_stable(line: Seq<char>, n: nat, again: nat)
    ensures
        crate::trivia::space_endif(crate::trivia::space_endif(line, n), again)
            == crate::trivia::space_endif(line, again),
{
    let open = seq!['/', '*'];
    match crate::text::find(line, open) {
        Some(i) => {
            lemma_found(line, open, 0);
            let head = crate::text::trim_end(line.take(i), Class::White);
            lemma_trimmed(line.take(i), Class::White);
            crate::laws::lines::lemma_trim_end_prefix(line.take(i), Class::White);
            let lead = head + crate::text::spaces(n);
            let spaced = lead + line.skip(i);
            let j = lead.len() as int;
            assert(spaced.subrange(j, j + 2) =~= line.subrange(i, i + 2));
            assert forall|k: int| 0 <= k < j implies !#[trigger] crate::text::matches_at(
                spaced,
                k,
                open,
            ) by {
                if crate::text::matches_at(spaced, k, open) {
                    assert(spaced.subrange(k, k + 2)[0] == spaced[k]);
                    assert(spaced.subrange(k, k + 2)[1] == spaced[k + 1]);
                    assert(line.subrange(i, i + 2)[0] == line[i]);
                    if k < head.len() {
                        assert(spaced[k] == head[k] && head[k] == line[k]);
                        if k + 1 < head.len() {
                            assert(spaced[k + 1] == head[k + 1] && head[k + 1] == line[k + 1]);
                            assert(line.subrange(k, k + 2) =~= open);
                            assert(crate::text::matches_at(line, k, open));
                        } else if n > 0 {
                            assert(spaced[k + 1] == ' ');
                        } else {
                            assert(spaced[k + 1] == line[i]);
                        }
                    } else {
                        assert(spaced[k] == ' ');
                    }
                }
            }
            lemma_find_first(spaced, open, 0, j);
            assert(spaced.take(j) =~= lead);
            assert(spaced.skip(j) =~= line.skip(i));
            lemma_trim_spaces(head, n);
        },
        None => {},
    }
}

} // verus!
