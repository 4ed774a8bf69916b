//! How colons, angle brackets and declarators are set.

use crate::config::PointerAlign;
use crate::layout::{BraceCtx, Input, State};
use crate::token::{KindSet, Token, TokenKind};
use vstd::prelude::*;

verus! {

// ── Colons ───────────────────────────────────────────────────────────────────

proof fn lemma_colon_taken(s: State, env: Input, t: Token, p: int)
    requires
        t.kind == TokenKind::Colon,
    ensures
        s.step(env, t, p).0 == s.on_colon(env, p),
{
    reveal(State::step);
}

/// The coming `:` ends a `case`, an access specifier or a goto label.
pub open spec fn awaits_label(s: State) -> bool {
    s.marks.in_case_label || s.marks.in_access_label || s.marks.in_goto_label
}

/// The `:` of a label is written right behind it and ends its line.
pub proof fn law_labels_end_their_line(s: State, env: Input, t: Token, p: int)
    requires
        crate::laws::gaps::mid_line(s),
        t.kind == TokenKind::Colon && t.lexeme@ == seq![':'],
        awaits_label(s),
    ensures
        ({
            let r = s.step(env, t, p).0;
            &&& r.page.out == s.page.out + seq![':'] + env.eol.text()
            &&& r.depth.indent == if s.marks.in_case_label && env.config.indent.indent_switch_case {
                s.depth.indent + 1
            } else {
                s.depth.indent
            }
            &&& r.depth.ternaries == s.depth.ternaries
        }),
{
    lemma_colon_taken(s, env, t, p);
    crate::laws::gaps::lemma_flushed(s, env);
    let a = s.page.out + seq![':'];
    assert(crate::text::trim_end(a, crate::text::Class::Space) == a);
    assert(crate::text::repeat(env.eol.text(), 1) =~= env.eol.text()) by {
        reveal_with_fuel(crate::text::repeat, 2);
    }
}

/// A `?` is answered by the next `:` that ends no label: a space stands before
/// that `:`.
pub proof fn law_choices_are_spaced(s: State, env: Input, t: Token, p: int)
    requires
        crate::laws::gaps::mid_line(s),
    ensures
        t.kind == TokenKind::Question ==> s.step(env, t, p).0.depth.ternaries == s.depth.ternaries
            + 1,
        t.kind == TokenKind::Colon && t.lexeme@ == seq![':'] && !awaits_label(s)
            && s.depth.ternaries > 0 ==> {
            &&& crate::laws::gaps::parted(s, env, t, p)
            &&& s.step(env, t, p).0.depth.ternaries == s.depth.ternaries - 1
        },
{
    crate::laws::gaps::lemma_flushed(s, env);
    if t.kind == TokenKind::Question {
        crate::laws::gaps::lemma_taken(s, env, t, p);
        crate::laws::gaps::lemma_operand_taken(s, env, t, p);
        reveal(State::write_spaced);
        reveal(State::lead_in);
    } else if t.kind == TokenKind::Colon {
        lemma_colon_taken(s, env, t, p);
        assert(s.page.out.push(' ') =~= s.page.out + seq![' ']);
    }
}

/// Outside of labels and choices a `:` is written right behind the token before
/// it, but the `:` of a bit-field, between a member's name and its width,
/// behind a space.
pub proof fn law_other_colons_are_tight(s: State, env: Input, t: Token, p: int)
    requires
        crate::laws::gaps::mid_line(s),
        t.kind == TokenKind::Colon && t.lexeme@ == seq![':'],
        !awaits_label(s),
        s.depth.ternaries == 0,
    ensures
        ({
            let i = crate::laws::statements::past_layout(env.toks, p);
            let width = s.marks.prev == Some(TokenKind::Ident) && crate::laws::statements::at(
                env.toks,
                i,
                TokenKind::LitInt,
            ) && s.braces.len() > 0 && s.braces.last().ctx == BraceCtx::Type;
            crate::laws::gaps::parted_if(width, s, env, t, p)
        }),
{
    lemma_colon_taken(s, env, t, p);
    crate::laws::gaps::lemma_flushed(s, env);
    crate::laws::gaps::lemma_layout(env.toks, p);
    assert(s.page.out.push(' ') =~= s.page.out + seq![' ']);
}

// ── Angle brackets ───────────────────────────────────────────────────────────

/// What a template argument list may hold besides angle brackets.
pub open spec fn is_argument(k: TokenKind) -> bool {
    ||| k == TokenKind::Whitespace || k == TokenKind::Newline
    ||| k == TokenKind::Ident || k == TokenKind::Keyword || k == TokenKind::KwStruct || k
        == TokenKind::KwClass || k == TokenKind::KwUnion || k == TokenKind::KwEnum
    ||| k == TokenKind::KwTemplate || k == TokenKind::KwTypename || k == TokenKind::KwUsing || k
        == TokenKind::ColonColon || k == TokenKind::Star || k == TokenKind::Amp
    ||| k == TokenKind::Comma || k == TokenKind::LitInt || k == TokenKind::LitFloat || k
        == TokenKind::DotDotDot
}

/// An angle bracket, or two.
pub open spec fn is_angle(k: TokenKind) -> bool {
    k == TokenKind::Lt || k == TokenKind::Gt || k == TokenKind::GtGt
}

/// How many more `<` than `>` stand from `i` up to `j`.
pub open spec fn angles(toks: Seq<Token>, i: int, j: int) -> int
    decreases j - i,
{
    if j <= i {
        0
    } else {
        angles(toks, i, j - 1) + match toks[j - 1].kind {
            TokenKind::Lt => 1int,
            TokenKind::Gt => -1int,
            TokenKind::GtGt => -2int,
            _ => 0int,
        }
    }
}

proof fn lemma_angles_first(toks: Seq<Token>, i: int, j: int)
    requires
        i < j,
    ensures
        angles(toks, i, j) == angles(toks, i + 1, j) + match toks[i].kind {
            TokenKind::Lt => 1int,
            TokenKind::Gt => -1int,
            TokenKind::GtGt => -2int,
            _ => 0int,
        },
    decreases j - i,
{
    reveal_with_fuel(angles, 2);
    if i + 1 < j {
        lemma_angles_first(toks, i, j - 1);
    }
}

/// The token at `e` closes `d` angle brackets that are open at `i`, and nothing
/// but template arguments stands between.
pub open spec fn closes_angles(toks: Seq<Token>, i: int, e: int, d: int) -> bool {
    &&& 0 <= i <= e < toks.len()
    &&& forall|x: int|
        i <= x < e ==> is_argument((#[trigger] toks[x]).kind) || is_angle(toks[x].kind)
    &&& forall|x: int| i <= x <= e ==> d + #[trigger] angles(toks, i, x) > 0
    &&& toks[e].kind == TokenKind::Gt || toks[e].kind == TokenKind::GtGt
    &&& d + angles(toks, i, e + 1) <= 0
}

proof fn lemma_closes(toks: Seq<Token>, i: int, e: int, d: nat, budget: nat)
    requires
        closes_angles(toks, i, e, d as int),
        e - i < budget,
    ensures
        crate::scan::closes_template(toks, i, d, budget),
    decreases e - i,
{
    lemma_angles_first(toks, i, e + 1);
    assert(angles(toks, i, i) == 0);
    if i < e {
        let g = d + match toks[i].kind {
            TokenKind::Lt => 1int,
            TokenKind::Gt => -1int,
            TokenKind::GtGt => -2int,
            _ => 0int,
        };
        assert(d + angles(toks, i, i + 1) > 0);
        lemma_angles_first(toks, i, i + 1);
        assert forall|x: int| i + 1 <= x <= e implies g + #[trigger] angles(toks, i + 1, x) > 0 by {
            lemma_angles_first(toks, i, x);
            assert(d + angles(toks, i, x) > 0);
        }
        assert(is_argument(toks[i].kind) || is_angle(toks[i].kind));
        lemma_closes(toks, i + 1, e, g as nat, (budget - 1) as nat);
    } else {
        assert(angles(toks, i + 1, e + 1) == 0);
    }
}

proof fn lemma_stops(toks: Seq<Token>, i: int, e: int, d: nat, budget: nat)
    requires
        0 <= i <= e,
        d >= 1,
        e < toks.len() ==> !is_argument(toks[e].kind) && !is_angle(toks[e].kind),
        forall|x: int|
            i <= x < e && x < toks.len() ==> is_argument((#[trigger] toks[x]).kind) || toks[x].kind
                == TokenKind::Lt,
    ensures
        !crate::scan::closes_template(toks, i, d, budget),
    decreases e - i,
{
    if i < e && i < toks.len() && budget > 0 {
        assert(is_argument(toks[i].kind) || toks[i].kind == TokenKind::Lt);
        let g = if toks[i].kind == TokenKind::Lt {
            d + 1
        } else {
            d
        };
        lemma_stops(toks, i + 1, e, g, (budget - 1) as nat);
    }
}

proof fn lemma_angle_taken(s: State, env: Input, t: Token, p: int)
    ensures
        t.kind == TokenKind::Lt && s.opens_template(env, p) ==> s.step(env, t, p).0
            == s.on_template_open(env),
        t.kind == TokenKind::Gt && s.depth.templates > 0 ==> s.step(env, t, p).0
            == s.on_template_close(env, seq!['>'], 1),
        t.kind == TokenKind::GtGt && s.depth.templates >= 2 ==> s.step(env, t, p).0
            == s.on_template_close(env, seq!['>', '>'], 2),
{
    reveal(State::step);
    reveal(State::step_operand);
}

/// A `<` behind a name, `template` or a `>` that is closed again within 256
/// tokens, with nothing but template arguments between, opens an argument list:
/// it is written right behind the name, and a space follows it if
/// `space_inside_angle_brackets` is set.
pub proof fn law_template_lists_open_tight(s: State, env: Input, t: Token, p: int, e: int)
    requires
        crate::laws::gaps::mid_line(s),
        t.kind == TokenKind::Lt && t.lexeme@ == seq!['<'],
        s.marks.prev == Some(TokenKind::Ident) || s.marks.prev == Some(TokenKind::KwTemplate)
            || s.marks.prev == Some(TokenKind::Gt),
        closes_angles(env.toks, p, e, 1),
        e - p < 256,
    ensures
        ({
            let r = s.step(env, t, p).0;
            &&& r.depth.templates == s.depth.templates + 1
            &&& r.page.out == s.page.out + seq!['<']
                + if env.config.spacing.space_inside_angle_brackets {
                seq![' ']
            } else {
                Seq::empty()
            }
        }),
{
    lemma_closes(env.toks, p, e, 1, 256);
    lemma_angle_taken(s, env, t, p);
    crate::laws::gaps::lemma_flushed(s, env);
    reveal(State::lead_in);
    let a = s.page.out + seq!['<'];
    assert(a.push(' ') =~= a + seq![' ']);
    assert(a + Seq::<char>::empty() =~= a);
}

/// A `<` behind a name that something else than template arguments follows is a
/// comparison, and spaced as one.
pub proof fn law_comparisons_are_spaced(s: State, env: Input, t: Token, p: int, e: int)
    requires
        crate::laws::gaps::mid_line(s),
        t.kind == TokenKind::Lt,
        s.marks.prev is Some,
        crate::laws::gaps::ends_operand(s.marks.prev->0),
        crate::laws::gaps::behind(s, s.marks.prev->0),
        s.depth.templates == 0,
        0 <= p <= e,
        e < env.toks.len() ==> !is_argument(env.toks[e].kind) && !is_angle(env.toks[e].kind),
        forall|x: int|
            p <= x < e && x < env.toks.len() ==> is_argument((#[trigger] env.toks[x]).kind)
                || env.toks[x].kind == TokenKind::Lt,
    ensures
        crate::laws::gaps::parted_if(
            env.config.spacing.space_around_binary_ops,
            s,
            env,
            t,
            p,
        ),
{
    lemma_stops(env.toks, p, e, 1, crate::scan::TEMPLATE_SCAN as nat);
    crate::laws::gaps::lemma_plain(s, env, t, p);
}

/// Inside of a template argument list a `>` closes it and a `>>` closes two: it
/// stands behind a space if `space_inside_angle_brackets` is set, and a `(`
/// behind it is that of a call.
pub proof fn law_template_lists_close(s: State, env: Input, t: Token, p: int)
    requires
        crate::laws::gaps::mid_line(s),
        (t.kind == TokenKind::Gt && t.lexeme@ == seq!['>'] && s.depth.templates >= 1) || (t.kind
            == TokenKind::GtGt && t.lexeme@ == seq!['>', '>'] && s.depth.templates >= 2),
    ensures
        ({
            let r = s.step(env, t, p).0;
            &&& crate::laws::gaps::parted_if(
                env.config.spacing.space_inside_angle_brackets,
                s,
                env,
                t,
                p,
            )
            &&& r.depth.templates == s.depth.templates - if t.kind == TokenKind::Gt {
                1int
            } else {
                2int
            }
            &&& r.marks.prev == Some(TokenKind::Gt) && r.marks.after_template
        }),
{
    lemma_angle_taken(s, env, t, p);
    crate::laws::gaps::lemma_flushed(s, env);
    crate::laws::gaps::lemma_led(
        s,
        env,
        env.config.spacing.space_inside_angle_brackets,
        t.lexeme@,
    );
    reveal(State::lead_in);
}

/// Behind the `<` of template arguments a space stands if
/// `space_inside_angle_brackets` is set.
pub proof fn law_template_arguments_start_tight(s: State, env: Input, t: Token, p: int)
    requires
        crate::laws::gaps::mid_line(s),
        s.marks.prev == Some(TokenKind::Lt) && !s.marks.after_operator,
        s.depth.templates > 0,
        crate::laws::gaps::is_atom(t.kind) || crate::laws::gaps::is_word(t.kind) || t.kind
            == TokenKind::ColonColon,
    ensures
        crate::laws::gaps::parted_if(
            env.config.spacing.space_inside_angle_brackets,
            s,
            env,
            t,
            p,
        ),
{
    crate::laws::gaps::lemma_plain(s, env, t, p);
}

/// A name or a word behind template arguments is parted from them as from an
/// operator, `::` is not.
pub proof fn law_names_behind_templates(s: State, env: Input, t: Token, p: int)
    requires
        crate::laws::gaps::mid_line(s),
        s.marks.prev == Some(TokenKind::Gt) && s.marks.after_template && !s.marks.after_operator,
    ensures
        crate::laws::gaps::is_atom(t.kind) || crate::laws::gaps::is_word(t.kind)
            ==> crate::laws::gaps::parted_if(
            env.config.spacing.space_around_binary_ops,
            s,
            env,
            t,
            p,
        ),
        crate::laws::gaps::is_access(t.kind) ==> crate::laws::gaps::joined(s, env, t, p),
{
    if crate::laws::gaps::is_atom(t.kind) || crate::laws::gaps::is_word(t.kind)
        || crate::laws::gaps::is_access(t.kind) {
        crate::laws::gaps::lemma_plain(s, env, t, p);
    }
}

/// The `(` behind template arguments is spaced as that of a call.
pub proof fn law_template_calls_are_spaced_as_calls(s: State, env: Input, t: Token, p: int)
    requires
        crate::laws::gaps::mid_line(s),
        t.kind == TokenKind::LParen && t.lexeme@ == seq!['('],
        s.marks.prev == Some(TokenKind::Gt) && s.marks.after_template,
        !s.marks.after_operator && !s.marks.after_overload && s.depth.templates == 0,
    ensures
        crate::laws::gaps::parted_if(env.config.spacing.space_before_call_paren, s, env, t, p),
{
    crate::laws::gaps::lemma_paren(s, env, t, p);
}

// ── Declarators ──────────────────────────────────────────────────────────────

pub proof fn lemma_declarator_taken(s: State, env: Input, t: Token, p: int)
    requires
        t.kind == TokenKind::Star || t.kind == TokenKind::Amp,
        s.at_declarator(env, p),
    ensures
        s.step(env, t, p).0 == s.on_declarator(env, t.kind, t.lexeme@),
{
    reveal(State::step);
    reveal(State::step_operand);
}

/// The word before a `*` that declares, and the name behind it, as
/// `pointer_align` wants them: `int* p`, `int *p` or `int * p`. A further `*`
/// clings to the one before it, unless they stand in the middle.
pub proof fn law_pointers_are_aligned(
    s: State,
    env: Input,
    t: Token,
    p: int,
    u: Token,
    q: int,
)
    requires
        crate::laws::gaps::mid_line(s),
        t.kind == TokenKind::Star || t.kind == TokenKind::Amp,
        t.lexeme@ == seq!['*'] || t.lexeme@ == seq!['&'],
        s.marks.prev is Some,
        crate::laws::gaps::behind(s, s.marks.prev->0),
        s.marks.prev->0 == TokenKind::Star || s.marks.prev->0 == TokenKind::Amp
            || crate::laws::declarations::opens_declaration(s.marks.prev->0)
            && s.marks.prev->0 != TokenKind::KwTypedef,
        env.config.spacing.space_around_binary_ops,
        u.kind == TokenKind::Ident || u.kind == TokenKind::Keyword,
    ensures
        ({
            let r = s.step(env, t, p).0;
            let align = env.config.spacing.pointer_align;
            let further = s.marks.prev->0 == TokenKind::Star || s.marks.prev->0
                == TokenKind::Amp;
            &&& align is Type ==> crate::laws::gaps::joined(s, env, t, p)
                && crate::laws::gaps::parted(r, env, u, q)
            &&& align is Name ==> crate::laws::gaps::parted_if(!further, s, env, t, p)
                && crate::laws::gaps::joined(r, env, u, q)
            &&& align is Middle ==> crate::laws::gaps::parted(s, env, t, p)
                && crate::laws::gaps::parted(r, env, u, q)
        }),
{
    let r = s.step(env, t, p).0;
    lemma_declarator_taken(s, env, t, p);
    crate::laws::gaps::lemma_flushed(s, env);
    let align = env.config.spacing.pointer_align;
    let spaced = match align {
        PointerAlign::Middle => s.needs_space(env.config, t.kind),
        PointerAlign::Type => false,
        PointerAlign::Name => s.marks.prev != Some(TokenKind::Star) && s.marks.prev != Some(
            TokenKind::Amp,
        ),
    };
    crate::laws::gaps::lemma_led(s, env, spaced, t.lexeme@);
    lemma_declarator_marks(s, env, t, p);
    assert(r.page.out.last() == t.lexeme@[0]);
    if align is Name {
        crate::laws::gaps::lemma_clings(r, env, u, q);
    } else {
        crate::laws::gaps::lemma_plain(r, env, u, q);
    }
}

proof fn lemma_declarator_marks(s: State, env: Input, t: Token, p: int)
    requires
        crate::laws::gaps::mid_line(s),
        s.marks.prev is Some,
        crate::laws::gaps::behind(s, s.marks.prev->0),
        t.kind == TokenKind::Star || t.kind == TokenKind::Amp,
        t.lexeme@ == seq!['*'] || t.lexeme@ == seq!['&'],
        s.at_declarator(env, p),
    ensures
        ({
            let r = s.step(env, t, p).0;
            &&& crate::laws::gaps::behind(r, t.kind)
            &&& r.page.suppress_space == (env.config.spacing.pointer_align is Name)
            &&& !r.page.at_line_start
            &&& r.blank_lines == 0 && !r.decls.owe_blank
        }),
{
    lemma_declarator_taken(s, env, t, p);
    crate::laws::gaps::lemma_flushed(s, env);
    reveal(State::lead_in);
}

/// The token in front of a name makes a `*` behind the name a product: an
/// operator, `return`, `case`, `throw` or member access.
pub open spec fn leads_product(k: TokenKind) -> bool {
    ||| crate::laws::gaps::is_assignment(k) || crate::laws::gaps::is_access(k) && k
        != TokenKind::ColonColon
    ||| crate::laws::gaps::is_calculation(k) && k != TokenKind::Star && k != TokenKind::Amp && k
        != TokenKind::Gt
    ||| k == TokenKind::Question || k == TokenKind::KwReturn || k == TokenKind::KwCase || k
        == TokenKind::KwThrow
}

/// The token at `b` is the last one before `i` that is neither layout nor a
/// comment.
pub open spec fn prior(toks: Seq<Token>, b: int, i: int) -> bool {
    &&& 0 <= b < i <= toks.len()
    &&& !crate::laws::statements::is_trivial(toks[b].kind)
    &&& forall|x: int| b < x < i ==> crate::laws::statements::is_trivial((#[trigger] toks[x]).kind)
}

/// Nothing but layout stands from `i` up to `j`.
pub open spec fn layout_between(toks: Seq<Token>, i: int, j: int) -> bool {
    forall|x: int|
        i <= x < j ==> (#[trigger] toks[x]).kind == TokenKind::Whitespace || toks[x].kind
            == TokenKind::Newline
}

pub proof fn lemma_prior(toks: Seq<Token>, b: int, i: int)
    requires
        prior(toks, b, i),
    ensures
        crate::scan::before(toks, i) == b,
{
    assert forall|x: int| b < x <= i - 1 implies KindSet::LayoutOrComment.has(
        (#[trigger] toks[x]).kind,
    ) by {}
    crate::laws::contexts::lemma_back(toks, b, i - 1, KindSet::LayoutOrComment);
}

/// A name ends at `c`, perhaps a qualified one such as `a::b`, and the token at
/// `o` stands in front of it.
pub open spec fn named(toks: Seq<Token>, o: int, c: int) -> bool
    decreases c,
{
    &&& 0 <= o < c < toks.len() && toks[c].kind == TokenKind::Ident
    &&& {
        ||| prior(toks, o, c) && toks[o].kind != TokenKind::ColonColon
        ||| exists|z: int|
            o < z < c && (#[trigger] toks[z]).kind == TokenKind::ColonColon && prior(toks, z, c)
                && prior(toks, o, z) && toks[o].kind != TokenKind::Ident
        ||| exists|z: int, y: int|
            o < y < z < c && (#[trigger] toks[z]).kind == TokenKind::ColonColon && prior(toks, z, c)
                && (#[trigger] toks[y]).kind == TokenKind::Ident && prior(toks, y, z) && named(
                toks,
                o,
                y,
            )
    }
}

pub proof fn lemma_named(toks: Seq<Token>, o: int, c: int)
    requires
        named(toks, o, c),
    ensures
        crate::scan::before(toks, crate::scan::name_first(toks, c)) == o,
    decreases c,
{
    if prior(toks, o, c) && toks[o].kind != TokenKind::ColonColon {
        lemma_prior(toks, o, c);
    } else if exists|z: int|
        o < z < c && (#[trigger] toks[z]).kind == TokenKind::ColonColon && prior(toks, z, c)
            && prior(toks, o, z) && toks[o].kind != TokenKind::Ident {
        let z = choose|z: int|
            o < z < c && (#[trigger] toks[z]).kind == TokenKind::ColonColon && prior(toks, z, c)
                && prior(toks, o, z) && toks[o].kind != TokenKind::Ident;
        lemma_prior(toks, z, c);
        lemma_prior(toks, o, z);
    } else {
        let (z, y) = choose|z: int, y: int|
            o < y < z < c && (#[trigger] toks[z]).kind == TokenKind::ColonColon && prior(toks, z, c)
                && (#[trigger] toks[y]).kind == TokenKind::Ident && prior(toks, y, z) && named(
                toks,
                o,
                y,
            );
        lemma_prior(toks, z, c);
        lemma_prior(toks, y, z);
        lemma_named(toks, o, y);
    }
}

/// The name at `n` stands in front of the `*` or `&` before `p`, and the token
/// at `a` in front of the name.
pub open spec fn star_behind_name(toks: Seq<Token>, a: int, n: int, p: int) -> bool {
    &&& named(toks, a, n)
    &&& n < p - 1 < toks.len()
    &&& layout_between(toks, n + 1, p - 1)
    &&& toks[p - 1].kind == TokenKind::Star || toks[p - 1].kind == TokenKind::Amp
}

pub proof fn lemma_star_lead(toks: Seq<Token>, a: int, n: int, p: int)
    requires
        star_behind_name(toks, a, n, p),
    ensures
        crate::scan::star_lead(toks, p - 1) == a,
{
    assert forall|x: int| n < x <= p - 1 implies KindSet::LayoutOrStar.has(
        (#[trigger] toks[x]).kind,
    ) by {
        if x < p - 1 {
            assert(toks[x].kind == TokenKind::Whitespace || toks[x].kind == TokenKind::Newline);
        }
    }
    crate::laws::contexts::lemma_back(toks, n, p - 1, KindSet::LayoutOrStar);
    lemma_named(toks, a, n);
}

/// A `*` or `&` between two operands of an expression multiplies or masks: it is
/// spaced as an operator, whatever `pointer_align` says.
pub proof fn law_products_are_no_declarators(
    s: State,
    env: Input,
    t: Token,
    a: int,
    n: int,
    p: int,
)
    requires
        crate::laws::gaps::mid_line(s),
        crate::laws::gaps::behind(s, TokenKind::Ident),
        star_behind_name(env.toks, a, n, p),
        env.toks[p - 1] == t,
        leads_product(env.toks[a].kind),
    ensures
        crate::laws::gaps::parted_if(
            env.config.spacing.space_around_binary_ops,
            s,
            env,
            t,
            p,
        ),
{
    lemma_star_lead(env.toks, a, n, p);
    assert(crate::scan::leads_operand(env.toks, a, s.in_body()));
    crate::laws::gaps::lemma_plain(s, env, t, p);
}

/// A token in front of a `(` that makes it a group of an expression or the head
/// of a control statement.
pub open spec fn leads_group(k: TokenKind) -> bool {
    ||| crate::laws::gaps::is_assignment(k) || k == TokenKind::Comma || k == TokenKind::LParen
    ||| crate::laws::gaps::is_calculation(k) && k != TokenKind::Star && k != TokenKind::Amp && k
        != TokenKind::Gt
    ||| crate::laws::gaps::is_negation(k) || k == TokenKind::KwReturn || k == TokenKind::KwCase || k
        == TokenKind::KwThrow
    ||| k == TokenKind::KwIf || k == TokenKind::KwWhile || k == TokenKind::KwFor || k
        == TokenKind::KwSwitch
}

/// So does one behind the first name of a group or of a condition: `if (a & b)`.
pub proof fn law_products_in_groups_are_no_declarators(
    s: State,
    env: Input,
    t: Token,
    l: int,
    a: int,
    n: int,
    p: int,
)
    requires
        crate::laws::gaps::mid_line(s),
        crate::laws::gaps::behind(s, TokenKind::Ident),
        star_behind_name(env.toks, a, n, p),
        env.toks[p - 1] == t,
        env.toks[a].kind == TokenKind::LParen,
        prior(env.toks, l, a),
        leads_group(env.toks[l].kind),
        forall|x: int| 0 <= x < l ==> (#[trigger] env.toks[x]).kind != TokenKind::Keyword
            || env.toks[x].lexeme@ != "operator"@,
    ensures
        crate::laws::gaps::parted_if(
            env.config.spacing.space_around_binary_ops,
            s,
            env,
            t,
            p,
        ),
{
    let toks = env.toks;
    lemma_star_lead(toks, a, n, p);
    lemma_prior(toks, l, a);
    let o = crate::scan::before(toks, l);
    lemma_back_below(toks, l - 1, KindSet::LayoutOrComment);
    assert(!crate::scan::operator_at(toks, o)) by {
        if crate::scan::operator_at(toks, o) {
            assert(toks[o].kind == TokenKind::Keyword);
        }
    }
    assert(crate::scan::open_group(toks, a, 0) == a);
    assert(crate::scan::holds_operands(toks, a, s.in_body()));
    assert(crate::scan::leads_operand(toks, a, s.in_body()));
    crate::laws::gaps::lemma_plain(s, env, t, p);
}

proof fn lemma_back_below(toks: Seq<Token>, i: int, set: KindSet)
    ensures
        i >= 0 ==> crate::scan::back(toks, i, set) <= i,
        i < 0 ==> crate::scan::back(toks, i, set) == -1,
    decreases i + 1,
{
    if i >= 0 && crate::scan::any_at(toks, i, set) {
        lemma_back_below(toks, i - 1, set);
    }
}

// ── Casts ────────────────────────────────────────────────────────────────────

/// The tokens from `p` on are a type and the `)` at `c`: words that open a
/// declaration up to `a`, there perhaps a name, then `*` and `&`.
pub open spec fn is_type_to(toks: Seq<Token>, p: int, a: int, c: int) -> bool {
    &&& 0 <= p <= a <= c < toks.len()
    &&& forall|x: int|
        p <= x < a ==> crate::laws::declarations::opens_declaration((#[trigger] toks[x]).kind)
            || toks[x].kind == TokenKind::Whitespace || toks[x].kind == TokenKind::Newline
    &&& toks[a].kind == TokenKind::Ident || exists|x: int|
        p <= x < a && crate::laws::declarations::opens_declaration((#[trigger] toks[x]).kind)
    &&& toks[a].kind == TokenKind::Ident || toks[a].kind == TokenKind::Star || toks[a].kind
        == TokenKind::Amp || a == c
    &&& forall|x: int|
        a < x < c ==> (#[trigger] toks[x]).kind == TokenKind::Star || toks[x].kind == TokenKind::Amp
            || toks[x].kind == TokenKind::Whitespace || toks[x].kind == TokenKind::Newline
    &&& toks[c].kind == TokenKind::RParen
}

proof fn lemma_type_to(toks: Seq<Token>, p: int, a: int, c: int)
    requires
        is_type_to(toks, p, a, c),
    ensures
        crate::scan::type_then_close(toks, p),
{
    let start = crate::scan::skip(toks, p, KindSet::Layout);
    lemma_layout_inside(toks, p, a);
    assert forall|x: int| start <= x < a implies KindSet::LayoutOrDecl.has((#[trigger] toks[x]).kind)
        by {
        assert(crate::laws::declarations::opens_declaration(toks[x].kind) || toks[x].kind
            == TokenKind::Whitespace || toks[x].kind == TokenKind::Newline);
    }
    crate::laws::injection::lemma_skip_up_to(toks, start, a, KindSet::LayoutOrDecl);
    if toks[a].kind == TokenKind::Ident {
        assert(a < c);
        assert forall|x: int| a + 1 <= x < c implies KindSet::LayoutOrStar.has(
            (#[trigger] toks[x]).kind,
        ) by {}
        crate::laws::injection::lemma_skip_up_to(toks, a + 1, c, KindSet::LayoutOrStar);
    } else {
        let w = choose|x: int|
            p <= x < a && crate::laws::declarations::opens_declaration((#[trigger] toks[x]).kind);
        assert(start <= w) by {
            if w < start {
                lemma_before_start(toks, p, w);
            }
        }
        assert forall|x: int| a <= x < c implies KindSet::LayoutOrStar.has(
            (#[trigger] toks[x]).kind,
        ) by {}
        crate::laws::injection::lemma_skip_up_to(toks, a, c, KindSet::LayoutOrStar);
    }
}

proof fn lemma_before_start(toks: Seq<Token>, p: int, w: int)
    requires
        0 <= p <= w < crate::scan::skip(toks, p, KindSet::Layout),
    ensures
        KindSet::Layout.has(toks[w].kind),
    decreases w - p,
{
    if p < w {
        lemma_before_start(toks, p + 1, w);
    }
}

proof fn lemma_layout_inside(toks: Seq<Token>, p: int, a: int)
    requires
        0 <= p <= a < toks.len(),
        toks[a].kind != TokenKind::Whitespace && toks[a].kind != TokenKind::Newline,
    ensures
        p <= crate::scan::skip(toks, p, KindSet::Layout) <= a,
    decreases a - p,
{
    if p < a {
        lemma_layout_inside(toks, p + 1, a);
    }
}

/// The token at `b` stands in front of the `(` before `p`, layout aside.
pub open spec fn before_paren(toks: Seq<Token>, b: int, p: int) -> bool {
    &&& 0 <= b < p - 1 < toks.len()
    &&& toks[b].kind != TokenKind::Whitespace && toks[b].kind != TokenKind::Newline
    &&& layout_between(toks, b + 1, p - 1)
}

proof fn lemma_before_paren(toks: Seq<Token>, b: int, p: int)
    requires
        before_paren(toks, b, p),
    ensures
        crate::scan::back(toks, p - 2, KindSet::Layout) == b,
{
    assert forall|x: int| b < x <= p - 2 implies KindSet::Layout.has((#[trigger] toks[x]).kind) by {
        assert(toks[x].kind == TokenKind::Whitespace || toks[x].kind == TokenKind::Newline);
    }
    crate::laws::contexts::lemma_back(toks, b, p - 2, KindSet::Layout);
}

/// A word whose operand may be a type without being cast.
pub open spec fn takes_type(w: Seq<char>) -> bool {
    w == "sizeof"@ || w == "alignof"@ || w == "alignas"@ || w == "__alignof__"@ || w == "decltype"@
        || w == "typeid"@
}

proof fn lemma_takes_type(w: Seq<char>)
    ensures
        crate::scan::sizeof_words().contains(w) == takes_type(w),
{
    let l = crate::scan::sizeof_words();
    assert(l[0] == "sizeof"@ && l[1] == "alignof"@ && l[2] == "alignas"@ && l[3] == "__alignof__"@
        && l[4] == "decltype"@ && l[5] == "typeid"@);
    if l.contains(w) {
        let i = choose|i: int| 0 <= i < l.len() && l[i] == w;
    }
}

proof fn lemma_cast_noted(s: State, env: Input, t: Token, p: int)
    requires
        crate::laws::placement::settled(s),
        t.kind == TokenKind::LParen,
    ensures
        s.step(env, t, p).0.parens.last().cast == s.opens_cast(env, p),
{
    crate::laws::gaps::lemma_flushed(s, env);
    assert(s.step(env, t, p).0 == s.on_lparen(env, p)) by {
        reveal(State::step);
    }
}

/// Parentheses around a type are a cast, unless they follow a name, a word such
/// as `sizeof`, or a control word.
pub proof fn law_types_in_parentheses_are_casts(
    s: State,
    env: Input,
    t: Token,
    b: int,
    p: int,
    a: int,
    c: int,
)
    requires
        crate::laws::placement::settled(s),
        t.kind == TokenKind::LParen,
        is_type_to(env.toks, p, a, c),
        before_paren(env.toks, b, p),
    ensures
        s.step(env, t, p).0.parens.last().cast == (env.toks[b].kind != TokenKind::Ident
            && !takes_type(env.toks[b].lexeme@) && !(s.marks.prev is Some
            && crate::laws::gaps::heads_paren(s.marks.prev->0))),
{
    lemma_cast_noted(s, env, t, p);
    lemma_type_to(env.toks, p, a, c);
    lemma_before_paren(env.toks, b, p);
    lemma_takes_type(env.toks[b].lexeme@);
}

/// Parentheses that start with something else than a type are none.
pub proof fn law_other_parentheses_are_no_casts(s: State, env: Input, t: Token, p: int, a: int)
    requires
        crate::laws::placement::settled(s),
        t.kind == TokenKind::LParen,
        0 <= p <= a < env.toks.len(),
        layout_between(env.toks, p, a),
        env.toks[a].kind != TokenKind::Whitespace && env.toks[a].kind != TokenKind::Newline,
        env.toks[a].kind != TokenKind::Ident,
        !crate::laws::declarations::opens_declaration(env.toks[a].kind),
    ensures
        !s.step(env, t, p).0.parens.last().cast,
{
    lemma_cast_noted(s, env, t, p);
    assert forall|x: int| p <= x < a implies KindSet::Layout.has((#[trigger] env.toks[x]).kind) by {
        assert(env.toks[x].kind == TokenKind::Whitespace || env.toks[x].kind == TokenKind::Newline);
    }
    crate::laws::injection::lemma_skip_up_to(env.toks, p, a, KindSet::Layout);
}

} // verus!
