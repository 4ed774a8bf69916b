//! Which tokens of a line are parted by a space.

use crate::config::SpaceOption;
use crate::layout::{Input, State};
use crate::token::{Token, TokenKind};
use vstd::prelude::*;

verus! {

// ── Kinds ────────────────────────────────────────────────────────────────────

/// A name or a literal.
pub open spec fn is_atom(k: TokenKind) -> bool {
    k == TokenKind::Ident || k == TokenKind::LitInt || k == TokenKind::LitFloat || k
        == TokenKind::LitStr || k == TokenKind::LitChar
}

/// A reserved word that heads a parenthesis.
pub open spec fn heads_paren(k: TokenKind) -> bool {
    k == TokenKind::KwIf || k == TokenKind::KwFor || k == TokenKind::KwWhile || k
        == TokenKind::KwSwitch || k == TokenKind::KwCatch
}

/// A reserved word with a kind of its own that heads no parenthesis.
pub open spec fn is_other_word(k: TokenKind) -> bool {
    ||| k == TokenKind::KwElse || k == TokenKind::KwDo || k == TokenKind::KwCase || k
        == TokenKind::KwDefault || k == TokenKind::KwReturn || k == TokenKind::KwBreak
    ||| k == TokenKind::KwContinue || k == TokenKind::KwGoto || k == TokenKind::KwThrow || k
        == TokenKind::KwTry || k == TokenKind::KwNamespace || k == TokenKind::KwStruct
    ||| k == TokenKind::KwClass || k == TokenKind::KwUnion || k == TokenKind::KwEnum || k
        == TokenKind::KwTypename || k == TokenKind::KwTypedef || k == TokenKind::KwTemplate
    ||| k == TokenKind::KwUsing || k == TokenKind::KwPublic || k == TokenKind::KwPrivate || k
        == TokenKind::KwProtected || k == TokenKind::KwNew || k == TokenKind::KwDelete
}

/// A reserved word.
pub open spec fn is_word(k: TokenKind) -> bool {
    k == TokenKind::Keyword || heads_paren(k) || is_other_word(k)
}

/// An arithmetic, bitwise, relational or logical operator.
pub open spec fn is_calculation(k: TokenKind) -> bool {
    ||| k == TokenKind::Plus || k == TokenKind::Minus || k == TokenKind::Star || k
        == TokenKind::Slash || k == TokenKind::Percent || k == TokenKind::Amp
    ||| k == TokenKind::Pipe || k == TokenKind::Caret || k == TokenKind::LtLt || k
        == TokenKind::GtGt || k == TokenKind::Lt || k == TokenKind::Gt
    ||| k == TokenKind::LtEq || k == TokenKind::GtEq || k == TokenKind::EqEq || k
        == TokenKind::BangEq || k == TokenKind::AmpAmp || k == TokenKind::PipePipe
}

/// An assignment operator.
pub open spec fn is_assignment(k: TokenKind) -> bool {
    ||| k == TokenKind::Eq || k == TokenKind::PlusEq || k == TokenKind::MinusEq || k
        == TokenKind::StarEq || k == TokenKind::SlashEq || k == TokenKind::PercentEq
    ||| k == TokenKind::AmpEq || k == TokenKind::PipeEq || k == TokenKind::CaretEq || k
        == TokenKind::LtLtEq || k == TokenKind::GtGtEq
}

/// An operator with an operand on either side.
pub open spec fn is_binary(k: TokenKind) -> bool {
    is_calculation(k) || is_assignment(k) || k == TokenKind::Question
}

/// A token that ends an operand.
pub open spec fn ends_operand(k: TokenKind) -> bool {
    ||| is_atom(k)
    ||| k == TokenKind::RParen || k == TokenKind::RBracket || k == TokenKind::RBrace || k
        == TokenKind::PlusPlus || k == TokenKind::MinusMinus || k == TokenKind::CommentBlock
}

/// Member access and scope resolution.
pub open spec fn is_access(k: TokenKind) -> bool {
    k == TokenKind::Dot || k == TokenKind::Arrow || k == TokenKind::DotStar || k
        == TokenKind::ArrowStar || k == TokenKind::ColonColon
}

/// `++` or `--`.
pub open spec fn is_step(k: TokenKind) -> bool {
    k == TokenKind::PlusPlus || k == TokenKind::MinusMinus
}

/// `!` or `~`.
pub open spec fn is_negation(k: TokenKind) -> bool {
    k == TokenKind::Bang || k == TokenKind::Tilde
}

/// `+`, `-`, `*` or `&`.
pub open spec fn is_sign(k: TokenKind) -> bool {
    k == TokenKind::Plus || k == TokenKind::Minus || k == TokenKind::Star || k == TokenKind::Amp
}

// ── Writing ──────────────────────────────────────────────────────────────────

/// Something stands on the line, with no space behind it; no line end and no
/// suppressed space awaits the next token.
pub open spec fn mid_line(s: State) -> bool {
    &&& !s.page.at_line_start && !s.page.suppress_space
    &&& s.page.out.len() > 0 && s.page.out.last() != ' '
    &&& s.blank_lines == 0 && !s.decls.owe_blank
}

/// The token is written behind a space.
pub open spec fn parted(s: State, env: Input, t: Token, p: int) -> bool {
    s.step(env, t, p).0.page.out == s.page.out + seq![' '] + t.lexeme@
}

/// The token is written right behind the one before it.
pub open spec fn joined(s: State, env: Input, t: Token, p: int) -> bool {
    s.step(env, t, p).0.page.out == s.page.out + t.lexeme@
}

/// The token is written behind a space, or right behind the one before it.
pub open spec fn parted_if(wanted: bool, s: State, env: Input, t: Token, p: int) -> bool {
    if wanted {
        parted(s, env, t, p)
    } else {
        joined(s, env, t, p)
    }
}

/// A token of kind `prev` was written last, and it was an ordinary one: not the
/// word `operator` or what it overloads, not the start or end of a template
/// argument list nor the end of a cast.
pub open spec fn behind(s: State, prev: TokenKind) -> bool {
    &&& s.marks.prev == Some(prev)
    &&& !s.marks.after_operator && !s.marks.after_overload && !s.marks.after_template
    &&& !s.marks.after_cast
    &&& prev == TokenKind::Lt ==> s.depth.templates == 0
}

/// What an option asks for, given whether the source has a space.
pub open spec fn asks(o: SpaceOption, source: bool) -> bool {
    o is Add || (o is Preserve && source)
}

/// The kinds that are written as they stand, behind a space or none.
pub open spec fn is_plain(k: TokenKind) -> bool {
    is_atom(k) || is_word(k) || is_binary(k) || is_access(k) || is_step(k) || is_negation(k) || k
        == TokenKind::DotDotDot
}

/// Nothing is owed to the token at hand.
pub proof fn lemma_flushed(s: State, env: Input)
    requires
        s.blank_lines == 0 && !s.decls.owe_blank,
    ensures
        s.flush(env.config, env.eol) == s,
{
    reveal(State::flush);
    assert(s.owed_lines(env.config) == 0);
}

/// A token behind the space that is wanted.
pub proof fn lemma_led(s: State, env: Input, wanted: bool, text: Seq<char>)
    requires
        mid_line(s),
    ensures
        s.lead_in(env.config, wanted).write(text).page.out == if wanted {
            s.page.out + seq![' '] + text
        } else {
            s.page.out + text
        },
{
    reveal(State::lead_in);
    let a = s.page.out;
    let b = s.page.out.push(' ');
    assert(b =~= a + seq![' ']);
    assert(text.len() == 0 ==> a + text =~= a && b + text =~= b);
}

proof fn lemma_spaced_page(s: State, env: Input, k: TokenKind, text: Seq<char>)
    requires
        mid_line(s),
    ensures
        s.write_spaced(env, k, text).page.out == if s.needs_space(env.config, k) {
            s.page.out + seq![' '] + text
        } else {
            s.page.out + text
        },
{
    reveal(State::write_spaced);
    lemma_flushed(s, env);
    lemma_led(s, env, s.needs_space(env.config, k), text);
}

/// Which part of the machine takes a plain token.
pub proof fn lemma_taken(s: State, env: Input, t: Token, p: int)
    requires
        is_plain(t.kind),
    ensures
        s.step(env, t, p).0 == match t.kind {
            TokenKind::KwSwitch => s.on_switch(env, t.kind, t.lexeme@),
            TokenKind::KwCase | TokenKind::KwDefault => s.on_case(env, t.kind, t.lexeme@),
            TokenKind::KwPublic
            | TokenKind::KwPrivate
            | TokenKind::KwProtected => s.on_access(env, t.kind, t.lexeme@),
            TokenKind::KwClass
            | TokenKind::KwStruct
            | TokenKind::KwUnion
            | TokenKind::KwEnum => s.on_type_kw(env, t.kind, t.lexeme@),
            _ => s.step_operand(env, t, p),
        },
{
    reveal(State::step);
}

/// How an operand or an operator is taken in the middle of a line.
pub proof fn lemma_operand_taken(s: State, env: Input, t: Token, p: int)
    requires
        !s.page.at_line_start,
        t.kind == TokenKind::Lt ==> !s.opens_template(env, p),
        t.kind == TokenKind::Gt || t.kind == TokenKind::GtGt ==> s.depth.templates == 0,
        t.kind == TokenKind::Star || t.kind == TokenKind::Amp ==> !s.at_declarator(env, p),
    ensures
        s.step_operand(env, t, p) == if is_sign(t.kind) {
            s.on_sign(env, t.kind, t.lexeme@)
        } else if is_assignment(t.kind) {
            s.on_assign(env, t.kind, t.lexeme@)
        } else {
            s.on_other(env, t.kind, t.lexeme@)
        },
{
    reveal(State::step_operand);
}

/// A plain token.
pub proof fn lemma_plain(s: State, env: Input, t: Token, p: int)
    requires
        mid_line(s),
        is_plain(t.kind),
        t.kind == TokenKind::Lt ==> !s.opens_template(env, p),
        t.kind == TokenKind::Gt || t.kind == TokenKind::GtGt ==> s.depth.templates == 0,
        t.kind == TokenKind::Star || t.kind == TokenKind::Amp ==> !s.at_declarator(env, p),
    ensures
        parted_if(s.needs_space(env.config, t.kind), s, env, t, p),
{
    let k = t.kind;
    let text = t.lexeme@;
    lemma_taken(s, env, t, p);
    lemma_operand_taken(s, env, t, p);
    lemma_flushed(s, env);
    lemma_spaced_page(s, env, k, text);
    lemma_led(s, env, s.needs_space(env.config, k), text);
    if is_sign(k) {
        lemma_sign_page(s, env, k, text);
    } else if k == TokenKind::KwCase || k == TokenKind::KwDefault || k == TokenKind::KwPublic || k
        == TokenKind::KwPrivate || k == TokenKind::KwProtected {
        lemma_label_page(s, env, k, text);
    }
}

proof fn lemma_sign_page(s: State, env: Input, k: TokenKind, text: Seq<char>)
    requires
        mid_line(s),
    ensures
        s.on_sign(env, k, text).page.out == if s.needs_space(env.config, k) {
            s.page.out + seq![' '] + text
        } else {
            s.page.out + text
        },
{
    lemma_flushed(s, env);
    lemma_led(s, env, s.needs_space(env.config, k), text);
}

proof fn lemma_label_page(s: State, env: Input, k: TokenKind, text: Seq<char>)
    requires
        mid_line(s),
    ensures
        ({
            let out = if s.needs_space(env.config, k) {
                s.page.out + seq![' '] + text
            } else {
                s.page.out + text
            };
            s.on_case(env, k, text).page.out == out && s.on_access(env, k, text).page.out == out
        }),
{
    lemma_flushed(s, env);
    let a = s.page.out;
    let b = s.page.out.push(' ');
    assert(b =~= a + seq![' ']);
    assert(text.len() == 0 ==> a + text =~= a && b + text =~= b);
}

// ── Operators ────────────────────────────────────────────────────────────────

/// With `space_around_binary_ops` a binary operator is parted from its left
/// operand by a space, without it by none. A `*` or `&` behind a name may
/// declare, a `<` behind one may open template arguments.
pub proof fn law_operators_are_spaced_on_the_left(s: State, env: Input, t: Token, p: int)
    requires
        mid_line(s),
        s.marks.prev is Some,
        ends_operand(s.marks.prev->0),
        behind(s, s.marks.prev->0),
        is_binary(t.kind),
        t.kind == TokenKind::Star || t.kind == TokenKind::Amp || t.kind == TokenKind::Lt
            ==> s.marks.prev->0 != TokenKind::Ident,
        t.kind == TokenKind::Gt || t.kind == TokenKind::GtGt ==> s.depth.templates == 0,
    ensures
        parted_if(env.config.spacing.space_around_binary_ops, s, env, t, p),
{
    lemma_plain(s, env, t, p);
}

/// With `space_around_binary_ops` the right operand of a binary operator is
/// parted from it by a space, without it by none: a name, a literal, a word or
/// a prefix operator.
pub proof fn law_operators_are_spaced_on_the_right(s: State, env: Input, t: Token, p: int)
    requires
        mid_line(s),
        s.marks.prev is Some,
        is_binary(s.marks.prev->0),
        behind(s, s.marks.prev->0),
        is_atom(t.kind) || is_word(t.kind) || is_negation(t.kind) || is_step(t.kind) || is_sign(
            t.kind,
        ),
        t.kind == TokenKind::Star || t.kind == TokenKind::Amp ==> s.marks.prev->0
            != TokenKind::Star && s.marks.prev->0 != TokenKind::Amp && s.marks.prev->0
            != TokenKind::Gt,
    ensures
        parted_if(env.config.spacing.space_around_binary_ops, s, env, t, p),
{
    lemma_plain(s, env, t, p);
}

/// A sign with an operand on its left has its right operand behind a space; one
/// without clings to the operand behind it.
pub proof fn law_signs_cling_to_their_operand(
    s: State,
    env: Input,
    t: Token,
    p: int,
    u: Token,
    q: int,
)
    requires
        mid_line(s),
        s.marks.prev is Some,
        behind(s, s.marks.prev->0),
        t.kind == TokenKind::Plus || t.kind == TokenKind::Minus,
        ends_operand(s.marks.prev->0) || is_binary(s.marks.prev->0) || is_word(s.marks.prev->0)
            || s.marks.prev->0 == TokenKind::Comma || s.marks.prev->0 == TokenKind::LParen
            || s.marks.prev->0 == TokenKind::LBracket,
        t.lexeme@.len() > 0 && t.lexeme@.last() != ' ' && t.lexeme@.last() != '\n',
        is_atom(u.kind) || u.kind == TokenKind::Keyword,
    ensures
        ({
            let r = s.step(env, t, p).0;
            let infix = ends_operand(s.marks.prev->0);
            parted_if(infix && env.config.spacing.space_around_binary_ops, r, env, u, q)
        }),
{
    let r = s.step(env, t, p).0;
    let infix = ends_operand(s.marks.prev->0);
    lemma_plain(s, env, t, p);
    lemma_sign_marks(s, env, t, p);
    assert(r.page.out.last() == t.lexeme@.last());
    if infix {
        lemma_plain(r, env, u, q);
    } else {
        lemma_clings(r, env, u, q);
    }
}

/// What a sign leaves behind.
proof fn lemma_sign_marks(s: State, env: Input, t: Token, p: int)
    requires
        mid_line(s),
        s.marks.prev is Some,
        behind(s, s.marks.prev->0),
        t.kind == TokenKind::Plus || t.kind == TokenKind::Minus,
        t.lexeme@.len() > 0 && t.lexeme@.last() != '\n',
    ensures
        ({
            let r = s.step(env, t, p).0;
            &&& behind(r, t.kind)
            &&& r.page.suppress_space == !ends_operand(s.marks.prev->0)
            &&& !r.page.at_line_start
            &&& r.blank_lines == 0 && !r.decls.owe_blank
        }),
{
    lemma_taken(s, env, t, p);
    lemma_operand_taken(s, env, t, p);
    lemma_flushed(s, env);
    reveal(State::lead_in);
}

/// A plain token whose space is suppressed.
pub proof fn lemma_clings(s: State, env: Input, t: Token, p: int)
    requires
        !s.page.at_line_start && s.page.suppress_space,
        s.blank_lines == 0 && !s.decls.owe_blank,
        is_atom(t.kind) || t.kind == TokenKind::Keyword || is_negation(t.kind) || is_step(t.kind),
    ensures
        joined(s, env, t, p),
{
    lemma_taken(s, env, t, p);
    lemma_operand_taken(s, env, t, p);
    lemma_flushed(s, env);
    lemma_clinging(s, env, t.kind, t.lexeme@);
}

proof fn lemma_clinging(s: State, env: Input, k: TokenKind, text: Seq<char>)
    requires
        !s.page.at_line_start && s.page.suppress_space,
        s.blank_lines == 0 && !s.decls.owe_blank,
    ensures
        s.write_spaced(env, k, text).page.out == s.page.out + text,
{
    reveal(State::write_spaced);
    reveal(State::lead_in);
    lemma_flushed(s, env);
    assert(text.len() == 0 ==> s.page.out + text =~= s.page.out);
}

/// `!` and `~` cling to the operand behind them, and a `++` or `--` to its
/// operand on either side.
pub proof fn law_prefix_operators_cling(s: State, env: Input, t: Token, p: int)
    requires
        mid_line(s),
        s.marks.prev is Some,
        behind(s, s.marks.prev->0),
        ({
            ||| is_negation(s.marks.prev->0) && (is_atom(t.kind) || is_word(t.kind) || is_negation(
                t.kind,
            ) || is_step(t.kind) || is_sign(t.kind))
            ||| is_step(s.marks.prev->0) && (is_atom(t.kind) || is_word(t.kind))
            ||| ends_operand(s.marks.prev->0) && is_step(t.kind)
        }),
    ensures
        joined(s, env, t, p),
{
    lemma_plain(s, env, t, p);
}

/// Nothing stands around `.`, `->`, `.*`, `->*` and `::`.
pub proof fn law_member_access_is_tight(s: State, env: Input, t: Token, p: int)
    requires
        mid_line(s),
        s.marks.prev is Some,
        behind(s, s.marks.prev->0),
        ({
            ||| is_access(t.kind) && s.marks.prev->0 != TokenKind::LParen && s.marks.prev->0
                != TokenKind::LBracket
            ||| is_access(s.marks.prev->0) && (is_atom(t.kind) || is_word(t.kind) || is_negation(
                t.kind,
            ) || is_sign(t.kind))
        }),
    ensures
        joined(s, env, t, p),
{
    lemma_plain(s, env, t, p);
}

// ── Words ────────────────────────────────────────────────────────────────────

/// A word is parted by a space from a name, a literal, a word or a prefix
/// operator next to it.
pub proof fn law_words_are_spaced(s: State, env: Input, t: Token, p: int)
    requires
        mid_line(s),
        s.marks.prev is Some,
        behind(s, s.marks.prev->0),
        ({
            ||| is_word(s.marks.prev->0) && (is_atom(t.kind) || is_word(t.kind) || is_negation(
                t.kind,
            ) || is_step(t.kind))
            ||| (is_atom(s.marks.prev->0) || s.marks.prev->0 == TokenKind::RParen
                || s.marks.prev->0 == TokenKind::RBrace || s.marks.prev->0 == TokenKind::RBracket
                || s.marks.prev->0 == TokenKind::Colon || s.marks.prev->0
                == TokenKind::CommentBlock || s.marks.prev->0 == TokenKind::DotDotDot) && (is_atom(
                t.kind,
            ) || is_word(t.kind))
        }),
    ensures
        parted(s, env, t, p),
{
    lemma_plain(s, env, t, p);
}

/// A sign behind a word is parted from it: `return -1`.
pub proof fn law_signs_behind_words_are_spaced(s: State, env: Input, t: Token, p: int)
    requires
        mid_line(s),
        s.marks.prev is Some,
        behind(s, s.marks.prev->0),
        is_word(s.marks.prev->0),
        t.kind == TokenKind::Plus || t.kind == TokenKind::Minus || ((t.kind == TokenKind::Star
            || t.kind == TokenKind::Amp) && (s.marks.prev->0 == TokenKind::KwReturn
            || s.marks.prev->0 == TokenKind::KwCase || s.marks.prev->0 == TokenKind::KwThrow)),
    ensures
        parted_if(env.config.spacing.space_around_binary_ops, s, env, t, p),
{
    lemma_plain(s, env, t, p);
}

// ── Commas and semicolons ────────────────────────────────────────────────────

/// Nothing stands before a `,`.
pub proof fn law_nothing_stands_before_a_comma(s: State, env: Input, t: Token, p: int)
    requires
        mid_line(s),
        t.kind == TokenKind::Comma && t.lexeme@ == seq![','],
        !(s.braces.len() > 0 && s.braces.last().large_init),
    ensures
        joined(s, env, t, p),
{
    reveal(State::step);
    reveal(State::flush);
    reveal(State::lead_in);
    assert(s.owed_lines(env.config) == 0);
}

/// A `;` is written right behind the token before it. Outside of parentheses
/// the line ends behind it, unless a comment shares the line.
pub proof fn law_semicolons_end_the_line(s: State, env: Input, t: Token, p: int)
    requires
        mid_line(s),
        t.kind == TokenKind::Semi && t.lexeme@ == seq![';'],
    ensures
        ({
            let c = crate::laws::statements::past_blanks(env.toks, p);
            let shared = (crate::laws::statements::at(env.toks, c, TokenKind::CommentLine)
                || crate::laws::statements::at(env.toks, c, TokenKind::CommentBlock))
                && env.toks[c].span.line == t.span.line;
            let out = s.step(env, t, p).0.page.out;
            if s.parens.len() > 0 || shared {
                out == s.page.out + seq![';']
            } else {
                out == s.page.out + seq![';'] + env.eol.text()
            }
        }),
{
    lemma_semi_taken(s, env, t, p);
    lemma_flushed(s, env);
    lemma_blanks(env.toks, p);
    let a = s.page.out + seq![';'];
    assert(crate::text::trim_end(a, crate::text::Class::Space) == a);
    assert(crate::text::repeat(env.eol.text(), 1) =~= env.eol.text()) by {
        reveal_with_fuel(crate::text::repeat, 2);
    }
}

pub proof fn lemma_semi_taken(s: State, env: Input, t: Token, p: int)
    requires
        t.kind == TokenKind::Semi,
    ensures
        s.step(env, t, p).0 == s.on_semi(env, p, t.span.line),
{
    reveal(State::step);
}

pub proof fn lemma_blanks(toks: Seq<Token>, i: int)
    ensures
        crate::scan::skip(toks, i, crate::token::KindSet::Blank)
            == crate::laws::statements::past_blanks(toks, i),
    decreases toks.len() - i,
{
    if 0 <= i < toks.len() && toks[i].kind == TokenKind::Whitespace {
        lemma_blanks(toks, i + 1);
    }
}

pub proof fn lemma_layout(toks: Seq<Token>, i: int)
    ensures
        crate::scan::skip(toks, i, crate::token::KindSet::Layout)
            == crate::laws::statements::past_layout(toks, i),
    decreases toks.len() - i,
{
    if 0 <= i < toks.len() && (toks[i].kind == TokenKind::Whitespace || toks[i].kind
        == TokenKind::Newline) {
        lemma_layout(toks, i + 1);
    }
}

/// With `space_after_comma` a space follows a comma, without it none; a space
/// always follows a `;` inside of parentheses.
pub proof fn law_commas_are_followed_by_a_space(s: State, env: Input, t: Token, p: int)
    requires
        mid_line(s),
        s.marks.prev == Some(TokenKind::Comma) || (s.marks.prev == Some(TokenKind::Semi)
            && s.parens.len() > 0),
        behind(s, s.marks.prev->0),
        is_atom(t.kind) || is_word(t.kind) || is_negation(t.kind) || is_step(t.kind) || is_sign(
            t.kind,
        ) || (t.kind == TokenKind::DotDotDot && s.marks.prev == Some(TokenKind::Comma)),
    ensures
        parted_if(
            s.marks.prev == Some(TokenKind::Semi) || env.config.spacing.space_after_comma,
            s,
            env,
            t,
            p,
        ),
{
    lemma_plain(s, env, t, p);
}

// ── Parentheses and brackets ─────────────────────────────────────────────────

/// No `*` and no `&` follows, so that no pointer to a function is declared.
pub open spec fn no_star_follows(toks: Seq<Token>, p: int) -> bool {
    let i = crate::laws::statements::past_layout(toks, p);
    !crate::laws::statements::at(toks, i, TokenKind::Star) && !crate::laws::statements::at(
        toks,
        i,
        TokenKind::Amp,
    )
}

pub proof fn lemma_paren(s: State, env: Input, t: Token, p: int)
    requires
        mid_line(s),
        t.kind == TokenKind::LParen && t.lexeme@ == seq!['('],
    ensures
        parted_if(s.spaces_paren(env, p), s, env, t, p),
{
    reveal(State::step);
    reveal(State::flush);
    reveal(State::lead_in);
    assert(s.owed_lines(env.config) == 0);
    assert(s.flush(env.config, env.eol).page == s.page);
    assert(s.page.out.push(' ') =~= s.page.out + seq![' ']);
}

/// The `(` of a control keyword stands behind a space if
/// `space_before_keyword_paren` is set, that of a call if
/// `space_before_call_paren` is. Behind any other word, an operator, a comma or
/// a `;` a space stands before it, behind a `)` and a prefix operator none.
pub proof fn law_parens_are_spaced(s: State, env: Input, t: Token, p: int)
    requires
        mid_line(s),
        t.kind == TokenKind::LParen && t.lexeme@ == seq!['('],
        s.marks.prev is Some,
        behind(s, s.marks.prev->0),
        no_star_follows(env.toks, p),
    ensures
        ({
            let c = env.config.spacing;
            let k = s.marks.prev->0;
            &&& heads_paren(k) ==> parted_if(c.space_before_keyword_paren, s, env, t, p)
            &&& k == TokenKind::Ident || k == TokenKind::Keyword ==> parted_if(
                c.space_before_call_paren,
                s,
                env,
                t,
                p,
            )
            &&& is_other_word(k) || is_binary(k) || k == TokenKind::Comma || k == TokenKind::Semi
                || k == TokenKind::Colon || k == TokenKind::CommentBlock ==> parted(s, env, t, p)
            &&& k == TokenKind::RParen || is_negation(k) || is_access(k) || is_step(k) ==> joined(
                s,
                env,
                t,
                p,
            )
            &&& k == TokenKind::LParen ==> parted_if(
                asks(c.space_inside_parens, s.src_space),
                s,
                env,
                t,
                p,
            )
            &&& k == TokenKind::LBracket ==> parted_if(
                asks(c.space_inside_brackets, s.src_space),
                s,
                env,
                t,
                p,
            )
        }),
{
    lemma_paren(s, env, t, p);
    lemma_layout(env.toks, p);
}

/// The `(` of a pointer to a function, `(*name)(`, stands behind a space.
pub proof fn law_function_pointers_are_spaced(s: State, env: Input, t: Token, p: int)
    requires
        mid_line(s),
        t.kind == TokenKind::LParen && t.lexeme@ == seq!['('],
        s.marks.prev == Some(TokenKind::Keyword) || s.marks.prev == Some(TokenKind::Ident)
            || s.marks.prev == Some(TokenKind::RParen),
        0 <= p && p + 4 <= env.toks.len(),
        env.toks[p].kind == TokenKind::Star || env.toks[p].kind == TokenKind::Amp,
        env.toks[p + 1].kind == TokenKind::Ident,
        env.toks[p + 2].kind == TokenKind::RParen,
        env.toks[p + 3].kind == TokenKind::LParen,
    ensures
        parted(s, env, t, p),
{
    lemma_paren(s, env, t, p);
}

/// Inside of parentheses the spaces are those that `space_inside_parens` asks
/// for, inside of brackets those of `space_inside_brackets`: always, never or
/// where the source has one.
pub proof fn law_insides_follow_the_options(s: State, env: Input, t: Token, p: int)
    requires
        mid_line(s),
        s.marks.prev is Some,
    ensures
        ({
            let c = env.config.spacing;
            let k = s.marks.prev->0;
            let plain = is_atom(t.kind) || is_word(t.kind) || is_negation(t.kind) || is_step(t.kind)
                || is_sign(t.kind) || is_access(t.kind);
            &&& behind(s, k) && k == TokenKind::LParen && plain ==> parted_if(
                asks(c.space_inside_parens, s.src_space),
                s,
                env,
                t,
                p,
            )
            &&& behind(s, k) && k == TokenKind::LBracket && plain ==> parted_if(
                asks(c.space_inside_brackets, s.src_space),
                s,
                env,
                t,
                p,
            )
            &&& t.kind == TokenKind::RParen && t.lexeme@ == seq![')'] ==> parted_if(
                asks(c.space_inside_parens, s.src_space),
                s,
                env,
                t,
                p,
            )
            &&& t.kind == TokenKind::RBracket && t.lexeme@ == seq![']'] ==> parted_if(
                asks(c.space_inside_brackets, s.src_space),
                s,
                env,
                t,
                p,
            )
        }),
{
    if behind(s, s.marks.prev->0) && (s.marks.prev->0 == TokenKind::LParen || s.marks.prev->0
        == TokenKind::LBracket) && (is_atom(t.kind) || is_word(t.kind) || is_negation(t.kind)
        || is_step(t.kind) || is_sign(t.kind) || is_access(t.kind)) {
        lemma_plain(s, env, t, p);
    }
    if t.kind == TokenKind::RParen || t.kind == TokenKind::RBracket {
        lemma_closers_taken(s, env, t, p);
        lemma_flushed(s, env);
        assert(s.page.out.push(' ') =~= s.page.out + seq![' ']);
    }
}

proof fn lemma_closers_taken(s: State, env: Input, t: Token, p: int)
    ensures
        t.kind == TokenKind::RParen ==> s.step(env, t, p).0 == s.on_rparen(env),
        t.kind == TokenKind::RBracket ==> s.step(env, t, p).0 == s.on_rbracket(env),
{
    reveal(State::step);
}

/// `...` is written right behind the token before it, but for a comma.
pub proof fn law_ellipses_are_tight(s: State, env: Input, t: Token, p: int)
    requires
        mid_line(s),
        s.marks.prev is Some,
        behind(s, s.marks.prev->0),
        s.marks.prev->0 != TokenKind::Comma,
        t.kind == TokenKind::DotDotDot,
    ensures
        joined(s, env, t, p),
{
    lemma_plain(s, env, t, p);
}

/// A `[` is written right behind the token before it.
pub proof fn law_subscripts_are_tight(s: State, env: Input, t: Token, p: int)
    requires
        mid_line(s),
        t.kind == TokenKind::LBracket && t.lexeme@ == seq!['['],
    ensures
        joined(s, env, t, p),
{
    reveal(State::step);
    reveal(State::flush);
    assert(s.owed_lines(env.config) == 0);
}

// ── Casts ────────────────────────────────────────────────────────────────────

/// The operand of a cast stands behind the space that `space_after_cast` asks
/// for: a name, a literal, a `(`, and a `*` or `&` in front of it.
pub proof fn law_casts_follow_the_option(s: State, env: Input, t: Token, p: int)
    requires
        mid_line(s),
        s.marks.prev == Some(TokenKind::RParen) && s.marks.after_cast,
        !s.marks.after_operator && !s.marks.after_overload && !s.marks.after_template,
        is_atom(t.kind) || t.kind == TokenKind::Star || t.kind == TokenKind::Amp || is_negation(
            t.kind,
        ) || is_step(t.kind) || (t.kind == TokenKind::LParen && t.lexeme@ == seq!['(']
            && no_star_follows(env.toks, p)),
    ensures
        parted_if(asks(env.config.spacing.space_after_cast, s.src_space), s, env, t, p),
{
    if t.kind == TokenKind::LParen {
        lemma_paren(s, env, t, p);
        lemma_layout(env.toks, p);
    } else {
        lemma_plain(s, env, t, p);
    }
}

} // verus!
