//! Which `*` and `&` behind a name multiply or mask, and which declare.

use crate::config::PointerAlign;
use crate::laws::gaps::{
    behind, is_access, is_assignment, is_calculation, is_negation, is_step, mid_line, parted_if,
};
use crate::laws::signs::{
    layout_between, leads_group, leads_product, named, prior, star_behind_name,
};
use crate::layout::{Input, State};
use crate::token::{KindSet, Token, TokenKind};
use vstd::prelude::*;

verus! {

// ── Brackets ─────────────────────────────────────────────────────────────────

/// The `(`, `[` and `{`.
pub open spec fn opens(k: TokenKind) -> bool {
    k == TokenKind::LParen || k == TokenKind::LBracket || k == TokenKind::LBrace
}

/// The `)`, `]` and `}`.
pub open spec fn closes(k: TokenKind) -> bool {
    k == TokenKind::RParen || k == TokenKind::RBracket || k == TokenKind::RBrace
}

/// The brackets from `i` up to `j` come in pairs, with no `;` between.
pub open spec fn paired(toks: Seq<Token>, i: int, j: int) -> bool
    decreases j - i,
{
    ||| i == j
    ||| i < j && !opens(toks[i].kind) && !closes(toks[i].kind) && toks[i].kind != TokenKind::Semi
        && paired(toks, i + 1, j)
    ||| i < j && opens(toks[i].kind) && exists|k: int|
        i < k < j && closes((#[trigger] toks[k]).kind) && paired(toks, i + 1, k) && paired(
            toks,
            k + 1,
            j,
        )
}

proof fn lemma_paired(toks: Seq<Token>, i: int, j: int, depth: nat)
    requires
        0 <= i <= j <= toks.len(),
        paired(toks, i, j),
    ensures
        crate::scan::open_group(toks, j - 1, depth) == crate::scan::open_group(
            toks,
            i - 1,
            depth,
        ),
    decreases j - i,
{
    if i < j {
        if opens(toks[i].kind) {
            let k = choose|k: int|
                i < k < j && closes((#[trigger] toks[k]).kind) && paired(toks, i + 1, k) && paired(
                    toks,
                    k + 1,
                    j,
                );
            lemma_paired(toks, k + 1, j, depth);
            lemma_paired(toks, i + 1, k, depth + 1);
        } else {
            lemma_paired(toks, i + 1, j, depth);
        }
    }
}

/// The token at `a` is the bracket at `g`, or a comma directly inside of it.
pub open spec fn parts_of(toks: Seq<Token>, g: int, a: int) -> bool {
    &&& 0 <= g <= a < toks.len()
    &&& opens(toks[g].kind)
    &&& a == g || toks[a].kind == TokenKind::Comma && paired(toks, g + 1, a)
}

proof fn lemma_parts_of(toks: Seq<Token>, g: int, a: int)
    requires
        parts_of(toks, g, a),
    ensures
        crate::scan::open_group(toks, a, 0) == g,
{
    if a != g {
        lemma_paired(toks, g + 1, a, 0);
        assert(crate::scan::open_group(toks, a, 0) == crate::scan::open_group(toks, a - 1, 0));
    }
    assert(crate::scan::open_group(toks, g, 0) == g);
}

// ── Products ─────────────────────────────────────────────────────────────────

/// A name and a `(` behind such a token are a call.
pub open spec fn leads_call(k: TokenKind) -> bool {
    leads_product(k) || is_negation(k) || is_step(k) || k == TokenKind::KwNew || k
        == TokenKind::KwDelete || k == TokenKind::KwIf
}

/// Inside of a function's body, a statement starts behind such a token.
pub open spec fn leads_statement(k: TokenKind) -> bool {
    k == TokenKind::Semi || k == TokenKind::LBrace || k == TokenKind::RBrace || k
        == TokenKind::RParen || k == TokenKind::Colon || k == TokenKind::PreprocLine || k
        == TokenKind::KwElse || k == TokenKind::KwDo
}

/// The members that a constructor initializes follow the token at `o`: a `:`
/// behind a `)`.
pub open spec fn leads_members(toks: Seq<Token>, o: int) -> bool {
    toks[o].kind == TokenKind::Colon && exists|r: int|
        prior(toks, r, o) && (#[trigger] toks[r]).kind == TokenKind::RParen
}

/// The bracket at `g`, behind the token at `l`, holds expressions: a subscript,
/// an initializer, a group, a condition, or the arguments of a call. The token
/// at `o` stands before the called name.
pub open spec fn holds_values(toks: Seq<Token>, o: int, l: int, g: int, body: bool) -> bool {
    &&& prior(toks, l, g) && g < toks.len()
    &&& {
        ||| toks[g].kind == TokenKind::LBracket
        ||| toks[g].kind == TokenKind::LBrace && leads_product(toks[l].kind)
        ||| toks[g].kind == TokenKind::LParen && leads_group(toks[l].kind) && prior(toks, o, l)
            && toks[o].kind != TokenKind::Keyword
        ||| toks[g].kind == TokenKind::LParen && named(toks, o, l) && (leads_call(toks[o].kind)
            || leads_members(toks, o) || body && leads_statement(toks[o].kind))
    }
}

proof fn lemma_holds_values(toks: Seq<Token>, o: int, l: int, g: int, body: bool)
    requires
        holds_values(toks, o, l, g, body),
    ensures
        crate::scan::holds_operands(toks, g, body),
{
    crate::laws::signs::lemma_prior(toks, l, g);
    if toks[g].kind == TokenKind::LParen {
        if toks[l].kind == TokenKind::Ident {
            crate::laws::signs::lemma_named(toks, o, l);
            assert(crate::scan::callee(toks, g) == l);
            if leads_members(toks, o) {
                let r = choose|r: int|
                    prior(toks, r, o) && (#[trigger] toks[r]).kind == TokenKind::RParen;
                crate::laws::signs::lemma_prior(toks, r, o);
            }
            assert(crate::scan::call_follows(toks, o, body));
        } else {
            crate::laws::signs::lemma_prior(toks, o, l);
        }
    }
}

/// A `*` or `&` behind a name that starts an argument, an index, a group or an
/// initializer's item multiplies or masks: `f(x, a * b)`, `v[i * n]`.
pub proof fn law_products_in_brackets(
    s: State,
    env: Input,
    t: Token,
    o: int,
    l: int,
    g: int,
    a: int,
    n: int,
    p: int,
)
    requires
        mid_line(s),
        behind(s, TokenKind::Ident),
        star_behind_name(env.toks, a, n, p),
        env.toks[p - 1] == t,
        parts_of(env.toks, g, a),
        holds_values(env.toks, o, l, g, s.in_body()),
    ensures
        parted_if(env.config.spacing.space_around_binary_ops, s, env, t, p),
{
    let toks = env.toks;
    crate::laws::signs::lemma_star_lead(toks, a, n, p);
    lemma_parts_of(toks, g, a);
    lemma_holds_values(toks, o, l, g, s.in_body());
    assert(crate::scan::leads_operand(toks, a, s.in_body()));
    crate::laws::gaps::lemma_plain(s, env, t, p);
}

/// So does one behind a further factor: `x = a * b * c`.
pub proof fn law_further_factors(
    s: State,
    env: Input,
    t: Token,
    b: int,
    m: int,
    a: int,
    n: int,
    p: int,
)
    requires
        mid_line(s),
        behind(s, TokenKind::Ident),
        star_behind_name(env.toks, a, n, p),
        env.toks[p - 1] == t,
        star_behind_name(env.toks, b, m, a + 1),
        leads_product(env.toks[b].kind),
    ensures
        parted_if(env.config.spacing.space_around_binary_ops, s, env, t, p),
{
    let toks = env.toks;
    crate::laws::signs::lemma_star_lead(toks, a, n, p);
    crate::laws::signs::lemma_star_lead(toks, b, m, a + 1);
    assert(crate::scan::leads_operand(toks, b, s.in_body()));
    assert(crate::scan::leads_operand(toks, a, s.in_body()));
    crate::laws::gaps::lemma_plain(s, env, t, p);
}

/// So does one behind a name that is cast: `x = (T) a * b`.
pub proof fn law_products_of_casts(
    s: State,
    env: Input,
    t: Token,
    b: int,
    o: int,
    a: int,
    n: int,
    p: int,
)
    requires
        mid_line(s),
        behind(s, TokenKind::Ident),
        star_behind_name(env.toks, a, n, p),
        env.toks[p - 1] == t,
        env.toks[a].kind == TokenKind::RParen,
        0 <= o < a && env.toks[o].kind == TokenKind::LParen,
        forall|x: int|
            o < x < a ==> (#[trigger] env.toks[x]).kind != TokenKind::LParen && env.toks[x].kind
                != TokenKind::RParen,
        prior(env.toks, b, o),
        leads_product(env.toks[b].kind),
    ensures
        parted_if(env.config.spacing.space_around_binary_ops, s, env, t, p),
{
    let toks = env.toks;
    crate::laws::signs::lemma_star_lead(toks, a, n, p);
    lemma_open_paren(toks, o, a - 1);
    crate::laws::signs::lemma_prior(toks, b, o);
    assert(crate::scan::leads_operand(toks, b, s.in_body()));
    assert(crate::scan::leads_operand(toks, a, s.in_body()));
    crate::laws::gaps::lemma_plain(s, env, t, p);
}

proof fn lemma_open_paren(toks: Seq<Token>, o: int, i: int)
    requires
        0 <= o <= i < toks.len(),
        toks[o].kind == TokenKind::LParen,
        forall|x: int|
            o < x <= i ==> (#[trigger] toks[x]).kind != TokenKind::LParen && toks[x].kind
                != TokenKind::RParen,
    ensures
        crate::scan::open_paren(toks, i, 1) == o,
    decreases i - o,
{
    if o < i {
        assert(toks[i].kind != TokenKind::LParen);
        lemma_open_paren(toks, o, i - 1);
    }
}

/// So does one behind the name that starts the last part of a choice:
/// `c ? x : a * b`.
pub proof fn law_products_in_choices(
    s: State,
    env: Input,
    t: Token,
    q: int,
    a: int,
    n: int,
    p: int,
)
    requires
        mid_line(s),
        behind(s, TokenKind::Ident),
        star_behind_name(env.toks, a, n, p),
        env.toks[p - 1] == t,
        env.toks[a].kind == TokenKind::Colon,
        0 <= q < a && env.toks[q].kind == TokenKind::Question,
        forall|x: int|
            q < x < a ==> (#[trigger] env.toks[x]).kind != TokenKind::Question && env.toks[x].kind
                != TokenKind::Semi && env.toks[x].kind != TokenKind::LBrace && env.toks[x].kind
                != TokenKind::RBrace,
    ensures
        parted_if(env.config.spacing.space_around_binary_ops, s, env, t, p),
{
    let toks = env.toks;
    crate::laws::signs::lemma_star_lead(toks, a, n, p);
    crate::laws::contexts::lemma_back(toks, q, a - 1, KindSet::WithinChoice);
    assert(crate::scan::leads_operand(toks, a, s.in_body()));
    crate::laws::gaps::lemma_plain(s, env, t, p);
}

/// So does one in front of a literal or a parenthesis: `a * 2`, `a & (b)`.
pub proof fn law_products_with_values(s: State, env: Input, t: Token, m: int, p: int)
    requires
        mid_line(s),
        behind(s, TokenKind::Ident),
        t.kind == TokenKind::Star || t.kind == TokenKind::Amp,
        0 <= p <= m < env.toks.len(),
        layout_between(env.toks, p, m),
        ({
            let k = env.toks[m].kind;
            k == TokenKind::LitInt || k == TokenKind::LitFloat || k == TokenKind::LitStr || k
                == TokenKind::LitChar || k == TokenKind::LParen || is_negation(k) || is_step(k)
        }),
    ensures
        parted_if(env.config.spacing.space_around_binary_ops, s, env, t, p),
{
    let toks = env.toks;
    assert forall|x: int| p <= x < m implies KindSet::LayoutOrStar.has((#[trigger] toks[x]).kind) by {
        assert(toks[x].kind == TokenKind::Whitespace || toks[x].kind == TokenKind::Newline);
    }
    crate::laws::injection::lemma_skip_up_to(toks, p, m, KindSet::LayoutOrStar);
    assert(!crate::scan::scan_name(toks, m, false, false).found);
    crate::laws::gaps::lemma_plain(s, env, t, p);
}

/// So does one in front of a name behind which the expression goes on:
/// `a * b + c`.
pub proof fn law_products_with_more(s: State, env: Input, t: Token, m: int, e: int, p: int)
    requires
        mid_line(s),
        behind(s, TokenKind::Ident),
        t.kind == TokenKind::Star || t.kind == TokenKind::Amp,
        0 <= p <= m < e < env.toks.len(),
        layout_between(env.toks, p, m),
        env.toks[m].kind == TokenKind::Ident,
        layout_between(env.toks, m + 1, e),
        is_calculation(env.toks[e].kind) || is_access(env.toks[e].kind) && env.toks[e].kind
            != TokenKind::ColonColon || is_step(env.toks[e].kind) || env.toks[e].kind
            == TokenKind::RBracket || env.toks[e].kind == TokenKind::Question || env.toks[e].kind
            == TokenKind::RBrace,
    ensures
        parted_if(env.config.spacing.space_around_binary_ops, s, env, t, p),
{
    let toks = env.toks;
    assert forall|x: int| p <= x < m implies KindSet::LayoutOrStar.has((#[trigger] toks[x]).kind) by {
        assert(toks[x].kind == TokenKind::Whitespace || toks[x].kind == TokenKind::Newline);
    }
    crate::laws::injection::lemma_skip_up_to(toks, p, m, KindSet::LayoutOrStar);
    assert(crate::scan::after_qualifiers(toks, m) == m);
    lemma_scan_stops(toks, m + 1, e);
    assert(crate::scan::scan_name(toks, m, false, false) == crate::scan::scan_name(
        toks,
        m + 1,
        true,
        false,
    ));
    assert(crate::scan::skip(toks, e, KindSet::Trivia) == e);
    crate::laws::gaps::lemma_plain(s, env, t, p);
}

proof fn lemma_scan_stops(toks: Seq<Token>, i: int, e: int)
    requires
        0 <= i <= e < toks.len(),
        layout_between(toks, i, e),
        !KindSet::Trivia.has(toks[e].kind),
        toks[e].kind != TokenKind::Ident && toks[e].kind != TokenKind::Keyword && toks[e].kind
            != TokenKind::ColonColon,
    ensures
        ({
            let r = crate::scan::scan_name(toks, i, true, false);
            r.end == e && !r.operator
        }),
    decreases e - i,
{
    if i < e {
        assert(toks[i].kind == TokenKind::Whitespace || toks[i].kind == TokenKind::Newline);
        lemma_scan_stops(toks, i + 1, e);
    }
}

// ── Declarators ──────────────────────────────────────────────────────────────

/// What ends the declarator of a name.
pub open spec fn ends_declarator(k: TokenKind) -> bool {
    k == TokenKind::Semi || k == TokenKind::Comma || k == TokenKind::RParen || k == TokenKind::Eq
        || k == TokenKind::LBracket || k == TokenKind::LBrace || k == TokenKind::LParen
}

/// The words that qualify a pointer.
pub open spec fn qualifies(w: Seq<char>) -> bool {
    w == "const"@ || w == "volatile"@ || w == "restrict"@ || w == "__restrict"@ || w
        == "__restrict__"@
}

/// From `p` up to `c` stand further `*` and `&`, from there up to `m` qualifiers
/// such as `const`.
pub open spec fn stars_to(toks: Seq<Token>, p: int, c: int, m: int) -> bool {
    &&& 0 <= p <= c <= m < toks.len()
    &&& forall|x: int|
        p <= x < c ==> (#[trigger] toks[x]).kind == TokenKind::Whitespace || toks[x].kind
            == TokenKind::Newline || toks[x].kind == TokenKind::Star || toks[x].kind
            == TokenKind::Amp
    &&& forall|x: int|
        c <= x < m ==> (#[trigger] toks[x]).kind == TokenKind::Whitespace || toks[x].kind
            == TokenKind::Newline || toks[x].kind == TokenKind::Keyword && qualifies(
            toks[x].lexeme@,
        )
    &&& toks[c].kind != TokenKind::Whitespace && toks[c].kind != TokenKind::Newline
}

/// From `m` up to `e` stands a name, perhaps a qualified one.
pub open spec fn names(toks: Seq<Token>, m: int, e: int) -> bool {
    &&& 0 <= m < e < toks.len()
    &&& toks[m].kind == TokenKind::Ident || toks[m].kind == TokenKind::ColonColon
    &&& forall|x: int|
        m <= x < e ==> (#[trigger] toks[x]).kind == TokenKind::Ident || toks[x].kind
            == TokenKind::ColonColon || toks[x].kind == TokenKind::Whitespace || toks[x].kind
            == TokenKind::Newline
    &&& exists|x: int| m <= x < e && (#[trigger] toks[x]).kind == TokenKind::Ident
}

/// From `m` up to `e` stand the word `operator` and, at `y`, the symbol that it
/// overloads.
pub open spec fn names_operator(toks: Seq<Token>, m: int, y: int, e: int) -> bool {
    &&& 0 <= m < y < e < toks.len()
    &&& toks[m].kind == TokenKind::Keyword && toks[m].lexeme@ == "operator"@
    &&& layout_between(toks, m + 1, y)
    &&& {
        ||| (is_calculation(toks[y].kind) || is_assignment(toks[y].kind) || is_step(toks[y].kind)
            || is_negation(toks[y].kind)) && e == y + 1
        ||| toks[y].kind == TokenKind::LParen && toks[y + 1].kind == TokenKind::RParen && e == y + 2
        ||| toks[y].kind == TokenKind::LBracket && toks[y + 1].kind == TokenKind::RBracket && e == y
            + 2
    }
    &&& toks[e].kind == TokenKind::LParen
}

/// From `p` on stand a declared name, from `m` up to `e`, and the end of its
/// declarator.
pub open spec fn declares(toks: Seq<Token>, p: int, c: int, m: int, y: int, e: int) -> bool {
    &&& stars_to(toks, p, c, m)
    &&& names(toks, m, e) || names_operator(toks, m, y, e)
    &&& ends_declarator(toks[e].kind)
}

proof fn lemma_declares(toks: Seq<Token>, p: int, c: int, m: int, y: int, e: int)
    requires
        declares(toks, p, c, m, y, e),
    ensures
        crate::scan::declarator_follows(toks, p),
{
    assert forall|x: int| p <= x < c implies KindSet::LayoutOrStar.has((#[trigger] toks[x]).kind) by {
        assert(toks[x].kind == TokenKind::Whitespace || toks[x].kind == TokenKind::Newline
            || toks[x].kind == TokenKind::Star || toks[x].kind == TokenKind::Amp);
    }
    crate::laws::injection::lemma_skip_up_to(toks, p, c, KindSet::LayoutOrStar);
    lemma_operator_qualifies_nothing();
    lemma_qualifiers(toks, c, m);
    if names(toks, m, e) {
        lemma_name_scanned(toks, m, e, false);
        assert(crate::scan::skip(toks, e, KindSet::Trivia) == e);
    } else {
        lemma_symbol_scanned(toks, m + 1, y);
        assert(crate::scan::scan_name(toks, m, false, false) == crate::scan::scan_name(
            toks,
            m + 1,
            true,
            true,
        ));
        assert(crate::scan::skip(toks, y, KindSet::Layout) == y);
        assert(crate::scan::after_symbol(toks, y) == e);
        assert(crate::scan::skip(toks, e, KindSet::Trivia) == e);
    }
}

proof fn lemma_operator_qualifies_nothing()
    ensures
        !qualifies("operator"@),
{
    reveal_strlit("operator");
    reveal_strlit("const");
    reveal_strlit("volatile");
    reveal_strlit("restrict");
    reveal_strlit("__restrict");
    reveal_strlit("__restrict__");
    assert("operator"@[0] == 'o' && "volatile"@[0] == 'v' && "restrict"@[0] == 'r');
}

proof fn lemma_qualifier_words(w: Seq<char>)
    ensures
        crate::scan::qualifier_words().contains(w) == qualifies(w),
{
    let l = crate::scan::qualifier_words();
    assert(l[0] == "const"@ && l[1] == "volatile"@ && l[2] == "restrict"@ && l[3] == "__restrict"@
        && l[4] == "__restrict__"@);
    if l.contains(w) {
        let i = choose|i: int| 0 <= i < l.len() && l[i] == w;
    }
}

proof fn lemma_qualifiers(toks: Seq<Token>, c: int, m: int)
    requires
        0 <= c <= m < toks.len(),
        forall|x: int|
            c <= x < m ==> (#[trigger] toks[x]).kind == TokenKind::Whitespace || toks[x].kind
                == TokenKind::Newline || toks[x].kind == TokenKind::Keyword && qualifies(
                toks[x].lexeme@,
            ),
        toks[c].kind != TokenKind::Whitespace && toks[c].kind != TokenKind::Newline,
        toks[m].kind != TokenKind::Whitespace && toks[m].kind != TokenKind::Newline,
        toks[m].kind == TokenKind::Keyword ==> !qualifies(toks[m].lexeme@),
    ensures
        crate::scan::after_qualifiers(toks, c) == m,
    decreases m - c,
{
    lemma_qualifier_words(toks[c].lexeme@);
    if c < m {
        assert(toks[c].kind == TokenKind::Keyword);
        let next = crate::scan::skip(toks, c + 1, KindSet::Layout);
        lemma_layout_ends(toks, c + 1, m);
        lemma_qualifiers(toks, next, m);
    }
}

proof fn lemma_layout_ends(toks: Seq<Token>, i: int, m: int)
    requires
        0 <= i <= m < toks.len(),
        toks[m].kind != TokenKind::Whitespace && toks[m].kind != TokenKind::Newline,
    ensures
        ({
            let next = crate::scan::skip(toks, i, KindSet::Layout);
            i <= next <= m && toks[next].kind != TokenKind::Whitespace && toks[next].kind
                != TokenKind::Newline
        }),
    decreases m - i,
{
    if i < m && KindSet::Layout.has(toks[i].kind) {
        lemma_layout_ends(toks, i + 1, m);
    }
}

proof fn lemma_name_scanned(toks: Seq<Token>, i: int, e: int, found: bool)
    requires
        0 <= i <= e < toks.len(),
        forall|x: int|
            i <= x < e ==> (#[trigger] toks[x]).kind == TokenKind::Ident || toks[x].kind
                == TokenKind::ColonColon || toks[x].kind == TokenKind::Whitespace || toks[x].kind
                == TokenKind::Newline,
        found || exists|x: int| i <= x < e && (#[trigger] toks[x]).kind == TokenKind::Ident,
        ends_declarator(toks[e].kind),
    ensures
        ({
            let r = crate::scan::scan_name(toks, i, found, false);
            r.end == e && r.found && !r.operator
        }),
    decreases e - i,
{
    if i < e {
        assert(toks[i].kind == TokenKind::Ident || toks[i].kind == TokenKind::ColonColon
            || toks[i].kind == TokenKind::Whitespace || toks[i].kind == TokenKind::Newline);
        lemma_name_scanned(toks, i + 1, e, found || toks[i].kind == TokenKind::Ident);
    }
}

proof fn lemma_symbol_scanned(toks: Seq<Token>, i: int, y: int)
    requires
        0 <= i <= y < toks.len(),
        layout_between(toks, i, y),
        KindSet::BinaryOp.has(toks[y].kind) || KindSet::OverloadSymbol.has(toks[y].kind),
    ensures
        crate::scan::scan_name(toks, i, true, true) == (crate::scan::NameScan {
            end: y,
            found: true,
            operator: true,
        }),
    decreases y - i,
{
    if i < y {
        assert(toks[i].kind == TokenKind::Whitespace || toks[i].kind == TokenKind::Newline);
        lemma_symbol_scanned(toks, i + 1, y);
    }
}

/// The `*` or `&` is set as `pointer_align` wants it.
pub open spec fn set_as_declarator(s: State, env: Input, t: Token, p: int) -> bool {
    let align = env.config.spacing.pointer_align;
    &&& parted_if(
        align is Name || (align is Middle && env.config.spacing.space_around_binary_ops),
        s,
        env,
        t,
        p,
    )
    &&& t.lexeme@.len() > 0 ==> s.step(env, t, p).0.page.suppress_space == (align is Name)
}

proof fn lemma_set_as_declarator(s: State, env: Input, t: Token, p: int)
    requires
        mid_line(s),
        behind(s, TokenKind::Ident),
        t.kind == TokenKind::Star || t.kind == TokenKind::Amp,
        s.at_declarator(env, p),
    ensures
        set_as_declarator(s, env, t, p),
{
    crate::laws::signs::lemma_declarator_taken(s, env, t, p);
    crate::laws::gaps::lemma_flushed(s, env);
    let spaced = match env.config.spacing.pointer_align {
        PointerAlign::Middle => s.needs_space(env.config, t.kind),
        PointerAlign::Type => false,
        PointerAlign::Name => true,
    };
    crate::laws::gaps::lemma_led(s, env, spaced, t.lexeme@);
    reveal(State::lead_in);
}

/// The token at `a` is followed by a declaration: the end of a statement, the
/// `{` of a block behind the token at `l`, or a word of the type.
pub open spec fn leads_declaration(toks: Seq<Token>, l: int, a: int) -> bool {
    let k = toks[a].kind;
    ||| k == TokenKind::Semi || k == TokenKind::RBrace || k == TokenKind::PreprocLine
    ||| crate::laws::declarations::opens_declaration(k)
    ||| k == TokenKind::LBrace && prior(toks, l, a) && (toks[l].kind == TokenKind::RParen
        || toks[l].kind == TokenKind::Ident || toks[l].kind == TokenKind::KwElse || toks[l].kind
        == TokenKind::KwDo || toks[l].kind == TokenKind::KwTry || toks[l].kind
        == TokenKind::Semi || toks[l].kind == TokenKind::RBrace)
}

/// A `*` or `&` between two names at the start of a statement declares, also
/// behind words such as `const`, and with further `*` or qualifiers behind it:
/// `const T* const p;`, `T& operator+(`.
pub proof fn law_statements_declare_pointers(
    s: State,
    env: Input,
    t: Token,
    l: int,
    a: int,
    n: int,
    p: int,
    d: int,
    m: int,
    y: int,
    e: int,
)
    requires
        mid_line(s),
        behind(s, TokenKind::Ident),
        star_behind_name(env.toks, a, n, p),
        env.toks[p - 1] == t,
        leads_declaration(env.toks, l, a),
        declares(env.toks, p, d, m, y, e),
    ensures
        set_as_declarator(s, env, t, p),
{
    let toks = env.toks;
    crate::laws::signs::lemma_star_lead(toks, a, n, p);
    lemma_declares(toks, p, d, m, y, e);
    if toks[a].kind == TokenKind::LBrace {
        crate::laws::signs::lemma_prior(toks, l, a);
        assert(crate::scan::open_group(toks, a, 0) == a);
        assert(!crate::scan::holds_operands(toks, a, s.in_body()));
    }
    assert(!crate::scan::leads_operand(toks, a, s.in_body()));
    lemma_set_as_declarator(s, env, t, p);
}

/// The token at `o` stands before the name of a function that is declared: a
/// word or a name of its type, or, outside of functions, the end of what stands
/// before a constructor.
pub open spec fn leads_function(k: TokenKind, body: bool) -> bool {
    ||| crate::laws::declarations::opens_declaration(k) || k == TokenKind::Ident
    ||| !body && (k == TokenKind::Semi || k == TokenKind::LBrace || k == TokenKind::RBrace)
}

/// A `*` or `&` behind the type of a parameter declares: `void f(T* p)`.
pub proof fn law_parameters_declare_pointers(
    s: State,
    env: Input,
    t: Token,
    l: int,
    o: int,
    c: int,
    g: int,
    a: int,
    n: int,
    p: int,
    d: int,
    m: int,
    y: int,
    e: int,
)
    requires
        mid_line(s),
        behind(s, TokenKind::Ident),
        star_behind_name(env.toks, a, n, p),
        env.toks[p - 1] == t,
        parts_of(env.toks, g, a),
        env.toks[g].kind == TokenKind::LParen,
        prior(env.toks, c, g),
        named(env.toks, o, c),
        leads_function(env.toks[o].kind, s.in_body()),
        env.toks[o].kind == TokenKind::LBrace ==> prior(env.toks, l, o) && env.toks[l].kind
            == TokenKind::Ident,
        declares(env.toks, p, d, m, y, e),
    ensures
        set_as_declarator(s, env, t, p),
{
    let toks = env.toks;
    crate::laws::signs::lemma_star_lead(toks, a, n, p);
    lemma_declares(toks, p, d, m, y, e);
    lemma_parts_of(toks, g, a);
    crate::laws::signs::lemma_prior(toks, c, g);
    crate::laws::signs::lemma_named(toks, o, c);
    assert(crate::scan::callee(toks, g) == c);
    assert(!crate::scan::call_follows(toks, o, s.in_body()));
    if toks[o].kind == TokenKind::LBrace {
        crate::laws::signs::lemma_prior(toks, l, o);
        assert(crate::scan::open_group(toks, o, 0) == o);
        assert(!crate::scan::holds_operands(toks, o, s.in_body()));
    }
    assert(!crate::scan::leads_operand(toks, o, s.in_body()));
    assert(!crate::scan::holds_operands(toks, g, s.in_body()));
    assert(!crate::scan::leads_operand(toks, a, s.in_body()));
    lemma_set_as_declarator(s, env, t, p);
}

} // verus!
