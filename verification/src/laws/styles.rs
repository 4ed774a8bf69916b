//! The two line end styles differ in their line ends only: the layout machine
//! takes the same way in both.

use crate::align::Rule;
use crate::config::{Config, Eol, NewlineConfig, NewlineStyle, PointerAlign};
use crate::layout::{AssignView, BraceCtx, Decls, DepthView, Input, Marks, PageView, State};
use crate::text::Class;
use crate::token::{KindSet, Token, TokenKind};
use crate::trivia::Conditional;
use vstd::prelude::*;

verus! {

/// The output without its carriage returns.
#[verifier::opaque]
spec fn bare(out: Seq<char>) -> Seq<char> {
    crate::laws::carriage::strip(out)
}

/// Carriage returns occur in front of line feeds only.
#[verifier::opaque]
spec fn clean(out: Seq<char>) -> bool {
    crate::laws::carriage::paired(out)
}

/// The page without its carriage returns.
spec fn lf_page(p: PageView) -> PageView {
    PageView { out: bare(p.out), ..p }
}

/// The state without the carriage returns of its page.
spec fn lf(s: State) -> State {
    State { page: lf_page(s.page), ..s }
}

/// Carriage returns occur in front of line feeds only.
spec fn tidy(s: State) -> bool {
    clean(s.page.out)
}

/// `a` is `b`, but for carriage returns.
spec fn alike(a: State, b: State) -> bool {
    tidy(a) && lf(a) == b
}

/// The same settings, with the LF style in place of the CRLF style.
pub open spec fn lf_config(config: Config) -> Config {
    if config.newlines.style == NewlineStyle::Crlf {
        Config { newlines: NewlineConfig { style: NewlineStyle::Lf, ..config.newlines }, ..config }
    } else {
        config
    }
}

/// The same input, in the LF style.
spec fn lf_env<'a>(env: Input<'a>) -> Input<'a> {
    Input { eol: Eol::Lf, config: lf_config(env.config), ..env }
}

/// No token holds a carriage return, layout aside.
pub open spec fn no_returns(toks: Seq<Token>) -> bool {
    forall|i: int|
        0 <= i < toks.len() && !KindSet::Layout.has((#[trigger] toks[i]).kind)
            ==> crate::laws::lines::lacks(toks[i].lexeme@, '\r')
}

/// No item holds a carriage return.
spec fn items_plain(items: Seq<Token>) -> bool {
    forall|i: int|
        0 <= i < items.len() ==> crate::laws::lines::lacks((#[trigger] items[i]).lexeme@, '\r')
}

// ── Page ─────────────────────────────────────────────────────────────────────

/// Writing a text that differs in carriage returns only.
proof fn lemma_write_page(p: PageView, t: Seq<char>)
    requires
        clean(p.out),
        crate::laws::carriage::paired(t),
    ensures
        clean(p.write(t).out),
        lf_page(p.write(t)) == lf_page(p).write(crate::laws::carriage::strip(t)),
{
    reveal(bare);
    reveal(clean);
    crate::laws::carriage::lemma_strip_add(p.out, t);
    crate::laws::carriage::lemma_paired_add(p.out, t);
    crate::laws::carriage::lemma_strip_last(t);
}

proof fn lemma_write(s: State, t: Seq<char>)
    requires
        tidy(s),
        crate::laws::carriage::paired(t),
    ensures
        alike(s.write(t), lf(s).write(crate::laws::carriage::strip(t))),
{
    lemma_write_page(s.page, t);
}

/// Writing a text without carriage returns.
proof fn lemma_write_plain(s: State, t: Seq<char>)
    requires
        tidy(s),
        crate::laws::lines::lacks(t, '\r'),
    ensures
        alike(s.write(t), lf(s).write(t)),
{
    crate::laws::carriage::lemma_strip_plain(t);
    lemma_write(s, t);
}

proof fn lemma_end_lines(p: PageView, n: nat)
    requires
        clean(p.out),
    ensures
        clean(p.end_lines(Eol::CrLf, n).out),
        lf_page(p.end_lines(Eol::CrLf, n)) == lf_page(p).end_lines(Eol::Lf, n),
{
    reveal(bare);
    reveal(clean);
    let head = crate::text::trim_end(p.out, Class::Space);
    let ends = crate::text::repeat(Eol::CrLf.text(), n);
    crate::laws::carriage::lemma_strip_trim(p.out, Class::Space);
    crate::laws::carriage::lemma_strip_repeat(n);
    crate::laws::carriage::lemma_strip_add(head, ends);
    crate::laws::carriage::lemma_paired_add(head, ends);
}

proof fn lemma_nl(s: State)
    requires
        tidy(s),
    ensures
        alike(s.nl(Eol::CrLf), lf(s).nl(Eol::Lf)),
        alike(s.break_line(Eol::CrLf), lf(s).break_line(Eol::Lf)),
        alike(s.fresh_line(Eol::CrLf), lf(s).fresh_line(Eol::Lf)),
{
    lemma_end_lines(s.page, 1);
}

proof fn lemma_space_page(p: PageView)
    requires
        clean(p.out),
    ensures
        clean(p.space().out),
        lf_page(p.space()) == lf_page(p).space(),
{
    reveal(bare);
    reveal(clean);
    let one = seq![' '];
    crate::laws::carriage::lemma_strip_last(p.out);
    crate::laws::carriage::lemma_strip_plain(one);
    crate::laws::carriage::lemma_strip_add(p.out, one);
    crate::laws::carriage::lemma_paired_add(p.out, one);
    assert(p.out.push(' ') =~= p.out + one);
    assert(crate::laws::carriage::strip(p.out).push(' ') =~= crate::laws::carriage::strip(p.out)
        + one);
}

proof fn lemma_space(s: State)
    requires
        tidy(s),
    ensures
        alike(s.space(), lf(s).space()),
{
    lemma_space_page(s.page);
}

proof fn lemma_join_line(s: State)
    requires
        tidy(s),
    ensures
        alike(s.join_line(), lf(s).join_line()),
{
    reveal(bare);
    reveal(clean);
    crate::laws::carriage::lemma_strip_trim(s.page.out, Class::AsciiWhite);
}

proof fn lemma_lead(p: PageView, lead: Seq<char>, started: bool)
    requires
        clean(p.out),
        crate::laws::carriage::paired(lead),
        crate::laws::carriage::strip(lead) == lead,
    ensures
        clean(p.lead(lead, started).out),
        lf_page(p.lead(lead, started)) == lf_page(p).lead(lead, started),
{
    reveal(bare);
    reveal(clean);
    crate::laws::carriage::lemma_strip_add(p.out, lead);
    crate::laws::carriage::lemma_paired_add(p.out, lead);
}

proof fn lemma_tail_is(p: PageView, c: char)
    requires
        clean(p.out),
    ensures
        lf_page(p).tail_is(c) == p.tail_is(c),
        lf_page(p).col() == p.col(),
{
    reveal(bare);
    reveal(clean);
    crate::laws::carriage::lemma_strip_trim(p.out, Class::White);
    crate::laws::carriage::lemma_strip_last(crate::text::trim_end(p.out, Class::White));
    crate::laws::carriage::lemma_strip_tail_len(p.out);
}

// ── Lines ────────────────────────────────────────────────────────────────────

proof fn lemma_align_to_paren(s: State)
    requires
        tidy(s),
    ensures
        alike(s.align_to_paren(), lf(s).align_to_paren()),
{
    if s.parens.len() > 0 {
        let top = s.parens.last();
        let eol = top.eol || s.page.tail_is('(');
        let col = if eol {
            top.eol_col
        } else {
            top.col
        };
        lemma_tail_is(s.page, '(');
        crate::laws::carriage::lemma_spaces_plain(col);
        lemma_lead(s.page, crate::text::spaces(col), eol || col > 0);
    }
}

proof fn lemma_align_to_assign(s: State, config: Config, a: AssignView)
    requires
        tidy(s),
    ensures
        alike(s.align_to_assign(config, a), lf(s).align_to_assign(lf_config(config), a)),
{
    let eol = a.eol || s.page.tail_is('=');
    let lead = if eol {
        crate::text::repeat(config.indent_unit(), s.depth.indent + 1)
    } else {
        crate::text::spaces(a.col)
    };
    lemma_tail_is(s.page, '=');
    crate::laws::carriage::lemma_spaces_plain(a.col);
    crate::laws::carriage::lemma_indent_plain(config, s.depth.indent + 1);
    lemma_lead(s.page, lead, eol || a.col > 0);
}

proof fn lemma_note_indent(s: State)
    requires
        tidy(s),
    ensures
        alike(s.note_indent(), lf(s).note_indent()),
{
    lemma_tail_is(s.page, ' ');
}

proof fn lemma_start_line(s: State, config: Config)
    requires
        tidy(s),
    ensures
        alike(s.start_line(config), lf(s).start_line(lf_config(config))),
{
    reveal(State::start_line);
    if s.parens.len() > 0 {
        lemma_align_to_paren(s);
        lemma_note_indent(s.align_to_paren());
    } else {
        match s.assign {
            Some(a) => {
                lemma_align_to_assign(s, config, a);
                lemma_note_indent(s.align_to_assign(config, a));
            },
            None => {
                let lead = crate::text::repeat(config.indent_unit(), s.depth.indent);
                crate::laws::carriage::lemma_indent_plain(config, s.depth.indent);
                lemma_lead(s.page, lead, s.depth.indent > 0);
                lemma_note_indent(State { page: s.page.lead(lead, s.depth.indent > 0), ..s });
            },
        }
    }
}

proof fn lemma_own_line(s: State, config: Config)
    requires
        tidy(s),
    ensures
        alike(s.own_line(config, Eol::CrLf), lf(s).own_line(lf_config(config), Eol::Lf)),
{
    reveal(State::own_line);
    lemma_start_line(s, config);
    lemma_nl(s);
    lemma_start_line(s.nl(Eol::CrLf), config);
}

proof fn lemma_lead_in(s: State, config: Config, wanted: bool)
    requires
        tidy(s),
    ensures
        alike(s.lead_in(config, wanted), lf(s).lead_in(lf_config(config), wanted)),
{
    reveal(State::lead_in);
    lemma_start_line(s, config);
    lemma_space(s);
}

proof fn lemma_flush(s: State, config: Config)
    requires
        tidy(s),
    ensures
        alike(s.flush(config, Eol::CrLf), lf(s).flush(lf_config(config), Eol::Lf)),
{
    reveal(State::flush);
    lemma_end_lines(s.page, s.owed_lines(config));
}

/// Spacing does not look at the page.
proof fn lemma_needs_space(s: State, config: Config, k: TokenKind)
    ensures
        lf(s).needs_space(lf_config(config), k) == s.needs_space(config, k),
{
}

proof fn lemma_post_brace(
    s: State,
    env: Input,
    ctx: BraceCtx,
    next: Option<TokenKind>,
    p: int,
    line: u32,
)
    requires
        tidy(s),
        env.eol == Eol::CrLf,
    ensures
        alike(
            s.post_brace(env, ctx, next, p, line),
            lf(s).post_brace(lf_env(env), ctx, next, p, line),
        ),
{
    reveal(State::post_brace);
    lemma_space(s);
    lemma_nl(s);
}

proof fn lemma_track_decls(s: State, env: Input, k: TokenKind, p: int)
    requires
        tidy(s),
    ensures
        alike(s.track_decls(env, k, p), lf(s).track_decls(lf_env(env), k, p)),
{
    reveal(State::track_decls);
}

// ── Comments and preprocessor lines ──────────────────────────────────────────

proof fn lemma_write_preproc(s: State, config: Config, c: Conditional, line: Seq<char>)
    requires
        tidy(s),
        crate::laws::carriage::paired(line),
    ensures
        alike(
            s.write_preproc(config, c, line),
            lf(s).write_preproc(lf_config(config), c, crate::laws::carriage::strip(line)),
        ),
{
    if config.preprocessor.pp_indent {
        let n = if c == Conditional::Close || c == Conditional::Reopen {
            crate::layout::minus(s.depth.pp_groups, 1)
        } else {
            s.depth.pp_groups
        };
        let lead = crate::text::repeat(config.indent_unit(), n);
        let t = s.with_groups(n);
        crate::laws::carriage::lemma_indent_plain(config, n);
        lemma_write(t, lead);
        crate::laws::carriage::lemma_strip_trim_start(line);
        lemma_write(t.write(lead), crate::text::trim_start(line, Class::White));
    } else {
        lemma_write(s, line);
    }
}

proof fn lemma_on_line_comment(s: State, env: Input, text: Seq<char>)
    requires
        tidy(s),
        env.eol == Eol::CrLf,
        crate::laws::lines::lacks(text, '\r'),
    ensures
        alike(s.on_line_comment(env, text), lf(s).on_line_comment(lf_env(env), text)),
{
    let f = s.flush(env.config, env.eol);
    lemma_flush(s, env.config);
    lemma_join_line(f);
    let placed = if s.merges_comment(env.config) {
        f.join_line()
    } else {
        f
    };
    lemma_lead_in(placed, env.config, true);
    let l = placed.lead_in(env.config, true);
    let body = crate::text::trim_end(text, Class::Break);
    crate::laws::lines::lemma_trim_end_prefix(text, Class::Break);
    assert forall|k: int| 0 <= k < body.len() implies #[trigger] body[k] != '\r' by {
        assert(body[k] == text[k]);
    }
    lemma_write_plain(l, body);
    lemma_nl(l.write(body));
}

proof fn lemma_on_block_comment(s: State, env: Input, text: Seq<char>, p: int)
    requires
        tidy(s),
        env.eol == Eol::CrLf,
        crate::laws::lines::lacks(text, '\r'),
    ensures
        alike(s.on_block_comment(env, text, p), lf(s).on_block_comment(lf_env(env), text, p)),
{
    let f = s.flush(env.config, env.eol);
    lemma_flush(s, env.config);
    lemma_lead_in(f, env.config, true);
    let l = f.lead_in(env.config, true);
    let body = crate::trivia::block_comment(text, env.config, env.eol);
    crate::laws::carriage::lemma_block_comment(text, env.config);
    lemma_write(l, body);
    lemma_nl(l.write(body));
}

// ── Braces ───────────────────────────────────────────────────────────────────

proof fn lemma_write_items(p: PageView, items: Seq<Token>, prev: TokenKind, unary: bool)
    requires
        clean(p.out),
        items_plain(items),
    ensures
        clean(p.write_items(items, prev, unary).out),
        lf_page(p.write_items(items, prev, unary)) == lf_page(p).write_items(items, prev, unary),
    decreases items.len(),
{
    if items.len() > 0 {
        let t = items[0];
        let one = seq![' '];
        crate::laws::carriage::lemma_strip_plain(one);
        lemma_write_page(p, one);
        let spaced = if crate::braces::item_space(prev, t.kind, unary) {
            p.write(one)
        } else {
            p
        };
        assert(crate::laws::lines::lacks(items[0].lexeme@, '\r'));
        crate::laws::carriage::lemma_strip_plain(t.lexeme@);
        lemma_write_page(spaced, t.lexeme@);
        let rest = items.drop_first();
        assert forall|i: int| 0 <= i < rest.len() implies crate::laws::lines::lacks(
            (#[trigger] rest[i]).lexeme@,
            '\r',
        ) by {
            assert(rest[i] == items[i + 1]);
        }
        lemma_write_items(
            spaced.write(t.lexeme@),
            rest,
            t.kind,
            crate::braces::item_is_unary(prev, t.kind),
        );
    }
}

proof fn lemma_write_small_init(p: PageView, items: Seq<Token>)
    requires
        clean(p.out),
        items_plain(items),
    ensures
        clean(p.write_small_init(items).out),
        lf_page(p.write_small_init(items)) == lf_page(p).write_small_init(items),
{
    let one = seq![' '];
    let close = seq!['}'];
    let end = seq![' ', '}'];
    crate::laws::carriage::lemma_strip_plain(one);
    crate::laws::carriage::lemma_strip_plain(close);
    crate::laws::carriage::lemma_strip_plain(end);
    lemma_write_page(p, close);
    lemma_write_page(p, one);
    lemma_write_items(p.write(one), items, TokenKind::LBrace, false);
    lemma_write_page(p.write(one).write_items(items, TokenKind::LBrace, false), end);
}

proof fn lemma_content(toks: Seq<Token>, i: int, end: int)
    requires
        no_returns(toks),
        0 <= i,
        end <= toks.len(),
    ensures
        items_plain(crate::scan::content(toks, i, end)),
    decreases end - i,
{
    if i < end {
        lemma_content(toks, i + 1, end);
        let rest = crate::scan::content(toks, i + 1, end);
        let all = crate::scan::content(toks, i, end);
        assert forall|k: int| 0 <= k < all.len() implies crate::laws::lines::lacks(
            (#[trigger] all[k]).lexeme@,
            '\r',
        ) by {
            if KindSet::Layout.has(toks[i].kind) {
                assert(all[k] == rest[k]);
            } else if k > 0 {
                assert(all[k] == rest[k - 1]);
            } else {
                assert(all[k] == toks[i]);
            }
        }
    }
}

proof fn lemma_place_brace(s: State, env: Input, ctx: BraceCtx, p: int)
    requires
        tidy(s),
        env.eol == Eol::CrLf,
    ensures
        alike(s.place_brace(env, ctx, p), lf(s).place_brace(lf_env(env), ctx, p)),
{
    reveal(State::place_brace);
    let open = seq!['{'];
    lemma_needs_space(s, env.config, TokenKind::LBrace);
    lemma_space(s);
    lemma_join_line(s);
    lemma_space(s.join_line());
    lemma_own_line(s, env.config);
    lemma_write_plain(s, open);
    lemma_write_plain(s.space(), open);
    lemma_write_plain(s.cling(), open);
    lemma_write_plain(s.own_line(env.config, env.eol), open);
}

proof fn lemma_close_empty(s: State, env: Input, ctx: BraceCtx, p: int, line: u32)
    requires
        tidy(s),
        env.eol == Eol::CrLf,
    ensures
        alike(s.close_empty(env, ctx, p, line), lf(s).close_empty(lf_env(env), ctx, p, line)),
{
    reveal(State::close_empty);
    let next = crate::scan::kind_at(env.toks, crate::scan::skip(env.toks, p, KindSet::Layout));
    lemma_write_plain(s, seq!['}']);
    lemma_post_brace(s.write(seq!['}']), env, ctx, next, p, line);
}

proof fn lemma_open_body(s: State, env: Input, ctx: BraceCtx, p: int)
    requires
        tidy(s),
        env.eol == Eol::CrLf,
    ensures
        alike(s.open_body(env, ctx, p), lf(s).open_body(lf_env(env), ctx, p)),
{
    reveal(State::open_body);
    let t = s.enter(env.config, ctx).begin_decls(env.config, ctx).push_brace(env, ctx, p).settle();
    assert(alike(
        t,
        lf(s).enter(lf_config(env.config), ctx).begin_decls(lf_config(env.config), ctx).push_brace(
            lf_env(env),
            ctx,
            p,
        ).settle(),
    ));
    lemma_nl(t);
}

proof fn lemma_on_lbrace(s: State, env: Input, p: int, line: u32)
    requires
        tidy(s),
        env.eol == Eol::CrLf,
        no_returns(env.toks),
        1 <= p <= env.toks.len(),
    ensures
        ({
            let (a, i) = s.on_lbrace(env, p, line);
            let (b, j) = lf(s).on_lbrace(lf_env(env), p, line);
            alike(a, b) && i == j
        }),
{
    let ctx = s.brace_ctx(env, p);
    assert(lf(s).brace_ctx(lf_env(env), p) == ctx) by {
        reveal(State::brace_ctx);
    }
    let f = s.flush(env.config, env.eol);
    lemma_flush(s, env.config);
    lemma_place_brace(f, env, ctx, p);
    let opened = f.place_brace(env, ctx, p);
    let small = crate::scan::small_init_end(env.toks, p);
    let end = crate::scan::skip(env.toks, p, KindSet::Layout);
    if ctx == BraceCtx::Other && small is Some {
        crate::scan::lemma_skip(env.toks, p, KindSet::FlatInit);
        let items = crate::scan::content(env.toks, p, small->0);
        lemma_content(env.toks, p, small->0);
        lemma_write_small_init(opened.page, items);
    } else if env.config.braces.collapse_empty_body && crate::scan::is_at(
        env.toks,
        end,
        TokenKind::RBrace,
    ) {
        lemma_close_empty(opened, env, ctx, end + 1, line);
    } else {
        lemma_open_body(opened, env, ctx, p);
    }
}

// ── Punctuation ──────────────────────────────────────────────────────────────

proof fn lemma_on_lparen(s: State, env: Input, p: int)
    requires
        tidy(s),
        env.eol == Eol::CrLf,
    ensures
        alike(s.on_lparen(env, p), lf(s).on_lparen(lf_env(env), p)),
{
    lemma_flush(s, env.config);
    let f = s.flush(env.config, env.eol);
    lemma_needs_space(f, env.config, TokenKind::LParen);
    let spaced = f.spaces_paren(env, p);
    assert(lf(f).spaces_paren(lf_env(env), p) == spaced);
    lemma_lead_in(f, env.config, spaced);
    let l = f.lead_in(env.config, spaced);
    lemma_write_plain(l, seq!['(']);
    let w = l.write(seq!['(']);
    lemma_tail_is(w.page, ' ');
}

// ── Words and operators ──────────────────────────────────────────────────────

proof fn lemma_write_spaced(s: State, env: Input, k: TokenKind, text: Seq<char>)
    requires
        tidy(s),
        env.eol == Eol::CrLf,
        crate::laws::lines::lacks(text, '\r'),
    ensures
        alike(s.write_spaced(env, k, text), lf(s).write_spaced(lf_env(env), k, text)),
{
    reveal(State::write_spaced);
    lemma_flush(s, env.config);
    let f = s.flush(env.config, env.eol);
    lemma_needs_space(f, env.config, k);
    lemma_lead_in(f, env.config, f.needs_space(env.config, k));
    lemma_write_plain(f.lead_in(env.config, f.needs_space(env.config, k)), text);
}

proof fn lemma_start_line_at(s: State, config: Config, n: nat)
    requires
        tidy(s),
    ensures
        alike(s.start_line_at(config, n), lf(s).start_line_at(lf_config(config), n)),
{
    reveal(State::start_line_at);
    lemma_start_line(State { depth: DepthView { indent: n, ..s.depth }, ..s }, config);
}

proof fn lemma_start_case_line(s: State, config: Config)
    requires
        tidy(s),
    ensures
        alike(s.start_case_line(config), lf(s).start_case_line(lf_config(config))),
{
    reveal(State::start_case_line);
    let n = crate::layout::minus(s.depth.indent, 1);
    lemma_start_line(s, config);
    lemma_start_line_at(s, config, n);
    lemma_start_line(
        State {
            depth: DepthView { indent: n, ..s.depth },
            cases: s.cases.update(s.cases.len() - 1, false),
            ..s
        },
        config,
    );
}

proof fn lemma_on_goto_label(s: State, env: Input, k: TokenKind, text: Seq<char>)
    requires
        tidy(s),
        env.eol == Eol::CrLf,
        crate::laws::lines::lacks(text, '\r'),
    ensures
        alike(s.on_goto_label(env, k, text), lf(s).on_goto_label(lf_env(env), k, text)),
{
    lemma_flush(s, env.config);
    lemma_write_plain(s.flush(env.config, env.eol), text);
}

proof fn lemma_on_templates(s: State, env: Input, text: Seq<char>, n: nat)
    requires
        tidy(s),
        env.eol == Eol::CrLf,
        crate::laws::lines::lacks(text, '\r'),
    ensures
        alike(s.on_template_open(env), lf(s).on_template_open(lf_env(env))),
        alike(s.on_template_close(env, text, n), lf(s).on_template_close(lf_env(env), text, n)),
{
    lemma_flush(s, env.config);
    let f = s.flush(env.config, env.eol);
    lemma_lead_in(f, env.config, false);
    let l = f.lead_in(env.config, false);
    lemma_write_plain(l, seq!['<']);
    lemma_space(l.write(seq!['<']).with_templates(s.depth.templates + 1));
    let wanted = env.config.spacing.space_inside_angle_brackets;
    lemma_lead_in(f, env.config, wanted);
    lemma_write_plain(f.lead_in(env.config, wanted), text);
}

proof fn lemma_on_declarator(s: State, env: Input, k: TokenKind, text: Seq<char>)
    requires
        tidy(s),
        env.eol == Eol::CrLf,
        crate::laws::lines::lacks(text, '\r'),
    ensures
        alike(s.on_declarator(env, k, text), lf(s).on_declarator(lf_env(env), k, text)),
{
    lemma_flush(s, env.config);
    let f = s.flush(env.config, env.eol);
    let align = env.config.spacing.pointer_align;
    lemma_needs_space(f, env.config, k);
    let spaced = match align {
        PointerAlign::Middle => f.needs_space(env.config, k),
        PointerAlign::Type => false,
        PointerAlign::Name => f.marks.prev != Some(TokenKind::Star) && f.marks.prev != Some(
            TokenKind::Amp,
        ),
    };
    lemma_lead_in(f, env.config, spaced);
    lemma_write_plain(f.lead_in(env.config, spaced), text);
}

proof fn lemma_on_sign(s: State, env: Input, k: TokenKind, text: Seq<char>)
    requires
        tidy(s),
        env.eol == Eol::CrLf,
        crate::laws::lines::lacks(text, '\r'),
    ensures
        alike(s.on_sign(env, k, text), lf(s).on_sign(lf_env(env), k, text)),
{
    lemma_flush(s, env.config);
    let f = s.flush(env.config, env.eol);
    lemma_needs_space(f, env.config, k);
    let spaced = f.needs_space(env.config, k);
    lemma_lead_in(f, env.config, spaced);
    lemma_write_plain(f.lead_in(env.config, spaced), text);
}

// ── Pairs of states ──────────────────────────────────────────────────────────

/// As `alike`, for states that are taken further side by side.
#[verifier::opaque]
spec fn twins(a: State, b: State) -> bool {
    alike(a, b)
}

proof fn lemma_twins(s: State)
    requires
        tidy(s),
    ensures
        twins(s, lf(s)),
{
    reveal(twins);
}

/// What twins have in common.
proof fn lemma_common(a: State, b: State)
    requires
        twins(a, b),
    ensures
        b.marks == a.marks,
        b.depth == a.depth,
        b.decls == a.decls,
        b.braces == a.braces,
        b.parens == a.parens,
        b.cases == a.cases,
        b.assign == a.assign,
        b.src_space == a.src_space,
        b.page.at_line_start == a.page.at_line_start,
        b.page.col() == a.page.col(),
{
    reveal(twins);
    lemma_tail_is(a.page, ' ');
}

proof fn lemma_twins_flush(a: State, b: State, config: Config)
    requires
        twins(a, b),
    ensures
        twins(a.flush(config, Eol::CrLf), b.flush(lf_config(config), Eol::Lf)),
{
    reveal(twins);
    lemma_flush(a, config);
}

proof fn lemma_twins_lead_in(a: State, b: State, config: Config, wanted: bool)
    requires
        twins(a, b),
    ensures
        twins(a.lead_in(config, wanted), b.lead_in(lf_config(config), wanted)),
{
    reveal(twins);
    lemma_lead_in(a, config, wanted);
}

proof fn lemma_twins_write(a: State, b: State, t: Seq<char>)
    requires
        twins(a, b),
        crate::laws::lines::lacks(t, '\r'),
    ensures
        twins(a.write(t), b.write(t)),
{
    reveal(twins);
    lemma_write_plain(a, t);
}

proof fn lemma_twins_space(a: State, b: State)
    requires
        twins(a, b),
    ensures
        twins(a.space(), b.space()),
{
    reveal(twins);
    lemma_space(a);
}

proof fn lemma_twins_break(a: State, b: State)
    requires
        twins(a, b),
    ensures
        twins(a.break_line(Eol::CrLf), b.break_line(Eol::Lf)),
{
    reveal(twins);
    lemma_nl(a);
}

proof fn lemma_twins_set_prev(a: State, b: State, k: TokenKind)
    requires
        twins(a, b),
    ensures
        twins(a.set_prev(k), b.set_prev(k)),
{
    reveal(twins);
}

proof fn lemma_twins_marks(a: State, b: State, marks: Marks)
    requires
        twins(a, b),
    ensures
        twins(State { marks, ..a }, State { marks, ..b }),
{
    reveal(twins);
}

proof fn lemma_twins_depth(a: State, b: State, depth: DepthView)
    requires
        twins(a, b),
    ensures
        twins(State { depth, ..a }, State { depth, ..b }),
{
    reveal(twins);
}

proof fn lemma_twins_assign(a: State, b: State, assign: Option<AssignView>)
    requires
        twins(a, b),
    ensures
        twins(State { assign, ..a }, State { assign, ..b }),
{
    reveal(twins);
}

proof fn lemma_twins_cases(a: State, b: State, depth: DepthView, cases: Seq<bool>)
    requires
        twins(a, b),
    ensures
        twins(State { depth, cases, ..a }, State { depth, cases, ..b }),
{
    reveal(twins);
}

proof fn lemma_twins_pop_paren(a: State, b: State)
    requires
        twins(a, b),
    ensures
        twins(a.pop_paren(), b.pop_paren()),
{
    reveal(twins);
}

proof fn lemma_twins_align(a: State, b: State)
    requires
        twins(a, b),
    ensures
        twins(a.align_to_paren(), b.align_to_paren()),
{
    reveal(twins);
    lemma_align_to_paren(a);
}

proof fn lemma_twins_case(a: State, b: State, config: Config)
    requires
        twins(a, b),
    ensures
        twins(a.start_case_line(config), b.start_case_line(lf_config(config))),
        twins(
            a.start_line_at(config, crate::layout::minus(a.depth.indent, 1)),
            b.start_line_at(lf_config(config), crate::layout::minus(a.depth.indent, 1)),
        ),
{
    reveal(twins);
    lemma_start_case_line(a, config);
    lemma_start_line_at(a, config, crate::layout::minus(a.depth.indent, 1));
}

proof fn lemma_twins_spacing(a: State, b: State, config: Config, k: TokenKind)
    requires
        twins(a, b),
    ensures
        b.needs_space(lf_config(config), k) == a.needs_space(config, k),
{
    reveal(twins);
    lemma_needs_space(a, config, k);
}

proof fn lemma_on_comma(a: State, b: State, env: Input, p: int, line: u32)
    requires
        twins(a, b),
        env.eol == Eol::CrLf,
    ensures
        twins(a.on_comma(env, p, line), b.on_comma(lf_env(env), p, line)),
{
    let comma = seq![','];
    let a1 = a.flush(env.config, Eol::CrLf);
    let b1 = b.flush(lf_config(env.config), Eol::Lf);
    lemma_twins_flush(a, b, env.config);
    let a2 = a1.lead_in(env.config, false);
    let b2 = b1.lead_in(lf_config(env.config), false);
    lemma_twins_lead_in(a1, b1, env.config, false);
    let a3 = a2.write(comma);
    let b3 = b2.write(comma);
    lemma_twins_write(a2, b2, comma);
    lemma_common(a3, b3);
    lemma_twins_assign(a3, b3, None);
    let plain = a3.parens.len() == 0 && a3.depth.brackets == 0;
    let a4 = if plain {
        State { assign: None, ..a3 }
    } else {
        a3
    };
    let b4 = if plain {
        State { assign: None, ..b3 }
    } else {
        b3
    };
    lemma_twins_break(a4, b4);
    lemma_twins_set_prev(a4, b4, TokenKind::Comma);
    lemma_twins_set_prev(a4.break_line(Eol::CrLf), b4.break_line(Eol::Lf), TokenKind::Comma);
}

proof fn lemma_on_rparen(a: State, b: State, env: Input)
    requires
        twins(a, b),
        env.eol == Eol::CrLf,
    ensures
        twins(a.on_rparen(env), b.on_rparen(lf_env(env))),
{
    let close = seq![')'];
    let f = a.flush(env.config, Eol::CrLf);
    let g = b.flush(lf_config(env.config), Eol::Lf);
    lemma_twins_flush(a, b, env.config);
    lemma_common(f, g);
    lemma_twins_align(f, g);
    lemma_twins_space(f, g);
    let wanted = env.config.spacing.space_inside_parens.wants_space(f.src_space);
    let x = if f.page.at_line_start {
        f.align_to_paren()
    } else if wanted {
        f.space()
    } else {
        f
    };
    let y = if f.page.at_line_start {
        g.align_to_paren()
    } else if wanted {
        g.space()
    } else {
        g
    };
    lemma_twins_write(x, y, close);
    lemma_twins_pop_paren(x.write(close), y.write(close));
}

proof fn lemma_on_lbracket(a: State, b: State, env: Input)
    requires
        twins(a, b),
        env.eol == Eol::CrLf,
    ensures
        twins(a.on_lbracket(env), b.on_lbracket(lf_env(env))),
{
    let open = seq!['['];
    lemma_common(a, b);
    let f = a.flush(env.config, Eol::CrLf);
    let g = b.flush(lf_config(env.config), Eol::Lf);
    lemma_twins_flush(a, b, env.config);
    let x = f.write(open);
    let y = g.write(open);
    lemma_twins_write(f, g, open);
    lemma_common(x, y);
    let depth = DepthView { brackets: a.depth.brackets + 1, ..x.depth };
    lemma_twins_depth(x, y, depth);
    lemma_twins_set_prev(State { depth, ..x }, State { depth, ..y }, TokenKind::LBracket);
}

proof fn lemma_on_rbracket(a: State, b: State, env: Input)
    requires
        twins(a, b),
        env.eol == Eol::CrLf,
    ensures
        twins(a.on_rbracket(env), b.on_rbracket(lf_env(env))),
{
    let close = seq![']'];
    lemma_common(a, b);
    let f = a.flush(env.config, Eol::CrLf);
    let g = b.flush(lf_config(env.config), Eol::Lf);
    lemma_twins_flush(a, b, env.config);
    lemma_common(f, g);
    lemma_twins_space(f, g);
    let spaced = !f.page.at_line_start && env.config.spacing.space_inside_brackets.wants_space(
        f.src_space,
    );
    let l = if spaced {
        f.space()
    } else {
        f
    };
    let m = if spaced {
        g.space()
    } else {
        g
    };
    let x = l.write(close);
    let y = m.write(close);
    lemma_twins_write(l, m, close);
    lemma_common(x, y);
    let depth = DepthView { brackets: crate::layout::minus(a.depth.brackets, 1), ..x.depth };
    lemma_twins_depth(x, y, depth);
    lemma_twins_set_prev(State { depth, ..x }, State { depth, ..y }, TokenKind::RBracket);
}

proof fn lemma_before_colon(a: State, b: State, env: Input, p: int)
    requires
        twins(a, b),
    ensures
        twins(a.before_colon(env, p), b.before_colon(lf_env(env), p)),
{
    lemma_common(a, b);
    lemma_twins_space(a, b);
    let ternary = !a.in_label() && a.depth.ternaries > 0;
    let spaced = ternary || (!a.in_label() && a.in_bitfield(env, p));
    assert(b.in_bitfield(lf_env(env), p) == a.in_bitfield(env, p));
    let x = if spaced && !a.page.at_line_start {
        a.space()
    } else {
        a
    };
    let y = if spaced && !a.page.at_line_start {
        b.space()
    } else {
        b
    };
    lemma_common(x, y);
    let depth = DepthView { ternaries: (x.depth.ternaries - 1) as nat, ..x.depth };
    lemma_twins_depth(x, y, depth);
}

proof fn lemma_enter_case(a: State, b: State, config: Config)
    requires
        twins(a, b),
    ensures
        twins(a.enter_case(config), b.enter_case(lf_config(config))),
{
    lemma_common(a, b);
    let depth = DepthView { indent: a.depth.indent + 1, ..a.depth };
    let cases = if a.cases.len() > 0 {
        a.cases.update(a.cases.len() - 1, true)
    } else {
        a.cases
    };
    lemma_twins_cases(a, b, depth, cases);
}

proof fn lemma_after_colon(a: State, b: State, env: Input)
    requires
        twins(a, b),
        env.eol == Eol::CrLf,
    ensures
        twins(a.after_colon(env), b.after_colon(lf_env(env))),
{
    lemma_common(a, b);
    let m = a.marks;
    let marks = if m.in_case_label {
        Marks { in_case_label: false, ..m }
    } else if m.in_access_label {
        Marks { in_access_label: false, ..m }
    } else {
        Marks { in_goto_label: false, ..m }
    };
    lemma_twins_marks(a, b, marks);
    let x = State { marks, ..a };
    let y = State { marks, ..b };
    lemma_twins_break(x, y);
    lemma_enter_case(x.break_line(Eol::CrLf), y.break_line(Eol::Lf), env.config);
}

proof fn lemma_on_colon(a: State, b: State, env: Input, p: int)
    requires
        twins(a, b),
        env.eol == Eol::CrLf,
    ensures
        twins(a.on_colon(env, p), b.on_colon(lf_env(env), p)),
{
    let colon = seq![':'];
    let f = a.flush(env.config, Eol::CrLf);
    let g = b.flush(lf_config(env.config), Eol::Lf);
    lemma_twins_flush(a, b, env.config);
    lemma_before_colon(f, g, env, p);
    let x = f.before_colon(env, p).write(colon);
    let y = g.before_colon(lf_env(env), p).write(colon);
    lemma_twins_write(f.before_colon(env, p), g.before_colon(lf_env(env), p), colon);
    lemma_common(x, y);
    lemma_after_colon(x, y, env);
    let t = x.after_colon(env).set_prev(TokenKind::Colon);
    let u = y.after_colon(lf_env(env)).set_prev(TokenKind::Colon);
    lemma_twins_set_prev(x.after_colon(env), y.after_colon(lf_env(env)), TokenKind::Colon);
    lemma_common(t, u);
    let marks = Marks { after_case_colon: x.marks.in_case_label, ..t.marks };
    lemma_twins_marks(t, u, marks);
}

proof fn lemma_twins_spaced(a: State, b: State, env: Input, k: TokenKind, text: Seq<char>)
    requires
        twins(a, b),
        env.eol == Eol::CrLf,
        crate::laws::lines::lacks(text, '\r'),
    ensures
        twins(a.write_spaced(env, k, text), b.write_spaced(lf_env(env), k, text)),
{
    reveal(twins);
    lemma_write_spaced(a, env, k, text);
}

proof fn lemma_on_switch(a: State, b: State, env: Input, k: TokenKind, text: Seq<char>)
    requires
        twins(a, b),
        env.eol == Eol::CrLf,
        crate::laws::lines::lacks(text, '\r'),
    ensures
        twins(a.on_switch(env, k, text), b.on_switch(lf_env(env), k, text)),
{
    let x = a.write_spaced(env, k, text);
    let y = b.write_spaced(lf_env(env), k, text);
    lemma_twins_spaced(a, b, env, k, text);
    lemma_common(x, y);
    let marks = Marks { pending_switch: true, ..x.marks };
    lemma_twins_marks(x, y, marks);
    lemma_twins_set_prev(State { marks, ..x }, State { marks, ..y }, k);
}

proof fn lemma_on_type_kw(a: State, b: State, env: Input, k: TokenKind, text: Seq<char>)
    requires
        twins(a, b),
        env.eol == Eol::CrLf,
        crate::laws::lines::lacks(text, '\r'),
    ensures
        twins(a.on_type_kw(env, k, text), b.on_type_kw(lf_env(env), k, text)),
{
    let x = a.write_spaced(env, k, text);
    let y = b.write_spaced(lf_env(env), k, text);
    lemma_twins_spaced(a, b, env, k, text);
    lemma_common(x, y);
    let marks = Marks { pending_type: true, ..x.marks };
    lemma_twins_marks(x, y, marks);
    lemma_twins_set_prev(State { marks, ..x }, State { marks, ..y }, k);
}

proof fn lemma_on_assign(a: State, b: State, env: Input, k: TokenKind, text: Seq<char>)
    requires
        twins(a, b),
        env.eol == Eol::CrLf,
        crate::laws::lines::lacks(text, '\r'),
    ensures
        twins(a.on_assign(env, k, text), b.on_assign(lf_env(env), k, text)),
{
    let x = a.write_spaced(env, k, text);
    let y = b.write_spaced(lf_env(env), k, text);
    lemma_twins_spaced(a, b, env, k, text);
    lemma_common(x, y);
    let col = x.page.col() + (if env.config.spacing.space_around_binary_ops {
        1nat
    } else {
        0nat
    });
    let assign = Some(AssignView { col, eol: false });
    lemma_twins_assign(x, y, assign);
    lemma_twins_set_prev(x, y, k);
    lemma_twins_set_prev(State { assign, ..x }, State { assign, ..y }, k);
}

/// Where a `case` label starts.
#[verifier::opaque]
spec fn led_case(f: State, config: Config, k: TokenKind) -> State {
    if f.page.at_line_start {
        f.start_case_line(config)
    } else if f.needs_space(config, k) {
        f.space()
    } else {
        f
    }
}

proof fn lemma_led_case(f: State, g: State, config: Config, k: TokenKind)
    requires
        twins(f, g),
    ensures
        twins(led_case(f, config, k), led_case(g, lf_config(config), k)),
{
    reveal(led_case);
    lemma_common(f, g);
    lemma_twins_case(f, g, config);
    lemma_twins_spacing(f, g, config, k);
    lemma_twins_space(f, g);
}

/// The state behind the word of a `case` label.
#[verifier::opaque]
spec fn case_written(l: State, k: TokenKind, text: Seq<char>) -> State {
    let s = l.write(text);
    State { marks: Marks { in_case_label: true, ..s.marks }, ..s }.set_prev(k)
}

proof fn lemma_case_written(l: State, m: State, k: TokenKind, text: Seq<char>)
    requires
        twins(l, m),
        crate::laws::lines::lacks(text, '\r'),
    ensures
        twins(case_written(l, k, text), case_written(m, k, text)),
{
    reveal(case_written);
    let x = l.write(text);
    let y = m.write(text);
    lemma_twins_write(l, m, text);
    lemma_common(x, y);
    let marks = Marks { in_case_label: true, ..x.marks };
    lemma_twins_marks(x, y, marks);
    lemma_twins_set_prev(State { marks, ..x }, State { marks, ..y }, k);
}

proof fn lemma_case_shape(s: State, env: Input, k: TokenKind, text: Seq<char>)
    ensures
        s.on_case(env, k, text) == case_written(
            led_case(s.flush(env.config, env.eol), env.config, k),
            k,
            text,
        ),
{
    reveal(led_case);
    reveal(case_written);
}

proof fn lemma_on_case(a: State, b: State, env: Input, k: TokenKind, text: Seq<char>)
    requires
        twins(a, b),
        env.eol == Eol::CrLf,
        crate::laws::lines::lacks(text, '\r'),
    ensures
        twins(a.on_case(env, k, text), b.on_case(lf_env(env), k, text)),
{
    let f = a.flush(env.config, Eol::CrLf);
    let g = b.flush(lf_config(env.config), Eol::Lf);
    lemma_twins_flush(a, b, env.config);
    lemma_led_case(f, g, env.config, k);
    let l = led_case(f, env.config, k);
    let m = led_case(g, lf_config(env.config), k);
    lemma_case_written(l, m, k, text);
    lemma_case_shape(a, env, k, text);
    lemma_case_shape(b, lf_env(env), k, text);
}

/// Where an access specifier starts.
spec fn led_access(f: State, config: Config, k: TokenKind) -> State {
    if f.page.at_line_start && f.depth.classes > 0 {
        f.start_line_at(config, crate::layout::minus(f.depth.indent, 1))
    } else if !f.page.at_line_start && f.needs_space(config, k) {
        f.space()
    } else {
        f
    }
}

proof fn lemma_led_access(f: State, g: State, config: Config, k: TokenKind)
    requires
        twins(f, g),
    ensures
        twins(led_access(f, config, k), led_access(g, lf_config(config), k)),
{
    lemma_common(f, g);
    lemma_twins_case(f, g, config);
    lemma_twins_spacing(f, g, config, k);
    lemma_twins_space(f, g);
}

proof fn lemma_access_written(l: State, m: State, labels: bool, k: TokenKind, text: Seq<char>)
    requires
        twins(l, m),
        crate::laws::lines::lacks(text, '\r'),
    ensures
        twins(
            l.write(text).mark_access(labels).set_prev(k),
            m.write(text).mark_access(labels).set_prev(k),
        ),
{
    let x = l.write(text);
    let y = m.write(text);
    lemma_twins_write(l, m, text);
    lemma_common(x, y);
    let marks = x.mark_access(labels).marks;
    lemma_twins_marks(x, y, marks);
    lemma_twins_set_prev(State { marks, ..x }, State { marks, ..y }, k);
}

proof fn lemma_on_access(a: State, b: State, env: Input, k: TokenKind, text: Seq<char>)
    requires
        twins(a, b),
        env.eol == Eol::CrLf,
        crate::laws::lines::lacks(text, '\r'),
    ensures
        twins(a.on_access(env, k, text), b.on_access(lf_env(env), k, text)),
{
    let f = a.flush(env.config, Eol::CrLf);
    let g = b.flush(lf_config(env.config), Eol::Lf);
    lemma_twins_flush(a, b, env.config);
    lemma_common(f, g);
    lemma_led_access(f, g, env.config, k);
    let l = led_access(f, env.config, k);
    let m = led_access(g, lf_config(env.config), k);
    let labels = f.page.at_line_start && f.depth.classes > 0;
    lemma_access_written(l, m, labels, k, text);
    assert(a.on_access(env, k, text) == l.write(text).mark_access(labels).set_prev(k));
    assert(b.on_access(lf_env(env), k, text) == m.write(text).mark_access(labels).set_prev(k));
}

proof fn lemma_twins_linkage(a: State, b: State, k: TokenKind, text: Seq<char>)
    requires
        twins(a, b),
    ensures
        twins(a.mark_linkage(k, text), b.mark_linkage(k, text)),
        twins(a.mark_operator(k, text), b.mark_operator(k, text)),
        twins(a.mark_ternary(k), b.mark_ternary(k)),
{
    reveal(twins);
}

proof fn lemma_on_other(a: State, b: State, env: Input, k: TokenKind, text: Seq<char>)
    requires
        twins(a, b),
        env.eol == Eol::CrLf,
        crate::laws::lines::lacks(text, '\r'),
    ensures
        twins(a.on_other(env, k, text), b.on_other(lf_env(env), k, text)),
{
    let x = a.write_spaced(env, k, text);
    let y = b.write_spaced(lf_env(env), k, text);
    lemma_twins_spaced(a, b, env, k, text);
    lemma_other_marks(x, y, k, text);
}

proof fn lemma_other_marks(x: State, y: State, k: TokenKind, text: Seq<char>)
    requires
        twins(x, y),
    ensures
        twins(
            x.mark_linkage(k, text).set_prev(k).mark_operator(k, text).mark_ternary(k),
            y.mark_linkage(k, text).set_prev(k).mark_operator(k, text).mark_ternary(k),
        ),
{
    lemma_twins_linkage(x, y, k, text);
    let x1 = x.mark_linkage(k, text);
    let y1 = y.mark_linkage(k, text);
    lemma_twins_set_prev(x1, y1, k);
    let x2 = x1.set_prev(k);
    let y2 = y1.set_prev(k);
    lemma_twins_linkage(x2, y2, k, text);
    lemma_twins_linkage(x2.mark_operator(k, text), y2.mark_operator(k, text), k, text);
}

proof fn lemma_end_statement(a: State, b: State, env: Input, p: int, line: u32)
    requires
        twins(a, b),
        env.eol == Eol::CrLf,
    ensures
        twins(a.end_statement(env, p, line), b.end_statement(lf_env(env), p, line)),
{
    let x = State { assign: None, ..a };
    let y = State { assign: None, ..b };
    lemma_twins_assign(a, b, None);
    lemma_twins_break(x, y);
    let x1 = x.break_unless_comment(env, p, line);
    let y1 = y.break_unless_comment(lf_env(env), p, line);
    assert(twins(x1, y1));
    lemma_common(x1, y1);
    lemma_twins_decls(x1, y1);
}

proof fn lemma_twins_decls(a: State, b: State)
    requires
        twins(a, b),
    ensures
        ({
            let decls = Decls { at_stmt_start: true, ..a.decls };
            twins(State { decls, ..a }, State { decls, ..b })
        }),
{
    reveal(twins);
}

/// The state behind the `;`.
spec fn semi_written(f: State) -> State {
    State {
        marks: Marks { pending_type: false, pending_linkage: false, ..f.marks },
        ..f
    }.write(seq![';'])
}

proof fn lemma_semi_written(f: State, g: State)
    requires
        twins(f, g),
    ensures
        twins(semi_written(f), semi_written(g)),
{
    lemma_common(f, g);
    let marks = Marks { pending_type: false, pending_linkage: false, ..f.marks };
    lemma_twins_marks(f, g, marks);
    lemma_twins_write(State { marks, ..f }, State { marks, ..g }, seq![';']);
}

proof fn lemma_on_semi(a: State, b: State, env: Input, p: int, line: u32)
    requires
        twins(a, b),
        env.eol == Eol::CrLf,
    ensures
        twins(a.on_semi(env, p, line), b.on_semi(lf_env(env), p, line)),
{
    let f = a.flush(env.config, Eol::CrLf);
    let g = b.flush(lf_config(env.config), Eol::Lf);
    lemma_twins_flush(a, b, env.config);
    lemma_semi_written(f, g);
    let x = semi_written(f);
    let y = semi_written(g);
    lemma_common(x, y);
    lemma_end_statement(x, y, env, p, line);
    lemma_twins_set_prev(x, y, TokenKind::Semi);
    lemma_twins_set_prev(
        x.end_statement(env, p, line),
        y.end_statement(lf_env(env), p, line),
        TokenKind::Semi,
    );
    let k = TokenKind::Semi;
    assert(a.on_semi(env, p, line) == if x.parens.len() == 0 {
        x.end_statement(env, p, line).set_prev(k)
    } else {
        x.set_prev(k)
    });
    assert(b.on_semi(lf_env(env), p, line) == if y.parens.len() == 0 {
        y.end_statement(lf_env(env), p, line).set_prev(k)
    } else {
        y.set_prev(k)
    });
}

proof fn lemma_twins_fresh(a: State, b: State)
    requires
        twins(a, b),
    ensures
        twins(a.fresh_line(Eol::CrLf), b.fresh_line(Eol::Lf)),
{
    reveal(twins);
    lemma_nl(a);
}

proof fn lemma_twins_group(a: State, b: State, c: Conditional)
    requires
        twins(a, b),
    ensures
        twins(a.track_group(c), b.track_group(c)),
{
    reveal(twins);
}

proof fn lemma_twins_preproc(a: State, b: State, config: Config, c: Conditional, line: Seq<char>)
    requires
        twins(a, b),
        crate::laws::carriage::paired(line),
    ensures
        twins(
            a.write_preproc(config, c, line),
            b.write_preproc(lf_config(config), c, crate::laws::carriage::strip(line)),
        ),
{
    reveal(twins);
    lemma_write_preproc(a, config, c, line);
}

proof fn lemma_on_preproc(a: State, b: State, env: Input, text: Seq<char>)
    requires
        twins(a, b),
        env.eol == Eol::CrLf,
        crate::laws::lines::lacks(text, '\r'),
    ensures
        twins(a.on_preproc(env, text), b.on_preproc(lf_env(env), text)),
{
    let lf = lf_config(env.config);
    let c = crate::trivia::conditional(crate::trivia::unify(text, Eol::CrLf));
    let line = crate::trivia::preproc_line(text, env.config, Eol::CrLf);
    let bare = crate::laws::carriage::strip(line);
    crate::laws::carriage::lemma_preproc_line(text, env.config);
    assert(crate::trivia::preproc_line(text, lf, Eol::Lf) == bare);
    let a1 = a.flush(env.config, Eol::CrLf);
    let b1 = b.flush(lf, Eol::Lf);
    lemma_twins_flush(a, b, env.config);
    let a2 = a1.fresh_line(Eol::CrLf);
    let b2 = b1.fresh_line(Eol::Lf);
    lemma_twins_fresh(a1, b1);
    let a3 = a2.track_group(c);
    let b3 = b2.track_group(c);
    lemma_twins_group(a2, b2, c);
    let a4 = a3.write_preproc(env.config, c, line);
    let b4 = b3.write_preproc(lf, c, bare);
    lemma_twins_preproc(a3, b3, env.config, c, line);
    lemma_twins_fresh(a4, b4);
    lemma_twins_set_prev(
        a4.fresh_line(Eol::CrLf),
        b4.fresh_line(Eol::Lf),
        TokenKind::PreprocLine,
    );
}

proof fn lemma_twins_dedent(a: State, b: State, config: Config)
    requires
        twins(a, b),
    ensures
        twins(a.dedent(config), b.dedent(lf_config(config))),
{
    reveal(twins);
}

proof fn lemma_twins_close_body(a: State, b: State)
    requires
        twins(a, b),
    ensures
        twins(a.close_body(), b.close_body()),
{
    reveal(twins);
}

proof fn lemma_twins_own_line(a: State, b: State, config: Config)
    requires
        twins(a, b),
    ensures
        twins(a.own_line(config, Eol::CrLf), b.own_line(lf_config(config), Eol::Lf)),
{
    reveal(twins);
    lemma_own_line(a, config);
}

proof fn lemma_twins_post_brace(
    a: State,
    b: State,
    env: Input,
    ctx: BraceCtx,
    next: Option<TokenKind>,
    p: int,
    line: u32,
)
    requires
        twins(a, b),
        env.eol == Eol::CrLf,
    ensures
        twins(
            a.post_brace(env, ctx, next, p, line),
            b.post_brace(lf_env(env), ctx, next, p, line),
        ),
{
    reveal(twins);
    lemma_post_brace(a, env, ctx, next, p, line);
}

proof fn lemma_on_rbrace(a: State, b: State, env: Input, p: int, line: u32)
    requires
        twins(a, b),
        env.eol == Eol::CrLf,
    ensures
        twins(a.on_rbrace(env, p, line), b.on_rbrace(lf_env(env), p, line)),
{
    let next = crate::scan::kind_at(env.toks, crate::scan::skip(env.toks, p, KindSet::Layout));
    let lf = lf_config(env.config);
    let close = seq!['}'];
    let ctx = a.inner_ctx();
    lemma_common(a, b);
    let a1 = a.dedent(env.config);
    let b1 = b.dedent(lf);
    lemma_twins_dedent(a, b, env.config);
    let a2 = a1.flush(env.config, Eol::CrLf);
    let b2 = b1.flush(lf, Eol::Lf);
    lemma_twins_flush(a1, b1, env.config);
    let a3 = a2.own_line(env.config, Eol::CrLf);
    let b3 = b2.own_line(lf, Eol::Lf);
    lemma_twins_own_line(a2, b2, env.config);
    let a4 = a3.write(close);
    let b4 = b3.write(close);
    lemma_twins_write(a3, b3, close);
    let a5 = a4.close_body();
    let b5 = b4.close_body();
    lemma_twins_close_body(a4, b4);
    lemma_twins_post_brace(a5, b5, env, ctx, next, p, line);
    lemma_twins_set_prev(
        a5.post_brace(env, ctx, next, p, line),
        b5.post_brace(lf_env(env), ctx, next, p, line),
        TokenKind::RBrace,
    );
}

/// The arms that take twins further, from a state and its LF counterpart.
proof fn lemma_arms(s: State, env: Input, k: TokenKind, text: Seq<char>, p: int, line: u32)
    requires
        tidy(s),
        env.eol == Eol::CrLf,
        crate::laws::lines::lacks(text, '\r'),
    ensures
        alike(s.on_preproc(env, text), lf(s).on_preproc(lf_env(env), text)),
        alike(s.on_rbrace(env, p, line), lf(s).on_rbrace(lf_env(env), p, line)),
        alike(s.on_semi(env, p, line), lf(s).on_semi(lf_env(env), p, line)),
        alike(s.on_comma(env, p, line), lf(s).on_comma(lf_env(env), p, line)),
        alike(s.on_rparen(env), lf(s).on_rparen(lf_env(env))),
        alike(s.on_lbracket(env), lf(s).on_lbracket(lf_env(env))),
        alike(s.on_rbracket(env), lf(s).on_rbracket(lf_env(env))),
        alike(s.on_colon(env, p), lf(s).on_colon(lf_env(env), p)),
        alike(s.on_switch(env, k, text), lf(s).on_switch(lf_env(env), k, text)),
        alike(s.on_type_kw(env, k, text), lf(s).on_type_kw(lf_env(env), k, text)),
        alike(s.on_assign(env, k, text), lf(s).on_assign(lf_env(env), k, text)),
        alike(s.on_other(env, k, text), lf(s).on_other(lf_env(env), k, text)),
        alike(s.on_case(env, k, text), lf(s).on_case(lf_env(env), k, text)),
        alike(s.on_access(env, k, text), lf(s).on_access(lf_env(env), k, text)),
{
    let b = lf(s);
    lemma_twins(s);
    lemma_on_preproc(s, b, env, text);
    lemma_on_rbrace(s, b, env, p, line);
    lemma_on_semi(s, b, env, p, line);
    lemma_on_comma(s, b, env, p, line);
    lemma_on_rparen(s, b, env);
    lemma_on_lbracket(s, b, env);
    lemma_on_rbracket(s, b, env);
    lemma_on_colon(s, b, env, p);
    lemma_on_switch(s, b, env, k, text);
    lemma_on_type_kw(s, b, env, k, text);
    lemma_on_assign(s, b, env, k, text);
    lemma_on_other(s, b, env, k, text);
    lemma_on_case(s, b, env, k, text);
    lemma_on_access(s, b, env, k, text);
    reveal(twins);
}

// ── Steps ────────────────────────────────────────────────────────────────────

proof fn lemma_step_operand(s: State, env: Input, t: Token, p: int)
    requires
        tidy(s),
        env.eol == Eol::CrLf,
        crate::laws::lines::lacks(t.lexeme@, '\r'),
    ensures
        alike(s.step_operand(env, t, p), lf(s).step_operand(lf_env(env), t, p)),
{
    reveal(State::step_operand);
    let k = t.kind;
    let text = t.lexeme@;
    lemma_on_templates(s, env, seq!['>'], 1);
    lemma_on_templates(s, env, seq!['>', '>'], 2);
    lemma_on_declarator(s, env, k, text);
    lemma_on_sign(s, env, k, text);
    lemma_arms(s, env, k, text, p, 0);
    lemma_on_goto_label(s, env, k, text);
}

proof fn lemma_step(s: State, env: Input, t: Token, p: int)
    requires
        tidy(s),
        env.eol == Eol::CrLf,
        no_returns(env.toks),
        1 <= p <= env.toks.len(),
        crate::laws::lines::lacks(t.lexeme@, '\r'),
    ensures
        ({
            let (a, i) = s.step(env, t, p);
            let (b, j) = lf(s).step(lf_env(env), t, p);
            alike(a, b) && i == j
        }),
{
    reveal(State::step);
    let k = t.kind;
    let text = t.lexeme@;
    match k {
        TokenKind::CommentLine => lemma_on_line_comment(s, env, text),
        TokenKind::CommentBlock => lemma_on_block_comment(s, env, text, p),
        TokenKind::LBrace => lemma_on_lbrace(s, env, p, t.span.line),
        TokenKind::LParen => lemma_on_lparen(s, env, p),
        TokenKind::PreprocLine
        | TokenKind::RBrace
        | TokenKind::Semi
        | TokenKind::Comma
        | TokenKind::RParen
        | TokenKind::LBracket
        | TokenKind::RBracket
        | TokenKind::Colon
        | TokenKind::KwCase
        | TokenKind::KwDefault
        | TokenKind::KwPublic
        | TokenKind::KwPrivate
        | TokenKind::KwProtected
        | TokenKind::KwSwitch
        | TokenKind::KwClass
        | TokenKind::KwStruct
        | TokenKind::KwUnion
        | TokenKind::KwEnum => lemma_arms(s, env, k, text, p, t.span.line),
        _ => lemma_step_operand(s, env, t, p),
    }
}

proof fn lemma_run(s: State, env: Input, i: int)
    requires
        tidy(s),
        env.eol == Eol::CrLf,
        no_returns(env.toks),
        0 <= i <= env.toks.len(),
    ensures
        alike(s.run(env, i), lf(s).run(lf_env(env), i)),
    decreases env.toks.len() - i,
{
    let at = crate::scan::skip(env.toks, i, KindSet::Layout);
    crate::scan::lemma_skip(env.toks, i, KindSet::Layout);
    let a = s.pass_layout(env.toks, i, at);
    assert(alike(a, lf(s).pass_layout(env.toks, i, at)));
    if at < env.toks.len() {
        let t = env.toks[at];
        lemma_track_decls(a, env, t.kind, at + 1);
        let d = a.track_decls(env, t.kind, at + 1);
        if t.kind == TokenKind::Eof {
            lemma_nl(d);
        } else {
            crate::keep::lemma_behind_layout(env.toks, i);
            assert(crate::laws::lines::lacks(env.toks[at].lexeme@, '\r'));
            lemma_step(d, env, t, at + 1);
            let (next, p) = d.step(env, t, at + 1);
            if i < p <= env.toks.len() {
                lemma_run(next, env, p);
            }
        }
    }
}

// ── The whole ────────────────────────────────────────────────────────────────

pub proof fn lemma_layout(toks: Seq<Token>, config: Config)
    requires
        no_returns(toks),
    ensures
        ({
            let a = crate::machine::layout_text(toks, config, Eol::CrLf);
            let b = crate::machine::layout_text(toks, lf_config(config), Eol::Lf);
            a == crate::laws::carriage::with_returns(b) && crate::laws::lines::lacks(b, '\r')
        }),
{
    reveal(bare);
    reveal(clean);
    let env = Input { toks, config, eol: Eol::CrLf };
    let s = crate::layout::initial_state();
    assert(lf(s) == s) by {
        assert(crate::laws::carriage::strip(s.page.out) =~= s.page.out);
    }
    lemma_run(s, env, 0);
    let out = s.run(env, 0).page.out;
    crate::laws::carriage::lemma_unify_paired(out);
    crate::laws::carriage::lemma_strip_lacks(out);
    assert(lf_env(env) == (Input { toks, config: lf_config(config), eol: Eol::Lf }));
}

pub proof fn lemma_align(rule: Rule, text: Seq<char>)
    requires
        crate::laws::lines::lacks(text, '\r'),
    ensures
        ({
            let a = rule.align(crate::laws::carriage::with_returns(text), Eol::CrLf);
            let b = rule.align(text, Eol::Lf);
            a == crate::laws::carriage::with_returns(b) && crate::laws::lines::lacks(b, '\r')
        }),
{
    let lines = crate::text::split(text, Eol::Lf.text());
    let new = rule.align_from(lines, 0);
    crate::laws::carriage::lemma_split_within(text);
    crate::laws::carriage::lemma_join_returns(lines);
    crate::laws::carriage::lemma_split_joined(lines, Eol::CrLf);
    crate::laws::alignment::law_alignment_keeps_lines(rule, lines);
    assert forall|k: int| 0 <= k < new.len() implies crate::laws::lines::one_line(
        #[trigger] new[k],
    ) by {
        assert(crate::laws::lines::one_line(lines[k]));
        assert(crate::laws::alignment::moved(rule.marker, lines[k], rule.align_from(lines, 0)[k]));
        if new[k] != lines[k] {
            let (e, target) = choose|e: int, target: nat|
                new[k] == #[trigger] rule.marker.place(lines[k], e, target);
            crate::laws::lines::lemma_place_one_line(rule.marker, lines[k], e, target);
        }
    }
    crate::laws::carriage::lemma_join_returns(new);
}

/// Injection brings no carriage return with it.
pub proof fn lemma_prepared(toks: Seq<Token>, config: Config)
    requires
        no_returns(toks),
    ensures
        no_returns(crate::formatter::prepared(toks, config)),
{
    let new = crate::formatter::prepared(toks, config);
    if crate::formatter::injects(config) {
        crate::laws::injection::lemma_drawn(toks, config);
        reveal_strlit("{");
        reveal_strlit("}");
        assert forall|i: int|
            0 <= i < new.len() && !KindSet::Layout.has(
                (#[trigger] new[i]).kind,
            ) implies crate::laws::lines::lacks(new[i].lexeme@, '\r') by {
            if toks.contains(new[i]) {
                let j = choose|j: int| 0 <= j < toks.len() && toks[j] == new[i];
                assert(crate::laws::lines::lacks(toks[j].lexeme@, '\r'));
            }
        }
    }
}

/// What becomes of a laid out text.
pub open spec fn aligned(text: Seq<char>, config: Config, eol: Eol) -> Seq<char> {
    let comments = crate::formatter::with_comments_aligned(text, config, eol);
    let equals = crate::formatter::with_equals_aligned(comments, config, eol);
    crate::formatter::with_doxygen_aligned(equals, config, eol)
}

/// The layout holds no carriage return in the LF style.
pub proof fn lemma_layout_lacks(toks: Seq<Token>, config: Config)
    requires
        no_returns(toks),
        config.newlines.style != NewlineStyle::Crlf,
    ensures
        crate::laws::lines::lacks(crate::machine::layout_text(toks, config, Eol::Lf), '\r'),
{
    lemma_layout(toks, config);
}

/// Tokens that are laid out in both styles give texts that differ in their line
/// ends.
pub proof fn lemma_prepared_styles(prepared: Seq<Token>, config: Config)
    requires
        no_returns(prepared),
    ensures
        ({
            let lf = lf_config(config);
            let a = aligned(
                crate::machine::layout_text(prepared, config, Eol::CrLf),
                config,
                Eol::CrLf,
            );
            let b = aligned(crate::machine::layout_text(prepared, lf, Eol::Lf), lf, Eol::Lf);
            a == crate::laws::carriage::with_returns(b) && crate::laws::lines::lacks(b, '\r')
        }),
{
    let lf = lf_config(config);
    lemma_layout(prepared, config);
    let a = crate::machine::layout_text(prepared, lf, Eol::Lf);
    let b = crate::formatter::with_comments_aligned(a, lf, Eol::Lf);
    let c = crate::formatter::with_equals_aligned(b, lf, Eol::Lf);
    let s = lf.spacing;
    lemma_align(
        crate::align::comment_rule(
            if s.align_right_cmt_gap < 1 {
                1
            } else {
                s.align_right_cmt_gap
            },
            s.align_right_cmt_style == crate::config::AlignCmtStyle::All,
            s.align_on_tabstop,
            lf.indent.width as usize,
            s.align_right_cmt_span,
        ),
        a,
    );
    lemma_align(crate::align::equals_rule(s.align_on_tabstop, lf.indent.width as usize), b);
    lemma_align(crate::align::doxygen_rule(), c);
}

/// `crlf` is `lf` with the CRLF style in place of the LF style.
pub open spec fn differ_in_style(lf: Config, crlf: Config) -> bool {
    &&& lf.newlines.style == NewlineStyle::Lf
    &&& crlf.newlines.style == NewlineStyle::Crlf
    &&& lf == lf_config(crlf)
}

/// The CRLF output is the LF output with each line end replaced, when no token
/// but layout holds a carriage return: under two settings that differ in the
/// line end style alone nothing else differs.
pub proof fn law_styles_differ_in_line_ends(
    toks: Seq<Token>,
    lf: Config,
    crlf: Config,
    a: Eol,
    b: Eol,
)
    requires
        no_returns(toks),
        differ_in_style(lf, crlf),
        lf.allows_eol(a),
        crlf.allows_eol(b),
    ensures
        crate::formatter::format_text(toks, crlf, b) == crate::text::replace(
            crate::formatter::format_text(toks, lf, a),
            Eol::Lf.text(),
            Eol::CrLf.text(),
        ),
        crate::laws::lines::lacks(crate::formatter::format_text(toks, lf, a), '\r'),
{
    let prepared = crate::formatter::prepared(toks, crlf);
    assert(crate::formatter::prepared(toks, lf) == prepared);
    lemma_prepared(toks, crlf);
    lemma_prepared_styles(prepared, crlf);
}

} // verus!
