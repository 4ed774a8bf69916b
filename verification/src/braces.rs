//! What the layout machine does with `{` and `}`.

use crate::config::{BraceStyle, Config, ExternCBrace};
use crate::layout::{
    Brace, BraceCtx, Decls, Depth, DepthView, Env, Input, Layout, Marks, Page, PageView, State,
};
use crate::scan::{
    is_kind, kind_of, large_flat_initializer_end, prev_through_comments, rparen_closes_ctrl_flow,
    rparen_looks_like_call, skip_over, small_initializer_end,
};
use crate::token::{KindSet, Token, TokenKind};
use vstd::prelude::*;

verus! {

// ── Context ──────────────────────────────────────────────────────────────────

impl State {
    /// What the `{` before `p` opens.
    #[verifier::opaque]
    pub open spec fn brace_ctx(self, env: Input, p: int) -> BraceCtx {
        let m = self.marks;
        match crate::scan::solid_prev(env.toks, p, m.prev) {
            Some(TokenKind::LitStr) => if m.pending_linkage {
                BraceCtx::Linkage
            } else {
                BraceCtx::Other
            },
            Some(TokenKind::KwNamespace) => BraceCtx::Namespace,
            Some(
                TokenKind::KwStruct
                | TokenKind::KwClass
                | TokenKind::KwUnion
                | TokenKind::KwEnum,
            ) => BraceCtx::Type,
            Some(TokenKind::RParen) => if m.pending_switch {
                BraceCtx::Switch
            } else if crate::scan::closes_ctrl_flow(env.toks, p) || crate::scan::closes_stmt_call(
                env.toks,
                p,
                self.depth.classes,
            ) {
                BraceCtx::Block
            } else {
                BraceCtx::Function
            },
            Some(TokenKind::KwElse | TokenKind::KwDo | TokenKind::KwTry) => BraceCtx::Block,
            Some(TokenKind::Ident | TokenKind::Gt) => if m.pending_type {
                BraceCtx::Type
            } else {
                BraceCtx::Function
            },
            Some(TokenKind::Colon) => if m.pending_type {
                BraceCtx::Type
            } else if m.after_case_colon {
                BraceCtx::Block
            } else {
                BraceCtx::Other
            },
            _ => BraceCtx::Other,
        }
    }
}

impl Layout {
    fn infer_brace_ctx(&self, env: &Env, p: usize) -> (r: BraceCtx)
        requires
            p <= env.tokens@.len(),
        ensures
            r == self@.brace_ctx(env@, p as int),
    {
        proof {
            reveal(State::brace_ctx);
        }
        let m = self.marks;
        match prev_through_comments(env.tokens, p, m.prev) {
            Some(TokenKind::LitStr) => {
                if m.pending_linkage {
                    BraceCtx::Linkage
                } else {
                    BraceCtx::Other
                }
            },
            Some(TokenKind::KwNamespace) => BraceCtx::Namespace,
            Some(
                TokenKind::KwStruct
                | TokenKind::KwClass
                | TokenKind::KwUnion
                | TokenKind::KwEnum,
            ) => BraceCtx::Type,
            Some(TokenKind::RParen) => {
                if m.pending_switch {
                    BraceCtx::Switch
                } else if rparen_closes_ctrl_flow(env.tokens, p) || rparen_looks_like_call(
                    env.tokens,
                    p,
                    self.depth.classes,
                ) {
                    BraceCtx::Block
                } else {
                    BraceCtx::Function
                }
            },
            Some(TokenKind::KwElse | TokenKind::KwDo | TokenKind::KwTry) => BraceCtx::Block,
            Some(TokenKind::Ident | TokenKind::Gt) => {
                if m.pending_type {
                    BraceCtx::Type
                } else {
                    BraceCtx::Function
                }
            },
            Some(TokenKind::Colon) => {
                if m.pending_type {
                    BraceCtx::Type
                } else if m.after_case_colon {
                    BraceCtx::Block
                } else {
                    BraceCtx::Other
                }
            },
            _ => BraceCtx::Other,
        }
    }
}

// ── Small initializers ───────────────────────────────────────────────────────

/// A space stands before an item of kind `k` in a small initializer, behind
/// one of kind `prev`. `unary` tells that `prev` was a unary operator.
pub open spec fn item_space(prev: TokenKind, k: TokenKind, unary: bool) -> bool {
    !(unary || k == TokenKind::Comma || matches!(
        prev,
        TokenKind::LBrace | TokenKind::Dot | TokenKind::Arrow | TokenKind::LParen
    ) || (matches!(k, TokenKind::Dot | TokenKind::Arrow) && KindSet::EndsExpr.has(prev)))
}

/// An item of kind `k` behind one of kind `prev` is a unary operator.
pub open spec fn item_is_unary(prev: TokenKind, k: TokenKind) -> bool {
    matches!(k, TokenKind::Minus | TokenKind::Plus | TokenKind::Star | TokenKind::Amp) && matches!(
        prev,
        TokenKind::Comma | TokenKind::LBrace | TokenKind::LParen
    )
}

impl PageView {
    /// Write the items of a small initializer.
    pub open spec fn write_items(self, items: Seq<Token>, prev: TokenKind, unary: bool) -> PageView
        decreases items.len(),
    {
        if items.len() == 0 {
            self
        } else {
            let t = items[0];
            let spaced = if item_space(prev, t.kind, unary) {
                self.write(seq![' '])
            } else {
                self
            };
            spaced.write(t.lexeme@).write_items(
                items.drop_first(),
                t.kind,
                item_is_unary(prev, t.kind),
            )
        }
    }

    /// Write the inside of a small initializer and its `}`.
    pub open spec fn write_small_init(self, items: Seq<Token>) -> PageView {
        if items.len() == 0 {
            self.write(seq!['}'])
        } else {
            self.write(seq![' ']).write_items(items, TokenKind::LBrace, false).write(seq![' ', '}'])
        }
    }
}

fn needs_item_space(prev: TokenKind, k: TokenKind, unary: bool) -> (r: bool)
    ensures
        r == item_space(prev, k, unary),
{
    !(unary || k == TokenKind::Comma || matches!(
        prev,
        TokenKind::LBrace | TokenKind::Dot | TokenKind::Arrow | TokenKind::LParen
    ) || (matches!(k, TokenKind::Dot | TokenKind::Arrow) && KindSet::EndsExpr.test(prev)))
}

fn is_unary_item(prev: TokenKind, k: TokenKind) -> (r: bool)
    ensures
        r == item_is_unary(prev, k),
{
    matches!(k, TokenKind::Minus | TokenKind::Plus | TokenKind::Star | TokenKind::Amp) && matches!(
        prev,
        TokenKind::Comma | TokenKind::LBrace | TokenKind::LParen
    )
}

impl Page {
    /// Write the tokens from `p` up to `end` as a small initializer.
    fn write_small_init(&mut self, tokens: &[Token], p: usize, end: usize)
        requires
            p <= end <= tokens@.len(),
        ensures
            final(self)@ == old(self)@.write_small_init(
                crate::scan::content(tokens@, p as int, end as int),
            ),
    {
        let ghost items = crate::scan::content(tokens@, p as int, end as int);
        let mut i: usize = p;
        while i < end && KindSet::Layout.test(tokens[i].kind)
            invariant
                p <= i <= end <= tokens@.len(),
                items == crate::scan::content(tokens@, i as int, end as int),
            decreases end - i,
        {
            i += 1;
        }
        if i == end {
            self.put('}');
            return;
        }
        self.put(' ');
        let ghost whole = self@.write_items(items, TokenKind::LBrace, false);
        let mut prev = TokenKind::LBrace;
        let mut unary = false;
        while i < end
            invariant
                p <= i <= end <= tokens@.len(),
                whole == self@.write_items(
                    crate::scan::content(tokens@, i as int, end as int),
                    prev,
                    unary,
                ),
            decreases end - i,
        {
            let t = tokens[i];
            if !KindSet::Layout.test(t.kind) {
                let ghost rest = crate::scan::content(tokens@, i + 1, end as int);
                assert((seq![tokens@[i as int]] + rest).drop_first() =~= rest);
                if needs_item_space(prev, t.kind, unary) {
                    self.put(' ');
                }
                self.write_str(t.lexeme);
                unary = is_unary_item(prev, t.kind);
                prev = t.kind;
            }
            i += 1;
        }
        let close: [char; 2] = [' ', '}'];
        assert(close@ =~= seq![' ', '}']);
        self.write(close.as_slice());
    }
}

// ── Opening braces ───────────────────────────────────────────────────────────

impl State {
    /// Join the line before, if the current one is empty, and write a space.
    pub open spec fn cling(self) -> State {
        if self.page.at_line_start {
            self.join_line().space()
        } else {
            self.space()
        }
    }

    /// Write the `{` where its context and the brace style put it.
    #[verifier::opaque]
    pub open spec fn place_brace(self, env: Input, ctx: BraceCtx, p: int) -> State {
        let c = env.config.braces;
        let placed = match ctx {
            BraceCtx::Other => if self.needs_space(env.config, TokenKind::LBrace) {
                self.space()
            } else {
                self
            },
            BraceCtx::Linkage => if c.extern_c_brace == ExternCBrace::ForceSameLine {
                self.cling()
            } else if self.page.at_line_start {
                self
            } else {
                self.space()
            },
            _ => if c.style == BraceStyle::Allman || (ctx == BraceCtx::Function
                && c.fn_brace_newline && !crate::scan::closes_ctrl_flow(env.toks, p)) {
                self.own_line(env.config, env.eol)
            } else {
                self.cling()
            },
        };
        placed.write(seq!['{'])
    }

    /// Nothing awaits a `{` any more.
    pub open spec fn settle(self) -> State {
        State {
            marks: Marks {
                pending_switch: false,
                pending_type: false,
                pending_linkage: false,
                ..self.marks
            },
            ..self
        }
    }

    /// Write the `}` of an empty body, behind its `{`.
    #[verifier::opaque]
    pub open spec fn close_empty(self, env: Input, ctx: BraceCtx, p: int, line: u32) -> State {
        let next = crate::scan::kind_at(
            env.toks,
            crate::scan::skip(env.toks, p, KindSet::Layout),
        );
        self.write(seq!['}']).post_brace(env, ctx, next, p, line).settle().set_prev(
            TokenKind::RBrace,
        )
    }

    /// The body of a function, or of a macro call that stands for one.
    pub open spec fn func_like(ctx: BraceCtx, outer: Seq<Brace>) -> bool {
        ctx == BraceCtx::Function || (ctx == BraceCtx::Block && outer.len() == 0)
    }

    /// Go one indentation level deeper. A block that follows a `case` label
    /// takes over the label's extra level.
    pub open spec fn enter(self, config: Config, ctx: BraceCtx) -> State {
        let taken = ctx == BraceCtx::Block && self.marks.after_case_colon
            && config.indent.indent_switch_case;
        let outside = if taken {
            crate::layout::minus(self.depth.indent, 1)
        } else {
            self.depth.indent
        };
        State {
            depth: DepthView {
                indent: if ctx == BraceCtx::Linkage {
                    outside
                } else {
                    outside + 1
                },
                switches: if ctx == BraceCtx::Switch {
                    self.depth.switches + 1
                } else {
                    self.depth.switches
                },
                classes: if ctx == BraceCtx::Type {
                    self.depth.classes + 1
                } else {
                    self.depth.classes
                },
                ..self.depth
            },
            cases: if ctx == BraceCtx::Switch {
                self.cases.push(false)
            } else if taken && self.cases.len() > 0 {
                self.cases.update(self.cases.len() - 1, false)
            } else {
                self.cases
            },
            ..self
        }
    }

    /// The leading declarations of a function body begin.
    pub open spec fn begin_decls(self, config: Config, ctx: BraceCtx) -> State {
        if State::func_like(ctx, self.braces) && config.newlines.blank_line_after_var_decl_block {
            State {
                decls: Decls { running: true, at_stmt_start: true, seen: false, ..self.decls },
                ..self
            }
        } else {
            self
        }
    }

    /// Put the `{` on the stack. Assignments outside of it no longer align.
    pub open spec fn push_brace(self, env: Input, ctx: BraceCtx, p: int) -> State {
        let large_init = ctx == BraceCtx::Other && env.config.braces.expand_large_initializers
            && crate::scan::flat_init_end(env.toks, p) is Some;
        State { assign: None, braces: self.braces.push(Brace { ctx, large_init }), ..self }
    }

    /// Owe the blank line that leads a body, where one is wanted.
    pub open spec fn owe_leading_blank(self, config: Config, ctx: BraceCtx) -> State {
        if config.newlines.blank_line_after_open_brace && (ctx == BraceCtx::Function || ctx
            == BraceCtx::Block) {
            State { blank_lines: crate::layout::max(self.blank_lines, 1), ..self }
        } else {
            self
        }
    }

    /// Enter the body behind the `{` before `p`.
    #[verifier::opaque]
    pub open spec fn open_body(self, env: Input, ctx: BraceCtx, p: int) -> State {
        self.enter(env.config, ctx).begin_decls(env.config, ctx).push_brace(
            env,
            ctx,
            p,
        ).settle().break_line(env.eol).owe_leading_blank(env.config, ctx).set_prev(
            TokenKind::LBrace,
        )
    }

    /// The `{` before `p`, and the position behind what was written with it: a
    /// small initializer and an empty body are closed at once.
    pub open spec fn on_lbrace(self, env: Input, p: int, line: u32) -> (State, int) {
        let ctx = self.brace_ctx(env, p);
        let opened = self.flush(env.config, env.eol).place_brace(env, ctx, p);
        let small = crate::scan::small_init_end(env.toks, p);
        let end = crate::scan::skip(env.toks, p, KindSet::Layout);
        if ctx == BraceCtx::Other && small is Some {
            (
                State {
                    page: opened.page.write_small_init(
                        crate::scan::content(env.toks, p, small->0),
                    ),
                    ..opened
                }.set_prev(TokenKind::RBrace),
                small->0 + 1,
            )
        } else if env.config.braces.collapse_empty_body && crate::scan::is_at(
            env.toks,
            end,
            TokenKind::RBrace,
        ) {
            (opened.close_empty(env, ctx, end + 1, line), end + 1)
        } else {
            (opened.open_body(env, ctx, p), p)
        }
    }
}

impl Layout {
    fn cling(&mut self)
        ensures
            final(self)@ == old(self)@.cling(),
    {
        if self.page.at_line_start {
            self.join_line();
        }
        self.space();
    }

    fn place_brace(&mut self, env: &Env, ctx: BraceCtx, p: usize)
        requires
            p <= env.tokens@.len(),
            old(self).depth.indent < usize::MAX,
        ensures
            final(self)@ == old(self)@.place_brace(env@, ctx, p as int),
            final(self)@.keeps(old(self)@),
    {
        proof {
            reveal(State::place_brace);
        }
        match ctx {
            BraceCtx::Other => {
                if self.needs_space(env.config, TokenKind::LBrace) {
                    self.space();
                }
            },
            BraceCtx::Linkage => {
                if env.config.braces.extern_c_brace == ExternCBrace::ForceSameLine {
                    self.cling();
                } else if !self.page.at_line_start {
                    self.space();
                }
            },
            _ => {
                if env.config.braces.style == BraceStyle::Allman || (ctx == BraceCtx::Function
                    && env.config.braces.fn_brace_newline && !rparen_closes_ctrl_flow(
                    env.tokens,
                    p,
                )) {
                    self.own_line(env.config, env.eol);
                } else {
                    self.cling();
                }
            },
        }
        self.put('{');
    }

    fn settle(&mut self)
        ensures
            final(self)@ == old(self)@.settle(),
    {
        self.marks = Marks {
            pending_switch: false,
            pending_type: false,
            pending_linkage: false,
            ..self.marks
        };
    }

    fn close_empty(&mut self, env: &Env, ctx: BraceCtx, p: usize, line: u32)
        requires
            p <= env.tokens@.len(),
        ensures
            final(self)@ == old(self)@.close_empty(env@, ctx, p as int, line),
            final(self)@.keeps(old(self)@),
    {
        proof {
            reveal(State::close_empty);
        }
        let next = kind_of(env.tokens, skip_over(env.tokens, p, KindSet::Layout));
        self.put('}');
        self.post_brace(env, ctx, next, p, line);
        self.settle();
        self.set_prev(TokenKind::RBrace);
    }

    fn enter(&mut self, config: &Config, ctx: BraceCtx)
        requires
            old(self)@.depth.within((usize::MAX - 1) as nat),
        ensures
            final(self)@ == old(self)@.enter(*config, ctx),
    {
        let d = self.depth;
        let taken = ctx == BraceCtx::Block && self.marks.after_case_colon
            && config.indent.indent_switch_case;
        let outside = if taken && d.indent > 0 {
            d.indent - 1
        } else {
            d.indent
        };
        if ctx == BraceCtx::Switch {
            self.cases.push(false);
        } else if taken && self.cases.len() > 0 {
            let top = self.cases.len() - 1;
            self.cases.set(top, false);
        }
        self.depth = Depth {
            indent: if ctx == BraceCtx::Linkage {
                outside
            } else {
                outside + 1
            },
            switches: if ctx == BraceCtx::Switch {
                d.switches + 1
            } else {
                d.switches
            },
            classes: if ctx == BraceCtx::Type {
                d.classes + 1
            } else {
                d.classes
            },
            ..d
        };
    }

    fn begin_decls(&mut self, config: &Config, ctx: BraceCtx)
        ensures
            final(self)@ == old(self)@.begin_decls(*config, ctx),
    {
        let func_like = ctx == BraceCtx::Function || (ctx == BraceCtx::Block && self.braces.len()
            == 0);
        if func_like && config.newlines.blank_line_after_var_decl_block {
            self.decls = Decls { running: true, at_stmt_start: true, seen: false, ..self.decls };
        }
    }

    fn push_brace(&mut self, env: &Env, ctx: BraceCtx, p: usize)
        requires
            p <= env.tokens@.len(),
        ensures
            final(self)@ == old(self)@.push_brace(env@, ctx, p as int),
    {
        let large_init = ctx == BraceCtx::Other && env.config.braces.expand_large_initializers
            && large_flat_initializer_end(env.tokens, p).is_some();
        self.assign = None;
        self.braces.push(Brace { ctx, large_init });
    }

    fn owe_leading_blank(&mut self, config: &Config, ctx: BraceCtx)
        ensures
            final(self)@ == old(self)@.owe_leading_blank(*config, ctx),
    {
        if config.newlines.blank_line_after_open_brace && (ctx == BraceCtx::Function || ctx
            == BraceCtx::Block) && self.blank_lines == 0 {
            self.blank_lines = 1;
        }
    }

    fn open_body(&mut self, env: &Env, ctx: BraceCtx, p: usize)
        requires
            1 <= p <= env.tokens@.len(),
            old(self)@.within((p - 1) as nat),
        ensures
            final(self)@ == old(self)@.open_body(env@, ctx, p as int),
            final(self)@.within(p as nat),
    {
        proof {
            reveal(State::open_body);
        }
        self.enter(env.config, ctx);
        self.begin_decls(env.config, ctx);
        self.push_brace(env, ctx, p);
        self.settle();
        self.break_line(env.eol);
        self.owe_leading_blank(env.config, ctx);
        self.set_prev(TokenKind::LBrace);
    }

    pub(crate) fn on_lbrace(&mut self, env: &Env, p: usize, line: u32) -> (q: usize)
        requires
            1 <= p <= env.tokens@.len(),
            old(self)@.within((p - 1) as nat),
        ensures
            (final(self)@, q as int) == old(self)@.on_lbrace(env@, p as int, line),
            p <= q <= env.tokens@.len(),
            final(self)@.within(q as nat),
    {
        let ctx = self.infer_brace_ctx(env, p);
        self.flush(env.config, env.eol);
        self.place_brace(env, ctx, p);
        if ctx == BraceCtx::Other {
            match small_initializer_end(env.tokens, p) {
                Some(end) => {
                    self.page.write_small_init(env.tokens, p, end);
                    self.set_prev(TokenKind::RBrace);
                    return end + 1;
                },
                None => {},
            }
        }
        let end = skip_over(env.tokens, p, KindSet::Layout);
        if env.config.braces.collapse_empty_body && is_kind(env.tokens, end, TokenKind::RBrace) {
            self.close_empty(env, ctx, end + 1, line);
            return end + 1;
        }
        self.open_body(env, ctx, p);
        p
    }
}

// ── Closing braces ───────────────────────────────────────────────────────────

impl State {
    /// What the innermost open `{` opened.
    pub open spec fn inner_ctx(self) -> BraceCtx {
        if self.braces.len() > 0 {
            self.braces.last().ctx
        } else {
            BraceCtx::Other
        }
    }

    /// Leave the indentation of the innermost body.
    pub open spec fn dedent(self, config: Config) -> State {
        let ctx = self.inner_ctx();
        let unwinds = ctx == BraceCtx::Switch && config.indent.indent_switch_case
            && self.cases.len() > 0;
        let extra: nat = if unwinds && self.cases.last() {
            1
        } else {
            0
        };
        let own: nat = if ctx == BraceCtx::Linkage {
            0
        } else {
            1
        };
        State {
            depth: DepthView {
                indent: crate::layout::minus(self.depth.indent, extra + own),
                ..self.depth
            },
            cases: if unwinds {
                self.cases.drop_last()
            } else {
                self.cases
            },
            assign: None,
            ..self
        }
    }

    /// Leave the innermost body.
    pub open spec fn close_body(self) -> State {
        let ctx = self.inner_ctx();
        let outer = if self.braces.len() > 0 {
            self.braces.drop_last()
        } else {
            self.braces
        };
        State {
            braces: outer,
            depth: DepthView {
                switches: if ctx == BraceCtx::Switch {
                    crate::layout::minus(self.depth.switches, 1)
                } else {
                    self.depth.switches
                },
                classes: if ctx == BraceCtx::Type {
                    crate::layout::minus(self.depth.classes, 1)
                } else {
                    self.depth.classes
                },
                ..self.depth
            },
            decls: if State::func_like(ctx, outer) {
                Decls { running: false, at_stmt_start: false, owe_blank: false, ..self.decls }
            } else {
                self.decls
            },
            ..self
        }
    }

    pub open spec fn on_rbrace(self, env: Input, p: int, line: u32) -> State {
        let next = crate::scan::kind_at(
            env.toks,
            crate::scan::skip(env.toks, p, KindSet::Layout),
        );
        self.dedent(env.config).flush(env.config, env.eol).own_line(env.config, env.eol).write(
            seq!['}'],
        ).close_body().post_brace(env, self.inner_ctx(), next, p, line).set_prev(TokenKind::RBrace)
    }
}

impl Layout {
    pub(crate) fn inner_ctx(&self) -> (r: BraceCtx)
        ensures
            r == self@.inner_ctx(),
    {
        if self.braces.len() > 0 {
            self.braces[self.braces.len() - 1].ctx
        } else {
            BraceCtx::Other
        }
    }

    fn dedent(&mut self, config: &Config)
        ensures
            final(self)@ == old(self)@.dedent(*config),
    {
        let ctx = self.inner_ctx();
        let mut indent: usize = self.depth.indent;
        if ctx == BraceCtx::Switch && config.indent.indent_switch_case && self.cases.len() > 0 {
            if self.cases[self.cases.len() - 1] && indent > 0 {
                indent -= 1;
            }
            self.cases.pop();
        }
        if ctx != BraceCtx::Linkage && indent > 0 {
            indent -= 1;
        }
        self.depth = Depth { indent, ..self.depth };
        self.assign = None;
    }

    fn close_body(&mut self)
        ensures
            final(self)@ == old(self)@.close_body(),
    {
        let ctx = self.inner_ctx();
        if self.braces.len() > 0 {
            self.braces.pop();
        }
        let d = self.depth;
        self.depth = Depth {
            switches: if ctx == BraceCtx::Switch && d.switches > 0 {
                d.switches - 1
            } else {
                d.switches
            },
            classes: if ctx == BraceCtx::Type && d.classes > 0 {
                d.classes - 1
            } else {
                d.classes
            },
            ..d
        };
        if ctx == BraceCtx::Function || (ctx == BraceCtx::Block && self.braces.len() == 0) {
            self.decls = Decls {
                running: false,
                at_stmt_start: false,
                owe_blank: false,
                ..self.decls
            };
        }
    }

    pub(crate) fn on_rbrace(&mut self, env: &Env, p: usize, line: u32)
        requires
            1 <= p <= env.tokens@.len(),
            old(self)@.within((p - 1) as nat),
        ensures
            final(self)@ == old(self)@.on_rbrace(env@, p as int, line),
            final(self)@.within(p as nat),
    {
        let ctx = self.inner_ctx();
        self.dedent(env.config);
        self.flush(env.config, env.eol);
        self.own_line(env.config, env.eol);
        self.put('}');
        self.close_body();
        let next = kind_of(env.tokens, skip_over(env.tokens, p, KindSet::Layout));
        self.post_brace(env, ctx, next, p, line);
        self.set_prev(TokenKind::RBrace);
    }
}

} // verus!
