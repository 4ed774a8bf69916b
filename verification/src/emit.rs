//! What the layout machine does with each kind of token.

use crate::config::{Config, Eol};
use crate::layout::{
    BraceCtx, Decls, Depth, DepthView, Env, Input, Layout, Marks, PageView, Paren, ParenView, State,
};
use crate::scan::{
    is_kind, next_is_fn_ptr_declarator, next_is_type_kw, peek_inline_line_comment,
    prev_is_sizeof_like, skip_over,
};
use crate::text::{chars_of, prefix, suffix, trimmed_len, trimmed_start, Class};
use crate::token::{KindSet, TokenKind};
use crate::trivia::{block_comment_text, preproc_text, Conditional};
use vstd::prelude::*;

verus! {

// ── Comments, preprocessor lines and the end ─────────────────────────────────

impl State {
    /// End the line if anything stands on it.
    pub open spec fn fresh_line(self, eol: Eol) -> State {
        if self.page.at_line_start {
            self
        } else {
            self.nl(eol)
        }
    }

    pub open spec fn on_eof(self, env: Input) -> State {
        if env.config.newlines.final_newline {
            self.fresh_line(env.eol)
        } else {
            self
        }
    }

    /// Both branches of a conditional group start from the same indentation.
    pub open spec fn track_group(self, c: Conditional) -> State {
        match c {
            Conditional::Open => State { pp_saved: self.pp_saved.push(self.depth.indent), ..self },
            Conditional::Reopen => if self.pp_saved.len() > 0 {
                State {
                    depth: DepthView { indent: self.pp_saved.last(), ..self.depth },
                    ..self
                }
            } else {
                self
            },
            Conditional::Close => if self.pp_saved.len() > 0 {
                State { pp_saved: self.pp_saved.drop_last(), ..self }
            } else {
                self
            },
            Conditional::Plain => self,
        }
    }

    /// The state with `n` open conditional groups.
    pub open spec fn with_groups(self, n: nat) -> State {
        State { depth: DepthView { pp_groups: n, ..self.depth }, ..self }
    }

    /// Write a preprocessor line, indented by the groups around it if wanted.
    pub open spec fn write_preproc(self, config: Config, c: Conditional, line: Seq<char>) -> State {
        if config.preprocessor.pp_indent {
            let n = if c == Conditional::Close || c == Conditional::Reopen {
                crate::layout::minus(self.depth.pp_groups, 1)
            } else {
                self.depth.pp_groups
            };
            let s = self.with_groups(n).write(crate::text::repeat(config.indent_unit(), n)).write(
                crate::text::trim_start(line, Class::White),
            );
            if c == Conditional::Open || c == Conditional::Reopen {
                s.with_groups(n + 1)
            } else {
                s
            }
        } else {
            self.write(line)
        }
    }

    pub open spec fn on_preproc(self, env: Input, text: Seq<char>) -> State {
        let c = crate::trivia::conditional(crate::trivia::unify(text, env.eol));
        let line = crate::trivia::preproc_line(text, env.config, env.eol);
        self.flush(env.config, env.eol).fresh_line(env.eol).track_group(c).write_preproc(
            env.config,
            c,
            line,
        ).fresh_line(env.eol).set_prev(TokenKind::PreprocLine)
    }

    /// A `//` comment on a line of its own moves up to the end of the line
    /// before it.
    pub open spec fn merges_comment(self, config: Config) -> bool {
        config.newlines.merge_line_comment && self.page.at_line_start && self.blank_lines == 0 && (
        self.marks.prev == Some(TokenKind::LBrace) || self.marks.prev == Some(TokenKind::RBrace)
            || self.marks.prev == Some(TokenKind::Semi))
    }

    pub open spec fn on_line_comment(self, env: Input, text: Seq<char>) -> State {
        let flushed = self.flush(env.config, env.eol);
        let placed = if self.merges_comment(env.config) {
            flushed.join_line()
        } else {
            flushed
        };
        placed.lead_in(env.config, true).write(crate::text::trim_end(text, Class::Break)).nl(
            env.eol,
        ).set_prev(TokenKind::CommentLine)
    }

    pub open spec fn on_block_comment(self, env: Input, text: Seq<char>, p: int) -> State {
        let written = self.flush(env.config, env.eol).lead_in(env.config, true).write(
            crate::trivia::block_comment(text, env.config, env.eol),
        );
        if crate::scan::is_at(env.toks, p, TokenKind::Newline) {
            written.break_line(env.eol).set_prev(TokenKind::CommentBlock)
        } else {
            written.set_prev(TokenKind::CommentBlock)
        }
    }
}

impl Layout {
    fn fresh_line(&mut self, eol: Eol)
        ensures
            final(self)@ == old(self)@.fresh_line(eol),
    {
        if !self.page.at_line_start {
            self.nl(eol);
        }
    }

    pub(crate) fn on_eof(&mut self, env: &Env)
        ensures
            final(self)@ == old(self)@.on_eof(env@),
    {
        if env.config.newlines.final_newline {
            self.fresh_line(env.eol);
        }
    }

    fn track_group(&mut self, c: Conditional)
        ensures
            final(self)@ == old(self)@.track_group(c),
    {
        match c {
            Conditional::Open => {
                self.pp_saved.push(self.depth.indent);
                assert(self@.pp_saved =~= old(self)@.pp_saved.push(old(self)@.depth.indent));
            },
            Conditional::Reopen => {
                if self.pp_saved.len() > 0 {
                    let saved = self.pp_saved[self.pp_saved.len() - 1];
                    self.depth = Depth { indent: saved, ..self.depth };
                }
            },
            Conditional::Close => {
                if self.pp_saved.len() > 0 {
                    self.pp_saved.pop();
                    assert(self@.pp_saved =~= old(self)@.pp_saved.drop_last());
                }
            },
            Conditional::Plain => {},
        }
    }

    fn write_preproc(&mut self, config: &Config, c: Conditional, line: &[char])
        requires
            old(self).depth.pp_groups < usize::MAX,
        ensures
            final(self)@ == old(self)@.write_preproc(*config, c, line@),
    {
        if config.preprocessor.pp_indent {
            let dedent = c == Conditional::Close || c == Conditional::Reopen;
            let n = if dedent && self.depth.pp_groups > 0 {
                self.depth.pp_groups - 1
            } else {
                self.depth.pp_groups
            };
            let unit = chars_of(config.indent_str().as_str());
            let mut lead: Vec<char> = Vec::new();
            crate::text::push_repeat(&mut lead, unit.as_slice(), n);
            assert(lead@ =~= crate::text::repeat(config.indent_unit(), n as nat));
            self.page.write(lead.as_slice());
            let start = trimmed_start(line, Class::White);
            self.page.write(suffix(line, start));
            let deeper = c == Conditional::Open || c == Conditional::Reopen;
            let groups = if deeper {
                n + 1
            } else {
                n
            };
            self.depth = Depth { pp_groups: groups, ..self.depth };
        } else {
            self.page.write(line);
        }
    }

    pub(crate) fn on_preproc(&mut self, env: &Env, lexeme: &str, p: usize)
        requires
            1 <= p <= env.tokens@.len(),
            old(self)@.within((p - 1) as nat),
        ensures
            final(self)@ == old(self)@.on_preproc(env@, lexeme@),
            final(self)@.within(p as nat),
    {
        self.flush(env.config, env.eol);
        self.fresh_line(env.eol);
        let (line, c) = preproc_text(lexeme, env.config, env.eol);
        self.track_group(c);
        assert(self@.within((p - 1) as nat));
        self.write_preproc(env.config, c, line.as_slice());
        assert(self@.within(p as nat));
        self.fresh_line(env.eol);
        self.set_prev(TokenKind::PreprocLine);
    }

    pub(crate) fn on_line_comment(&mut self, env: &Env, lexeme: &str, p: usize)
        requires
            1 <= p <= env.tokens@.len(),
            old(self)@.within((p - 1) as nat),
        ensures
            final(self)@ == old(self)@.on_line_comment(env@, lexeme@),
            final(self)@.within(p as nat),
    {
        let prev = self.marks.prev;
        let merge = env.config.newlines.merge_line_comment && self.page.at_line_start
            && self.blank_lines == 0 && (prev == Some(TokenKind::LBrace) || prev == Some(
            TokenKind::RBrace,
        ) || prev == Some(TokenKind::Semi));
        self.flush(env.config, env.eol);
        if merge {
            self.join_line();
        }
        self.lead_in(env.config, true);
        let text = chars_of(lexeme);
        let n = trimmed_len(text.as_slice(), Class::Break);
        self.page.write(prefix(text.as_slice(), n));
        self.nl(env.eol);
        self.set_prev(TokenKind::CommentLine);
    }

    pub(crate) fn on_block_comment(&mut self, env: &Env, lexeme: &str, p: usize)
        requires
            1 <= p <= env.tokens@.len(),
            old(self)@.within((p - 1) as nat),
        ensures
            final(self)@ == old(self)@.on_block_comment(env@, lexeme@, p as int),
            final(self)@.within(p as nat),
    {
        self.flush(env.config, env.eol);
        self.lead_in(env.config, true);
        let text = block_comment_text(lexeme, env.config, env.eol);
        self.page.write(text.as_slice());
        if is_kind(env.tokens, p, TokenKind::Newline) {
            self.break_line(env.eol);
        }
        self.set_prev(TokenKind::CommentBlock);
    }
}

// ── Semicolons and commas ────────────────────────────────────────────────────

impl State {
    /// The innermost open `{` is that of a function body.
    pub open spec fn in_func_body(self) -> bool {
        self.braces.len() > 0 && (self.braces.last().ctx == BraceCtx::Function || (
        self.braces.last().ctx == BraceCtx::Block && self.braces.len() == 1))
    }

    /// Nothing at statement level awaits its end any more.
    pub open spec fn end_statement(self, env: Input, p: int, line: u32) -> State {
        let s = State { assign: None, ..self }.break_unless_comment(env, p, line);
        if s.decls.running && s.in_func_body() {
            State { decls: Decls { at_stmt_start: true, ..s.decls }, ..s }
        } else {
            s
        }
    }

    pub open spec fn on_semi(self, env: Input, p: int, line: u32) -> State {
        let f = self.flush(env.config, env.eol);
        let s = State {
            marks: Marks { pending_type: false, pending_linkage: false, ..f.marks },
            ..f
        }.write(seq![';']);
        if s.parens.len() == 0 {
            s.end_statement(env, p, line).set_prev(TokenKind::Semi)
        } else {
            s.set_prev(TokenKind::Semi)
        }
    }

    /// The innermost open `{` is that of a large initializer.
    pub open spec fn in_large_init(self) -> bool {
        self.braces.len() > 0 && self.braces.last().large_init
    }

    pub open spec fn on_comma(self, env: Input, p: int, line: u32) -> State {
        let w = self.flush(env.config, env.eol).lead_in(env.config, false).write(seq![',']);
        let s = if w.parens.len() == 0 && w.depth.brackets == 0 {
            State { assign: None, ..w }
        } else {
            w
        };
        if s.in_large_init() && s.parens.len() == 0 && !crate::scan::inline_line_comment(
            env.toks,
            p,
            line,
        ) {
            s.break_line(env.eol).set_prev(TokenKind::Comma)
        } else {
            s.set_prev(TokenKind::Comma)
        }
    }
}

impl Layout {
    fn end_statement(&mut self, env: &Env, p: usize, line: u32)
        requires
            p <= env.tokens@.len(),
        ensures
            final(self)@ == old(self)@.end_statement(env@, p as int, line),
            final(self)@.keeps(old(self)@),
    {
        self.assign = None;
        self.break_unless_comment(env, p, line);
        let n: usize = self.braces.len();
        if self.decls.running && n > 0 && (self.braces[n - 1].ctx == BraceCtx::Function || (
        self.braces[n - 1].ctx == BraceCtx::Block && n == 1)) {
            self.decls = Decls { at_stmt_start: true, ..self.decls };
        }
    }

    pub(crate) fn on_semi(&mut self, env: &Env, p: usize, line: u32)
        requires
            1 <= p <= env.tokens@.len(),
            old(self)@.within((p - 1) as nat),
        ensures
            final(self)@ == old(self)@.on_semi(env@, p as int, line),
            final(self)@.within(p as nat),
    {
        self.flush(env.config, env.eol);
        self.marks = Marks { pending_type: false, pending_linkage: false, ..self.marks };
        self.put(';');
        if self.parens.len() == 0 {
            self.end_statement(env, p, line);
        }
        self.set_prev(TokenKind::Semi);
    }

    pub(crate) fn on_comma(&mut self, env: &Env, p: usize, line: u32)
        requires
            1 <= p <= env.tokens@.len(),
            old(self)@.within((p - 1) as nat),
        ensures
            final(self)@ == old(self)@.on_comma(env@, p as int, line),
            final(self)@.within(p as nat),
    {
        self.flush(env.config, env.eol);
        self.lead_in(env.config, false);
        self.put(',');
        if self.parens.len() == 0 && self.depth.brackets == 0 {
            self.assign = None;
        }
        let n: usize = self.braces.len();
        if n > 0 && self.braces[n - 1].large_init && self.parens.len() == 0
            && !peek_inline_line_comment(env.tokens, p, line) {
            self.break_line(env.eol);
        }
        self.set_prev(TokenKind::Comma);
    }
}

// ── Parentheses and brackets ─────────────────────────────────────────────────

impl State {
    /// The `(` before `p` opens a cast.
    pub open spec fn opens_cast(self, env: Input, p: int) -> bool {
        crate::scan::type_then_close(env.toks, p) && !crate::scan::follows_callee(env.toks, p) && !(
        self.marks.prev is Some && KindSet::ControlKw.has(self.marks.prev->0))
    }

    /// A space stands before the `(` before `p`.
    pub open spec fn spaces_paren(self, env: Input, p: int) -> bool {
        self.needs_space(env.config, TokenKind::LParen) || (crate::scan::declares_fn_ptr(
            env.toks,
            p,
        ) && (self.marks.prev == Some(TokenKind::Keyword) || self.marks.prev == Some(
            TokenKind::Ident,
        ) || self.marks.prev == Some(TokenKind::RParen)))
    }

    /// Put the `(` that was just written on the stack.
    pub open spec fn push_paren(self, env: Input, cast: bool, p: int) -> State {
        let inner_space = env.config.spacing.space_inside_parens.wants_space(
            crate::scan::is_at(env.toks, p, TokenKind::Whitespace),
        );
        let opened_here = crate::layout::minus(self.parens.len() + 1, self.line_parens);
        State {
            parens: self.parens.push(
                ParenView {
                    col: self.page.col() + (if inner_space {
                        1nat
                    } else {
                        0nat
                    }),
                    eol: false,
                    eol_col: self.page.line_indent + opened_here * env.config.indent.width as nat,
                    cast,
                },
            ),
            ..self
        }
    }

    pub open spec fn on_lparen(self, env: Input, p: int) -> State {
        let f = self.flush(env.config, env.eol);
        f.lead_in(env.config, f.spaces_paren(env, p)).write(seq!['(']).push_paren(
            env,
            f.opens_cast(env, p),
            p,
        ).set_prev(TokenKind::LParen)
    }

    /// Take the `(` that was just closed from the stack.
    pub open spec fn pop_paren(self) -> State {
        State {
            page: PageView { suppress_space: false, ..self.page },
            parens: if self.parens.len() > 0 {
                self.parens.drop_last()
            } else {
                self.parens
            },
            marks: Marks {
                prev: Some(TokenKind::RParen),
                after_template: false,
                after_cast: self.parens.len() > 0 && self.parens.last().cast,
                ..self.marks
            },
            ..self
        }
    }

    pub open spec fn on_rparen(self, env: Input) -> State {
        let f = self.flush(env.config, env.eol);
        let s = if f.page.at_line_start {
            f.align_to_paren()
        } else if env.config.spacing.space_inside_parens.wants_space(f.src_space) {
            f.space()
        } else {
            f
        };
        s.write(seq![')']).pop_paren()
    }

    /// The state with `n` open brackets.
    pub open spec fn with_brackets(self, n: nat) -> State {
        State { depth: DepthView { brackets: n, ..self.depth }, ..self }
    }

    pub open spec fn on_lbracket(self, env: Input) -> State {
        self.flush(env.config, env.eol).write(seq!['[']).with_brackets(
            self.depth.brackets + 1,
        ).set_prev(TokenKind::LBracket)
    }

    pub open spec fn on_rbracket(self, env: Input) -> State {
        let f = self.flush(env.config, env.eol);
        let s = if !f.page.at_line_start && env.config.spacing.space_inside_brackets.wants_space(
            f.src_space,
        ) {
            f.space()
        } else {
            f
        };
        s.write(seq![']']).with_brackets(crate::layout::minus(self.depth.brackets, 1)).set_prev(
            TokenKind::RBracket,
        )
    }
}

impl Layout {
    fn push_paren(&mut self, env: &Env, cast: bool, p: usize)
        ensures
            final(self)@ == old(self)@.push_paren(env@, cast, p as int),
    {
        let inner_space = env.config.spacing.space_inside_parens.wants(
            is_kind(env.tokens, p, TokenKind::Whitespace),
        );
        let n = self.parens.len() as u128 + 1;
        let opened_here = if n < self.line_parens as u128 {
            0
        } else {
            n - self.line_parens as u128
        };
        let width = env.config.indent.width as u128;
        assert(opened_here * width <= 0x1_0000_0000_0000_0000 * 0xff) by (nonlinear_arith)
            requires
                opened_here <= 0x1_0000_0000_0000_0000,
                width <= 0xff,
        ;
        let col = self.page.column() as u128;
        let paren = Paren {
            col: if inner_space {
                col + 1
            } else {
                col
            },
            eol: false,
            eol_col: self.page.line_indent as u128 + opened_here * width,
            cast,
        };
        self.parens.push(paren);
        assert(self@.parens =~= old(self)@.parens.push(paren@));
    }

    pub(crate) fn on_lparen(&mut self, env: &Env, p: usize)
        requires
            1 <= p <= env.tokens@.len(),
            old(self)@.within((p - 1) as nat),
        ensures
            final(self)@ == old(self)@.on_lparen(env@, p as int),
            final(self)@.within(p as nat),
    {
        self.flush(env.config, env.eol);
        let prev = self.marks.prev;
        let after_control = match prev {
            Some(k) => KindSet::ControlKw.test(k),
            None => false,
        };
        let cast = next_is_type_kw(env.tokens, p) && !prev_is_sizeof_like(env.tokens, p)
            && !after_control;
        let spaced = self.needs_space(env.config, TokenKind::LParen) || (next_is_fn_ptr_declarator(
            env.tokens,
            p,
        ) && (prev == Some(TokenKind::Keyword) || prev == Some(TokenKind::Ident) || prev == Some(
            TokenKind::RParen,
        )));
        self.lead_in(env.config, spaced);
        self.put('(');
        self.push_paren(env, cast, p);
        self.set_prev(TokenKind::LParen);
    }

    fn pop_paren(&mut self)
        ensures
            final(self)@ == old(self)@.pop_paren(),
    {
        let n: usize = self.parens.len();
        let cast = n > 0 && self.parens[n - 1].cast;
        if n > 0 {
            self.parens.pop();
            assert(self@.parens =~= old(self)@.parens.drop_last());
        }
        self.page.suppress_space = false;
        self.marks = Marks {
            prev: Some(TokenKind::RParen),
            after_template: false,
            after_cast: cast,
            ..self.marks
        };
    }

    pub(crate) fn on_rparen(&mut self, env: &Env, p: usize)
        requires
            1 <= p <= env.tokens@.len(),
            old(self)@.within((p - 1) as nat),
        ensures
            final(self)@ == old(self)@.on_rparen(env@),
            final(self)@.within(p as nat),
    {
        self.flush(env.config, env.eol);
        if self.page.at_line_start {
            self.align_to_paren();
        } else if env.config.spacing.space_inside_parens.wants(self.src_space) {
            self.space();
        }
        self.put(')');
        self.pop_paren();
    }

    pub(crate) fn on_lbracket(&mut self, env: &Env, p: usize)
        requires
            1 <= p <= env.tokens@.len(),
            old(self)@.within((p - 1) as nat),
        ensures
            final(self)@ == old(self)@.on_lbracket(env@),
            final(self)@.within(p as nat),
    {
        self.flush(env.config, env.eol);
        self.put('[');
        self.depth = Depth { brackets: self.depth.brackets + 1, ..self.depth };
        self.set_prev(TokenKind::LBracket);
    }

    pub(crate) fn on_rbracket(&mut self, env: &Env, p: usize)
        requires
            1 <= p <= env.tokens@.len(),
            old(self)@.within((p - 1) as nat),
        ensures
            final(self)@ == old(self)@.on_rbracket(env@),
            final(self)@.within(p as nat),
    {
        self.flush(env.config, env.eol);
        if !self.page.at_line_start && env.config.spacing.space_inside_brackets.wants(
            self.src_space,
        ) {
            self.space();
        }
        self.put(']');
        if self.depth.brackets > 0 {
            self.depth = Depth { brackets: self.depth.brackets - 1, ..self.depth };
        }
        self.set_prev(TokenKind::RBracket);
    }
}

// ── Colons ───────────────────────────────────────────────────────────────────

impl State {
    /// The coming `:` ends a label.
    pub open spec fn in_label(self) -> bool {
        self.marks.in_case_label || self.marks.in_access_label || self.marks.in_goto_label
    }

    /// The `:` before `p` introduces the width of a bit-field.
    pub open spec fn in_bitfield(self, env: Input, p: int) -> bool {
        self.marks.prev == Some(TokenKind::Ident) && crate::scan::is_at(
            env.toks,
            crate::scan::skip(env.toks, p, KindSet::Layout),
            TokenKind::LitInt,
        ) && self.braces.len() > 0 && self.braces.last().ctx == BraceCtx::Type
    }

    /// The space before a `:`: before that of a `?` and that of a bit-field.
    pub open spec fn before_colon(self, env: Input, p: int) -> State {
        let ternary = !self.in_label() && self.depth.ternaries > 0;
        let spaced = ternary || (!self.in_label() && self.in_bitfield(env, p));
        let s = if spaced && !self.page.at_line_start {
            self.space()
        } else {
            self
        };
        if ternary {
            State {
                depth: DepthView { ternaries: (s.depth.ternaries - 1) as nat, ..s.depth },
                ..s
            }
        } else {
            s
        }
    }

    /// A case body starts: it is indented by one more level if wanted.
    pub open spec fn enter_case(self, config: Config) -> State {
        if config.indent.indent_switch_case {
            State {
                depth: DepthView { indent: self.depth.indent + 1, ..self.depth },
                cases: if self.cases.len() > 0 {
                    self.cases.update(self.cases.len() - 1, true)
                } else {
                    self.cases
                },
                ..self
            }
        } else {
            self
        }
    }

    /// The line ends behind the `:` of a label.
    pub open spec fn after_colon(self, env: Input) -> State {
        let m = self.marks;
        if m.in_case_label {
            State { marks: Marks { in_case_label: false, ..m }, ..self }.break_line(
                env.eol,
            ).enter_case(env.config)
        } else if m.in_access_label {
            State { marks: Marks { in_access_label: false, ..m }, ..self }.break_line(env.eol)
        } else if m.in_goto_label {
            State { marks: Marks { in_goto_label: false, ..m }, ..self }.break_line(env.eol)
        } else {
            self
        }
    }

    pub open spec fn on_colon(self, env: Input, p: int) -> State {
        let s = self.flush(env.config, env.eol).before_colon(env, p).write(seq![':']);
        let t = s.after_colon(env).set_prev(TokenKind::Colon);
        State { marks: Marks { after_case_colon: s.marks.in_case_label, ..t.marks }, ..t }
    }
}

impl Layout {
    fn before_colon(&mut self, env: &Env, p: usize)
        requires
            p <= env.tokens@.len(),
        ensures
            final(self)@ == old(self)@.before_colon(env@, p as int),
    {
        let m = self.marks;
        let label = m.in_case_label || m.in_access_label || m.in_goto_label;
        let ternary = !label && self.depth.ternaries > 0;
        let n: usize = self.braces.len();
        let after = skip_over(env.tokens, p, KindSet::Layout);
        let spaced = ternary || (!label && m.prev == Some(TokenKind::Ident) && is_kind(
            env.tokens,
            after,
            TokenKind::LitInt,
        ) && n > 0 && self.braces[n - 1].ctx == BraceCtx::Type);
        if spaced && !self.page.at_line_start {
            self.space();
        }
        if ternary {
            self.depth = Depth { ternaries: self.depth.ternaries - 1, ..self.depth };
        }
    }

    fn enter_case(&mut self, config: &Config)
        requires
            old(self).depth.indent < usize::MAX,
        ensures
            final(self)@ == old(self)@.enter_case(*config),
    {
        if config.indent.indent_switch_case {
            self.depth = Depth { indent: self.depth.indent + 1, ..self.depth };
            if self.cases.len() > 0 {
                let top = self.cases.len() - 1;
                self.cases.set(top, true);
            }
        }
    }

    fn after_colon(&mut self, env: &Env)
        requires
            old(self).depth.indent < usize::MAX,
        ensures
            final(self)@ == old(self)@.after_colon(env@),
    {
        let m = self.marks;
        if m.in_case_label {
            self.marks = Marks { in_case_label: false, ..m };
            self.break_line(env.eol);
            self.enter_case(env.config);
        } else if m.in_access_label {
            self.marks = Marks { in_access_label: false, ..m };
            self.break_line(env.eol);
        } else if m.in_goto_label {
            self.marks = Marks { in_goto_label: false, ..m };
            self.break_line(env.eol);
        }
    }

    pub(crate) fn on_colon(&mut self, env: &Env, p: usize)
        requires
            1 <= p <= env.tokens@.len(),
            old(self)@.within((p - 1) as nat),
        ensures
            final(self)@ == old(self)@.on_colon(env@, p as int),
            final(self)@.within(p as nat),
    {
        self.flush(env.config, env.eol);
        self.before_colon(env, p);
        self.put(':');
        let is_case = self.marks.in_case_label;
        self.after_colon(env);
        self.set_prev(TokenKind::Colon);
        self.marks = Marks { after_case_colon: is_case, ..self.marks };
    }
}

} // verus!
