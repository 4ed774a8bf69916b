//! The layout machine's main loop: it passes over layout, dispatches on each
//! token and collects the text.

use crate::config::{Config, Eol};
use crate::layout::{BraceCtx, Env, Input, Layout, State};
use crate::scan::{is_ptr_decl_context, looks_like_template_open};
use crate::token::{KindSet, Token, TokenKind};
use crate::trivia::unified;
use vstd::prelude::*;

verus! {

/// How many tokens of kind `k` stand from `i` up to `end`.
pub open spec fn count_kind(toks: Seq<Token>, i: int, end: int, k: TokenKind) -> nat
    decreases end - i,
{
    if i >= end {
        0
    } else {
        count_kind(toks, i + 1, end, k) + if toks[i].kind == k {
            1nat
        } else {
            0nat
        }
    }
}

impl State {
    /// Pass over the layout from `i` up to `end`: line ends are kept for the
    /// next token, but for one that was already written.
    pub open spec fn pass_layout(self, toks: Seq<Token>, i: int, end: int) -> State {
        let lines = count_kind(toks, i, end, TokenKind::Newline);
        State {
            blank_lines: self.blank_lines + (if self.skip_newline {
                crate::layout::minus(lines, 1)
            } else {
                lines
            }),
            skip_newline: false,
            src_space: count_kind(toks, i, end, TokenKind::Whitespace) > 0,
            ..self
        }
    }

    /// Statements stand here: the innermost open brace is neither that of a
    /// type nor of a namespace or a linkage block.
    pub open spec fn in_body(self) -> bool {
        self.braces.len() > 0 && match self.inner_ctx() {
            BraceCtx::Type | BraceCtx::Namespace | BraceCtx::Linkage => false,
            _ => true,
        }
    }

    /// The `*` or `&` before `p` is a declarator, and not a symbol that is
    /// overloaded.
    pub open spec fn at_declarator(self, env: Input, p: int) -> bool {
        !self.marks.after_operator && crate::scan::ptr_declares(
            env.toks,
            p,
            self.marks.prev,
            self.in_body(),
        )
    }

    /// Take the token that ends before `p`, and tell where to go on.
    #[verifier::opaque]
    pub open spec fn step(self, env: Input, t: Token, p: int) -> (State, int) {
        let k = t.kind;
        let text = t.lexeme@;
        match k {
            TokenKind::PreprocLine => (self.on_preproc(env, text), p),
            TokenKind::CommentLine => (self.on_line_comment(env, text), p),
            TokenKind::CommentBlock => (self.on_block_comment(env, text, p), p),
            TokenKind::LBrace => self.on_lbrace(env, p, t.span.line),
            TokenKind::RBrace => (self.on_rbrace(env, p, t.span.line), p),
            TokenKind::Semi => (self.on_semi(env, p, t.span.line), p),
            TokenKind::Comma => (self.on_comma(env, p, t.span.line), p),
            TokenKind::LParen => (self.on_lparen(env, p), p),
            TokenKind::RParen => (self.on_rparen(env), p),
            TokenKind::LBracket => (self.on_lbracket(env), p),
            TokenKind::RBracket => (self.on_rbracket(env), p),
            TokenKind::Colon => (self.on_colon(env, p), p),
            TokenKind::KwSwitch => (self.on_switch(env, k, text), p),
            TokenKind::KwCase | TokenKind::KwDefault => (self.on_case(env, k, text), p),
            TokenKind::KwPublic
            | TokenKind::KwPrivate
            | TokenKind::KwProtected => (self.on_access(env, k, text), p),
            TokenKind::KwClass
            | TokenKind::KwStruct
            | TokenKind::KwUnion
            | TokenKind::KwEnum => (self.on_type_kw(env, k, text), p),
            _ => (self.step_operand(env, t, p), p),
        }
    }

    /// Take a name, a literal or an operator.
    #[verifier::opaque]
    pub open spec fn step_operand(self, env: Input, t: Token, p: int) -> State {
        let k = t.kind;
        let text = t.lexeme@;
        if k == TokenKind::Lt && self.opens_template(env, p) {
            self.on_template_open(env)
        } else if k == TokenKind::Gt && self.depth.templates > 0 {
            self.on_template_close(env, seq!['>'], 1)
        } else if k == TokenKind::GtGt && self.depth.templates >= 2 {
            self.on_template_close(env, seq!['>', '>'], 2)
        } else if (k == TokenKind::Star || k == TokenKind::Amp) && self.at_declarator(env, p) {
            self.on_declarator(env, k, text)
        } else if k == TokenKind::Star || k == TokenKind::Amp || k == TokenKind::Plus || k
            == TokenKind::Minus {
            self.on_sign(env, k, text)
        } else if KindSet::Assign.has(k) {
            self.on_assign(env, k, text)
        } else if self.is_goto_label(env, k, p) {
            self.on_goto_label(env, k, text)
        } else {
            self.on_other(env, k, text)
        }
    }

    /// Take the tokens from `i` on, up to the end of the source.
    pub open spec fn run(self, env: Input, i: int) -> State
        decreases env.toks.len() - i,
    {
        let at = crate::scan::skip(env.toks, i, KindSet::Layout);
        let s = self.pass_layout(env.toks, i, at);
        if at < i || at >= env.toks.len() {
            s
        } else {
            let t = env.toks[at];
            let d = s.track_decls(env, t.kind, at + 1);
            if t.kind == TokenKind::Eof {
                d.on_eof(env)
            } else {
                let (next, p) = d.step(env, t, at + 1);
                if i < p <= env.toks.len() {
                    next.run(env, p)
                } else {
                    next
                }
            }
        }
    }
}

/// The text that the layout machine makes of the tokens.
pub open spec fn layout_text(toks: Seq<Token>, config: Config, eol: Eol) -> Seq<char> {
    let out = crate::layout::initial_state().run(Input { toks, config, eol }, 0).page.out;
    if eol == Eol::Lf {
        out
    } else {
        crate::trivia::unify(out, eol)
    }
}

proof fn lemma_count_step(toks: Seq<Token>, i: int, j: int, k: TokenKind)
    requires
        i <= j,
    ensures
        count_kind(toks, i, j + 1, k) == count_kind(toks, i, j, k) + (if toks[j].kind == k {
            1nat
        } else {
            0nat
        }),
        count_kind(toks, i, j, k) <= j - i,
    decreases j - i,
{
    reveal_with_fuel(count_kind, 2);
    if i < j {
        lemma_count_step(toks, i + 1, j, k);
    }
}

impl Layout {
    fn pass_layout(&mut self, tokens: &[Token], i: usize) -> (at: usize)
        requires
            i <= tokens@.len(),
            old(self)@.within(i as nat),
        ensures
            at == crate::scan::skip(tokens@, i as int, KindSet::Layout),
            i <= at <= tokens@.len(),
            final(self)@ == old(self)@.pass_layout(tokens@, i as int, at as int),
            final(self)@.within(at as nat),
    {
        let mut at: usize = i;
        let mut lines: usize = 0;
        let mut blanks = false;
        while at < tokens.len() && KindSet::Layout.test(tokens[at].kind)
            invariant
                i <= at <= tokens@.len(),
                lines <= at - i,
                lines == count_kind(tokens@, i as int, at as int, TokenKind::Newline),
                blanks == (count_kind(tokens@, i as int, at as int, TokenKind::Whitespace) > 0),
                crate::scan::skip(tokens@, i as int, KindSet::Layout) == crate::scan::skip(
                    tokens@,
                    at as int,
                    KindSet::Layout,
                ),
            decreases tokens@.len() - at,
        {
            proof {
                lemma_count_step(tokens@, i as int, at as int, TokenKind::Newline);
                lemma_count_step(tokens@, i as int, at as int, TokenKind::Whitespace);
            }
            if tokens[at].kind == TokenKind::Newline {
                lines += 1;
            } else {
                blanks = true;
            }
            at += 1;
        }
        let kept = if self.skip_newline && lines > 0 {
            lines - 1
        } else {
            lines
        };
        self.blank_lines = self.blank_lines + kept;
        self.skip_newline = false;
        self.src_space = blanks;
        at
    }

    fn is_in_body(&self) -> (r: bool)
        ensures
            r == self@.in_body(),
    {
        self.braces.len() > 0 && match self.inner_ctx() {
            BraceCtx::Type | BraceCtx::Namespace | BraceCtx::Linkage => false,
            _ => true,
        }
    }

    fn step_operand(&mut self, env: &Env, t: &Token, p: usize)
        requires
            1 <= p <= env.tokens@.len(),
            old(self)@.within((p - 1) as nat),
        ensures
            final(self)@ == old(self)@.step_operand(env@, *t, p as int),
            final(self)@.within(p as nat),
    {
        proof {
            reveal(State::step_operand);
        }
        let k = t.kind;
        let prev = self.marks.prev;
        if k == TokenKind::Lt && (prev == Some(TokenKind::Ident) || prev == Some(
            TokenKind::KwTemplate,
        ) || prev == Some(TokenKind::Gt)) && looks_like_template_open(env.tokens, p) {
            self.on_template_open(env, p);
        } else if k == TokenKind::Gt && self.depth.templates > 0 {
            proof {
                reveal_strlit(">");
                assert(">"@ =~= seq!['>']);
            }
            self.on_template_close(env, ">", 1, p);
        } else if k == TokenKind::GtGt && self.depth.templates >= 2 {
            proof {
                reveal_strlit(">>");
                assert(">>"@ =~= seq!['>', '>']);
            }
            self.on_template_close(env, ">>", 2, p);
        } else if (k == TokenKind::Star || k == TokenKind::Amp) && !self.marks.after_operator
            && is_ptr_decl_context(
            env.tokens,
            p,
            prev,
            self.is_in_body(),
        ) {
            self.on_declarator(env, k, t.lexeme, p);
        } else if k == TokenKind::Star || k == TokenKind::Amp || k == TokenKind::Plus || k
            == TokenKind::Minus {
            self.on_sign(env, k, t.lexeme, p);
        } else if KindSet::Assign.test(k) {
            self.on_assign(env, k, t.lexeme, p);
        } else if self.at_goto_label(env, k, p) {
            self.on_goto_label(env, k, t.lexeme, p);
        } else {
            self.on_other(env, k, t.lexeme, p);
        }
    }

    fn step(&mut self, env: &Env, t: &Token, p: usize) -> (q: usize)
        requires
            1 <= p <= env.tokens@.len(),
            old(self)@.within((p - 1) as nat),
        ensures
            (final(self)@, q as int) == old(self)@.step(env@, *t, p as int),
            p <= q <= env.tokens@.len(),
            final(self)@.within(q as nat),
    {
        proof {
            reveal(State::step);
        }
        let k = t.kind;
        match k {
            TokenKind::LBrace => {
                return self.on_lbrace(env, p, t.span.line);
            },
            TokenKind::PreprocLine => self.on_preproc(env, t.lexeme, p),
            TokenKind::CommentLine => self.on_line_comment(env, t.lexeme, p),
            TokenKind::CommentBlock => self.on_block_comment(env, t.lexeme, p),
            TokenKind::RBrace => self.on_rbrace(env, p, t.span.line),
            TokenKind::Semi => self.on_semi(env, p, t.span.line),
            TokenKind::Comma => self.on_comma(env, p, t.span.line),
            TokenKind::LParen => self.on_lparen(env, p),
            TokenKind::RParen => self.on_rparen(env, p),
            TokenKind::LBracket => self.on_lbracket(env, p),
            TokenKind::RBracket => self.on_rbracket(env, p),
            TokenKind::Colon => self.on_colon(env, p),
            TokenKind::KwSwitch => self.on_switch(env, k, t.lexeme, p),
            TokenKind::KwCase | TokenKind::KwDefault => self.on_case(env, k, t.lexeme, p),
            TokenKind::KwPublic | TokenKind::KwPrivate | TokenKind::KwProtected => self.on_access(
                env,
                k,
                t.lexeme,
                p,
            ),
            TokenKind::KwClass
            | TokenKind::KwStruct
            | TokenKind::KwUnion
            | TokenKind::KwEnum => self.on_type_kw(env, k, t.lexeme, p),
            _ => self.step_operand(env, t, p),
        }
        p
    }

    fn run(&mut self, env: &Env)
        requires
            old(self)@ == crate::layout::initial_state(),
        ensures
            final(self)@ == old(self)@.run(env@, 0),
    {
        let ghost whole = self@.run(env@, 0);
        let mut i: usize = 0;
        loop
            invariant_except_break
                i <= env.tokens@.len(),
                self@.within(i as nat),
                whole == self@.run(env@, i as int),
            ensures
                self@ == whole,
            decreases env.tokens@.len() - i,
        {
            let at = self.pass_layout(env.tokens, i);
            if at >= env.tokens.len() {
                break;
            }
            let t = env.tokens[at];
            self.track_decls(env, t.kind, at + 1);
            if t.kind == TokenKind::Eof {
                self.on_eof(env);
                break;
            }
            i = self.step(env, &t, at + 1);
        }
    }
}

/// Lay the tokens out, with lines ended by `eol`.
pub(crate) fn lay_out(tokens: &[Token], config: &Config, eol: Eol) -> (r: Vec<char>)
    ensures
        r@ == layout_text(tokens@, *config, eol),
{
    let env = Env { tokens, config, eol };
    let mut layout = Layout::new();
    layout.run(&env);
    if eol == Eol::Lf {
        layout.page.out
    } else {
        unified(layout.page.out.as_slice(), eol)
    }
}

} // verus!
