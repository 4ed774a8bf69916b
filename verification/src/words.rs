//! What the layout machine does with words, operators and angle brackets.

use crate::config::{Config, PointerAlign};
use crate::layout::{
    Assign, AssignView, Depth, DepthView, Env, Input, Layout, Marks, PageView, State,
};
use crate::scan::{is_kind, skip_over};
use crate::text::{chars_of, same, same_text};
use crate::token::{KindSet, TokenKind};
use vstd::prelude::*;

verus! {

// ── Plain words ──────────────────────────────────────────────────────────────

impl State {
    /// Write a token behind the indentation or space that its kind calls for.
    #[verifier::opaque]
    pub open spec fn write_spaced(self, env: Input, k: TokenKind, text: Seq<char>) -> State {
        let f = self.flush(env.config, env.eol);
        f.lead_in(env.config, f.needs_space(env.config, k)).write(text)
    }

    pub open spec fn on_switch(self, env: Input, k: TokenKind, text: Seq<char>) -> State {
        let s = self.write_spaced(env, k, text);
        State { marks: Marks { pending_switch: true, ..s.marks }, ..s }.set_prev(k)
    }

    pub open spec fn on_type_kw(self, env: Input, k: TokenKind, text: Seq<char>) -> State {
        let s = self.write_spaced(env, k, text);
        State { marks: Marks { pending_type: true, ..s.marks }, ..s }.set_prev(k)
    }

    pub open spec fn on_assign(self, env: Input, k: TokenKind, text: Seq<char>) -> State {
        let s = self.write_spaced(env, k, text);
        if s.parens.len() == 0 && s.depth.brackets == 0 && s.assign is None {
            let col = s.page.col() + (if env.config.spacing.space_around_binary_ops {
                1nat
            } else {
                0nat
            });
            State { assign: Some(AssignView { col, eol: false }), ..s }.set_prev(k)
        } else {
            s.set_prev(k)
        }
    }

    /// A name in front of a `:` at the start of a line, outside of all nested
    /// constructs, is a goto label.
    pub open spec fn is_goto_label(self, env: Input, k: TokenKind, p: int) -> bool {
        k == TokenKind::Ident && !env.config.indent.indent_goto_labels && self.page.at_line_start
            && self.parens.len() == 0 && self.depth.brackets == 0 && self.depth.templates == 0
            && self.depth.ternaries == 0 && !self.marks.in_case_label && !self.marks.in_access_label
            && crate::scan::is_at(
            env.toks,
            crate::scan::skip(env.toks, p, KindSet::Layout),
            TokenKind::Colon,
        )
    }

    pub open spec fn on_goto_label(self, env: Input, k: TokenKind, text: Seq<char>) -> State {
        let s = self.flush(env.config, env.eol).write(text);
        State { marks: Marks { in_goto_label: true, ..s.marks }, ..s }.set_prev(k)
    }
}

/// The word that starts a linkage specification.
pub open spec fn linkage_word() -> Seq<char> {
    seq!['e', 'x', 't', 'e', 'r', 'n']
}

impl State {
    /// A linkage specification awaits its `{` behind the word that starts it
    /// and behind the string in it.
    pub open spec fn mark_linkage(self, k: TokenKind, text: Seq<char>) -> State {
        let kept = k == TokenKind::LitStr && self.marks.pending_linkage;
        let started = k == TokenKind::Keyword && text == linkage_word();
        State { marks: Marks { pending_linkage: kept || started, ..self.marks }, ..self }
    }

    /// The symbol behind the word `operator` takes no space.
    pub open spec fn mark_operator(self, k: TokenKind, text: Seq<char>) -> State {
        let found = k == TokenKind::Keyword && text == "operator"@;
        State { marks: Marks { after_operator: found, ..self.marks }, ..self }
    }

    /// A `?` awaits its `:`.
    pub open spec fn mark_ternary(self, k: TokenKind) -> State {
        if k == TokenKind::Question {
            State {
                depth: DepthView { ternaries: self.depth.ternaries + 1, ..self.depth },
                ..self
            }
        } else {
            self
        }
    }

    pub open spec fn on_other(self, env: Input, k: TokenKind, text: Seq<char>) -> State {
        self.write_spaced(env, k, text).mark_linkage(k, text).set_prev(k).mark_operator(
            k,
            text,
        ).mark_ternary(k)
    }
}

fn is_linkage_word(s: &str) -> (r: bool)
    ensures
        r == (s@ == linkage_word()),
{
    let word: [char; 6] = ['e', 'x', 't', 'e', 'r', 'n'];
    assert(word@ =~= linkage_word());
    same(chars_of(s).as_slice(), word.as_slice())
}

impl Layout {
    fn write_spaced(&mut self, env: &Env, k: TokenKind, lexeme: &str)
        requires
            old(self).depth.indent < usize::MAX,
        ensures
            final(self)@ == old(self)@.write_spaced(env@, k, lexeme@),
            final(self)@.keeps(old(self)@),
            final(self)@.marks == old(self)@.marks,
    {
        proof {
            reveal(State::write_spaced);
            reveal(State::flush);
            reveal(State::lead_in);
            reveal(State::start_line);
        }
        self.flush(env.config, env.eol);
        let spaced = self.needs_space(env.config, k);
        self.lead_in(env.config, spaced);
        self.write_str(lexeme);
    }

    pub(crate) fn on_switch(&mut self, env: &Env, k: TokenKind, lexeme: &str, p: usize)
        requires
            1 <= p <= env.tokens@.len(),
            old(self)@.within((p - 1) as nat),
        ensures
            final(self)@ == old(self)@.on_switch(env@, k, lexeme@),
            final(self)@.within(p as nat),
    {
        self.write_spaced(env, k, lexeme);
        self.marks = Marks { pending_switch: true, ..self.marks };
        self.set_prev(k);
    }

    pub(crate) fn on_type_kw(&mut self, env: &Env, k: TokenKind, lexeme: &str, p: usize)
        requires
            1 <= p <= env.tokens@.len(),
            old(self)@.within((p - 1) as nat),
        ensures
            final(self)@ == old(self)@.on_type_kw(env@, k, lexeme@),
            final(self)@.within(p as nat),
    {
        self.write_spaced(env, k, lexeme);
        self.marks = Marks { pending_type: true, ..self.marks };
        self.set_prev(k);
    }

    pub(crate) fn on_assign(&mut self, env: &Env, k: TokenKind, lexeme: &str, p: usize)
        requires
            1 <= p <= env.tokens@.len(),
            old(self)@.within((p - 1) as nat),
        ensures
            final(self)@ == old(self)@.on_assign(env@, k, lexeme@),
            final(self)@.within(p as nat),
    {
        self.write_spaced(env, k, lexeme);
        if self.parens.len() == 0 && self.depth.brackets == 0 && self.assign.is_none() {
            let col = self.page.column() as u128;
            self.assign = Some(
                Assign {
                    col: if env.config.spacing.space_around_binary_ops {
                        col + 1
                    } else {
                        col
                    },
                    eol: false,
                },
            );
        }
        self.set_prev(k);
    }

    pub(crate) fn at_goto_label(&self, env: &Env, k: TokenKind, p: usize) -> (r: bool)
        requires
            p <= env.tokens@.len(),
        ensures
            r == self@.is_goto_label(env@, k, p as int),
    {
        k == TokenKind::Ident && !env.config.indent.indent_goto_labels && self.page.at_line_start
            && self.parens.len() == 0 && self.depth.brackets == 0 && self.depth.templates == 0
            && self.depth.ternaries == 0 && !self.marks.in_case_label && !self.marks.in_access_label
            && is_kind(
            env.tokens,
            skip_over(env.tokens, p, KindSet::Layout),
            TokenKind::Colon,
        )
    }

    pub(crate) fn on_goto_label(&mut self, env: &Env, k: TokenKind, lexeme: &str, p: usize)
        requires
            1 <= p <= env.tokens@.len(),
            old(self)@.within((p - 1) as nat),
        ensures
            final(self)@ == old(self)@.on_goto_label(env@, k, lexeme@),
            final(self)@.within(p as nat),
    {
        self.flush(env.config, env.eol);
        self.write_str(lexeme);
        self.marks = Marks { in_goto_label: true, ..self.marks };
        self.set_prev(k);
    }

    fn mark_linkage(&mut self, k: TokenKind, lexeme: &str)
        ensures
            final(self)@ == old(self)@.mark_linkage(k, lexeme@),
    {
        let kept = k == TokenKind::LitStr && self.marks.pending_linkage;
        let started = k == TokenKind::Keyword && is_linkage_word(lexeme);
        self.marks = Marks { pending_linkage: kept || started, ..self.marks };
    }

    fn mark_operator(&mut self, k: TokenKind, lexeme: &str)
        ensures
            final(self)@ == old(self)@.mark_operator(k, lexeme@),
    {
        let found = k == TokenKind::Keyword && same_text(lexeme, "operator");
        self.marks = Marks { after_operator: found, ..self.marks };
    }

    fn mark_ternary(&mut self, k: TokenKind)
        requires
            old(self).depth.ternaries < usize::MAX,
        ensures
            final(self)@ == old(self)@.mark_ternary(k),
    {
        if k == TokenKind::Question {
            self.depth = Depth { ternaries: self.depth.ternaries + 1, ..self.depth };
        }
    }

    pub(crate) fn on_other(&mut self, env: &Env, k: TokenKind, lexeme: &str, p: usize)
        requires
            1 <= p <= env.tokens@.len(),
            old(self)@.within((p - 1) as nat),
        ensures
            final(self)@ == old(self)@.on_other(env@, k, lexeme@),
            final(self)@.within(p as nat),
    {
        self.write_spaced(env, k, lexeme);
        self.mark_linkage(k, lexeme);
        self.set_prev(k);
        self.mark_operator(k, lexeme);
        self.mark_ternary(k);
    }
}

// ── Labels ───────────────────────────────────────────────────────────────────

impl State {
    /// Indent the current line as if the level were `n`.
    #[verifier::opaque]
    pub open spec fn start_line_at(self, config: Config, n: nat) -> State {
        let s = State { depth: DepthView { indent: n, ..self.depth }, ..self }.start_line(config);
        State { depth: self.depth, ..s }
    }

    /// Indent a `case` or `default` label: at the level of the `switch` body
    /// where case bodies are indented further, one level to the left otherwise.
    #[verifier::opaque]
    pub open spec fn start_case_line(self, config: Config) -> State {
        if config.indent.indent_switch_case {
            if self.cases.len() > 0 && self.cases.last() {
                State {
                    depth: DepthView {
                        indent: crate::layout::minus(self.depth.indent, 1),
                        ..self.depth
                    },
                    cases: self.cases.update(self.cases.len() - 1, false),
                    ..self
                }.start_line(config)
            } else {
                self.start_line(config)
            }
        } else if self.depth.switches > 0 {
            self.start_line_at(config, crate::layout::minus(self.depth.indent, 1))
        } else {
            self.start_line(config)
        }
    }

    pub open spec fn on_case(self, env: Input, k: TokenKind, text: Seq<char>) -> State {
        let f = self.flush(env.config, env.eol);
        let led = if f.page.at_line_start {
            f.start_case_line(env.config)
        } else if f.needs_space(env.config, k) {
            f.space()
        } else {
            f
        };
        let s = led.write(text);
        State { marks: Marks { in_case_label: true, ..s.marks }, ..s }.set_prev(k)
    }

    /// An access specifier that starts a label awaits its `:`.
    pub open spec fn mark_access(self, label: bool) -> State {
        State {
            marks: Marks { in_access_label: self.marks.in_access_label || label, ..self.marks },
            ..self
        }
    }

    pub open spec fn on_access(self, env: Input, k: TokenKind, text: Seq<char>) -> State {
        let f = self.flush(env.config, env.eol);
        let labels = f.page.at_line_start && f.depth.classes > 0;
        let led = if labels {
            f.start_line_at(env.config, crate::layout::minus(f.depth.indent, 1))
        } else if !f.page.at_line_start && f.needs_space(env.config, k) {
            f.space()
        } else {
            f
        };
        led.write(text).mark_access(labels).set_prev(k)
    }
}

impl Layout {
    fn start_line_at(&mut self, config: &Config, n: usize)
        requires
            n < usize::MAX,
        ensures
            final(self)@ == old(self)@.start_line_at(*config, n as nat),
            final(self)@.keeps(old(self)@),
    {
        proof {
            reveal(State::start_line_at);
        }
        let saved = self.depth;
        self.depth = Depth { indent: n, ..saved };
        self.start_line(config);
        self.depth = saved;
    }

    fn start_case_line(&mut self, config: &Config)
        requires
            old(self).depth.indent < usize::MAX,
        ensures
            final(self)@ == old(self)@.start_case_line(*config),
            forall|n: nat| old(self)@.within(n) ==> #[trigger] final(self)@.within(n),
    {
        proof {
            reveal(State::start_case_line);
        }
        let n: usize = self.depth.indent;
        let outer = if n > 0 {
            n - 1
        } else {
            0
        };
        if config.indent.indent_switch_case {
            if self.cases.len() > 0 && self.cases[self.cases.len() - 1] {
                let top = self.cases.len() - 1;
                self.cases.set(top, false);
                self.depth = Depth { indent: outer, ..self.depth };
            }
            self.start_line(config);
        } else if self.depth.switches > 0 {
            self.start_line_at(config, outer);
        } else {
            self.start_line(config);
        }
    }

    pub(crate) fn on_case(&mut self, env: &Env, k: TokenKind, lexeme: &str, p: usize)
        requires
            1 <= p <= env.tokens@.len(),
            old(self)@.within((p - 1) as nat),
        ensures
            final(self)@ == old(self)@.on_case(env@, k, lexeme@),
            final(self)@.within(p as nat),
    {
        self.flush(env.config, env.eol);
        if self.page.at_line_start {
            assert(self@.within(p as nat));
            self.start_case_line(env.config);
            assert(self@.within(p as nat));
        } else if self.needs_space(env.config, k) {
            self.space();
        }
        self.write_str(lexeme);
        self.marks = Marks { in_case_label: true, ..self.marks };
        self.set_prev(k);
    }

    fn mark_access(&mut self, label: bool)
        ensures
            final(self)@ == old(self)@.mark_access(label),
    {
        let pending = self.marks.in_access_label || label;
        self.marks = Marks { in_access_label: pending, ..self.marks };
    }

    pub(crate) fn on_access(&mut self, env: &Env, k: TokenKind, lexeme: &str, p: usize)
        requires
            1 <= p <= env.tokens@.len(),
            old(self)@.within((p - 1) as nat),
        ensures
            final(self)@ == old(self)@.on_access(env@, k, lexeme@),
            final(self)@.within(p as nat),
    {
        self.flush(env.config, env.eol);
        let labels = self.page.at_line_start && self.depth.classes > 0;
        if labels {
            let n: usize = self.depth.indent;
            self.start_line_at(
                env.config,
                if n > 0 {
                    n - 1
                } else {
                    0
                },
            );
        } else if !self.page.at_line_start && self.needs_space(env.config, k) {
            self.space();
        }
        self.write_str(lexeme);
        self.mark_access(labels);
        self.set_prev(k);
    }
}

// ── Angle brackets ───────────────────────────────────────────────────────────

impl State {
    /// The `<` before `p` opens a template argument list.
    pub open spec fn opens_template(self, env: Input, p: int) -> bool {
        (self.marks.prev == Some(TokenKind::Ident) || self.marks.prev == Some(TokenKind::KwTemplate)
            || self.marks.prev == Some(TokenKind::Gt)) && crate::scan::opens_template(env.toks, p)
    }

    /// The state with `n` open template argument lists.
    pub open spec fn with_templates(self, n: nat) -> State {
        State { depth: DepthView { templates: n, ..self.depth }, ..self }
    }

    pub open spec fn on_template_open(self, env: Input) -> State {
        let s = self.flush(env.config, env.eol).lead_in(env.config, false).write(
            seq!['<'],
        ).with_templates(self.depth.templates + 1);
        if env.config.spacing.space_inside_angle_brackets {
            s.space().set_prev(TokenKind::Lt)
        } else {
            s.set_prev(TokenKind::Lt)
        }
    }

    /// Leave the `n` innermost template argument lists.
    pub open spec fn close_templates(self, n: nat) -> State {
        State {
            depth: DepthView {
                templates: crate::layout::minus(self.depth.templates, n),
                ..self.depth
            },
            marks: Marks { prev: Some(TokenKind::Gt), after_template: true, ..self.marks },
            ..self
        }
    }

    /// Write `text`, which closes `n` template argument lists.
    pub open spec fn on_template_close(self, env: Input, text: Seq<char>, n: nat) -> State {
        self.flush(env.config, env.eol).lead_in(
            env.config,
            env.config.spacing.space_inside_angle_brackets,
        ).write(text).close_templates(n)
    }
}

impl Layout {
    pub(crate) fn on_template_open(&mut self, env: &Env, p: usize)
        requires
            1 <= p <= env.tokens@.len(),
            old(self)@.within((p - 1) as nat),
        ensures
            final(self)@ == old(self)@.on_template_open(env@),
            final(self)@.within(p as nat),
    {
        self.flush(env.config, env.eol);
        self.lead_in(env.config, false);
        self.put('<');
        self.depth = Depth { templates: self.depth.templates + 1, ..self.depth };
        if env.config.spacing.space_inside_angle_brackets {
            self.space();
        }
        self.set_prev(TokenKind::Lt);
    }

    fn close_templates(&mut self, n: usize)
        ensures
            final(self)@ == old(self)@.close_templates(n as nat),
    {
        let open: usize = self.depth.templates;
        self.depth = Depth {
            templates: if open < n {
                0
            } else {
                open - n
            },
            ..self.depth
        };
        self.marks = Marks { prev: Some(TokenKind::Gt), after_template: true, ..self.marks };
    }

    pub(crate) fn on_template_close(&mut self, env: &Env, lexeme: &str, n: usize, p: usize)
        requires
            1 <= p <= env.tokens@.len(),
            old(self)@.within((p - 1) as nat),
        ensures
            final(self)@ == old(self)@.on_template_close(env@, lexeme@, n as nat),
            final(self)@.within(p as nat),
    {
        self.flush(env.config, env.eol);
        self.lead_in(env.config, env.config.spacing.space_inside_angle_brackets);
        self.write_str(lexeme);
        self.close_templates(n);
    }
}

// ── Stars, ampersands and signs ──────────────────────────────────────────────

impl State {
    /// The next optional space is left out if `on`.
    pub open spec fn suppress(self, on: bool) -> State {
        State {
            page: PageView { suppress_space: self.page.suppress_space || on, ..self.page },
            ..self
        }
    }

    /// A pointer or reference declarator, attached as the settings say.
    pub open spec fn on_declarator(self, env: Input, k: TokenKind, text: Seq<char>) -> State {
        let f = self.flush(env.config, env.eol);
        let align = env.config.spacing.pointer_align;
        let spaced = match align {
            PointerAlign::Middle => f.needs_space(env.config, k),
            PointerAlign::Type => false,
            PointerAlign::Name => f.marks.prev != Some(TokenKind::Star) && f.marks.prev != Some(
                TokenKind::Amp,
            ),
        };
        f.lead_in(env.config, spaced).write(text).suppress(align == PointerAlign::Name).set_prev(k)
    }

    /// The operator at hand has an operand on its left.
    pub open spec fn is_infix(self) -> bool {
        !self.page.at_line_start && !self.marks.after_cast && self.marks.prev is Some
            && KindSet::EndsExpr.has(self.marks.prev->0)
    }

    /// A `*`, `&`, `+` or `-` in an expression. A unary one clings to its
    /// operand.
    pub open spec fn on_sign(self, env: Input, k: TokenKind, text: Seq<char>) -> State {
        let f = self.flush(env.config, env.eol);
        let prefix = !f.is_infix() && !f.marks.after_operator;
        f.lead_in(env.config, f.needs_space(env.config, k)).write(text).suppress(prefix).set_prev(
            k,
        )
    }
}

impl Layout {
    fn suppress(&mut self, on: bool)
        ensures
            final(self)@ == old(self)@.suppress(on),
    {
        self.page.suppress_space = self.page.suppress_space || on;
    }

    pub(crate) fn on_declarator(&mut self, env: &Env, k: TokenKind, lexeme: &str, p: usize)
        requires
            1 <= p <= env.tokens@.len(),
            old(self)@.within((p - 1) as nat),
        ensures
            final(self)@ == old(self)@.on_declarator(env@, k, lexeme@),
            final(self)@.within(p as nat),
    {
        self.flush(env.config, env.eol);
        let align = env.config.spacing.pointer_align;
        let spaced = match align {
            PointerAlign::Middle => self.needs_space(env.config, k),
            PointerAlign::Type => false,
            PointerAlign::Name => self.marks.prev != Some(TokenKind::Star) && self.marks.prev
                != Some(TokenKind::Amp),
        };
        self.lead_in(env.config, spaced);
        self.write_str(lexeme);
        self.suppress(align == PointerAlign::Name);
        self.set_prev(k);
    }

    pub(crate) fn on_sign(&mut self, env: &Env, k: TokenKind, lexeme: &str, p: usize)
        requires
            1 <= p <= env.tokens@.len(),
            old(self)@.within((p - 1) as nat),
        ensures
            final(self)@ == old(self)@.on_sign(env@, k, lexeme@),
            final(self)@.within(p as nat),
    {
        self.flush(env.config, env.eol);
        let ends = match self.marks.prev {
            Some(prev) => KindSet::EndsExpr.test(prev),
            None => false,
        };
        let infix = !self.page.at_line_start && !self.marks.after_cast && ends;
        let prefix = !infix && !self.marks.after_operator;
        let spaced = self.needs_space(env.config, k);
        self.lead_in(env.config, spaced);
        self.write_str(lexeme);
        self.suppress(prefix);
        self.set_prev(k);
    }
}

} // verus!
