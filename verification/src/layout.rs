//! The state of the layout machine and the steps that every token shares:
//! writing, breaking lines, indenting and aligning.

use crate::config::{BraceStyle, Config, Eol};
use crate::scan::{comment_precedes_decl, is_decl, peek_inline_comment};
use crate::text::{
    chars_of, last_is, last_line_len, prefix, push_all, push_repeat, push_spaces, push_str,
    trimmed_len, Class,
};
use crate::token::{KindSet, Token, TokenKind};
use vstd::prelude::*;

verus! {

// ── Model ────────────────────────────────────────────────────────────────────

/// What a `{` opened.
#[derive(Debug, Clone, Copy, PartialEq, Eq, Structural)]
pub enum BraceCtx {
    /// The body of `if`, `for`, `while`, `do`, `else`, `try` or `catch`.
    Block,
    /// The body of a struct, class, union or enum.
    Type,
    Namespace,
    /// The body of a function definition.
    Function,
    /// The body of a `switch`.
    Switch,
    /// A linkage block: no extra indentation.
    Linkage,
    /// An initializer list and everything else.
    Other,
}

/// An open `{`.
#[derive(Debug, Clone, Copy, PartialEq, Eq, Structural)]
pub struct Brace {
    pub ctx: BraceCtx,
    /// It opened a flat initializer that is written one element per line.
    pub large_init: bool,
}

/// An open `(`, as the contracts see it.
pub struct ParenView {
    /// The column behind the `(`, to which continuation lines align.
    pub col: nat,
    /// The `(` ended its line, so that continuation lines start at `eol_col`.
    pub eol: bool,
    pub eol_col: nat,
    /// The `(` opened a cast.
    pub cast: bool,
}

/// What the layout machine reads: the tokens, the settings and the line
/// terminator.
pub struct Input<'a> {
    pub toks: Seq<Token<'a>>,
    pub config: Config,
    pub eol: Eol,
}

/// The output under construction, as the contracts see it.
pub struct PageView {
    /// The text written so far.
    pub out: Seq<char>,
    /// Nothing was written yet on the current line.
    pub at_line_start: bool,
    /// The next optional space is left out.
    pub suppress_space: bool,
    /// The column at which the current line's indentation ended.
    pub line_indent: nat,
}

/// What is known of the last tokens.
#[derive(Debug, Clone, Copy, PartialEq, Eq, Structural)]
pub struct Marks {
    /// The kind of the last token written.
    pub prev: Option<TokenKind>,
    /// It was the word `operator`.
    pub after_operator: bool,
    /// It was an overloaded operator's symbol.
    pub after_overload: bool,
    /// It closed a template argument list.
    pub after_template: bool,
    /// It closed a cast.
    pub after_cast: bool,
    /// It was the `:` of a `case` or `default` label.
    pub after_case_colon: bool,
    /// A `switch` awaits its `{`.
    pub pending_switch: bool,
    /// A `class`, `struct`, `union` or `enum` awaits its `{`.
    pub pending_type: bool,
    /// A linkage specification awaits its `{`.
    pub pending_linkage: bool,
    /// A `case` or `default` awaits its `:`.
    pub in_case_label: bool,
    /// An access specifier awaits its `:`.
    pub in_access_label: bool,
    /// A goto label awaits its `:`.
    pub in_goto_label: bool,
}

/// The progress of the declarations that lead a function body.
#[derive(Debug, Clone, Copy, PartialEq, Eq, Structural)]
pub struct Decls {
    /// The run of leading declarations goes on.
    pub running: bool,
    /// The next token starts a statement of the function body.
    pub at_stmt_start: bool,
    /// A leading declaration was seen.
    pub seen: bool,
    /// A blank line is owed behind the leading declarations.
    pub owe_blank: bool,
}

/// The nesting counters, as the contracts see them.
pub struct DepthView {
    /// The current indentation level.
    pub indent: nat,
    /// Open `[`.
    pub brackets: nat,
    /// Open `switch` bodies.
    pub switches: nat,
    /// Open type bodies.
    pub classes: nat,
    /// Open template argument lists.
    pub templates: nat,
    /// Ternary `?` that await their `:`.
    pub ternaries: nat,
    /// Open `#if` groups.
    pub pp_groups: nat,
}

/// An assignment whose right-hand side goes on, as the contracts see it.
pub struct AssignView {
    /// The column to which the right-hand side aligns.
    pub col: nat,
    /// The assignment operator ended its line.
    pub eol: bool,
}

/// The state of the layout machine.
pub struct State {
    pub page: PageView,
    pub marks: Marks,
    pub decls: Decls,
    pub depth: DepthView,
    pub braces: Seq<Brace>,
    pub parens: Seq<ParenView>,
    /// How many parentheses were open when the current line was indented.
    pub line_parens: nat,
    /// For each open `switch`: its current case added an indentation level.
    pub cases: Seq<bool>,
    /// For each open `#if` group: the indentation level at its start.
    pub pp_saved: Seq<nat>,
    pub assign: Option<AssignView>,
    /// Line ends that await the next token.
    pub blank_lines: nat,
    /// The next line end of the source was already written.
    pub skip_newline: bool,
    /// Blanks preceded the current token in the source.
    pub src_space: bool,
}

pub open spec fn initial_marks() -> Marks {
    Marks {
        prev: None,
        after_operator: false,
        after_overload: false,
        after_template: false,
        after_cast: false,
        after_case_colon: false,
        pending_switch: false,
        pending_type: false,
        pending_linkage: false,
        in_case_label: false,
        in_access_label: false,
        in_goto_label: false,
    }
}

pub open spec fn initial_state() -> State {
    State {
        page: PageView {
            out: Seq::empty(),
            at_line_start: true,
            suppress_space: false,
            line_indent: 0,
        },
        marks: initial_marks(),
        decls: Decls { running: false, at_stmt_start: false, seen: false, owe_blank: false },
        depth: DepthView {
            indent: 0,
            brackets: 0,
            switches: 0,
            classes: 0,
            templates: 0,
            ternaries: 0,
            pp_groups: 0,
        },
        braces: Seq::empty(),
        parens: Seq::empty(),
        line_parens: 0,
        cases: Seq::empty(),
        pp_saved: Seq::empty(),
        assign: None,
        blank_lines: 0,
        skip_newline: false,
        src_space: false,
    }
}

pub open spec fn max(a: nat, b: nat) -> nat {
    if a < b {
        b
    } else {
        a
    }
}

pub open spec fn min(a: nat, b: nat) -> nat {
    if a < b {
        a
    } else {
        b
    }
}

/// `a - b`, but no less than zero.
pub open spec fn minus(a: nat, b: nat) -> nat {
    if a < b {
        0
    } else {
        (a - b) as nat
    }
}

impl PageView {
    /// Append text. Spaces behind it are not suppressed.
    pub open spec fn write(self, t: Seq<char>) -> PageView {
        if t.len() == 0 {
            self
        } else {
            PageView {
                out: self.out + t,
                at_line_start: t.last() == '\n',
                suppress_space: false,
                ..self
            }
        }
    }

    /// End the current line, without the spaces at its end, and write `n - 1`
    /// empty ones.
    pub open spec fn end_lines(self, eol: Eol, n: nat) -> PageView {
        if n == 0 {
            self
        } else {
            PageView {
                out: crate::text::trim_end(self.out, Class::Space) + crate::text::repeat(eol.text(), n),
                at_line_start: true,
                suppress_space: false,
                line_indent: 0,
            }
        }
    }

    /// End the line.
    pub open spec fn nl(self, eol: Eol) -> PageView {
        self.end_lines(eol, 1)
    }

    /// One space, unless it is suppressed, the line is still empty or there is
    /// one already.
    pub open spec fn space(self) -> PageView {
        if self.suppress_space {
            PageView { suppress_space: false, ..self }
        } else if !self.at_line_start && !crate::text::ends_with(self.out, ' ') {
            PageView { out: self.out.push(' '), ..self }
        } else {
            self
        }
    }

    /// Take back all white space at the end of the output.
    pub open spec fn join_line(self) -> PageView {
        PageView { out: crate::text::trim_end(self.out, Class::AsciiWhite), at_line_start: false, ..self }
    }

    /// Start the line with `lead`; the line then counts as begun if `started`.
    pub open spec fn lead(self, lead: Seq<char>, started: bool) -> PageView {
        PageView {
            out: self.out + lead,
            at_line_start: self.at_line_start && !started,
            ..self
        }
    }

    /// The last character before the white space at the end is `c`.
    pub open spec fn tail_is(self, c: char) -> bool {
        crate::text::ends_with(crate::text::trim_end(self.out, Class::White), c)
    }

    /// How many characters the current line holds.
    pub open spec fn col(self) -> nat {
        crate::text::tail_len(self.out)
    }
}

impl Marks {
    /// A token of kind `k` was written.
    pub open spec fn wrote(self, k: TokenKind) -> Marks {
        Marks {
            prev: Some(k),
            after_template: false,
            after_cast: false,
            after_overload: self.after_operator || (self.after_overload && (k
                == TokenKind::RBracket || k == TokenKind::RParen)),
            after_operator: false,
            after_case_colon: false,
            ..self
        }
    }
}

impl DepthView {
    /// No counter exceeds `n`.
    pub open spec fn within(self, n: nat) -> bool {
        &&& self.indent <= n
        &&& self.brackets <= n
        &&& self.switches <= n
        &&& self.classes <= n
        &&& self.templates <= n
        &&& self.ternaries <= n
        &&& self.pp_groups <= n
    }
}

impl State {
    /// No counter exceeds `n`. Each token raises a counter by at most one.
    pub open spec fn within(self, n: nat) -> bool {
        &&& self.depth.within(n)
        &&& self.blank_lines <= n
        &&& forall|i: int| 0 <= i < self.pp_saved.len() ==> #[trigger] self.pp_saved[i] <= n
    }

    /// The counters are those of `s`, but for blank lines that were written.
    pub open spec fn keeps(self, s: State) -> bool {
        &&& self.depth == s.depth
        &&& self.pp_saved == s.pp_saved
        &&& self.blank_lines <= s.blank_lines
    }

    pub open spec fn write(self, t: Seq<char>) -> State {
        State { page: self.page.write(t), ..self }
    }

    pub open spec fn nl(self, eol: Eol) -> State {
        State { page: self.page.nl(eol), ..self }
    }

    pub open spec fn space(self) -> State {
        State { page: self.page.space(), ..self }
    }

    pub open spec fn join_line(self) -> State {
        State { page: self.page.join_line(), ..self }
    }

    /// Record the kind of the token just written.
    pub open spec fn set_prev(self, k: TokenKind) -> State {
        State { marks: self.marks.wrote(k), ..self }
    }

    /// Indent to the open parenthesis. Behind a `(` that ended its line the
    /// column is that of the `(`'s line, one level deeper for each of its open
    /// parentheses.
    pub open spec fn align_to_paren(self) -> State {
        if self.parens.len() == 0 {
            self
        } else {
            let top = self.parens.last();
            let eol = top.eol || self.page.tail_is('(');
            let col = if eol {
                top.eol_col
            } else {
                top.col
            };
            State {
                page: self.page.lead(crate::text::spaces(col), eol || col > 0),
                parens: self.parens.drop_last().push(ParenView { eol, ..top }),
                ..self
            }
        }
    }

    /// Indent to the right-hand side of the assignment; behind an operator
    /// that ended its line, by one extra level.
    pub open spec fn align_to_assign(self, config: Config, a: AssignView) -> State {
        let eol = a.eol || self.page.tail_is('=');
        let lead = if eol {
            crate::text::repeat(config.indent_unit(), self.depth.indent + 1)
        } else {
            crate::text::spaces(a.col)
        };
        State {
            page: self.page.lead(lead, eol || a.col > 0),
            assign: Some(AssignView { col: a.col, eol }),
            ..self
        }
    }

    /// The current line's indentation ends here.
    pub open spec fn note_indent(self) -> State {
        State {
            page: PageView { line_indent: self.page.col(), ..self.page },
            line_parens: self.parens.len(),
            ..self
        }
    }

    /// Indent the current line.
    #[verifier::opaque]
    pub open spec fn start_line(self, config: Config) -> State {
        if self.parens.len() > 0 {
            self.align_to_paren().note_indent()
        } else {
            match self.assign {
                Some(a) => self.align_to_assign(config, a).note_indent(),
                None => State {
                    page: self.page.lead(
                        crate::text::repeat(config.indent_unit(), self.depth.indent),
                        self.depth.indent > 0,
                    ),
                    ..self
                }.note_indent(),
            }
        }
    }

    /// Indent on a fresh line.
    #[verifier::opaque]
    pub open spec fn own_line(self, config: Config, eol: Eol) -> State {
        if self.page.at_line_start {
            self.start_line(config)
        } else {
            self.nl(eol).start_line(config)
        }
    }

    /// Indent if the line is empty, else write one space if `wanted`.
    #[verifier::opaque]
    pub open spec fn lead_in(self, config: Config, wanted: bool) -> State {
        if self.page.at_line_start {
            self.start_line(config)
        } else if wanted {
            self.space()
        } else {
            self
        }
    }

    /// How many line ends are owed to the token at hand.
    pub open spec fn owed_lines(self, config: Config) -> nat {
        let least: nat = if !self.decls.owe_blank {
            0
        } else if self.page.at_line_start {
            1
        } else {
            2
        };
        min(max(self.blank_lines, least), config.newlines.max_blank_lines as nat)
    }

    /// Write the line ends that await the token at hand.
    #[verifier::opaque]
    pub open spec fn flush(self, config: Config, eol: Eol) -> State {
        State {
            page: self.page.end_lines(eol, self.owed_lines(config)),
            decls: Decls { owe_blank: false, ..self.decls },
            blank_lines: 0,
            ..self
        }
    }

    /// End the line; the source's own line end is then dropped.
    pub open spec fn break_line(self, eol: Eol) -> State {
        State { page: self.page.nl(eol), skip_newline: true, ..self }
    }

    /// End the line, unless a comment of source line `line` shares it.
    pub open spec fn break_unless_comment(self, env: Input, p: int, line: u32) -> State {
        if crate::scan::inline_comment(env.toks, p, line) {
            self
        } else {
            self.break_line(env.eol)
        }
    }

    /// The `}` of a `ctx` body continues on its line with the next token.
    pub open spec fn cuddles(config: Config, ctx: BraceCtx, next: Option<TokenKind>) -> bool {
        match next {
            Some(TokenKind::KwElse) => config.braces.cuddle_else && !config.newlines.nl_brace_else,
            Some(TokenKind::KwCatch) => config.braces.cuddle_catch,
            Some(TokenKind::KwWhile) => ctx == BraceCtx::Block,
            _ => false,
        }
    }

    /// What follows a `}`: nothing before `;`, one space before a cuddled
    /// keyword or the name of a type, a new line otherwise.
    #[verifier::opaque]
    pub open spec fn post_brace(
        self,
        env: Input,
        ctx: BraceCtx,
        next: Option<TokenKind>,
        p: int,
        line: u32,
    ) -> State {
        let names_type = ctx == BraceCtx::Type && next == Some(TokenKind::Ident);
        let cuddle = State::cuddles(env.config, ctx, next);
        let style = env.config.braces.style;
        if next == Some(TokenKind::Semi) {
            self
        } else if names_type || (cuddle && style == BraceStyle::Kr) {
            self.space()
        } else if cuddle && style == BraceStyle::Stroustrup && next == Some(TokenKind::KwElse) {
            self.break_line(env.eol)
        } else {
            self.break_unless_comment(env, p, line)
        }
    }

    /// A comment at the start of a function's statement leaves the run of
    /// leading declarations undecided.
    pub open spec fn comment_is_transparent(self, env: Input, k: TokenKind, p: int) -> bool {
        KindSet::Comment.has(k) && (!self.page.at_line_start || !self.decls.seen || crate::scan::decl_follows(
            env.toks,
            p,
        ))
    }

    /// Follow the run of declarations that leads a function body: the first
    /// statement behind it is owed a blank line.
    #[verifier::opaque]
    pub open spec fn track_decls(self, env: Input, k: TokenKind, p: int) -> State {
        let d = self.decls;
        if !env.config.newlines.blank_line_after_var_decl_block || !d.at_stmt_start || !d.running
            || self.comment_is_transparent(env, k, p) {
            self
        } else if crate::scan::starts_decl(env.toks, k, p) {
            State { decls: Decls { at_stmt_start: false, seen: true, ..d }, ..self }
        } else {
            State {
                decls: Decls {
                    at_stmt_start: false,
                    running: false,
                    owe_blank: d.owe_blank || d.seen,
                    ..d
                },
                ..self
            }
        }
    }
}

// ── Machine ──────────────────────────────────────────────────────────────────

/// An open `(`.
#[derive(Debug, Clone, Copy)]
pub struct Paren {
    pub col: u128,
    pub eol: bool,
    pub eol_col: u128,
    pub cast: bool,
}

impl View for Paren {
    type V = ParenView;

    open spec fn view(&self) -> ParenView {
        ParenView {
            col: self.col as nat,
            eol: self.eol,
            eol_col: self.eol_col as nat,
            cast: self.cast,
        }
    }
}

/// What the layout machine reads.
#[derive(Clone, Copy)]
pub struct Env<'a> {
    pub tokens: &'a [Token<'a>],
    pub config: &'a Config,
    pub eol: Eol,
}

impl<'a> View for Env<'a> {
    type V = Input<'a>;

    open spec fn view(&self) -> Input<'a> {
        Input { toks: self.tokens@, config: *self.config, eol: self.eol }
    }
}

/// The output under construction.
pub struct Page {
    pub out: Vec<char>,
    pub at_line_start: bool,
    pub suppress_space: bool,
    pub line_indent: usize,
}

impl View for Page {
    type V = PageView;

    open spec fn view(&self) -> PageView {
        PageView {
            out: self.out@,
            at_line_start: self.at_line_start,
            suppress_space: self.suppress_space,
            line_indent: self.line_indent as nat,
        }
    }
}

impl Page {
    pub(crate) fn put(&mut self, c: char)
        ensures
            final(self)@ == old(self)@.write(seq![c]),
    {
        self.out.push(c);
        self.at_line_start = c == '\n';
        self.suppress_space = false;
        assert(self.out@ =~= old(self).out@ + seq![c]);
    }

    pub(crate) fn write(&mut self, s: &[char])
        ensures
            final(self)@ == old(self)@.write(s@),
    {
        if s.len() > 0 {
            push_all(&mut self.out, s);
            self.at_line_start = s[s.len() - 1] == '\n';
            self.suppress_space = false;
        }
    }

    pub(crate) fn write_str(&mut self, s: &str)
        ensures
            final(self)@ == old(self)@.write(s@),
    {
        let n: usize = self.out.len();
        push_str(&mut self.out, s);
        if self.out.len() > n {
            self.at_line_start = self.out[self.out.len() - 1] == '\n';
            self.suppress_space = false;
        } else {
            assert(self.out@ =~= old(self).out@);
        }
    }

    pub(crate) fn end_lines(&mut self, eol: Eol, n: usize)
        ensures
            final(self)@ == old(self)@.end_lines(eol, n as nat),
    {
        if n > 0 {
            let keep = trimmed_len(self.out.as_slice(), Class::Space);
            self.out.truncate(keep);
            let end = chars_of(eol.as_str());
            push_repeat(&mut self.out, end.as_slice(), n);
            self.at_line_start = true;
            self.suppress_space = false;
            self.line_indent = 0;
        }
    }

    pub(crate) fn nl(&mut self, eol: Eol)
        ensures
            final(self)@ == old(self)@.nl(eol),
    {
        self.end_lines(eol, 1);
    }

    pub(crate) fn space(&mut self)
        ensures
            final(self)@ == old(self)@.space(),
    {
        if self.suppress_space {
            self.suppress_space = false;
        } else if !self.at_line_start && !last_is(self.out.as_slice(), ' ') {
            self.out.push(' ');
        }
    }

    pub(crate) fn join_line(&mut self)
        ensures
            final(self)@ == old(self)@.join_line(),
    {
        let keep = trimmed_len(self.out.as_slice(), Class::AsciiWhite);
        self.out.truncate(keep);
        self.at_line_start = false;
    }

    pub(crate) fn lead_spaces(&mut self, n: u128, started: bool)
        ensures
            final(self)@ == old(self)@.lead(crate::text::spaces(n as nat), started),
    {
        push_spaces(&mut self.out, n);
        self.at_line_start = self.at_line_start && !started;
    }

    pub(crate) fn lead_units(&mut self, config: &Config, n: usize, started: bool)
        ensures
            final(self)@ == old(self)@.lead(crate::text::repeat(config.indent_unit(), n as nat), started),
    {
        let unit = chars_of(config.indent_str().as_str());
        push_repeat(&mut self.out, unit.as_slice(), n);
        self.at_line_start = self.at_line_start && !started;
    }

    pub(crate) fn ends_in(&self, c: char) -> (r: bool)
        ensures
            r == self@.tail_is(c),
    {
        let n = trimmed_len(self.out.as_slice(), Class::White);
        last_is(prefix(self.out.as_slice(), n), c)
    }

    pub(crate) fn column(&self) -> (r: usize)
        ensures
            r == self@.col(),
    {
        last_line_len(self.out.as_slice())
    }
}

impl Marks {
    pub(crate) fn after(self, k: TokenKind) -> (r: Marks)
        ensures
            r == self.wrote(k),
    {
        Marks {
            prev: Some(k),
            after_template: false,
            after_cast: false,
            after_overload: self.after_operator || (self.after_overload && (k
                == TokenKind::RBracket || k == TokenKind::RParen)),
            after_operator: false,
            after_case_colon: false,
            ..self
        }
    }
}

/// The nesting counters.
#[derive(Debug, Clone, Copy)]
pub struct Depth {
    pub indent: usize,
    pub brackets: usize,
    pub switches: usize,
    pub classes: usize,
    pub templates: usize,
    pub ternaries: usize,
    pub pp_groups: usize,
}

impl View for Depth {
    type V = DepthView;

    open spec fn view(&self) -> DepthView {
        DepthView {
            indent: self.indent as nat,
            brackets: self.brackets as nat,
            switches: self.switches as nat,
            classes: self.classes as nat,
            templates: self.templates as nat,
            ternaries: self.ternaries as nat,
            pp_groups: self.pp_groups as nat,
        }
    }
}

/// An assignment whose right-hand side goes on.
#[derive(Debug, Clone, Copy)]
pub struct Assign {
    pub col: u128,
    pub eol: bool,
}

impl View for Assign {
    type V = AssignView;

    open spec fn view(&self) -> AssignView {
        AssignView { col: self.col as nat, eol: self.eol }
    }
}

/// The layout machine.
pub struct Layout {
    pub page: Page,
    pub marks: Marks,
    pub decls: Decls,
    pub depth: Depth,
    pub braces: Vec<Brace>,
    pub parens: Vec<Paren>,
    pub line_parens: usize,
    pub cases: Vec<bool>,
    pub pp_saved: Vec<usize>,
    pub assign: Option<Assign>,
    pub blank_lines: usize,
    pub skip_newline: bool,
    pub src_space: bool,
}

/// The open parentheses, as the contracts see them.
pub open spec fn paren_views(parens: Seq<Paren>) -> Seq<ParenView> {
    parens.map_values(|p: Paren| p@)
}

/// Indentation levels as numbers.
pub open spec fn levels(saved: Seq<usize>) -> Seq<nat> {
    saved.map_values(|n: usize| n as nat)
}

impl View for Layout {
    type V = State;

    open spec fn view(&self) -> State {
        State {
            page: self.page@,
            marks: self.marks,
            decls: self.decls,
            depth: self.depth@,
            braces: self.braces@,
            parens: paren_views(self.parens@),
            line_parens: self.line_parens as nat,
            cases: self.cases@,
            pp_saved: levels(self.pp_saved@),
            assign: match self.assign {
                Some(a) => Some(a@),
                None => None,
            },
            blank_lines: self.blank_lines as nat,
            skip_newline: self.skip_newline,
            src_space: self.src_space,
        }
    }
}

impl Layout {
    pub(crate) fn new() -> (r: Self)
        ensures
            r@ == initial_state(),
    {
        let r = Layout {
            page: Page {
                out: Vec::new(),
                at_line_start: true,
                suppress_space: false,
                line_indent: 0,
            },
            marks: Marks {
                prev: None,
                after_operator: false,
                after_overload: false,
                after_template: false,
                after_cast: false,
                after_case_colon: false,
                pending_switch: false,
                pending_type: false,
                pending_linkage: false,
                in_case_label: false,
                in_access_label: false,
                in_goto_label: false,
            },
            decls: Decls { running: false, at_stmt_start: false, seen: false, owe_blank: false },
            depth: Depth {
                indent: 0,
                brackets: 0,
                switches: 0,
                classes: 0,
                templates: 0,
                ternaries: 0,
                pp_groups: 0,
            },
            braces: Vec::new(),
            parens: Vec::new(),
            line_parens: 0,
            cases: Vec::new(),
            pp_saved: Vec::new(),
            assign: None,
            blank_lines: 0,
            skip_newline: false,
            src_space: false,
        };
        assert(r@.parens =~= Seq::empty());
        assert(r@.pp_saved =~= Seq::empty());
        r
    }

    pub(crate) fn put(&mut self, c: char)
        ensures
            final(self)@ == old(self)@.write(seq![c]),
    {
        self.page.put(c);
    }

    pub(crate) fn write_str(&mut self, s: &str)
        ensures
            final(self)@ == old(self)@.write(s@),
    {
        self.page.write_str(s);
    }

    pub(crate) fn nl(&mut self, eol: Eol)
        ensures
            final(self)@ == old(self)@.nl(eol),
    {
        self.page.nl(eol);
    }

    pub(crate) fn space(&mut self)
        ensures
            final(self)@ == old(self)@.space(),
    {
        self.page.space();
    }

    pub(crate) fn join_line(&mut self)
        ensures
            final(self)@ == old(self)@.join_line(),
    {
        self.page.join_line();
    }

    pub(crate) fn set_prev(&mut self, k: TokenKind)
        ensures
            final(self)@ == old(self)@.set_prev(k),
    {
        self.marks = self.marks.after(k);
    }

    pub(crate) fn align_to_paren(&mut self)
        ensures
            final(self)@ == old(self)@.align_to_paren(),
    {
        let n: usize = self.parens.len();
        if n == 0 {
            return;
        }
        let top = self.parens[n - 1];
        let eol = top.eol || self.page.ends_in('(');
        let col = if eol {
            top.eol_col
        } else {
            top.col
        };
        self.page.lead_spaces(col, eol || col > 0);
        let noted = Paren { col: top.col, eol, eol_col: top.eol_col, cast: top.cast };
        self.parens.pop();
        self.parens.push(noted);
        assert(self@.parens =~= old(self)@.parens.drop_last().push(noted@));
    }

    fn align_to_assign(&mut self, config: &Config, a: Assign)
        requires
            old(self).depth.indent < usize::MAX,
        ensures
            final(self)@ == old(self)@.align_to_assign(*config, a@),
    {
        let eol = a.eol || self.page.ends_in('=');
        if eol {
            self.page.lead_units(config, self.depth.indent + 1, true);
        } else {
            self.page.lead_spaces(a.col, a.col > 0);
        }
        self.assign = Some(Assign { col: a.col, eol });
    }

    fn note_indent(&mut self)
        ensures
            final(self)@ == old(self)@.note_indent(),
    {
        self.page.line_indent = self.page.column();
        self.line_parens = self.parens.len();
    }

    pub(crate) fn start_line(&mut self, config: &Config)
        requires
            old(self).depth.indent < usize::MAX,
        ensures
            final(self)@ == old(self)@.start_line(*config),
            final(self)@.keeps(old(self)@),
    {
        proof {
            reveal(State::start_line);
        }
        if self.parens.len() > 0 {
            self.align_to_paren();
        } else {
            match self.assign {
                Some(a) => self.align_to_assign(config, a),
                None => {
                    let n = self.depth.indent;
                    self.page.lead_units(config, n, n > 0);
                },
            }
        }
        self.note_indent();
    }

    pub(crate) fn own_line(&mut self, config: &Config, eol: Eol)
        requires
            old(self).depth.indent < usize::MAX,
        ensures
            final(self)@ == old(self)@.own_line(*config, eol),
            final(self)@.keeps(old(self)@),
    {
        proof {
            reveal(State::own_line);
            reveal(State::start_line);
        }
        if !self.page.at_line_start {
            self.nl(eol);
        }
        self.start_line(config);
    }

    pub(crate) fn lead_in(&mut self, config: &Config, wanted: bool)
        requires
            old(self).depth.indent < usize::MAX,
        ensures
            final(self)@ == old(self)@.lead_in(*config, wanted),
            final(self)@.keeps(old(self)@),
    {
        proof {
            reveal(State::lead_in);
            reveal(State::start_line);
        }
        if self.page.at_line_start {
            self.start_line(config);
        } else if wanted {
            self.space();
        }
    }

    pub(crate) fn flush(&mut self, config: &Config, eol: Eol)
        ensures
            final(self)@ == old(self)@.flush(*config, eol),
            final(self)@.keeps(old(self)@),
    {
        proof {
            reveal(State::flush);
        }
        let least: usize = if !self.decls.owe_blank {
            0
        } else if self.page.at_line_start {
            1
        } else {
            2
        };
        let wanted = if self.blank_lines < least {
            least
        } else {
            self.blank_lines
        };
        let most = config.newlines.max_blank_lines as usize;
        let n = if wanted < most {
            wanted
        } else {
            most
        };
        self.page.end_lines(eol, n);
        self.decls.owe_blank = false;
        self.blank_lines = 0;
    }

    pub(crate) fn break_line(&mut self, eol: Eol)
        ensures
            final(self)@ == old(self)@.break_line(eol),
    {
        self.page.nl(eol);
        self.skip_newline = true;
    }

    pub(crate) fn break_unless_comment(&mut self, env: &Env, p: usize, line: u32)
        requires
            p <= env.tokens@.len(),
        ensures
            final(self)@ == old(self)@.break_unless_comment(env@, p as int, line),
    {
        if !peek_inline_comment(env.tokens, p, line) {
            self.break_line(env.eol);
        }
    }

    pub(crate) fn post_brace(
        &mut self,
        env: &Env,
        ctx: BraceCtx,
        next: Option<TokenKind>,
        p: usize,
        line: u32,
    )
        requires
            p <= env.tokens@.len(),
        ensures
            final(self)@ == old(self)@.post_brace(env@, ctx, next, p as int, line),
            final(self)@.keeps(old(self)@),
    {
        proof {
            reveal(State::post_brace);
        }
        let names_type = ctx == BraceCtx::Type && next == Some(TokenKind::Ident);
        let cuddle = match next {
            Some(TokenKind::KwElse) => env.config.braces.cuddle_else
                && !env.config.newlines.nl_brace_else,
            Some(TokenKind::KwCatch) => env.config.braces.cuddle_catch,
            Some(TokenKind::KwWhile) => ctx == BraceCtx::Block,
            _ => false,
        };
        let style = env.config.braces.style;
        if next == Some(TokenKind::Semi) {
        } else if names_type || (cuddle && style == BraceStyle::Kr) {
            self.space();
        } else if cuddle && style == BraceStyle::Stroustrup && next == Some(TokenKind::KwElse) {
            self.break_line(env.eol);
        } else {
            self.break_unless_comment(env, p, line);
        }
    }

    pub(crate) fn track_decls(&mut self, env: &Env, k: TokenKind, p: usize)
        requires
            p <= env.tokens@.len(),
        ensures
            final(self)@ == old(self)@.track_decls(env@, k, p as int),
            final(self)@.keeps(old(self)@),
    {
        proof {
            reveal(State::track_decls);
        }
        let d = self.decls;
        if !env.config.newlines.blank_line_after_var_decl_block || !d.at_stmt_start || !d.running {
            return;
        }
        if KindSet::Comment.test(k) && (!self.page.at_line_start || !d.seen
            || comment_precedes_decl(env.tokens, p)) {
            return;
        }
        if is_decl(env.tokens, k, p) {
            self.decls = Decls { at_stmt_start: false, seen: true, ..d };
        } else {
            self.decls = Decls {
                at_stmt_start: false,
                running: false,
                owe_blank: d.owe_blank || d.seen,
                ..d
            };
        }
    }
}

} // verus!
