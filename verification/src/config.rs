//! The formatter's settings, grouped as in the `funky.toml` file.

use vstd::prelude::*;

verus! {

// ── Line endings ─────────────────────────────────────────────────────────────

/// A concrete line terminator.
#[derive(Debug, Clone, Copy, PartialEq, Eq, Structural)]
pub enum Eol {
    Lf,
    CrLf,
}

impl Eol {
    /// The characters that end a line.
    pub open spec fn text(self) -> Seq<char> {
        match self {
            Eol::Lf => seq!['\n'],
            Eol::CrLf => seq!['\r', '\n'],
        }
    }

    pub fn as_str(self) -> (r: &'static str)
        ensures
            r@ == self.text(),
    {
        proof {
            reveal_strlit("\n");
            reveal_strlit("\r\n");
        }
        match self {
            Eol::Lf => "\n",
            Eol::CrLf => "\r\n",
        }
    }
}

// ── Top-level config ─────────────────────────────────────────────────────────

#[derive(Debug, Clone)]
pub struct Config {
    pub indent: IndentConfig,
    pub braces: BraceConfig,
    pub spacing: SpacingConfig,
    pub newlines: NewlineConfig,
    pub preprocessor: PreprocConfig,
    pub comments: CommentConfig,
    pub ignore: IgnoreConfig,
}

impl Default for Config {
    fn default() -> (r: Self)
        ensures
            r.indent == default_indent(),
            r.braces == default_braces(),
            r.spacing == default_spacing(),
            r.newlines == default_newlines(),
            r.preprocessor == default_preprocessor(),
            r.comments == default_comments(),
            r.ignore.patterns@.len() == 0,
    {
        Config {
            indent: IndentConfig::default(),
            braces: BraceConfig::default(),
            spacing: SpacingConfig::default(),
            newlines: NewlineConfig::default(),
            preprocessor: PreprocConfig::default(),
            comments: CommentConfig::default(),
            ignore: IgnoreConfig::default(),
        }
    }
}

impl Config {
    /// Whether lines may be ended by `eol` under these settings. The `Native`
    /// style follows the platform, so it may be either terminator.
    pub open spec fn allows_eol(&self, eol: Eol) -> bool {
        match self.newlines.style {
            NewlineStyle::Lf => eol == Eol::Lf,
            NewlineStyle::Crlf => eol == Eol::CrLf,
            NewlineStyle::Native => true,
        }
    }

    /// The line terminator to use.
    pub fn eol(&self) -> (r: Eol)
        ensures
            self.allows_eol(r),
    {
        match self.newlines.style {
            NewlineStyle::Lf => Eol::Lf,
            NewlineStyle::Crlf => Eol::CrLf,
            NewlineStyle::Native => {
                // Only Windows-like platforms separate paths with a backslash.
                if std::path::is_separator('\\') {
                    Eol::CrLf
                } else {
                    Eol::Lf
                }
            },
        }
    }

    /// The string used to terminate lines in the output.
    pub fn newline_str(&self) -> (r: &'static str)
        ensures
            exists|eol: Eol| self.allows_eol(eol) && r@ == #[trigger] eol.text(),
    {
        let eol = self.eol();
        assert(self.allows_eol(eol) && eol.text() == eol.text());
        eol.as_str()
    }

    /// One indentation level: `width` spaces, or one tab.
    pub open spec fn indent_unit(&self) -> Seq<char> {
        match self.indent.style {
            IndentStyle::Spaces => Seq::new(self.indent.width as nat, |i: int| ' '),
            IndentStyle::Tabs => seq!['\t'],
        }
    }

    /// One indentation level as a string.
    pub fn indent_str(&self) -> (r: String)
        ensures
            r@ == self.indent_unit(),
    {
        let mut unit = String::new();
        match self.indent.style {
            IndentStyle::Spaces => {
                for n in 0..self.indent.width
                    invariant
                        unit@ == Seq::new(n as nat, |i: int| ' '),
                {
                    unit.push(' ');
                }
            },
            IndentStyle::Tabs => {
                unit.push('\t');
            },
        }
        unit
    }
}

// ── Preprocessor ─────────────────────────────────────────────────────────────

#[derive(Debug, Clone, Copy)]
pub struct PreprocConfig {
    /// Indent preprocessor directives relative to their `#if`/`#ifdef`/`#ifndef`
    /// nesting depth.
    pub pp_indent: bool,
    /// Number of spaces between `#endif` and a trailing `/*` comment.
    pub endif_comment_space: u32,
}

pub open spec fn default_preprocessor() -> PreprocConfig {
    PreprocConfig { pp_indent: false, endif_comment_space: 1 }
}

impl Default for PreprocConfig {
    fn default() -> (r: Self)
        ensures
            r == default_preprocessor(),
    {
        PreprocConfig { pp_indent: false, endif_comment_space: 1 }
    }
}

// ── Comments ─────────────────────────────────────────────────────────────────

#[derive(Debug, Clone, Copy)]
pub struct CommentConfig {
    /// Rewrite a block comment's closing line from a bare `*/` to ` */`.
    /// Comments continued with `**` are left alone.
    pub normalize_block_comment_closing: bool,
}

pub open spec fn default_comments() -> CommentConfig {
    CommentConfig { normalize_block_comment_closing: false }
}

impl Default for CommentConfig {
    fn default() -> (r: Self)
        ensures
            r == default_comments(),
    {
        CommentConfig { normalize_block_comment_closing: false }
    }
}

// ── Ignore ───────────────────────────────────────────────────────────────────

#[derive(Debug, Clone)]
pub struct IgnoreConfig {
    /// Glob patterns (relative to the directory being walked) to skip.
    /// Example: ["vendor/**", "third_party/**", "*.pb.h"]
    pub patterns: Vec<String>,
}

impl Default for IgnoreConfig {
    fn default() -> (r: Self)
        ensures
            r.patterns@.len() == 0,
    {
        IgnoreConfig { patterns: Vec::new() }
    }
}

// ── Indent ───────────────────────────────────────────────────────────────────

#[derive(Debug, Clone, Copy)]
pub struct IndentConfig {
    pub style: IndentStyle,
    pub width: u8,
    /// Indent `case`/`default` labels one level inside `switch {}`, and indent
    /// the case body one further level.
    pub indent_switch_case: bool,
    /// When `false` (default), goto labels are placed at column 0 regardless
    /// of the current indentation level.  Set to `true` to indent labels at the
    /// same level as surrounding code.
    pub indent_goto_labels: bool,
}

pub open spec fn default_indent() -> IndentConfig {
    IndentConfig {
        style: IndentStyle::Spaces,
        width: 4,
        indent_switch_case: true,
        indent_goto_labels: false,
    }
}

impl Default for IndentConfig {
    fn default() -> (r: Self)
        ensures
            r == default_indent(),
    {
        IndentConfig {
            style: IndentStyle::Spaces,
            width: 4,
            indent_switch_case: true,
            indent_goto_labels: false,
        }
    }
}

#[derive(Debug, Clone, Copy, PartialEq, Eq, Structural)]
pub enum IndentStyle {
    Spaces,
    Tabs,
}

// ── Braces ───────────────────────────────────────────────────────────────────

#[derive(Debug, Clone, Copy)]
pub struct BraceConfig {
    pub style: BraceStyle,
    pub cuddle_else: bool,
    pub cuddle_catch: bool,
    /// Collapse `{\n}` to `{}` when the body is empty.
    pub collapse_empty_body: bool,
    /// Expand flat initializers with more than sixteen tokens to one element
    /// per line.  Nested-brace initializers are not affected (they fall
    /// through to normal block formatting).
    pub expand_large_initializers: bool,
    /// When `true` (default), function-definition opening braces always go on
    /// their own line regardless of `style`.  Control-flow braces (`if`, `for`,
    /// `while`, `switch`) are not affected and follow `style` as usual.
    pub fn_brace_newline: bool,
    /// Controls placement of the `{` in `extern "C" { }` linkage blocks.
    pub extern_c_brace: ExternCBrace,
    /// Add braces to braceless single-statement `if` bodies.
    pub add_braces_to_if: bool,
    /// Add braces to braceless single-statement `while` bodies.
    pub add_braces_to_while: bool,
    /// Add braces to braceless single-statement `for` bodies.
    pub add_braces_to_for: bool,
}

pub open spec fn default_braces() -> BraceConfig {
    BraceConfig {
        style: BraceStyle::Kr,
        cuddle_else: false,
        cuddle_catch: false,
        collapse_empty_body: true,
        expand_large_initializers: true,
        fn_brace_newline: true,
        extern_c_brace: ExternCBrace::ForceSameLine,
        add_braces_to_if: true,
        add_braces_to_while: true,
        add_braces_to_for: true,
    }
}

impl Default for BraceConfig {
    fn default() -> (r: Self)
        ensures
            r == default_braces(),
    {
        BraceConfig {
            style: BraceStyle::Kr,
            cuddle_else: false,
            cuddle_catch: false,
            collapse_empty_body: true,
            expand_large_initializers: true,
            fn_brace_newline: true,
            extern_c_brace: ExternCBrace::default(),
            add_braces_to_if: true,
            add_braces_to_while: true,
            add_braces_to_for: true,
        }
    }
}

#[derive(Debug, Clone, Copy, PartialEq, Eq, Structural)]
pub enum BraceStyle {
    /// Opening brace at end of the same line: `if (cond) {`
    Kr,
    /// Opening brace on its own line.
    Allman,
    /// Like K&R but `else`/`catch` start on a new line.
    Stroustrup,
}

#[derive(Debug, Clone, Copy, PartialEq, Eq, Structural)]
pub enum ExternCBrace {
    /// Always place `{` on the same line as `extern "C"` (Google/LLVM style).
    ForceSameLine,
    /// Leave the brace wherever the source has it.
    Preserve,
}

impl Default for ExternCBrace {
    fn default() -> (r: Self)
        ensures
            r == ExternCBrace::ForceSameLine,
    {
        ExternCBrace::ForceSameLine
    }
}

// ── Spacing ──────────────────────────────────────────────────────────────────

#[derive(Debug, Clone, Copy)]
pub struct SpacingConfig {
    pub space_before_call_paren: bool,
    pub space_before_keyword_paren: bool,
    pub space_after_comma: bool,
    pub space_around_binary_ops: bool,
    pub space_inside_parens: SpaceOption,
    pub space_inside_brackets: SpaceOption,
    pub space_after_cast: SpaceOption,
    pub pointer_align: PointerAlign,
    pub space_inside_angle_brackets: bool,
    /// Align trailing `//` comments across consecutive lines that all carry a
    /// trailing comment.  0 = disabled; any positive value enables alignment.
    /// Commented lines that are less than this many lines apart count as
    /// consecutive.
    pub align_right_cmt_span: usize,
    /// Minimum number of spaces between code and an aligned trailing comment.
    pub align_right_cmt_gap: usize,
    /// Controls which trailing comments are normalized to `align_right_cmt_gap`
    /// spaces.
    pub align_right_cmt_style: AlignCmtStyle,
    /// Align `=` signs across consecutive enum value lines.
    /// 0 = disabled; any positive value enables alignment.
    pub align_enum_equ_span: usize,
    /// Align trailing `/**<` Doxygen member comments across consecutive struct
    /// member lines.  0 = disabled.
    pub align_doxygen_cmt_span: usize,
    /// Snap aligned comment and `=` columns to multiples of the indent width.
    pub align_on_tabstop: bool,
}

pub open spec fn default_spacing() -> SpacingConfig {
    SpacingConfig {
        space_before_call_paren: false,
        space_before_keyword_paren: true,
        space_after_comma: true,
        space_around_binary_ops: true,
        space_inside_parens: SpaceOption::Preserve,
        space_inside_brackets: SpaceOption::Preserve,
        space_after_cast: SpaceOption::Preserve,
        pointer_align: PointerAlign::Name,
        space_inside_angle_brackets: false,
        align_right_cmt_span: 3,
        align_right_cmt_gap: 1,
        align_right_cmt_style: AlignCmtStyle::Groups,
        align_enum_equ_span: 1,
        align_doxygen_cmt_span: 1,
        align_on_tabstop: true,
    }
}

impl Default for SpacingConfig {
    fn default() -> (r: Self)
        ensures
            r == default_spacing(),
    {
        SpacingConfig {
            space_before_call_paren: false,
            space_before_keyword_paren: true,
            space_after_comma: true,
            space_around_binary_ops: true,
            space_inside_parens: SpaceOption::default(),
            space_inside_brackets: SpaceOption::default(),
            space_after_cast: SpaceOption::default(),
            pointer_align: PointerAlign::Name,
            space_inside_angle_brackets: false,
            align_right_cmt_span: 3,
            align_right_cmt_gap: 1,
            align_right_cmt_style: AlignCmtStyle::default(),
            align_enum_equ_span: 1,
            align_doxygen_cmt_span: 1,
            align_on_tabstop: true,
        }
    }
}

/// What to do about an optional space.
#[derive(Debug, Clone, Copy, PartialEq, Eq, Structural)]
pub enum SpaceOption {
    /// Keep the space exactly when the source has one.
    Preserve,
    /// Always emit the space.
    Add,
    /// Never emit the space.
    Remove,
}

impl SpaceOption {
    /// Whether the space is emitted, given whether the source had one.
    pub open spec fn wants_space(self, src_had_space: bool) -> bool {
        match self {
            SpaceOption::Add => true,
            SpaceOption::Remove => false,
            SpaceOption::Preserve => src_had_space,
        }
    }

    pub fn wants(self, src_had_space: bool) -> (r: bool)
        ensures
            r == self.wants_space(src_had_space),
    {
        match self {
            SpaceOption::Add => true,
            SpaceOption::Remove => false,
            SpaceOption::Preserve => src_had_space,
        }
    }
}

impl Default for SpaceOption {
    fn default() -> (r: Self)
        ensures
            r == SpaceOption::Preserve,
    {
        SpaceOption::Preserve
    }
}

/// Controls spacing around `*` and `&` in pointer/reference declarations.
///
/// Only applies when the `*`/`&` is detected as a declarator.
/// Multiplication and dereference are not affected.
#[derive(Debug, Clone, Copy, PartialEq, Eq, Structural)]
pub enum PointerAlign {
    /// `int* p` — star/amp attached to the type.
    Type,
    /// `int *p` — star/amp attached to the name.
    Name,
    /// `int * p` — star/amp centred between type and name.
    Middle,
}

impl Default for PointerAlign {
    fn default() -> (r: Self)
        ensures
            r == PointerAlign::Middle,
    {
        PointerAlign::Middle
    }
}

#[derive(Debug, Clone, Copy, PartialEq, Eq, Structural)]
pub enum AlignCmtStyle {
    /// Only align multi-line groups; single trailing comments keep 1 space.
    Groups,
    /// Normalize every trailing comment (single or group) to at least
    /// `align_right_cmt_gap` spaces.
    All,
}

impl Default for AlignCmtStyle {
    fn default() -> (r: Self)
        ensures
            r == AlignCmtStyle::Groups,
    {
        AlignCmtStyle::Groups
    }
}

// ── Newlines ─────────────────────────────────────────────────────────────────

#[derive(Debug, Clone, Copy)]
pub struct NewlineConfig {
    pub style: NewlineStyle,
    pub max_blank_lines: u8,
    pub final_newline: bool,
    /// Insert a blank line between the leading variable-declaration block and
    /// the first statement in a function body.
    pub blank_line_after_var_decl_block: bool,
    /// Insert a blank line immediately after the opening `{` of function
    /// bodies and control-flow blocks.
    pub blank_line_after_open_brace: bool,
    /// When a standalone `//` comment immediately follows a `{`, `}`, or `;`
    /// (with no intervening blank lines), hoist it to the end of that
    /// preceding line as a trailing inline comment.
    pub merge_line_comment: bool,
    /// Start `else` on a new line even when `cuddle_else` is set.
    pub nl_brace_else: bool,
}

pub open spec fn default_newlines() -> NewlineConfig {
    NewlineConfig {
        style: NewlineStyle::Lf,
        max_blank_lines: 2,
        final_newline: true,
        blank_line_after_var_decl_block: true,
        blank_line_after_open_brace: false,
        merge_line_comment: false,
        nl_brace_else: true,
    }
}

impl Default for NewlineConfig {
    fn default() -> (r: Self)
        ensures
            r == default_newlines(),
    {
        NewlineConfig {
            style: NewlineStyle::Lf,
            max_blank_lines: 2,
            final_newline: true,
            blank_line_after_var_decl_block: true,
            blank_line_after_open_brace: false,
            merge_line_comment: false,
            nl_brace_else: true,
        }
    }
}

#[derive(Debug, Clone, Copy, PartialEq, Eq, Structural)]
pub enum NewlineStyle {
    Lf,
    Crlf,
    Native,
}

} // verus!
