//! The defaults, and what decides about files.

use crate::command::{Action, Mode};
use crate::config::{
    AlignCmtStyle, BraceStyle, Config, Eol, ExternCBrace, IgnoreConfig, IndentStyle, NewlineStyle,
    PointerAlign, SpaceOption,
};
use vstd::prelude::*;

verus! {

// ── Defaults ─────────────────────────────────────────────────────────────────

/// Every setting has the default that the manual lists.
pub proof fn law_defaults()
    ensures
        ({
            let i = crate::config::default_indent();
            i.style == IndentStyle::Spaces && i.width == 4 && i.indent_switch_case
                && !i.indent_goto_labels
        }),
        ({
            let b = crate::config::default_braces();
            &&& b.style == BraceStyle::Kr && !b.cuddle_else && !b.cuddle_catch
            &&& b.collapse_empty_body && b.expand_large_initializers && b.fn_brace_newline
            &&& b.extern_c_brace == ExternCBrace::ForceSameLine
            &&& b.add_braces_to_if && b.add_braces_to_while && b.add_braces_to_for
        }),
        ({
            let s = crate::config::default_spacing();
            &&& !s.space_before_call_paren && s.space_before_keyword_paren && s.space_after_comma
            &&& s.space_around_binary_ops && !s.space_inside_angle_brackets
            &&& s.space_inside_parens == SpaceOption::Preserve && s.space_inside_brackets
                == SpaceOption::Preserve && s.space_after_cast == SpaceOption::Preserve
            &&& s.pointer_align == PointerAlign::Name
            &&& s.align_right_cmt_span == 3 && s.align_right_cmt_gap == 1
                && s.align_right_cmt_style == AlignCmtStyle::Groups
            &&& s.align_enum_equ_span == 1 && s.align_doxygen_cmt_span == 1 && s.align_on_tabstop
        }),
        ({
            let n = crate::config::default_newlines();
            &&& n.style == NewlineStyle::Lf && n.max_blank_lines == 2 && n.final_newline
            &&& n.blank_line_after_var_decl_block && !n.blank_line_after_open_brace
            &&& !n.merge_line_comment && n.nl_brace_else
        }),
        !crate::config::default_preprocessor().pp_indent,
        crate::config::default_preprocessor().endif_comment_space == 1,
        !crate::config::default_comments().normalize_block_comment_closing,
{
}

/// Lines end in a line feed, or in a carriage return and a line feed, as the
/// style says; the native style may be either.
pub proof fn law_line_ends_follow_the_style(config: Config, eol: Eol)
    ensures
        Eol::Lf.text() == seq!['\n'],
        Eol::CrLf.text() == seq!['\r', '\n'],
        config.allows_eol(eol) == (config.newlines.style is Native || (config.newlines.style is Lf
            && eol is Lf) || (config.newlines.style is Crlf && eol is CrLf)),
{
}

/// An optional space is always, never or, with `preserve`, exactly then written
/// when the source has it.
pub proof fn law_options_ask_for_spaces(source: bool)
    ensures
        SpaceOption::Add.wants_space(source),
        !SpaceOption::Remove.wants_space(source),
        SpaceOption::Preserve.wants_space(source) == source,
{
}

// ── Files ────────────────────────────────────────────────────────────────────

/// `--check` writes no file and reports those that would change; `--in-place`
/// writes those and no others; else every formatted source is printed.
pub proof fn law_actions_follow_the_mode(source: Seq<char>, formatted: Seq<char>)
    ensures
        crate::command::action(Mode::Print, source, formatted) == Action::Print,
        crate::command::action(Mode::InPlace, source, formatted) == Action::Write <==> source
            != formatted,
        crate::command::action(Mode::InPlace, source, formatted) == Action::Keep <==> source
            == formatted,
        crate::command::action(Mode::Check, source, formatted) == Action::Report <==> source
            != formatted,
        crate::command::action(Mode::Check, source, formatted) == Action::Keep <==> source
            == formatted,
{
}

/// A pattern without wildcards matches itself alone.
pub proof fn law_plain_patterns_match_themselves(pattern: Seq<char>, path: Seq<char>)
    requires
        forall|i: int| 0 <= i < pattern.len() ==> #[trigger] pattern[i] != '*' && pattern[i] != '?',
    ensures
        crate::walk::glob(pattern, path) == (pattern == path),
    decreases pattern.len(),
{
    if pattern.len() > 0 {
        assert(pattern[0] != '*');
        let p = pattern.drop_first();
        assert forall|i: int| 0 <= i < p.len() implies #[trigger] p[i] != '*' && p[i] != '?' by {
            assert(p[i] == pattern[i + 1]);
        }
        if path.len() > 0 {
            law_plain_patterns_match_themselves(p, path.drop_first());
            if p == path.drop_first() && pattern[0] == path[0] {
                assert(pattern =~= path) by {
                    assert forall|i: int| 0 <= i < pattern.len() implies pattern[i] == path[i] by {
                        if i > 0 {
                            assert(p[i - 1] == path.drop_first()[i - 1]);
                        }
                    }
                }
            }
        }
    } else {
        assert(path.len() == 0 ==> pattern =~= path);
    }
}

/// A `*` in front matches any characters, none among them: the rest of the
/// pattern matches the rest of the path, from some place on.
pub proof fn law_stars_match_any_characters(rest: Seq<char>, path: Seq<char>)
    ensures
        crate::walk::glob(seq!['*'] + rest, path) == exists|k: int|
            0 <= k <= path.len() && crate::walk::glob(rest, #[trigger] path.skip(k)),
    decreases path.len(),
{
    let p = seq!['*'] + rest;
    assert(p.drop_first() =~= rest);
    assert(path.skip(0) =~= path);
    if path.len() > 0 {
        let tail = path.drop_first();
        law_stars_match_any_characters(rest, tail);
        if crate::walk::glob(p, tail) {
            let k = choose|k: int|
                0 <= k <= tail.len() && crate::walk::glob(rest, #[trigger] tail.skip(k));
            assert(path.skip(k + 1) =~= tail.skip(k));
        }
        if exists|k: int| 0 <= k <= path.len() && crate::walk::glob(rest, #[trigger] path.skip(k)) {
            let k = choose|k: int|
                0 <= k <= path.len() && crate::walk::glob(rest, #[trigger] path.skip(k));
            if k > 0 {
                assert(tail.skip(k - 1) =~= path.skip(k));
            }
        }
    } else {
        if exists|k: int| 0 <= k <= path.len() && crate::walk::glob(rest, #[trigger] path.skip(k)) {
            let k = choose|k: int|
                0 <= k <= path.len() && crate::walk::glob(rest, #[trigger] path.skip(k));
            assert(path.skip(k) =~= path);
        }
    }
}

/// A `?` in front matches any one character, another character itself; an empty
/// pattern matches the empty path.
pub proof fn law_other_characters_match_one(c: char, rest: Seq<char>, path: Seq<char>)
    requires
        c != '*',
    ensures
        crate::walk::glob(seq![c] + rest, path) == (path.len() > 0 && (c == '?' || c == path[0])
            && crate::walk::glob(rest, path.drop_first())),
        crate::walk::glob(Seq::empty(), path) == (path.len() == 0),
{
    assert((seq![c] + rest).drop_first() =~= rest);
}

/// A walk takes the files with an extension of C or C++ that no pattern
/// matches.
pub proof fn law_walks_take_sources(config: IgnoreConfig, path: Seq<char>, ext: Seq<char>)
    ensures
        crate::walk::selected(config, path, ext) <==> {
            &&& ext == "c"@ || ext == "h"@ || ext == "cc"@ || ext == "hh"@ || ext == "cpp"@ || ext
                == "hpp"@ || ext == "cxx"@ || ext == "hxx"@
            &&& forall|k: int|
                0 <= k < config.patterns@.len() ==> !crate::walk::glob(
                    (#[trigger] config.patterns@[k])@,
                    path,
                )
        },
{
}

} // verus!
