//! The formatter: brace injection, layout and alignment, one after the other.

use crate::align::{align_doxygen_comments, align_enum_equals, align_trailing_comments};
use crate::config::{AlignCmtStyle, Config, Eol};
use crate::error::FunkyError;
use crate::inject::inject_braces_pass;
use crate::machine::lay_out;
use crate::text::string_of;
use crate::token::Token;
use vstd::prelude::*;

verus! {

/// Braces are added to braceless bodies of some kind.
pub open spec fn injects(config: Config) -> bool {
    config.braces.add_braces_to_if || config.braces.add_braces_to_while
        || config.braces.add_braces_to_for
}

/// The tokens that are laid out.
pub open spec fn prepared<'a>(toks: Seq<Token<'a>>, config: Config) -> Seq<Token<'a>> {
    if injects(config) {
        crate::inject::injected(toks, config)
    } else {
        toks
    }
}

/// The text with its trailing comments aligned, if wanted.
pub open spec fn with_comments_aligned(text: Seq<char>, config: Config, eol: Eol) -> Seq<char> {
    let c = config.spacing;
    if c.align_right_cmt_span > 0 {
        crate::align::comment_rule(
            if c.align_right_cmt_gap < 1 {
                1
            } else {
                c.align_right_cmt_gap
            },
            c.align_right_cmt_style == AlignCmtStyle::All,
            c.align_on_tabstop,
            config.indent.width as usize,
            c.align_right_cmt_span,
        ).align(text, eol)
    } else {
        text
    }
}

/// The text with the `=` of its enum members aligned, if wanted.
pub open spec fn with_equals_aligned(text: Seq<char>, config: Config, eol: Eol) -> Seq<char> {
    if config.spacing.align_enum_equ_span > 0 {
        crate::align::equals_rule(
            config.spacing.align_on_tabstop,
            config.indent.width as usize,
        ).align(text, eol)
    } else {
        text
    }
}

/// The text with its Doxygen member comments aligned, if wanted.
pub open spec fn with_doxygen_aligned(text: Seq<char>, config: Config, eol: Eol) -> Seq<char> {
    if config.spacing.align_doxygen_cmt_span > 0 {
        crate::align::doxygen_rule().align(text, eol)
    } else {
        text
    }
}

/// The formatted text of the tokens, with lines ended by `eol`.
pub open spec fn format_text(toks: Seq<Token>, config: Config, eol: Eol) -> Seq<char> {
    let laid_out = crate::machine::layout_text(prepared(toks, config), config, eol);
    let comments = with_comments_aligned(laid_out, config, eol);
    let equals = with_equals_aligned(comments, config, eol);
    with_doxygen_aligned(equals, config, eol)
}

/// Format the tokens, with lines ended by `eol`.
pub fn format_with_eol(tokens: &[Token], config: &Config, eol: Eol) -> (r: Result<
    String,
    FunkyError,
>)
    ensures
        r is Ok,
        r->Ok_0@ == format_text(tokens@, *config, eol),
{
    let mut text = if config.braces.add_braces_to_if || config.braces.add_braces_to_while
        || config.braces.add_braces_to_for {
        let injected = inject_braces_pass(tokens, config);
        lay_out(injected.as_slice(), config, eol)
    } else {
        lay_out(tokens, config, eol)
    };
    let c = &config.spacing;
    let width = config.indent.width as usize;
    if c.align_right_cmt_span > 0 {
        let gap = if c.align_right_cmt_gap < 1 {
            1
        } else {
            c.align_right_cmt_gap
        };
        text = align_trailing_comments(
            text.as_slice(),
            eol,
            gap,
            c.align_right_cmt_style == AlignCmtStyle::All,
            c.align_on_tabstop,
            width,
            c.align_right_cmt_span,
        );
    }
    if c.align_enum_equ_span > 0 {
        text = align_enum_equals(text.as_slice(), eol, c.align_on_tabstop, width);
    }
    if c.align_doxygen_cmt_span > 0 {
        text = align_doxygen_comments(text.as_slice(), eol);
    }
    Ok(string_of(text.as_slice()))
}

/// Format the tokens. Lines are ended as the settings say; under the `Native`
/// style that is up to the platform.
pub fn format<'src>(tokens: &[Token<'src>], config: &Config) -> (r: Result<String, FunkyError>)
    ensures
        r is Ok,
        exists|eol: Eol| #[trigger]
            config.allows_eol(eol) && r->Ok_0@ == format_text(tokens@, *config, eol),
{
    let eol = config.eol();
    assert(config.allows_eol(eol));
    format_with_eol(tokens, config, eol)
}

} // verus!
