//! The default settings.

use funky::config::{
    AlignCmtStyle, BraceStyle, Config, ExternCBrace, IndentConfig, IndentStyle, NewlineConfig,
    NewlineStyle, PointerAlign, SpaceOption,
};

#[test]
fn default_config_valid() {
    let cfg = Config::default();
    assert_eq!(cfg.indent.style, IndentStyle::Spaces);
    assert_eq!(cfg.indent.width, 4);
    assert_eq!(cfg.newline_str(), "\n");
}

#[test]
fn newline_strings() {
    let with = |style: NewlineStyle| Config {
        newlines: NewlineConfig {
            style,
            ..NewlineConfig::default()
        },
        ..Config::default()
    };
    assert_eq!(with(NewlineStyle::Lf).newline_str(), "\n");
    assert_eq!(with(NewlineStyle::Crlf).newline_str(), "\r\n");
}

#[test]
fn indent_strings() {
    let with = |style: IndentStyle, width: u8| Config {
        indent: IndentConfig {
            style,
            width,
            ..IndentConfig::default()
        },
        ..Config::default()
    };
    assert_eq!(with(IndentStyle::Spaces, 4).indent_str(), "    ");
    assert_eq!(with(IndentStyle::Spaces, 0).indent_str(), "");
    assert_eq!(with(IndentStyle::Tabs, 8).indent_str(), "\t");
}

#[test]
fn defaults_are_the_documented_ones() {
    let cfg = Config::default();
    assert_eq!(cfg.braces.style, BraceStyle::Kr);
    assert!(!cfg.braces.cuddle_else && !cfg.braces.cuddle_catch);
    assert!(cfg.braces.collapse_empty_body && cfg.braces.fn_brace_newline);
    assert_eq!(cfg.braces.extern_c_brace, ExternCBrace::ForceSameLine);
    assert!(cfg.braces.add_braces_to_if);
    assert!(cfg.braces.add_braces_to_while && cfg.braces.add_braces_to_for);
    assert!(!cfg.spacing.space_before_call_paren && cfg.spacing.space_before_keyword_paren);
    assert!(cfg.spacing.space_after_comma && cfg.spacing.space_around_binary_ops);
    assert_eq!(cfg.spacing.space_inside_parens, SpaceOption::Preserve);
    assert_eq!(cfg.spacing.space_inside_brackets, SpaceOption::Preserve);
    assert_eq!(cfg.spacing.space_after_cast, SpaceOption::Preserve);
    assert_eq!(cfg.spacing.pointer_align, PointerAlign::Name);
    assert_eq!(cfg.spacing.align_right_cmt_span, 3);
    assert_eq!(cfg.spacing.align_right_cmt_gap, 1);
    assert_eq!(cfg.spacing.align_right_cmt_style, AlignCmtStyle::Groups);
    assert_eq!(cfg.spacing.align_enum_equ_span, 1);
    assert_eq!(cfg.spacing.align_doxygen_cmt_span, 1);
    assert!(cfg.spacing.align_on_tabstop && !cfg.spacing.space_inside_angle_brackets);
    assert_eq!(cfg.newlines.style, NewlineStyle::Lf);
    assert_eq!(cfg.newlines.max_blank_lines, 2);
    assert!(cfg.newlines.final_newline && cfg.newlines.nl_brace_else);
    assert!(cfg.newlines.blank_line_after_var_decl_block);
    assert!(!cfg.newlines.blank_line_after_open_brace && !cfg.newlines.merge_line_comment);
    assert!(!cfg.preprocessor.pp_indent);
    assert_eq!(cfg.preprocessor.endif_comment_space, 1);
    assert!(!cfg.comments.normalize_block_comment_closing);
    assert!(cfg.ignore.patterns.is_empty());
    assert!(cfg.indent.indent_switch_case && !cfg.indent.indent_goto_labels);
}
