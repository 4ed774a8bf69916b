//! Formatting whole sources.

use funky::align::{enum_eq_col, trailing_comment_col, trailing_doxygen_col};
use funky::config::{
    AlignCmtStyle, BraceConfig, BraceStyle, CommentConfig, Config, ExternCBrace, IndentConfig,
    IndentStyle, NewlineConfig, PointerAlign, PreprocConfig, SpaceOption, SpacingConfig,
};
use funky::lexer::tokenize;

fn fmt(src: &str) -> String {
    let (tokens, _) = tokenize(src, "<test>").unwrap();
    funky::formatter::format(&tokens, &Config::default()).unwrap()
}

fn fmt_with(src: &str, config: &Config) -> String {
    let (tokens, _) = tokenize(src, "<test>").unwrap();
    funky::formatter::format(&tokens, config).unwrap()
}

#[test]
fn basic_function() {
    let src = "int main(){return 0;}";
    let out = fmt(src);
    assert!(out.contains("int main()"), "got: {out}");
    assert!(out.contains("return 0;"), "got: {out}");
    assert!(out.contains('}'), "got: {out}");
}

#[test]
fn indentation() {
    let src = "void f(){int x=1;}";
    let out = fmt(src);
    // The body should be indented by 4 spaces
    assert!(out.contains("    int x = 1;"), "got:\n{out}");
}

#[test]
fn preserves_chinese_comment() {
    let src = "int x; // 变量定义\n";
    let out = fmt(src);
    assert!(out.contains("// 变量定义"), "got:\n{out}");
}

#[test]
fn allman_brace_style() {
    let config = Config {
        braces: BraceConfig {
            style: BraceStyle::Allman,
            cuddle_else: false,
            cuddle_catch: false,
            collapse_empty_body: false,
            expand_large_initializers: true,
            fn_brace_newline: false,
            ..BraceConfig::default()
        },
        ..Config::default()
    };
    let src = "if(x){y=1;}";
    let out = fmt_with(src, &config);
    // In Allman style, `{` is on its own line
    let brace_line = out.lines().find(|l| l.trim() == "{");
    assert!(brace_line.is_some(), "no standalone brace line in:\n{out}");
}

#[test]
fn collapse_empty_function_body() {
    // With fn_brace_newline=true (default), `{` goes to its own line.
    // collapse_empty_body then collapses `{\n}` to `{}` on that same new line.
    let src = "void f() {\n}\n";
    let out = fmt(src);
    assert!(
        out.contains("void f()\n{}"),
        "empty function body should collapse to {{}} on new line: {out}"
    );
}

#[test]
fn collapse_empty_struct_body() {
    let src = "struct Foo {\n};\n";
    let out = fmt(src);
    assert!(
        out.contains("struct Foo {};"),
        "empty struct body should collapse to {{}}; on one line: {out}"
    );
}

#[test]
fn collapse_empty_body_off() {
    let config = Config {
        braces: BraceConfig {
            style: BraceStyle::Kr,
            cuddle_else: false,
            cuddle_catch: false,
            collapse_empty_body: false,
            expand_large_initializers: true,
            fn_brace_newline: true,
            ..BraceConfig::default()
        },
        ..Config::default()
    };
    let src = "void f() {\n}\n";
    let out = fmt_with(src, &config);
    assert!(
        !out.contains("void f() {}"),
        "collapse_empty_body=false should not collapse: {out}"
    );
}

#[test]
fn nl_brace_else_default_newline() {
    // Default: nl_brace_else=true → `}\nelse {` regardless of cuddle_else.
    let src = "void f() { if (x) { a(); } else { b(); } }\n";
    let out = fmt(src);
    assert!(
        !out.contains("} else {"),
        "default nl_brace_else=true must put else on its own line: {out}"
    );
    assert!(
        out.contains("else {"),
        "else block must still be present: {out}"
    );
}

#[test]
fn nl_brace_else_false_cuddles_when_cuddle_else_true() {
    // With nl_brace_else=false and cuddle_else=true → `} else {` on one line.
    let config = Config {
        braces: BraceConfig {
            cuddle_else: true,
            ..BraceConfig::default()
        },
        newlines: NewlineConfig {
            nl_brace_else: false,
            ..NewlineConfig::default()
        },
        ..Config::default()
    };
    let src = "void f() { if (x) { a(); } else { b(); } }\n";
    let out = fmt_with(src, &config);
    assert!(
        out.contains("} else {"),
        "cuddle_else=true, nl_brace_else=false should cuddle: {out}"
    );
}

#[test]
fn nl_brace_else_true_overrides_cuddle() {
    // nl_brace_else=true forces newline before else even when cuddle_else=true.
    let config = Config {
        braces: BraceConfig {
            cuddle_else: true,
            ..BraceConfig::default()
        },
        newlines: NewlineConfig {
            nl_brace_else: true,
            ..NewlineConfig::default()
        },
        ..Config::default()
    };
    let src = "void f() { if (x) { a(); } else { b(); } }\n";
    let out = fmt_with(src, &config);
    assert!(
        !out.contains("} else"),
        "nl_brace_else=true must break before else: {out}"
    );
    assert!(
        out.lines().any(|l| l.trim() == "else {"),
        "else must start on its own line: {out}"
    );
}

#[test]
fn nl_brace_else_true_else_if() {
    // nl_brace_else=true also applies to `else if (`.
    let config = Config {
        braces: BraceConfig {
            cuddle_else: true,
            ..BraceConfig::default()
        },
        newlines: NewlineConfig {
            nl_brace_else: true,
            ..NewlineConfig::default()
        },
        ..Config::default()
    };
    let src = "void f() { if (x) { a(); } else if (y) { b(); } }\n";
    let out = fmt_with(src, &config);
    assert!(
        !out.contains("} else if"),
        "nl_brace_else=true must break before else if: {out}"
    );
    assert!(
        out.lines().any(|l| l.trim().starts_with("else if")),
        "else if must start on its own line: {out}"
    );
}

#[test]
fn array_initializer_stays_inline() {
    let src = "uint8_t rx[] = { 0 };";
    let out = fmt(src);
    assert!(
        out.trim_end().ends_with("= { 0 };"),
        "expected inline initializer, got:\n{out}"
    );
}

#[test]
fn multi_element_initializer_stays_inline() {
    let src = "int a[] = {1, 2, 3};";
    let out = fmt(src);
    assert!(
        out.trim_end().ends_with("= { 1, 2, 3 };"),
        "expected inline initializer, got:\n{out}"
    );
}

#[test]
fn multiline_initializer_not_collapsed_to_one_line() {
    // A multi-line initializer in the source must not be collapsed even if
    // the total element count is below the small-init threshold.
    let src = "uint8_t buf[] = {\n    0x30,\n    0x06,\n    0x00, 0x04,\n    'a', 'b', 'c', 'd'\n};\n";
    let out = fmt(src);
    assert!(
        out.contains("{\n"),
        "multi-line initializer must stay multi-line, got:\n{out}"
    );
    assert!(
        !out.contains("= { 0x30,"),
        "multi-line initializer must not be collapsed to one line, got:\n{out}"
    );
}

#[test]
fn large_initializer_expands_one_per_line() {
    // 9 elements (17 non-ws tokens) exceeds the small-init threshold of 16.
    let src = "int a[9] = {0, 1, 2, 3, 4, 5, 6, 7, 8};";
    let out = fmt(src);
    assert!(
        out.contains("{\n    0,\n    1,"),
        "large initializer should expand one element per line, got:\n{out}"
    );
    assert!(
        out.contains("    8\n};"),
        "last element must not have trailing comma, got:\n{out}"
    );
}

#[test]
fn large_initializer_expand_disabled() {
    let config = Config {
        braces: BraceConfig {
            style: BraceStyle::Kr,
            cuddle_else: true,
            cuddle_catch: true,
            collapse_empty_body: true,
            expand_large_initializers: false,
            fn_brace_newline: true,
            ..BraceConfig::default()
        },
        ..Config::default()
    };
    let src = "int a[9] = {0, 1, 2, 3, 4, 5, 6, 7, 8};";
    let out = fmt_with(src, &config);
    assert!(
        !out.contains("0,\n"),
        "expand_large_initializers=false should keep inline, got:\n{out}"
    );
}

#[test]
fn large_initializer_inline_comment_stays_on_same_line() {
    let src = "int a[9] = {0, // zero\n1, // one\n2, 3, 4, 5, 6, 7, 8};\n";
    let out = fmt(src);
    // Comments must remain on the same line as the element (not split off);
    // exact spacing may vary based on align_right_cmt_gap.
    assert!(
        out.lines()
            .any(|l| l.contains("0,") && l.contains("// zero")),
        "inline comment after element must stay on same line, got:\n{out}"
    );
    assert!(
        out.lines()
            .any(|l| l.contains("1,") && l.contains("// one")),
        "inline comment after second element must stay on same line, got:\n{out}"
    );
}

#[test]
fn endif_comment_space_default_normalizes_to_1() {
    // Default: non-header-guard file gets 1 space (matches uncrustify on .c files).
    let src = "#endif  /* GUARD_H */\n";
    let out = fmt(src);
    assert!(
        out.contains("#endif /* GUARD_H */"),
        "expected single space before comment with default config: {out}"
    );
    assert!(
        !out.contains("#endif  "),
        "double space must not appear with default config: {out}"
    );
}

#[test]
fn endif_comment_space_header_guard_uses_1_by_default() {
    // Header guard files get 1-space #endif by default (uncrustify's actual
    // rule is too complex to replicate — documented as By Design deviation).
    let src = "#ifndef GUARD_H\n#define GUARD_H\nint x;\n#endif /* GUARD_H */\n";
    let out = fmt(src);
    assert!(
        out.contains("#endif /* GUARD_H */"),
        "header-guard file should get 1-space #endif with default config: {out}"
    );
}

#[test]
fn endif_comment_space_1_single_space() {
    let mut cfg = Config::default();
    cfg.preprocessor.endif_comment_space = 1;
    let src = "#ifdef FOO\nint x;\n#endif  /* FOO */\n";
    let out = fmt_with(src, &cfg);
    assert!(
        out.contains("#endif /* FOO */"),
        "expected single space before comment: {out}"
    );
    assert!(
        !out.contains("#endif  "),
        "double space must not appear with endif_comment_space=1: {out}"
    );
}

#[test]
fn endif_comment_space_2_matches_uncrustify() {
    let mut cfg = Config::default();
    cfg.preprocessor.endif_comment_space = 2;
    let src = "#ifndef GUARD_H\n#define GUARD_H\n#endif /* GUARD_H */\n";
    let out = fmt_with(src, &cfg);
    assert!(
        out.contains("#endif  /* GUARD_H */"),
        "expected double space before comment: {out}"
    );
}

#[test]
fn endif_no_comment_untouched() {
    // A bare `#endif` with no comment must not be modified.
    let src = "#ifndef GUARD_H\n#define GUARD_H\n#endif\n";
    let out = fmt(src);
    let endif_line = out.lines().find(|l| l.starts_with("#endif")).unwrap();
    assert_eq!(
        endif_line, "#endif",
        "bare #endif must not gain trailing space: {out}"
    );
}

#[test]
fn preproc_preserved() {
    let src = "#include <stdio.h>\nint x;\n";
    let out = fmt(src);
    assert!(out.starts_with("#include <stdio.h>"), "got:\n{out}");
}

#[test]
fn inline_comment_after_semi() {
    let src = "int x = 1; // note\nint y = 2;\n";
    let out = fmt(src);
    // Comment must stay on the same line as the statement.
    let line = out
        .lines()
        .find(|l| l.contains("int x"))
        .expect("no x line");
    assert!(line.contains("// note"), "comment moved off line: {out}");
    // Subsequent statement must be on its own line.
    assert!(out.contains("\nint y"), "y not on new line: {out}");
}

#[test]
fn inline_block_comment_after_semi_stays_on_same_line() {
    // `/* */` trailing comment must not be moved to a new line by
    // the var-decl-block transition logic.
    let src = "void f() {\n    result_e r = OK; /* default */\n    int x = 0;\n}\n";
    let out = fmt(src);
    let r_line = out
        .lines()
        .find(|l| l.contains("result_e"))
        .expect("no r line");
    assert!(
        r_line.contains("/* default */"),
        "block comment moved off declaration line:\n{out}"
    );
}

#[test]
fn inline_comment_after_semi_unicode() {
    let src = "int x = 1; // 变量定义\n";
    let out = fmt(src);
    let line = out
        .lines()
        .find(|l| l.contains("int x"))
        .expect("no x line");
    assert!(
        line.contains("// 变量定义"),
        "unicode comment moved off line: {out}"
    );
}

#[test]
fn inline_comment_after_brace() {
    let src = "void f() {\n    return;\n} // end\n";
    let out = fmt(src);
    let brace_line = out
        .lines()
        .find(|l| l.trim_start().starts_with('}'))
        .expect("no } line");
    assert!(
        brace_line.contains("// end"),
        "comment not on }} line:\n{out}"
    );
}

#[test]
fn non_inline_comment_stays_separate() {
    let src = "int x = 1;\n// standalone\nint y = 2;\n";
    let out = fmt(src);
    // The x-line must not contain the comment.
    let x_line = out
        .lines()
        .find(|l| l.contains("int x"))
        .expect("no x line");
    assert!(
        !x_line.contains("//"),
        "standalone comment merged into x line:\n{out}"
    );
    // The comment must appear on its own line.
    assert!(
        out.lines().any(|l| l.trim() == "// standalone"),
        "standalone comment missing:\n{out}"
    );
}

#[test]
fn switch_case_indentation() {
    // Default: indent_switch_case=true, so case labels are at switch-body level
    // and case bodies are one further level in.
    let src = "void f(int x){switch(x){case 1:y=1;break;case 2:y=2;break;default:y=0;break;}}";
    let out = fmt(src);
    assert!(
        out.lines().any(|l| l == "        case 1:"),
        "case 1 not at switch-body level:\n{out}"
    );
    assert!(
        out.lines().any(|l| l == "        case 2:"),
        "case 2 not at switch-body level:\n{out}"
    );
    assert!(
        out.lines().any(|l| l == "        default:"),
        "default not at switch-body level:\n{out}"
    );
    // Case body must be indented one further level (12 spaces at func level 1).
    assert!(
        out.lines().any(|l| l.starts_with("            y")),
        "case body not indented deeper than label:\n{out}"
    );
}

#[test]
fn switch_case_indentation_disabled() {
    let cfg = Config {
        indent: IndentConfig {
            style: IndentStyle::Spaces,
            width: 4,
            indent_switch_case: false,
            indent_goto_labels: false,
        },
        ..Config::default()
    };
    let src = "void f(int x){switch(x){case 1:y=1;break;default:y=0;break;}}";
    let out = fmt_with(src, &cfg);
    // When disabled, case labels dedent to the switch level (4 spaces).
    assert!(
        out.lines().any(|l| l == "    case 1:"),
        "case 1 not dedented to switch level:\n{out}"
    );
    assert!(
        out.lines().any(|l| l == "    default:"),
        "default not dedented to switch level:\n{out}"
    );
    // Case body at switch-body level (8 spaces).
    assert!(
        out.lines().any(|l| l.starts_with("        y")),
        "case body not at switch-body level:\n{out}"
    );
}

#[test]
fn case_label_followed_by_brace_on_next_line() {
    // Source pattern from hostap: `case X:\n{\n    body\n}`
    // The `{` must be attached to the case label (KR style) and the body
    // must be at case-body indentation (not double-indented).
    let src = "void f(int x){\nswitch(x){\ncase 1:\n{\nint y=x;\nbreak;\n}\ncase 2:\n{\nint z=x;\nbreak;\n}\n}\n}";
    let out = fmt(src);
    assert!(
        out.contains("case 1: {"),
        "case brace must be attached to case label: {out}"
    );
    // Body must be at 12 spaces (3 indent levels: fn=1, switch=2, case-body=3).
    assert!(
        out.lines().any(|l| l == "            int y = x;"),
        "case block body must be at 12 spaces, not over-indented: {out}"
    );
    // Next case label must be at 8 spaces (same as before).
    assert!(
        out.lines().any(|l| l == "        case 2: {"),
        "second case label must be at 8 spaces: {out}"
    );
}

#[test]
fn pointer_align_middle() {
    // explicit middle config: int * p
    let src = "int*p;";
    let out = fmt_with(
        src,
        &Config {
            spacing: SpacingConfig {
                pointer_align: PointerAlign::Middle,
                ..Default::default()
            },
            ..Default::default()
        },
    );
    assert!(out.contains("int * p"), "middle mode: got\n{out}");
}

#[test]
fn pointer_align_type() {
    let config = Config {
        spacing: SpacingConfig {
            pointer_align: PointerAlign::Type,
            ..SpacingConfig::default()
        },
        ..Config::default()
    };
    let src = "int*p;";
    let out = fmt_with(src, &config);
    assert!(out.contains("int* p"), "type mode: got\n{out}");
}

#[test]
fn pointer_align_name() {
    let config = Config {
        spacing: SpacingConfig {
            pointer_align: PointerAlign::Name,
            ..SpacingConfig::default()
        },
        ..Config::default()
    };
    let src = "int*p;";
    let out = fmt_with(src, &config);
    assert!(out.contains("int *p"), "name mode: got\n{out}");
}

#[test]
fn pointer_align_name_trailing_comment() {
    // Regression: `Type *name /* comment */` was mis-classified as binary
    // multiplication because the forward scan hit the comment before a
    // terminator.  The star should be treated as a pointer declarator.
    let config = Config {
        spacing: SpacingConfig {
            pointer_align: PointerAlign::Name,
            ..SpacingConfig::default()
        },
        ..Config::default()
    };
    let src = "void f(HashElem *elem /* the elem */, Hash *pH /* the hash */);\n";
    let out = fmt_with(src, &config);
    assert!(
        out.contains("HashElem *elem"),
        "name mode with trailing comment: got\n{out}"
    );
    assert!(
        out.contains("Hash *pH"),
        "name mode with trailing comment (pH): got\n{out}"
    );
}

#[test]
fn pointer_align_double_star_type() {
    let config = Config {
        spacing: SpacingConfig {
            pointer_align: PointerAlign::Type,
            ..SpacingConfig::default()
        },
        ..Config::default()
    };
    let src = "int**p;";
    let out = fmt_with(src, &config);
    assert!(out.contains("int** p"), "type double-ptr: got\n{out}");
}

#[test]
fn pointer_align_double_star_name() {
    let config = Config {
        spacing: SpacingConfig {
            pointer_align: PointerAlign::Name,
            ..SpacingConfig::default()
        },
        ..Config::default()
    };
    let src = "int**p;";
    let out = fmt_with(src, &config);
    assert!(out.contains("int **p"), "name double-ptr: got\n{out}");
}

#[test]
fn pointer_align_does_not_affect_multiplication() {
    // a * b is multiplication — pointer_align=type must not strip its spaces
    let config = Config {
        spacing: SpacingConfig {
            pointer_align: PointerAlign::Type,
            ..SpacingConfig::default()
        },
        ..Config::default()
    };
    let src = "int r=a*b;";
    let out = fmt_with(src, &config);
    assert!(out.contains("a * b"), "multiplication spaces: got\n{out}");
}

#[test]
fn pointer_align_name_user_defined_type() {
    let config = Config {
        spacing: SpacingConfig {
            pointer_align: PointerAlign::Name,
            ..SpacingConfig::default()
        },
        ..Config::default()
    };
    // User-defined type names (Ident) must also get pointer_align applied.
    let src = "MyType * p;";
    let out = fmt_with(src, &config);
    assert!(out.contains("MyType *p"), "name mode user type: got\n{out}");
}

#[test]
fn pointer_align_name_no_affect_on_multiplication_with_user_ident() {
    let config = Config {
        spacing: SpacingConfig {
            pointer_align: PointerAlign::Name,
            ..SpacingConfig::default()
        },
        ..Config::default()
    };
    // a * b after assignment is multiplication, not a pointer declarator.
    let src = "int r=a*b;";
    let out = fmt_with(src, &config);
    assert!(
        out.contains("a * b"),
        "multiplication after assign: got\n{out}"
    );
}

#[test]
fn unary_dereference_no_space() {
    let src = "int x=*ptr;";
    let out = fmt(src);
    assert!(
        out.contains("*ptr"),
        "unary * must not gain a space: got\n{out}"
    );
}

#[test]
fn unary_address_of_no_space() {
    let src = "int*p=&data;";
    let out = fmt(src);
    assert!(
        out.contains("&data"),
        "unary & must not gain a space: got\n{out}"
    );
}

#[test]
fn unary_address_of_after_assign_no_space() {
    let src = "p=&x;";
    let out = fmt(src);
    assert!(
        out.contains("&x"),
        "unary & after = must not gain a space: got\n{out}"
    );
}

#[test]
fn deref_after_block_comment_no_space() {
    // `/* comment */\n*ptr = val;` — deref at line start after a block
    // comment must not gain a space between `*` and the name.
    let src = "void f(void) {\n/* get it */\n*ptr = val;\n}";
    let out = fmt(src);
    assert!(
        out.contains("*ptr"),
        "deref at line start after block comment must not gain a space: got\n{out}"
    );
    assert!(!out.contains("* ptr"), "got spurious space in deref: {out}");
}

#[test]
fn brace_after_comment_retains_indent() {
    // `if (cond) /* note */\n{` — KR enforcement must move { to the same
    // line, not emit it at column 0.
    let src = "void f(void) {\nif (x) /* note */\n{\nreturn;\n}\n}";
    let out = fmt(src);
    assert!(
        out.contains("if (x) /* note */ {"),
        "control-flow brace must be on same line after trailing comment: got\n{out}"
    );
}

#[test]
fn fn_brace_newline_default() {
    // Default: function-definition { goes on its own line.
    let src = "int foo(void) { return 0; }";
    let out = fmt(src);
    assert!(
        out.contains("foo(void)\n"),
        "function brace must be on new line by default: got\n{out}"
    );
}

#[test]
fn fn_brace_newline_false_keeps_same_line() {
    let cfg = Config {
        braces: BraceConfig {
            fn_brace_newline: false,
            ..BraceConfig::default()
        },
        ..Config::default()
    };
    let src = "int foo(void) { return 0; }";
    let out = fmt_with(src, &cfg);
    assert!(
        out.contains("foo(void) {"),
        "fn_brace_newline=false must keep brace on same line: got\n{out}"
    );
}

#[test]
fn ctrl_flow_brace_same_line_with_fn_newline() {
    // Even when fn_brace_newline=true, control-flow braces stay on same line.
    let src = "void f(void) {\nif (x)\n{\nreturn;\n}\n}";
    let out = fmt(src);
    assert!(
        out.contains("if (x) {"),
        "control-flow brace must stay on same line: got\n{out}"
    );
}

#[test]
fn template_no_spaces_default() {
    // Default: no spaces inside angle brackets.
    let src = "std::vector<int> v;";
    let out = fmt(src);
    assert!(out.contains("vector<int>"), "got:\n{out}");
}

#[test]
fn template_map_two_args() {
    let src = "std::map<std::string,int> m;";
    let out = fmt(src);
    assert!(out.contains("map<std::string, int>"), "got:\n{out}");
}

#[test]
fn template_nested() {
    let src = "std::vector<std::vector<int>> vv;";
    let out = fmt(src);
    assert!(out.contains("vector<std::vector<int>>"), "got:\n{out}");
}

#[test]
fn template_space_inside() {
    let config = Config {
        spacing: SpacingConfig {
            space_inside_angle_brackets: true,
            ..SpacingConfig::default()
        },
        ..Config::default()
    };
    let src = "std::vector<int> v;";
    let out = fmt_with(src, &config);
    assert!(out.contains("vector< int >"), "got:\n{out}");
}

#[test]
fn template_declaration_keyword() {
    // `template<…>` — keyword triggers the heuristic.
    let src = "template<typename T> void f(T x);";
    let out = fmt(src);
    assert!(out.contains("template<typename T>"), "got:\n{out}");
}

#[test]
fn comparison_less_than_unchanged() {
    // Plain comparison: spaces must be preserved.
    let src = "int r=(a<b);";
    let out = fmt(src);
    assert!(out.contains("a < b"), "comparison lost spaces:\n{out}");
}

#[test]
fn comparison_greater_than_unchanged() {
    let src = "int r=(a>b);";
    let out = fmt(src);
    assert!(out.contains("a > b"), "comparison lost spaces:\n{out}");
}

#[test]
fn template_constructor_call() {
    // No space between `>` and `(` for constructor call.
    let src = "auto v=std::vector<int>();";
    let out = fmt(src);
    assert!(out.contains("vector<int>()"), "got:\n{out}");
}

fn fmt_with_var_decl_blank(src: &str) -> String {
    let mut config = Config::default();
    config.newlines.blank_line_after_var_decl_block = true;
    fmt_with(src, &config)
}

#[test]
fn var_decl_block_blank_line_inserted() {
    let src = "void f() {\n    int x = 1;\n    int y = 2;\n    foo(x);\n}\n";
    let out = fmt_with_var_decl_blank(src);
    let lines: Vec<&str> = out.lines().collect();
    // Find the blank line between `int y = 2;` and `foo(x);`
    let decl_line = lines.iter().position(|l| l.contains("int y")).unwrap();
    assert_eq!(
        lines[decl_line + 1],
        "",
        "expected blank line after last decl:\n{out}"
    );
    assert!(
        lines[decl_line + 2].contains("foo"),
        "foo not after blank:\n{out}"
    );
}

#[test]
fn var_decl_block_no_blank_when_no_decls() {
    // Function with no leading declarations: no blank line added.
    let src = "void g() {\n    foo();\n    bar();\n}\n";
    let out = fmt_with_var_decl_blank(src);
    assert!(
        !out.contains("\n\n    bar"),
        "should not add blank between two statements: {out}"
    );
}

#[test]
fn var_decl_block_on_by_default() {
    // Feature is on by default — blank line is inserted.
    let src = "void f() {\n    int x = 1;\n    foo(x);\n}\n";
    let out = fmt(src);
    assert!(
        out.contains("1;\n\n"),
        "blank line must appear after var decl block by default: {out}"
    );
}

#[test]
fn var_decl_block_no_false_positive_in_for_body() {
    // A variable declaration inside a for-loop body must not trigger the
    // blank_line_after_var_decl_block rule — that only applies to the
    // leading declaration run at function scope.
    let src = "void f(void) {\n    for (;;) {\n        int c = 1;\n        x++;\n    }\n}\n";
    let out = fmt(src);
    assert!(
        !out.contains("1;\n\n"),
        "blank line must NOT be inserted after decl inside for body: {out}"
    );
}

#[test]
fn var_decl_block_no_false_positive_in_if_body() {
    // Same rule: decl inside an if block body must not trigger the feature.
    let src = "void f(void) {\n    int x = 1;\n    if (x) {\n        const int c = 2;\n        foo(c);\n    }\n}\n";
    let out = fmt(src);
    // The blank line after `int x = 1;` (at function scope) is correct.
    // There must NOT be a blank line after `const int c = 2;` inside the if body.
    let lines: Vec<&str> = out.lines().collect();
    let c_line = lines
        .iter()
        .position(|l| l.contains("const int c"))
        .unwrap();
    assert_ne!(
        lines.get(c_line + 1).copied().unwrap_or("X"),
        "",
        "blank line must NOT follow decl inside if body: {out}"
    );
}

#[test]
fn var_decl_block_user_defined_type() {
    // `TypeName var;` where TypeName is a user-defined type (Ident, not a keyword)
    // must be treated as a declaration so the blank-line rule fires.
    let src =
        "void f(void) {\n    SerialComm_T data;\n    memset(&data, 0, sizeof(data));\n}\n";
    let out = fmt(src);
    assert!(
        out.contains("data;\n\n"),
        "blank line must follow user-defined-type decl: {out}"
    );
}

#[test]
fn var_decl_block_user_defined_type_pointer() {
    // Pointer to user-defined type: `TypeName *ptr;` should also count.
    let src = "void f(void) {\n    MyType *ptr;\n    use(ptr);\n}\n";
    let out = fmt(src);
    assert!(
        out.contains("ptr;\n\n"),
        "blank line must follow pointer-to-user-type decl: {out}"
    );
}

#[test]
fn var_decl_block_comment_before_first_decl_is_transparent() {
    // A leading block comment before the first declaration must not end
    // the declaration run — the blank line should still appear after the
    // declarations and before the first real statement.
    let src = "void f(void) {\n    /* preamble */\n    MyType data;\n    use(data);\n}\n";
    let out = fmt(src);
    assert!(
        out.contains("data;\n\n"),
        "blank line must follow decl even when preceded by a block comment: {out}"
    );
}

#[test]
fn var_decl_block_comment_between_decls_is_transparent() {
    // A section comment between two declarations must not end the var-decl
    // block. The blank line should appear after the last declaration, not
    // before the intermediate comment.
    let src =
        "void f(void) {\n    int x = 0;\n    /* WHEN */\n    int y = 1;\n    use(x, y);\n}\n";
    let out = fmt(src);
    assert!(
        out.contains("int y = 1;\n\n"),
        "blank line must follow last decl, not appear before mid-block comment:\n{out}"
    );
    // No blank line should be inserted between declarations.
    assert!(
        !out.contains("int x = 0;\n\n"),
        "no blank line should appear after first decl:\n{out}"
    );
}

#[test]
fn var_decl_block_macro_calls_not_treated_as_decls() {
    // Adjacent macro calls on separate lines (MACRO_A\nMACRO_B(...)) must
    // not be mistaken for `TypeName varName` declarations.
    let src =
        "void f(void) {\n    int x = 0;\n    EXPECT_BEGIN\n    ASSERT(x);\n    VERIFY_END\n}\n";
    let out = fmt(src);
    // No spurious blank line between ASSERT(...); and VERIFY_END.
    assert!(
        !out.contains("ASSERT(x);\n\n"),
        "no blank line should appear between macro calls:\n{out}"
    );
}

#[test]
fn var_decl_block_attribute_macro_plus_const_type_is_decl() {
    // `ATTR_MACRO const Type* var = ...` must be recognized as a declaration
    // so it stays in the var-decl block.
    let src =
        "void f(void) {\n    int n = 4;\n    ATTR const float* p = buf;\n    use(p);\n}\n";
    let out = fmt(src);
    assert!(
        out.contains("buf;\n\n"),
        "blank line must follow last decl (ATTR const float* p):\n{out}"
    );
    assert!(
        !out.contains("int n = 4;\n\n"),
        "no blank line should split the var-decl block:\n{out}"
    );
}

#[test]
fn var_decl_block_trailing_comment_before_ifdef() {
    // Trailing inline /* comment */ after the last decl must not suppress
    // the blank line that should appear before the following #ifdef.
    let src = "void f(void) {\n    int a;\n    int b; /* note */\n#ifdef X\n    int c;\n#endif\n    a = 1;\n}\n";
    let out = fmt_with_var_decl_blank(src);
    assert!(
        out.contains("b; /* note */\n\n#ifdef"),
        "blank line must appear before #ifdef after trailing comment: {out}"
    );
}

#[test]
fn var_decl_block_macro_function_body() {
    // A macro-defined function body at global scope (e.g. SM_STATE(...) { })
    // must activate the var-decl blank-line rule.
    let src = "}\n\nSM_STATE(WPA, START) {\n    int x;\n    int y;\n#ifdef X\n    int z;\n#endif\n    x = 1;\n}\n";
    let out = fmt_with_var_decl_blank(src);
    assert!(
        out.contains("int y;\n\n#ifdef") || out.contains("int y;\n\n#ifdef"),
        "blank line must appear in SM_STATE macro body before #ifdef: {out}"
    );
}

#[test]
fn blank_line_cap() {
    let src = "int a;\n\n\n\n\nint b;\n";
    let out = fmt(src);
    // max_blank_lines = 2 by default
    let blanks = out
        .lines()
        .collect::<Vec<_>>()
        .windows(3)
        .filter(|w| w[0].is_empty() && w[1].is_empty() && w[2].is_empty())
        .count();
    assert_eq!(blanks, 0, "too many consecutive blank lines:\n{out}");
}

#[test]
fn block_comment_two_blank_lines_preserved() {
    // Two blank lines between block comments must not collapse to one.
    // max_blank_lines=2 should allow both to survive.
    let src = "/*\n * A.\n */\n\n\n/*\n * B.\n */\n";
    let out = fmt(src);
    assert_eq!(
        out,
        "/*\n * A.\n */\n\n\n/*\n * B.\n */\n",
        "two blank lines between block comments collapsed:\n{out}"
    );
}

#[test]
fn access_specifier_indentation() {
    let src = "class Foo{public:int x;private:int y;protected:int z;};";
    let out = fmt(src);
    // public/private/protected must be at class brace level (4 spaces), not member level (8).
    assert!(
        out.lines().any(|l| l == "public:"),
        "public: not at class indent level:\n{out}"
    );
    assert!(
        out.lines().any(|l| l == "private:"),
        "private: not at class indent level:\n{out}"
    );
    assert!(
        out.lines().any(|l| l == "protected:"),
        "protected: not at class indent level:\n{out}"
    );
    // Members must be indented one level deeper than the access specifier.
    assert!(
        out.lines().any(|l| l == "    int x;"),
        "member not indented past access specifier:\n{out}"
    );
}

#[test]
fn access_specifier_in_inheritance_not_dedented() {
    // `public` in base-class list must not be treated as an access specifier label.
    let src = "class Bar {};\nclass Foo : public Bar {};\n";
    let out = fmt(src);
    // The line containing 'public Bar' must not be just "public" at column 0.
    assert!(
        !out.lines().any(|l| l.trim() == "public:"),
        "inheritance public wrongly treated as label:\n{out}"
    );
}

#[test]
fn void_cast_statement_indented() {
    // (void)expr; must keep indentation. Default space_after_cast=preserve so
    // no-space source stays no-space. fn_brace_newline=true puts { on its own line.
    let src = "void f() {\n    (void)func();\n    (void)bar(1, 2);\n}\n";
    let out = fmt(src);
    assert_eq!(
        out,
        "void f()\n{\n    (void)func();\n    (void)bar(1, 2);\n}\n"
    );
}

#[test]
fn cast_space_after_cast_false() {
    let mut cfg = Config::default();
    cfg.spacing.space_after_cast = SpaceOption::Remove;
    let src = "void f() { int x = (int)3.14; }\n";
    let out = fmt_with(src, &cfg);
    assert!(
        out.contains("(int)3.14"),
        "space_after_cast=false should produce no space: {out}"
    );
}

#[test]
fn cast_double_cast_no_space() {
    // Chained casts: (double)(int)x — no space between the two parens regardless of
    // space_after_cast, because the inner `(int)x` is itself a cast expression.
    let mut cfg = Config::default();
    cfg.spacing.space_after_cast = SpaceOption::Remove;
    let src = "void f() { double d = (double)(int)x; }\n";
    let out = fmt_with(src, &cfg);
    assert!(
        out.contains("(double)(int)x"),
        "double cast should have no space between with space_after_cast=false: {out}"
    );
}

#[test]
fn cast_space_after_cast_true() {
    let mut cfg = Config::default();
    cfg.spacing.space_after_cast = SpaceOption::Add;
    // Primitive cast before identifier.
    let src = "void f() { int x = (int)3.14; }\n";
    let out = fmt_with(src, &cfg);
    assert!(out.contains("(int) 3.14"), "cast+ident: {out}");
    // Cast before parenthesised subexpression.
    let src = "void f() { int y = (int)(x + 1); }\n";
    let out = fmt_with(src, &cfg);
    assert!(out.contains("(int) (x + 1)"), "cast+paren: {out}");
    // Chained casts: space only after the innermost cast.
    let src = "void f() { double d = (double)(int)x; }\n";
    let out = fmt_with(src, &cfg);
    assert!(out.contains("(double) (int) x"), "chained casts: {out}");
}

#[test]
fn cast_user_defined_type_no_space() {
    // (MyType) val — user-defined type cast honors space_after_cast=false.
    let mut cfg = Config::default();
    cfg.spacing.space_after_cast = SpaceOption::Remove;
    let src = "void f() { MyType x = (MyType) val; }\n";
    let out = fmt_with(src, &cfg);
    assert!(
        out.contains("(MyType)val"),
        "user-defined type cast should have no space: {out}"
    );
}

#[test]
fn cast_followed_by_dereference_no_space() {
    // (type)*ptr — cast + dereference: space_after_cast does not insert space before `*`.
    let mut cfg = Config::default();
    cfg.spacing.space_after_cast = SpaceOption::Remove;
    let src = "void f() { uint32_t x = (uint32_t)*ptr; int y = (int)*p; }\n";
    let out = fmt_with(src, &cfg);
    assert!(out.contains("(uint32_t)*ptr"), "cast+deref uint32_t: {out}");
    assert!(out.contains("(int)*p"), "cast+deref int: {out}");
}

#[test]
fn designated_initializer_no_space_around_dot() {
    // {.field = val} — dot must have no space after it, but space before
    // when it follows a comma (not after an expression).
    let src = "void f() { tlv_t r = {.value = 1, .len = 2}; }\n";
    let out = fmt(src);
    assert!(
        out.contains("{ .value = 1, .len = 2 }"),
        "designated init spacing: {out}"
    );
}

#[test]
fn initializer_negative_literal_no_space() {
    // {1, -2, -95} — unary minus inside a small initializer must not gain a space.
    let src = "void f() { char p[] = {1, -2, -95}; }\n";
    let out = fmt(src);
    assert!(out.contains("{ 1, -2, -95 }"), "negative literals: {out}");
}

#[test]
fn cast_user_defined_pointer_no_space() {
    // (MyType *) val — pointer cast with space_after_cast=false.
    let mut cfg = Config::default();
    cfg.spacing.space_after_cast = SpaceOption::Remove;
    let src = "void f() { MyType *x = (MyType *) val; }\n";
    let out = fmt_with(src, &cfg);
    assert!(
        out.contains("(MyType*)val") || out.contains("(MyType *)val"),
        "user-defined pointer cast should have no space after ')': {out}"
    );
}

#[test]
fn if_condition_ident_not_misclassified_as_cast() {
    // `if(x) stmt` — the `(x)` must NOT be treated as a cast.
    // With add_braces_to_if=true (default), bodies get wrapped; check that the
    // condition still gets proper space after `)`.
    let src = "void f(void) { if(x) foo(); while(p) bar(); }\n";
    let out = fmt(src);
    assert!(
        out.contains("if (x)"),
        "space missing after if condition: {out}"
    );
    assert!(
        out.contains("while (p)"),
        "space missing after while condition: {out}"
    );
    // Verify foo() and bar() appear somewhere (they're now inside braces).
    assert!(out.contains("foo()"), "foo() missing: {out}");
    assert!(out.contains("bar()"), "bar() missing: {out}");
}

#[test]
fn space_before_keyword_paren_true() {
    // Default: space between control keyword and `(`.
    let src = "void f() { for (int i=0;i<10;i++){} while(x){} if(x){} switch(x){} }\n";
    let out = fmt(src);
    assert!(out.contains("for ("), "for: {out}");
    assert!(out.contains("while ("), "while: {out}");
    assert!(out.contains("if ("), "if: {out}");
    assert!(out.contains("switch ("), "switch: {out}");
}

#[test]
fn space_before_keyword_paren_false() {
    let mut cfg = Config::default();
    cfg.spacing.space_before_keyword_paren = false;
    let src = "void f() { for (int i=0;i<10;i++){} while (x){} if (x){} switch (x){} }\n";
    let out = fmt_with(src, &cfg);
    assert!(out.contains("for("), "for: {out}");
    assert!(out.contains("while("), "while: {out}");
    assert!(out.contains("if("), "if: {out}");
    assert!(out.contains("switch("), "switch: {out}");
}

#[test]
fn indent_style_tabs() {
    let cfg = Config {
        indent: IndentConfig {
            style: IndentStyle::Tabs,
            width: 4,
            indent_switch_case: true,
            indent_goto_labels: false,
        },
        ..Config::default()
    };
    let src = "void f(int x) { if (x > 0) { foo(x); } }\n";
    let out = fmt_with(src, &cfg);
    // Each indent level must use a literal tab, not spaces.
    assert!(out.contains("\tif (x > 0)"), "level-1 indent: {out}");
    assert!(out.contains("\t\tfoo(x)"), "level-2 indent: {out}");
    assert!(!out.contains("    "), "no 4-space runs: {out}");
}

#[test]
fn indent_style_tabs_idempotent() {
    let cfg = Config {
        indent: IndentConfig {
            style: IndentStyle::Tabs,
            width: 4,
            indent_switch_case: true,
            indent_goto_labels: false,
        },
        ..Config::default()
    };
    let src = "void f() {\n\tif (x) {\n\t\tfoo();\n\t}\n}\n";
    let pass1 = fmt_with(src, &cfg);
    let pass2 = fmt_with(&pass1, &cfg);
    assert_eq!(pass1, pass2, "tab-indent formatting must be idempotent");
}

#[test]
fn unary_after_assignment_space() {
    // = &ptr, = -1, = *ptr, = +val must preserve space after `=`.
    let src = "void f() { int a = &ptr; int b = -1; int c = *ptr; int d = +val; }\n";
    let out = fmt(src);
    assert!(out.contains("= &ptr"), "= &ptr: {out}");
    assert!(out.contains("= -1"), "= -1: {out}");
    assert!(out.contains("= *ptr"), "= *ptr: {out}");
    assert!(out.contains("= +val"), "= +val: {out}");
}

#[test]
fn unary_no_space_after_op() {
    // Unary -/+/*/& must not gain a space between op and operand.
    let src = "void f() { return -1; return *ptr; return &x; int z = x + -y; }\n";
    let out = fmt(src);
    assert!(out.contains("return -1"), "return -1: {out}");
    assert!(out.contains("return *ptr"), "return *ptr: {out}");
    assert!(out.contains("return &x"), "return &x: {out}");
    assert!(out.contains("+ -y"), "x + -y: {out}");
}

#[test]
fn sizeof_no_space_before_paren() {
    let src = "int x = sizeof(int);\n";
    let out = fmt(src);
    assert!(
        out.contains("sizeof(int)"),
        "sizeof should not get space before paren: {out}"
    );
}

#[test]
fn sizeof_minus_not_unary() {
    // sizeof(x) ends an expression; `-` after it must be treated as binary.
    let src = "void f(void) {\n    strncpy(buf, src, sizeof(buf) - 1);\n}\n";
    let out = fmt(src);
    assert!(
        out.contains("sizeof(buf) - 1"),
        "minus after sizeof() must be binary (space on both sides): {out}"
    );
}

#[test]
fn struct_closing_brace_semicolon_same_line() {
    // `struct Foo { … };` must not put `;` on its own line.
    let src = "struct Point { int x; int y; };\n";
    let out = fmt(src);
    assert!(
        out.contains("};\n"),
        "semicolon must follow closing brace on same line: {out}"
    );
    assert!(
        !out.contains("}\n;"),
        "semicolon must not be on its own line: {out}"
    );
}

#[test]
fn alignof_no_space_before_paren() {
    let src = "int x = alignof(int);\n";
    let out = fmt(src);
    assert!(
        out.contains("alignof(int)"),
        "alignof should not get space before paren: {out}"
    );
}

#[test]
fn block_comment_after_closing_brace_stays_on_same_line() {
    let src = "extern \"C\" {\nint f();\n} /* extern \"C\" */\n";
    let out = fmt(src);
    assert!(
        out.lines()
            .any(|l| l.starts_with('}') && l.contains("/* extern \"C\" */")),
        "trailing block comment should stay on same line as closing brace, got:\n{out}"
    );
}

#[test]
fn extern_c_block_no_indent() {
    let src = "extern \"C\" {\nint foo(void);\nvoid bar(int x);\n}\n";
    let out = fmt(src);
    assert!(
        out.contains("\nint foo(void);"),
        "declarations inside extern \"C\" should not be indented, got:\n{out}"
    );
    assert!(
        out.contains("\nvoid bar(int x);"),
        "declarations inside extern \"C\" should not be indented, got:\n{out}"
    );
}

#[test]
fn extern_c_brace_force_same_line() {
    // Default (force_same_line): { always on same line regardless of source.
    let src_allman = "extern \"C\"\n{\nint foo(void);\n}\n";
    let src_kr = "extern \"C\" {\nint foo(void);\n}\n";

    for src in [src_allman, src_kr] {
        let out = fmt(src);
        assert!(
            out.contains("extern \"C\" {"),
            "extern \"C\" {{ must be forced to same line (default config), got:\n{out}"
        );
    }
}

#[test]
fn extern_c_brace_preserve() {
    let mut cfg = Config::default();
    cfg.braces.extern_c_brace = ExternCBrace::Preserve;

    // Source has brace on next line — preserve keeps it there.
    let src_allman = "extern \"C\"\n{\nint foo(void);\n}\n";
    let out_allman = fmt_with(src_allman, &cfg);
    assert!(
        out_allman.lines().any(|l| l.trim() == "{"),
        "extern_c_brace=preserve must keep brace on its own line, got:\n{out_allman}"
    );

    // Source has brace on same line — preserve keeps it there too.
    let src_kr = "extern \"C\" {\nint foo(void);\n}\n";
    let out_kr = fmt_with(src_kr, &cfg);
    assert!(
        out_kr.contains("extern \"C\" {"),
        "extern_c_brace=preserve must keep brace on same line when source has it there, got:\n{out_kr}"
    );
}

#[test]
fn extern_c_nested_function_still_indents() {
    // fn_brace_newline=true puts function { on its own line.
    let src = "extern \"C\" {\nvoid foo(void) {\nint x = 1;\n}\n}\n";
    let out = fmt(src);
    assert!(
        out.contains("\nvoid foo(void)\n"),
        "function declaration in extern \"C\" should not be indented, got:\n{out}"
    );
    assert!(
        out.contains("\n    int x = 1;"),
        "body of function inside extern \"C\" should be indented one level, got:\n{out}"
    );
}

#[test]
fn param_continuation_alignment() {
    let src = "void foo(int a,\nint b,\nint c) {}\n";
    let out = fmt(src);
    assert!(
        out.contains("void foo(int a,\n         int b,\n         int c)"),
        "continuation params should align to opening paren column, got:\n{out}"
    );
}

#[test]
fn space_inside_parens_preserve_no_space_in_source() {
    // Default Preserve: source has no spaces inside parens → output has none.
    let src = "void f(int x) { int z = (x + 1); if (z > 0) foo(z); }\n";
    let out = fmt(src);
    assert!(out.contains("f(int x)"), "decl parens: {out}");
    assert!(out.contains("(x + 1)"), "expr parens: {out}");
    assert!(out.contains("if (z > 0)"), "keyword parens: {out}");
    assert!(out.contains("foo(z)"), "call parens: {out}");
}

#[test]
fn space_inside_parens_preserve_with_space_in_source() {
    // Preserve: source has spaces inside parens → output keeps them.
    let src = "void f(void) { assert( x > 0 ); testcase( x ); }\n";
    let out = fmt(src);
    assert!(
        out.contains("assert( x > 0 )"),
        "preserve should keep spaces inside assert(): {out}"
    );
    assert!(
        out.contains("testcase( x )"),
        "preserve should keep spaces inside testcase(): {out}"
    );
}

#[test]
fn space_inside_parens_true() {
    let mut cfg = Config::default();
    cfg.spacing.space_inside_parens = SpaceOption::Add;
    let src = "void f(int x) { int z = (x + 1); if (z > 0) foo(z); }\n";
    let out = fmt_with(src, &cfg);
    assert!(out.contains("f( int x )"), "decl parens: {out}");
    assert!(out.contains("( x + 1 )"), "expr parens: {out}");
    assert!(out.contains("if ( z > 0 )"), "keyword parens: {out}");
    assert!(out.contains("foo( z )"), "call parens: {out}");
}

#[test]
fn space_inside_parens_continuation_alignment() {
    // When space_inside_parens is enabled the leading space shifts the first
    // argument by one column; continuation lines must align with that shifted
    // column so all arguments line up.
    let src = "void f() { foo(arg1,\narg2,\narg3); }\n";
    let cfg = Config {
        spacing: SpacingConfig {
            space_inside_parens: SpaceOption::Add,
            ..SpacingConfig::default()
        },
        ..Config::default()
    };
    let out = fmt_with(src, &cfg);
    // `    foo( ` = 9 chars → arg2 aligns at col 9 (9 spaces)
    assert!(
        out.contains("foo( arg1,\n         arg2,\n         arg3 )"),
        "with space_inside_parens, continuation must align to first-arg column, got:\n{out}"
    );
}

#[test]
fn call_continuation_alignment() {
    let src = "void f() { result = some_fn(arg1,\narg2,\narg3); }\n";
    let out = fmt(src);
    // `    result = some_fn(` = 21 chars, so continuation aligns at col 21
    assert!(
        out.contains("some_fn(arg1,\n                     arg2,\n                     arg3)"),
        "continuation call args should align to opening paren, got:\n{out}"
    );
}

#[test]
fn nested_paren_continuation_alignment() {
    let src = "void f() { foo(bar(x,\ny), z); }\n";
    let out = fmt(src);
    // `    foo(bar(` = 12 chars, so inner continuation aligns at col 12
    assert!(
        out.contains("bar(x,\n            y)"),
        "nested paren continuation should align to inner opening paren, got:\n{out}"
    );
}

#[test]
fn paren_eol_continuation_uses_regular_indent() {
    // When `(` is the last token on a line, continuation lines must use
    // a normal block indent rather than aligning to the (deep) paren column.
    let src = "result = some_function(\narg1,\narg2,\narg3);\n";
    let out = fmt(src);
    assert!(
        out.contains("some_function(\n    arg1,\n    arg2,\n    arg3)"),
        "paren-at-eol continuation must use regular indent, got:\n{out}"
    );
}

#[test]
fn paren_eol_continuation_consistent_across_lines() {
    // All continuation lines in an eol-paren must share the same indent,
    // not just the first one.
    let src = "void f() { foo(\narg1,\narg2,\narg3); }\n";
    let out = fmt(src);
    let cont_lines: Vec<&str> = out.lines().filter(|l| l.contains("arg")).collect();
    assert_eq!(cont_lines.len(), 3, "expected 3 arg lines, got:\n{out}");
    let indents: Vec<usize> = cont_lines
        .iter()
        .map(|l| l.len() - l.trim_start().len())
        .collect();
    assert!(
        indents.iter().all(|&i| i == indents[0]),
        "all continuation lines must have same indent, got:\n{out}"
    );
}

#[test]
fn paren_eol_continuation_inside_nested_call_with_assign() {
    // `method = eap_server_get_type(` — EOL paren on an assign-continuation
    // line (visual indent level 4 = 16 spaces).  Continuation args must
    // be one indent deeper (20 spaces), not at the scope level (12-16).
    // Mirrors the hostap pattern: indent_level=3 but visual indent=16.
    let src = "void f() { void g() { void h() { x =\nget_type(\narg1,\narg2); } } }\n";
    let out = fmt(src);
    let arg_lines: Vec<&str> = out.lines().filter(|l| l.contains("arg")).collect();
    assert_eq!(arg_lines.len(), 2, "expected 2 arg lines, got:\n{out}");
    // get_type( is at indent+1 = 16 spaces; args must be at 16+4 = 20.
    let indent = arg_lines[0].len() - arg_lines[0].trim_start().len();
    assert_eq!(indent, 20, "args after assign-continuation EOL paren must be at 20 spaces, got:\n{out}");
}

#[test]
fn paren_eol_continuation_inner_paren_inside_if() {
    // `if (hostapd_config_read_radius_addr(` — two parens opened on the
    // same line (the `if (` and the call `(`).  The EOL paren is the
    // inner call's `(`.  Continuation must be at
    //   line_indent (8) + 2 parens * 4 = 16 spaces.
    let src = "void f() { void g() { if (some_long_call(\narg1,\narg2)) {} } }\n";
    let out = fmt(src);
    let arg_lines: Vec<&str> = out.lines().filter(|l| l.contains("arg")).collect();
    assert_eq!(arg_lines.len(), 2, "expected 2 arg lines, got:\n{out}");
    // if ( is at level 2 = 8 spaces; 2 parens opened → 8 + 2*4 = 16.
    let indent = arg_lines[0].len() - arg_lines[0].trim_start().len();
    assert_eq!(indent, 16, "args inside if(call( EOL paren must be at 16 spaces, got:\n{out}");
}

#[test]
fn assign_continuation_aligns_to_rhs_column() {
    // `    int result = ` = 16 chars, so continuation aligns at col 16
    let src = "void f() { int result = value1 +\nvalue2 +\nvalue3; }\n";
    let out = fmt(src);
    assert!(
        out.contains("= value1 +\n                 value2 +\n                 value3"),
        "continuation after = should align to RHS column, got:\n{out}"
    );
}

#[test]
fn assign_eol_continuation_uses_deeper_indent() {
    // When `=` is the last token on its line, continuation uses indent+1.
    let src = "void f() { int x =\nvalue; }\n";
    let out = fmt(src);
    assert!(
        out.contains("int x =\n        value"),
        "= at EOL continuation should use indent+1, got:\n{out}"
    );
}

#[test]
fn assign_continuation_cleared_by_brace() {
    // Initializer brace `{` should not be aligned to the = column.
    let src = "int a[3] = {\n1,\n2,\n3\n};\n";
    let out = fmt(src);
    assert!(
        out.contains("= {\n    1,\n    2,\n    3\n}"),
        "initializer elements must use brace indent, not = column, got:\n{out}"
    );
}

#[test]
fn space_after_semi_before_plusplus_in_for() {
    let out = fmt("void f() { for (i = 0; i < 10;++i) {} }\n");
    assert!(
        !out.contains(";++i") && out.contains("; ++i"),
        "semicolon before ++ must have a space: {out}"
    );
}

#[test]
fn space_between_consecutive_semis_in_for() {
    // for (i = 0;; i++) — no space between consecutive ;;, space after (matching uncrustify)
    let out = fmt("void f() { for (i = 0;; i++) {} }\n");
    assert!(
        out.contains("for (i = 0;; i++)"),
        "for-loop with empty condition must not get space between ;; : {out}"
    );
    // for (;;) — infinite loop: no space (uncrustify normalizes to no-space)
    let out2 = fmt("void f() { for (;;) {} }\n");
    assert!(
        out2.contains("for (;;)"),
        "infinite-loop for(;;) must not get spaces: {out2}"
    );
    // source already had spaces: for (; ;) — normalize to for (;;)
    let out3 = fmt("void f() { for (; ;) {} }\n");
    assert!(
        out3.contains("for (;;)"),
        "for(; ;) with spaces should normalize to for(;;): {out3}"
    );
}

#[test]
fn func_ptr_typedef_space_before_paren() {
    let out = fmt("typedef void(*Fn)(int);\n");
    assert!(
        out.contains("void (*Fn)"),
        "function pointer typedef needs space before (*: {out}"
    );
}

#[test]
fn func_ptr_typedef_ref_space_before_paren() {
    let out = fmt("typedef void(&Ref)(int);\n");
    assert!(
        out.contains("void (&Ref)"),
        "function reference typedef needs space before (&: {out}"
    );
}

#[test]
fn func_ptr_call_no_extra_space() {
    let out = fmt("void f() { bar(x); }\n");
    assert!(
        out.contains("bar(x)"),
        "normal call must not gain extra space: {out}"
    );
}

#[test]
fn space_after_semi_before_minusminus_in_for() {
    let out = fmt("void f() { for (i = 10; i > 0;--i) {} }\n");
    assert!(
        !out.contains(";--i") && out.contains("; --i"),
        "semicolon before -- must have a space: {out}"
    );
}

#[test]
fn space_after_semi_before_unary_star_in_for() {
    // `for (pos = cmd, len = 0;*pos != '\0'; pos++)` — unary * after ;
    let out = fmt(
        "void f(char *cmd) { char *pos; for (pos = cmd, len = 0;*pos != '\\0'; pos++) {} }\n",
    );
    assert!(
        !out.contains(";*pos") && out.contains("; *pos"),
        "semicolon before unary * in for-loop must have a space: {out}"
    );
}

#[test]
fn space_after_semi_before_unary_amp_in_for() {
    let out = fmt("void f() { for (int i = 0;&x < end; i++) {} }\n");
    assert!(
        !out.contains(";&x") && out.contains("; &x"),
        "semicolon before unary & in for-loop must have a space: {out}"
    );
}

#[test]
fn block_comment_closing_preserve_by_default() {
    // Default config: bare `*/` is preserved as-is (uncrustify parity).
    let out = fmt("/*\n * foo\n*/\nvoid f() {}\n");
    assert!(
        out.contains("\n*/"),
        "default config must preserve flush closing */, got:\n{out}"
    );
}

#[test]
fn block_comment_closing_gets_space_when_opt_in() {
    let cfg = Config {
        comments: CommentConfig {
            normalize_block_comment_closing: true,
        },
        ..Config::default()
    };
    let out = fmt_with("/*\n * foo\n*/\nvoid f() {}\n", &cfg);
    assert!(
        out.contains(" */"),
        "normalize_block_comment_closing=true: closing */ must have a leading space, got:\n{out}"
    );
    assert!(
        !out.contains("\n*/"),
        "normalize_block_comment_closing=true: closing */ must not be flush at line start, got:\n{out}"
    );
}

#[test]
fn binary_op_after_inline_block_comment_gets_space() {
    let out = fmt("int x = 2 /* comment */ + 3;\n");
    assert!(
        out.contains("/* comment */ +"),
        "binary op after inline block comment must have a leading space, got:\n{out}"
    );
}

#[test]
fn binary_amp_after_arrow_not_pointer_decl() {
    // `p->flags & MASK` — the `&` follows a member-access chain and must be
    // treated as bitwise AND, not a pointer declarator.
    let out = fmt("void f(void) { if (p->db->flags & MASK) {} }\n");
    assert!(
        out.contains("flags & MASK"),
        "& after -> must be binary AND with space on both sides, got:\n{out}"
    );
}

#[test]
fn binary_amp_after_dot_not_pointer_decl() {
    let out = fmt("void f(void) { if (s.field & MASK) {} }\n");
    assert!(
        out.contains("field & MASK"),
        "& after . must be binary AND with space on both sides, got:\n{out}"
    );
}

#[test]
fn binary_amp_in_if_condition_no_space_in_source() {
    // `if (auth_type &WPS_AUTH_WPA2PSK)` — binary & inside if() with no space in source.
    // Previously misclassified as pointer declarator due to KwIf not matching Keyword.
    let out = fmt("void f(int auth_type) { if (auth_type &WPS_AUTH_WPA2PSK) {} }\n");
    assert!(
        out.contains("auth_type & WPS_AUTH_WPA2PSK"),
        "& in if() must be binary AND with space on both sides, got:\n{out}"
    );
}

#[test]
fn binary_pipe_in_if_condition_no_space_in_source() {
    let out = fmt("void f(int x) { if (x |MASK) {} }\n");
    assert!(
        out.contains("x | MASK"),
        "| in if() must be binary OR with space on both sides, got:\n{out}"
    );
}

#[test]
fn binary_amp_in_while_condition() {
    let out = fmt("void f(int flags) { while (flags &MASK) {} }\n");
    assert!(
        out.contains("flags & MASK"),
        "& in while() must be binary AND, got:\n{out}"
    );
}

#[test]
fn block_comment_double_star_style_closing_no_space() {
    // SQLite-style: `/*\n** text\n*/` — closing `*/` must NOT get a leading space
    // even when normalize_block_comment_closing is enabled.
    let cfg = Config {
        comments: CommentConfig {
            normalize_block_comment_closing: true,
        },
        ..Config::default()
    };
    let src = "/*\n** SQLite style\n** continuation\n*/\nvoid f() {}\n";
    let out = fmt_with(src, &cfg);
    assert!(
        out.contains("\n*/"),
        "double-star style closing */ must stay flush at col 0, got:\n{out}"
    );
    assert!(
        !out.contains("\n */"),
        "double-star style must not gain a spurious leading space, got:\n{out}"
    );
}

#[test]
fn block_comment_closing_already_spaced_unchanged() {
    let cfg = Config {
        comments: CommentConfig {
            normalize_block_comment_closing: true,
        },
        ..Config::default()
    };
    let src = "/*\n * foo\n */\nvoid f() {}\n";
    let out = fmt_with(src, &cfg);
    assert!(
        out.contains(" */") && !out.contains("  */"),
        "already-correct */ must not be double-spaced, got:\n{out}"
    );
}

#[test]
fn block_comment_trailing_spaces_stripped() {
    // Source has trailing spaces on the continuation and closing lines.
    let src = "/*   \n * line with trailing   \n */   \nvoid f() {}\n";
    let out = fmt(src);
    assert!(
        !out.lines().any(|l| l.ends_with(' ')),
        "trailing spaces must be stripped from all comment lines, got:\n{out}"
    );
}

#[test]
fn block_comment_tab_continuation_expanded_to_spaces() {
    // Source: two-tab indent before ` * text` — must become spaces.
    let src = "\t\t/*\n\t\t * stdout is forbidden\n\t\t */\nint x;\n";
    let out = fmt(src);
    // Each leading \t should be expanded to indent_width (4) spaces.
    assert!(
        out.contains("         * stdout"),
        "tabs in continuation line must be expanded to spaces:\n{out}"
    );
    assert!(
        !out.contains('\t'),
        "no tabs must remain in the output:\n{out}"
    );
}

#[test]
fn block_comment_tab_continuation_tabs_style_preserved() {
    // When indent.style = tabs, leading tabs in comment bodies must stay as tabs.
    let cfg = Config {
        indent: IndentConfig {
            style: IndentStyle::Tabs,
            width: 4,
            indent_switch_case: true,
            indent_goto_labels: false,
        },
        ..Config::default()
    };
    let src = "void f() {\n\t/*\n\t * note\n\t */\n}\n";
    let out = fmt_with(src, &cfg);
    assert!(
        out.contains("\t * note"),
        "tabs in continuation line must be preserved under tabs style:\n{out}"
    );
}

#[test]
fn block_comment_mixed_leading_whitespace_expanded() {
    // Mixed: spaces already present (no tab at very start of continuation).
    let src = "void f() {\n    /*\n     * already spaces\n     */\n}\n";
    let out = fmt(src);
    // Already spaces — must remain unchanged (no extra expansion).
    assert!(
        out.contains("     * already spaces"),
        "space-indented continuation must be left alone:\n{out}"
    );
}

fn cfg_align(span: usize) -> Config {
    Config {
        spacing: SpacingConfig {
            align_right_cmt_span: span,
            ..Default::default()
        },
        ..Default::default()
    }
}

#[test]
fn align_trailing_comments_struct() {
    let src =
        "struct Foo { int x; // short\nlong long_field; // longer\nchar c; // another\n};\n";
    let out = fmt_with(src, &cfg_align(2));
    // All three `//` should start at the same column.
    let positions: Vec<usize> = out.lines().filter_map(trailing_comment_col).collect();
    assert_eq!(
        positions.len(),
        3,
        "expected 3 inline comments, got:\n{out}"
    );
    assert!(
        positions.iter().all(|&c| c == positions[0]),
        "trailing comments not aligned: columns={positions:?}\n{out}"
    );
}

#[test]
fn align_trailing_comments_block_comment_style() {
    // /* */ inline block comments should be aligned the same as // comments.
    let src = "int a; /* short */\nlong long_field; /* longer */\n";
    let out = fmt_with(src, &cfg_align(2));
    let positions: Vec<usize> = out.lines().filter_map(trailing_comment_col).collect();
    assert_eq!(
        positions.len(),
        2,
        "expected 2 inline /* */ comments:\n{out}"
    );
    assert_eq!(
        positions[0], positions[1],
        "/* */ trailing comments must be column-aligned:\n{out}"
    );
}

#[test]
fn align_trailing_comments_doxygen_not_treated_as_regular() {
    // /**< Doxygen member comments must not be picked up by trailing_comment_col
    // (they have their own alignment pass).
    let src = "int x; /**< x */\nlong yy; /**< yy */\n";
    let positions: Vec<usize> = src.lines().filter_map(trailing_comment_col).collect();
    assert!(
        positions.is_empty(),
        "/**< must not be detected as a regular trailing comment:\n{src}"
    );
}

#[test]
fn align_trailing_comments_off_when_span_zero() {
    let src = "struct Foo { int x; // a\nlong long_field; // bb\n};\n";
    let out = fmt_with(src, &cfg_align(0));
    let positions: Vec<usize> = out.lines().filter_map(trailing_comment_col).collect();
    assert_eq!(
        positions.len(),
        2,
        "expected 2 inline comments, got:\n{out}"
    );
    assert_ne!(
        positions[0], positions[1],
        "comments should NOT be aligned when span=0:\n{out}"
    );
}

#[test]
fn align_trailing_comments_single_line_groups_default() {
    // Default style (Groups): a lone trailing comment keeps 1 space — not normalized.
    let src = "uint8_t buf[] = {\n    0x00, /* bad id */\n    0x01, 0x02\n};\n";
    let out = fmt_with(src, &cfg_align(2));
    let line = out.lines().find(|l| l.contains("/* bad id */")).unwrap();
    // With Groups default the comment should be flush after the comma with 1 space.
    assert!(
        line.contains(", /* bad id */"),
        "single trailing comment should keep 1 space in Groups mode:\n{out}"
    );
}

#[test]
fn align_trailing_comments_single_line_all_style() {
    // AlignCmtStyle::All: single trailing comments are padded to min_gap.
    let cfg = Config {
        spacing: SpacingConfig {
            align_right_cmt_span: 1,
            align_right_cmt_gap: 3,
            align_right_cmt_style: AlignCmtStyle::All,
            ..Default::default()
        },
        ..Config::default()
    };
    let src = "uint8_t buf[] = {\n    0x00, /* bad id */\n    0x01, 0x02\n};\n";
    let out = fmt_with(src, &cfg);
    let col = out
        .lines()
        .find(|l| l.contains("/* bad id */"))
        .and_then(trailing_comment_col)
        .expect("comment not found");
    let code_len = out
        .lines()
        .find(|l| l.contains("/* bad id */"))
        .map(|l| l[..col].trim_end().len())
        .unwrap();
    assert!(
        col >= code_len + 3,
        "single trailing comment must be padded to min_gap=3 in All mode, got col={col}:\n{out}"
    );
}

#[test]
fn align_trailing_comments_blank_line_breaks_group() {
    // span=2: only consecutive lines group; blank line breaks the group.
    let src = "int a; // g1\nint b; // g1\n\nint c; // g2\n";
    let out = fmt_with(src, &cfg_align(2));
    let cols: Vec<usize> = out.lines().filter_map(trailing_comment_col).collect();
    assert_eq!(cols.len(), 3, "expected 3 inline comments, got:\n{out}");
    // First two should be aligned (same group); third may differ.
    assert_eq!(cols[0], cols[1], "group-1 comments not aligned:\n{out}");
}

#[test]
fn align_trailing_comments_span_bridges_gap_line() {
    // span=3 (matches uncrustify default): a single non-commented line
    // between two commented lines is allowed within the same group.
    // Distance between ptk and tptk = 2 (one gap line: ptk_set).
    // 2 < span=3 → same group.
    let src = "    struct wpa_ptk ptk; /* Derived PTK */\n    int ptk_set;\n    struct wpa_ptk tptk; /* Derived PTK during rekeying */\n";
    let out = fmt_with(src, &Config::default());
    let positions: Vec<usize> = out.lines().filter_map(trailing_comment_col).collect();
    assert_eq!(positions.len(), 2, "expected 2 trailing comments:\n{out}");
    assert_eq!(
        positions[0], positions[1],
        "ptk and tptk comments must be column-aligned (span=3 bridges 1 gap line):\n{out}"
    );
}

#[test]
fn align_trailing_comments_span_does_not_bridge_two_gap_lines() {
    // span=3: two non-commented lines between commented lines means
    // distance=3, which is NOT < 3 → separate groups.
    let src = "    struct ap_info *hnext; /* next entry in hash table list */\n    u8 addr[6];\n    u8 supported_rates[256];\n    int erp; /* ERP Info */\n";
    let out = fmt_with(src, &Config::default());
    let positions: Vec<usize> = out.lines().filter_map(trailing_comment_col).collect();
    assert_eq!(positions.len(), 2, "expected 2 trailing comments:\n{out}");
    // erp is isolated (single-line group), hnext is also single-line here.
    // They must NOT be at the same column (Groups style, no normalization).
    assert_ne!(
        positions[0], positions[1],
        "hnext and erp must NOT be co-aligned with span=3 (2-gap-line distance):\n{out}"
    );
}

fn cfg_enum_align(span: usize) -> Config {
    Config {
        spacing: SpacingConfig {
            align_enum_equ_span: span,
            ..Default::default()
        },
        ..Default::default()
    }
}

#[test]
fn align_enum_equals_basic() {
    let src = "enum Color { RED = 0,\nGREEN = 1,\nBLUE_DARK = 2,\nWHITE = 3,\n};\n";
    let out = fmt_with(src, &cfg_enum_align(1));
    let positions: Vec<usize> = out.lines().filter_map(enum_eq_col).collect();
    assert_eq!(
        positions.len(),
        4,
        "expected 4 enum value lines, got:\n{out}"
    );
    assert!(
        positions.iter().all(|&c| c == positions[0]),
        "enum = signs not aligned: columns={positions:?}\n{out}"
    );
}

#[test]
fn align_enum_equals_off_when_span_zero() {
    let src = "enum E { A = 1,\nLONG_NAME = 2,\n};\n";
    let out = fmt_with(src, &cfg_enum_align(0));
    let positions: Vec<usize> = out.lines().filter_map(enum_eq_col).collect();
    assert_eq!(
        positions.len(),
        2,
        "expected 2 enum value lines, got:\n{out}"
    );
    assert_ne!(
        positions[0], positions[1],
        "enum = should NOT be aligned when span=0:\n{out}"
    );
}

#[test]
fn align_enum_equals_blank_line_transparent() {
    // Blank lines inside an enum are transparent: all four values should align
    // together even though they are separated by a blank line.
    let src = "enum E { A = 1,\nLONG_NAME = 2,\n\nC = 10,\nD = 11,\n};\n";
    let out = fmt_with(src, &cfg_enum_align(1));
    let positions: Vec<usize> = out.lines().filter_map(enum_eq_col).collect();
    assert_eq!(
        positions.len(),
        4,
        "expected 4 enum value lines, got:\n{out}"
    );
    // All four are in one group (blank line is transparent) and must be aligned.
    assert!(
        positions.windows(2).all(|w| w[0] == w[1]),
        "= signs not all aligned across blank line: {positions:?}\n{out}"
    );
}

#[test]
fn align_enum_equals_isolated_values_aligned() {
    // Each value on its own paragraph (blank line between every pair) — all should align.
    let src =
        "typedef enum {\nSUCCESS = 0,\n\nVERY_LONG_FAILURE_CODE = 1,\n\nTIMEOUT = 2,\n} R;\n";
    let out = fmt_with(src, &cfg_enum_align(1));
    let positions: Vec<usize> = out.lines().filter_map(enum_eq_col).collect();
    assert_eq!(positions.len(), 3, "expected 3 value lines:\n{out}");
    assert!(
        positions.windows(2).all(|w| w[0] == w[1]),
        "= signs not aligned: {positions:?}\n{out}"
    );
}

#[test]
fn align_enum_equals_does_not_touch_function_assignments() {
    let src = "void f() { int x = 5;\nint longer_var = 6;\n}\n";
    let out_default = fmt(src);
    let out_aligned = fmt_with(src, &cfg_enum_align(1));
    assert_eq!(
        out_default, out_aligned,
        "function assignments should not be aligned:\n{out_aligned}"
    );
}

#[test]
fn align_enum_equals_bare_members_transparent() {
    // Bare members (no explicit value) must not break the alignment group.
    let src = "enum E { RED,\nGREEN = 5,\nBLUE,\nYELLOW = 10,\nWHITE,\n};\n";
    let out = fmt_with(src, &cfg_enum_align(1));
    let positions: Vec<usize> = out.lines().filter_map(enum_eq_col).collect();
    assert_eq!(
        positions.len(),
        2,
        "expected 2 assigned members, got:\n{out}"
    );
    assert_eq!(
        positions[0], positions[1],
        "= signs not aligned across bare members:\n{out}"
    );
}

#[test]
fn align_enum_equals_last_member_no_comma() {
    // The last enum member has no trailing comma — it must still be included
    // in the alignment group.
    let src = "enum E {\n    ACCEPT_UNLESS_DENIED = 0,\n    DENY_UNLESS_ACCEPTED = 1,\n    USE_EXTERNAL_RADIUS_AUTH = 2\n};\n";
    let out = fmt_with(src, &cfg_enum_align(1));
    let positions: Vec<usize> = out.lines().filter_map(enum_eq_col).collect();
    assert_eq!(positions.len(), 3, "all 3 members must be detected:\n{out}");
    assert!(
        positions.windows(2).all(|w| w[0] == w[1]),
        "= signs not aligned for last-member-no-comma:\n{out}"
    );
}

#[test]
fn align_enum_equals_ifdef_transparent() {
    // Preprocessor directives inside an enum must not break the alignment group.
    let src = "enum E {\n    SECURITY_PLAINTEXT = 0,\n#ifdef CONFIG_WEP\n    SECURITY_STATIC_WEP = 1,\n#endif\n    SECURITY_WPA_PSK = 3,\n};\n";
    let out = fmt_with(src, &cfg_enum_align(1));
    let positions: Vec<usize> = out.lines().filter_map(enum_eq_col).collect();
    assert_eq!(positions.len(), 3, "3 assigned members expected:\n{out}");
    assert!(
        positions.windows(2).all(|w| w[0] == w[1]),
        "= signs not aligned across #ifdef block:\n{out}"
    );
}

#[test]
fn align_enum_equals_on_tabstop() {
    let cfg = Config {
        spacing: SpacingConfig {
            align_enum_equ_span: 1,
            align_on_tabstop: true,
            ..Default::default()
        },
        ..Default::default()
    };
    // Names are 3 and 9 chars; max+1 = 10; next 4-multiple = 12.
    let src = "enum E {\n    FOO = 0,\n    LONGER_NAME = 1,\n};\n";
    let out = fmt_with(src, &cfg);
    let positions: Vec<usize> = out.lines().filter_map(enum_eq_col).collect();
    assert_eq!(positions.len(), 2, "2 members expected:\n{out}");
    assert!(
        positions.windows(2).all(|w| w[0] == w[1]),
        "= signs not aligned with tabstop:\n{out}"
    );
    // Column must be a multiple of indent_width (4)
    let col = positions[0];
    assert_eq!(
        col % 4,
        0,
        "tabstop alignment: column {col} must be a multiple of 4:\n{out}"
    );
}

#[test]
fn align_trailing_comments_on_tabstop() {
    let cfg = Config {
        spacing: SpacingConfig {
            align_right_cmt_span: 3,
            align_right_cmt_gap: 1,
            align_on_tabstop: true,
            ..Default::default()
        },
        ..Default::default()
    };
    // Code lengths 22 and 26; max+gap = 27; next 4-multiple = 28.
    let src = "    int dot11MeshRetryTimeout; /* msec */\n    int dot11MeshConfirmTimeout; /* msec */\n    int dot11MeshHoldingTimeout; /* msec */\n";
    let out = fmt_with(src, &cfg);
    let positions: Vec<usize> = out.lines().filter_map(trailing_comment_col).collect();
    assert_eq!(positions.len(), 3, "3 trailing comments expected:\n{out}");
    assert!(
        positions.windows(2).all(|w| w[0] == w[1]),
        "trailing comments not aligned:\n{out}"
    );
    let col = positions[0];
    assert_eq!(
        col % 4,
        0,
        "tabstop: column {col} must be a multiple of 4:\n{out}"
    );
}

fn cfg_doxygen_align(span: usize) -> Config {
    Config {
        spacing: SpacingConfig {
            align_doxygen_cmt_span: span,
            ..Default::default()
        },
        ..Default::default()
    }
}

#[test]
fn align_doxygen_comments_basic() {
    let src = "typedef struct { int x; /**< x coord */\nconst char *name; /**< name */\n} S;\n";
    let out = fmt_with(src, &cfg_doxygen_align(1));
    let positions: Vec<usize> = out.lines().filter_map(trailing_doxygen_col).collect();
    assert_eq!(
        positions.len(),
        2,
        "expected 2 doxygen comments, got:\n{out}"
    );
    assert!(
        positions.iter().all(|&c| c == positions[0]),
        "/**< comments not aligned: columns={positions:?}\n{out}"
    );
}

#[test]
fn align_doxygen_comments_off_when_span_zero() {
    let src = "typedef struct { int x; /**< x */\nconst char *name; /**< name */\n} S;\n";
    let out = fmt_with(src, &cfg_doxygen_align(0));
    let positions: Vec<usize> = out.lines().filter_map(trailing_doxygen_col).collect();
    assert_eq!(
        positions.len(),
        2,
        "expected 2 doxygen comments, got:\n{out}"
    );
    assert_ne!(
        positions[0], positions[1],
        "/**< should NOT be aligned when span=0:\n{out}"
    );
}

#[test]
fn align_doxygen_comments_standalone_not_treated_as_inline() {
    // A /**< comment on its own line must not anchor a group.
    let src =
        "typedef struct {\n/**< standalone */\nint x; /**< inline */\nint yy; /**< inline2 */\n} S;\n";
    let out = fmt_with(src, &cfg_doxygen_align(1));
    let inline_positions: Vec<usize> = out.lines().filter_map(trailing_doxygen_col).collect();
    // Only the two inline comments should appear; standalone returns None.
    assert_eq!(
        inline_positions.len(),
        2,
        "expected 2 inline doxygen comments, got:\n{out}"
    );
    assert_eq!(
        inline_positions[0], inline_positions[1],
        "two inline /**< comments must be aligned:\n{out}"
    );
}

#[test]
fn align_doxygen_comments_transparent_member_bridges_group() {
    // A comment-less member between two /**< members must not break the group.
    let src = "typedef struct {\n\
        int a; /**< first */\n\
        int b; /**< second */\n\
        int no_comment;\n\
        int c; /**< third */\n\
        } S;\n";
    let out = fmt_with(src, &cfg_doxygen_align(1));
    let positions: Vec<usize> = out.lines().filter_map(trailing_doxygen_col).collect();
    assert_eq!(positions.len(), 3, "expected 3 doxygen comments:\n{out}");
    assert!(
        positions[0] == positions[1] && positions[1] == positions[2],
        "all three /**< comments must align to same column:\n{out}"
    );
}

fn fmt_with_open_brace_blank(src: &str) -> String {
    let mut config = Config::default();
    config.newlines.blank_line_after_open_brace = true;
    fmt_with(src, &config)
}

#[test]
fn blank_line_after_open_brace_function() {
    let src = "void f() {\n    return;\n}\n";
    let out = fmt_with_open_brace_blank(src);
    let lines: Vec<&str> = out.lines().collect();
    // Line after `{` must be blank, then `return`
    let brace_line = lines.iter().position(|l| l.ends_with('{')).unwrap();
    assert_eq!(
        lines[brace_line + 1],
        "",
        "expected blank line after open brace:\n{out}"
    );
    assert!(
        lines[brace_line + 2].contains("return"),
        "return not after blank:\n{out}"
    );
}

#[test]
fn blank_line_after_open_brace_block() {
    let src = "void f() {\n    if (x) {\n        foo();\n    }\n}\n";
    let out = fmt_with_open_brace_blank(src);
    // Both the function `{` and the if-block `{` get a blank line after them.
    let brace_lines: Vec<usize> = out
        .lines()
        .enumerate()
        .filter(|(_, l)| l.ends_with('{'))
        .map(|(i, _)| i)
        .collect();
    for idx in &brace_lines {
        let next = out.lines().nth(idx + 1).unwrap_or("");
        assert_eq!(next, "", "expected blank after {{ at line {idx}:\n{out}");
    }
}

#[test]
fn blank_line_after_open_brace_not_struct() {
    // Struct bodies must NOT get a blank line after `{`.
    let src = "struct S {\n    int x;\n};\n";
    let out = fmt_with_open_brace_blank(src);
    let lines: Vec<&str> = out.lines().collect();
    let brace_line = lines.iter().position(|l| l.ends_with('{')).unwrap();
    assert_ne!(
        lines[brace_line + 1],
        "",
        "struct body must not get blank after open brace:\n{out}"
    );
}

#[test]
fn blank_line_after_open_brace_disabled_by_default() {
    let src = "void f() {\n    return;\n}\n";
    let out = fmt(src);
    let lines: Vec<&str> = out.lines().collect();
    let brace_line = lines.iter().position(|l| l.ends_with('{')).unwrap();
    assert_ne!(
        lines[brace_line + 1],
        "",
        "blank after open brace must be off by default:\n{out}"
    );
}

fn fmt_merge_comment(src: &str) -> String {
    let mut config = Config::default();
    config.newlines.merge_line_comment = true;
    fmt_with(src, &config)
}

#[test]
fn merge_line_comment_after_open_brace() {
    let src = "void f() {\n// body comment\n    return;\n}\n";
    let out = fmt_merge_comment(src);
    let brace_line = out
        .lines()
        .find(|l| l.contains('{'))
        .expect("no brace line");
    assert!(
        brace_line.contains("// body comment"),
        "comment not merged onto open brace line:\n{out}"
    );
    // Indented code follows on next line
    assert!(
        out.lines().any(|l| l.trim() == "return;"),
        "return missing:\n{out}"
    );
}

#[test]
fn merge_line_comment_after_close_brace() {
    let src = "void f() {\n    return;\n}\n// after fn\nvoid g() {}\n";
    let out = fmt_merge_comment(src);
    let close_line = out
        .lines()
        .find(|l| l.trim_start() == "}" || l.trim_start().starts_with("} "))
        .expect("no close brace line");
    assert!(
        close_line.contains("// after fn"),
        "comment not merged onto close brace line:\n{out}"
    );
}

#[test]
fn merge_line_comment_after_semi() {
    let src = "void f() {\n    int x = 1;\n// about x\n    foo(x);\n}\n";
    let out = fmt_merge_comment(src);
    let semi_line = out
        .lines()
        .find(|l| l.contains("int x"))
        .expect("no int x line");
    assert!(
        semi_line.contains("// about x"),
        "comment not merged onto statement line:\n{out}"
    );
}

#[test]
fn merge_line_comment_blank_line_prevents_merge() {
    // A blank line between the brace and the comment must suppress merging.
    let src = "void f() {\n\n// not merged\n    return;\n}\n";
    let out = fmt_merge_comment(src);
    let brace_line = out
        .lines()
        .find(|l| l.ends_with('{'))
        .expect("no open brace line");
    assert!(
        !brace_line.contains("//"),
        "comment must not merge when blank line present:\n{out}"
    );
    assert!(
        out.lines().any(|l| l.trim() == "// not merged"),
        "standalone comment missing:\n{out}"
    );
}

#[test]
fn blank_line_before_close_brace_preserved() {
    let src = "void foo(void) {\n    int x = 1;\n\n    x++;\n\n}\n";
    let out = fmt(src);
    let lines: Vec<&str> = out.lines().collect();
    let rbrace_idx = lines.iter().rposition(|l| l.trim() == "}").unwrap();
    assert_eq!(
        lines[rbrace_idx - 1],
        "",
        "blank line before closing brace must be preserved:\n{out}"
    );
}

#[test]
fn merge_line_comment_disabled_by_default() {
    let src = "void f() {\n// comment\n    return;\n}\n";
    let out = fmt(src);
    let brace_line = out
        .lines()
        .find(|l| l.ends_with('{'))
        .expect("no open brace line");
    assert!(
        !brace_line.contains("//"),
        "merge_line_comment must be off by default:\n{out}"
    );
    assert!(
        out.lines().any(|l| l.trim() == "// comment"),
        "standalone comment must remain on its own line:\n{out}"
    );
}

#[test]
fn pp_indent_disabled_by_default() {
    let src = "#if defined(FOO)\n#include <foo.h>\n#endif\n";
    let out = fmt(src);
    // Default: no indentation of preprocessor directives.
    assert!(
        out.lines().any(|l| l == "#include <foo.h>"),
        "pp_indent must be off by default:\n{out}"
    );
}

#[test]
fn pp_indent_enabled() {
    let cfg = Config {
        preprocessor: PreprocConfig {
            pp_indent: true,
            ..PreprocConfig::default()
        },
        ..Config::default()
    };
    let src =
        "#if defined(FOO)\n#include <foo.h>\n#if defined(BAZ)\n#define QUX 2\n#endif\n#endif\n";
    let out = fmt_with(src, &cfg);
    assert!(
        out.lines().any(|l| l == "    #include <foo.h>"),
        "depth-1 directive must be indented 4 spaces:\n{out}"
    );
    assert!(
        out.lines().any(|l| l == "    #if defined(BAZ)"),
        "depth-1 #if must be indented 4 spaces:\n{out}"
    );
    assert!(
        out.lines().any(|l| l == "        #define QUX 2"),
        "depth-2 directive must be indented 8 spaces:\n{out}"
    );
    assert!(
        out.lines().any(|l| l == "    #endif"),
        "depth-1 #endif must be indented 4 spaces:\n{out}"
    );
}

#[test]
fn pp_indent_elif_else_at_outer_level() {
    let cfg = Config {
        preprocessor: PreprocConfig {
            pp_indent: true,
            ..PreprocConfig::default()
        },
        ..Config::default()
    };
    let src = "#ifdef WIN32\n#define PLATFORM \"windows\"\n#elif defined(LINUX)\n#define PLATFORM \"linux\"\n#else\n#define PLATFORM \"unknown\"\n#endif\n";
    let out = fmt_with(src, &cfg);
    // #elif and #else must be at the #if level (depth 0).
    assert!(
        out.lines().any(|l| l == "#elif defined(LINUX)"),
        "#elif must be at depth 0:\n{out}"
    );
    assert!(
        out.lines().any(|l| l == "#else"),
        "#else must be at depth 0:\n{out}"
    );
    // Content between #elif and #else at depth 1.
    assert!(
        out.lines().any(|l| l == "    #define PLATFORM \"linux\""),
        "#define after #elif must be at depth 1:\n{out}"
    );
}

#[test]
fn operator_overload_no_space_around_symbol() {
    let src = "class Foo {\n    Foo &operator=(const Foo &) = delete;\n    Foo &operator+=(const Foo &other);\n    bool operator==(const Foo &) const;\n    bool operator!=(const Foo &) const;\n};\n";
    let out = fmt(src);
    assert!(
        out.lines().any(|l| l.contains("operator=(const")),
        "operator= must have no space around =:\n{out}"
    );
    assert!(
        out.lines().any(|l| l.contains("operator+=(const")),
        "operator+= must have no space around +=:\n{out}"
    );
    assert!(
        out.lines().any(|l| l.contains("operator==(const")),
        "operator== must have no space around ==:\n{out}"
    );
    assert!(
        out.lines().any(|l| l.contains("operator!=(const")),
        "operator!= must have no space around !=:\n{out}"
    );
}

#[test]
fn operator_overload_ref_aligned_to_name() {
    let src = "class Foo {\n    Foo &operator+=(const Foo &other);\n};\n";
    let out = fmt(src);
    assert!(
        out.lines().any(|l| l.contains("Foo &operator+=")),
        "& must be aligned to name in operator+= return type:\n{out}"
    );
}

#[test]
fn operator_new_delete_space() {
    let src =
        "class Foo {\n    void *operator new(size_t);\n    void operator delete(void *);\n};\n";
    let out = fmt(src);
    assert!(
        out.lines().any(|l| l.contains("operator new(")),
        "operator new must have space before new:\n{out}"
    );
    assert!(
        out.lines().any(|l| l.contains("operator delete(")),
        "operator delete must have space before delete:\n{out}"
    );
}

#[test]
fn operator_subscript_and_call() {
    let src = "class Foo {\n    int &operator[](int i);\n    int operator()(int x);\n};\n";
    let out = fmt(src);
    assert!(
        out.lines().any(|l| l.contains("operator[](int")),
        "operator[] must not have space before (:\n{out}"
    );
    assert!(
        out.lines().any(|l| l.contains("operator()(int")),
        "operator() must not have space before (:\n{out}"
    );
}

#[test]
fn ternary_colon_has_space() {
    let src = "int f(int x) { return x == 0 ? 0 : 1; }\n";
    let out = fmt(src);
    assert!(
        out.contains("? 0 : 1"),
        "ternary : must have space before and after:\n{out}"
    );
}

#[test]
fn nested_ternary_colon_has_space() {
    let src = "int f(int a, int b, int c) { return a ? b ? c : 0 : 1; }\n";
    let out = fmt(src);
    assert!(
        out.contains("? c : 0 : 1"),
        "nested ternary : must have spaces:\n{out}"
    );
}

#[test]
fn binary_plus_after_function_call_not_unary() {
    // `+` after a closing `)` of a regular function call must be binary.
    // Regression: strlen(prefix)+1 was emitting "+strlen(prefix) +1".
    let src = "void f(void) {\n    int n = strlen(topic) + strlen(prefix) + 1;\n}\n";
    let out = fmt(src);
    assert!(
        out.contains("strlen(prefix) + 1"),
        "binary + after func-call ) must have space on both sides: {out}"
    );
    assert!(
        out.contains("strlen(topic) + strlen(prefix)"),
        "binary + between two func-calls must have space on both sides: {out}"
    );
}

#[test]
fn space_after_comma_not_eaten_by_sizeof_pointer() {
    // `*` inside sizeof(type *) set suppress_next_space which leaked through
    // `)` and ate the space after the following comma.
    let src = "void f(void) {\n    qsort(files, count, sizeof(char *), cmp);\n}\n";
    let out = fmt(src);
    assert!(
        out.contains("sizeof(char *), cmp"),
        "space after comma must not be eaten by * inside sizeof(): {out}"
    );
}

#[test]
fn space_before_varargs_ellipsis() {
    // `foo(int x, ...)` — space_after_comma must apply before `...`.
    let out = fmt("void foo(int x, ...);\n");
    assert!(
        out.contains(", ..."),
        "space after comma must appear before ... in varargs, got:\n{out}"
    );
}

#[test]
fn space_after_comma_not_eaten_by_cast_pointer() {
    // Same leak pattern with an explicit cast `(unsigned char *)buf`.
    // Default space_after_cast=preserve so no-space source stays no-space.
    let src = "void f(void) {\n    fn(ctx, (unsigned char *)buf, (unsigned int)len);\n}\n";
    let out = fmt(src);
    assert!(
        out.contains("(unsigned char *)buf, (unsigned int)len"),
        "space after comma following a cast must not be suppressed: {out}"
    );
}

#[test]
fn multiplication_by_sizeof_not_pointer_decl() {
    // `count * sizeof(char *)` — the `*` is binary multiplication, not a
    // pointer declarator.  Regression: was emitting `count *sizeof(char *)`.
    let src = "void f(void) {\n    p = realloc(p, count * sizeof(char *));\n}\n";
    let out = fmt(src);
    assert!(
        out.contains("count * sizeof(char *)"),
        "* before sizeof must be binary multiplication: {out}"
    );
}

#[test]
fn no_trailing_space_after_closing_brace() {
    // `} while(...)` on separate lines: the space emitted for the cuddle check
    // must be stripped before the newline — no trailing whitespace.
    let src = "void f(void) {\n    if (x) {\n        y = 1;\n    }\n    while (x) {\n        x--;\n    }\n}\n";
    let out = fmt(src);
    for line in out.lines() {
        assert!(
            !line.ends_with(' '),
            "no line should have trailing spaces; got: {:?}\nfull output:\n{out}",
            line
        );
    }
}

#[test]
fn ifdef_else_brace_depth_reset() {
    // When #ifdef and #else branches each open one `{`, the code after
    // #endif should be indented at depth 2 (one for the outer block, one for
    // the inner block opened in each branch), not depth 3 (incorrectly
    // accumulated from both branches).
    let src = [
        "void f(void) {\n",
        "    if (a) {\n",
        "#ifdef WIN32\n",
        "        if (b) {\n",
        "#else\n",
        "        if (c) {\n",
        "#endif\n",
        "            x = 1;\n",
        "        }\n",
        "    }\n",
        "}\n"
    ]
    .concat();
    let out = fmt(&src);
    assert!(
        out.contains("            x = 1;"),
        "#ifdef/#else depth: code after #endif must be at depth 3 (12 spaces): {out}"
    );
}

#[test]
fn else_brace_after_ifdef_block() {
    // A `{` following `else` with a #ifdef directive in between must be treated
    // as a Block brace (not an initializer), so K&R style keeps it on the same
    // line / Allman puts it on its own line rather than at column 0.
    let src = [
        "if (a) {\n",
        "    x = 1;\n",
        "} else\n",
        "#ifdef FOO\n",
        "{\n",
        "    y = 2;\n",
        "}\n",
        "#endif\n",
    ]
    .concat();
    let out = fmt(&src);
    assert!(
        !out.contains("{\n    y = 2;") || out.contains("else\n{") || out.contains("else {"),
        "brace after else+#ifdef must not be treated as initializer: {out}"
    );
    // The body must be indented, not at column 0.
    assert!(
        out.contains("    y = 2;"),
        "body inside else+#ifdef brace must be indented: {out}"
    );
}

#[test]
fn bitfield_colon_gets_space() {
    // Bitfield `field:N` → `field : N` (space before and after colon in struct context).
    let src = "struct S { unsigned int x:4; unsigned int y:8; };\n";
    let out = fmt(src);
    assert!(
        out.contains("x : 4") && out.contains("y : 8"),
        "bitfield colon must have spaces on both sides:\n{out}"
    );
}

#[test]
fn bitfield_ternary_colon_unaffected() {
    // Ternary `:` inside a function must not be confused with a bitfield colon.
    let src = "void f(void) { int x = cond ? 1 : 2; }\n";
    let out = fmt(src);
    assert!(
        out.contains("1 : 2") || out.contains("? 1 : 2"),
        "ternary colon must still have spaces:\n{out}"
    );
}

#[test]
fn case_label_no_space_before_colon() {
    let src = "void f(int x) { switch (x) { case 1: break; default: break; } }\n";
    let out = fmt(src);
    assert!(
        out.lines().any(|l| l.trim() == "case 1:"),
        "case label must not have space before colon:\n{out}"
    );
    assert!(
        out.lines().any(|l| l.trim() == "default:"),
        "default label must not have space before colon:\n{out}"
    );
}

// ── add_braces_to_if / _while / _for ─────────────────────────────────────

fn cfg_add_braces_if() -> Config {
    Config {
        braces: BraceConfig {
            add_braces_to_if: true,
            ..BraceConfig::default()
        },
        ..Config::default()
    }
}

fn cfg_add_braces_all() -> Config {
    Config {
        braces: BraceConfig {
            add_braces_to_if: true,
            add_braces_to_while: true,
            add_braces_to_for: true,
            ..BraceConfig::default()
        },
        ..Config::default()
    }
}

#[test]
fn add_braces_if_simple() {
    let src = "void f() { if (x) return; }\n";
    let out = fmt_with(src, &cfg_add_braces_if());
    assert!(out.contains("if (x) {"), "missing opening brace:\n{out}");
    assert!(out.contains("return;"), "body lost:\n{out}");
    // The closing `}` of the if-block must appear before the function `}`.
    let if_close = out.find("if").unwrap();
    let braces: Vec<_> = out[if_close..].match_indices('}').collect();
    assert!(
        braces.len() >= 2,
        "need at least if-close and fn-close:\n{out}"
    );
}

#[test]
fn add_braces_if_already_braced() {
    let src = "void f() { if (x) { return; } }\n";
    let out = fmt_with(src, &cfg_add_braces_if());
    // Should not add extra brace levels.
    let brace_count = out.chars().filter(|&c| c == '{').count();
    // Exactly 2: function body + if body.
    assert_eq!(brace_count, 2, "unexpected brace count:\n{out}");
}

#[test]
fn add_braces_if_else() {
    // Default nl_brace_else=true: else starts on its own line.
    let src = "void f() { if (x) a(); else b(); }\n";
    let out = fmt_with(src, &cfg_add_braces_if());
    assert!(out.contains("if (x) {"), "if branch missing brace:\n{out}");
    assert!(out.contains("else {"), "else branch missing brace:\n{out}");
}

#[test]
fn add_braces_else_if_chain() {
    // Default nl_brace_else=true: else-if on its own line.
    let src = "void f() { if (a) x(); else if (b) y(); else z(); }\n";
    let out = fmt_with(src, &cfg_add_braces_if());
    // All three branches must be braced.
    assert!(out.contains("if (a) {"), "if-branch:\n{out}");
    assert!(out.contains("else if (b) {"), "else-if branch:\n{out}");
    assert!(out.contains("else {"), "else branch:\n{out}");
}

#[test]
fn add_braces_for_simple() {
    let src = "void f() { for (int i=0;i<10;i++) do_thing(i); }\n";
    let out = fmt_with(
        src,
        &Config {
            braces: BraceConfig {
                add_braces_to_for: true,
                ..BraceConfig::default()
            },
            ..Config::default()
        },
    );
    assert!(
        out.contains("i++) {") || out.contains("i < 10; i++) {"),
        "for brace:\n{out}"
    );
    assert!(out.contains("do_thing(i);"), "body lost:\n{out}");
}

#[test]
fn add_braces_while_simple() {
    let src = "void f() { while (cond) work(); }\n";
    let out = fmt_with(
        src,
        &Config {
            braces: BraceConfig {
                add_braces_to_while: true,
                ..BraceConfig::default()
            },
            ..Config::default()
        },
    );
    assert!(out.contains("while (cond) {"), "while brace:\n{out}");
    assert!(out.contains("work();"), "body lost:\n{out}");
}

#[test]
fn add_braces_do_while_not_wrapped() {
    // The `while` in a do-while is a terminator — must NOT get a body wrapped.
    let src = "void f() { do work(); while (cond); }\n";
    let out = fmt_with(
        src,
        &Config {
            braces: BraceConfig {
                add_braces_to_while: true,
                ..BraceConfig::default()
            },
            ..Config::default()
        },
    );
    // The while(...); must remain as a terminator, not while(...) { ... }
    assert!(
        out.contains("while (cond);"),
        "do-while terminator must not be wrapped:\n{out}"
    );
}

#[test]
fn add_braces_nested_if_in_if() {
    // Dangling else: else belongs to inner if.
    let src = "void f() { if (a) if (b) x(); else y(); }\n";
    let out = fmt_with(src, &cfg_add_braces_if());
    // Inner if-else must both be braced.
    assert!(out.contains("if (b) {"), "inner if:\n{out}");
    assert!(out.contains("else {"), "inner else:\n{out}");
    // Outer if wraps the entire inner if-else.
    let open_count = out.chars().filter(|&c| c == '{').count();
    // fn body + outer-if body + inner-if body + inner-else body = 4
    assert_eq!(open_count, 4, "expected 4 braces:\n{out}");
}

#[test]
fn add_braces_preserves_trailing_block_comment() {
    // Inline `/* comment */` on the same line as the statement must stay
    // with the statement when braces are injected, not fall outside the `}`.
    let src = "void f() { if (cond)\n    return -1; /* no good */\n}\n";
    let out = fmt_with(src, &cfg_add_braces_if());
    assert!(
        out.contains("return -1; /* no good */"),
        "inline comment must stay on the return line:\n{out}"
    );
    // The comment must appear before the closing brace of the if-body.
    let comment_pos = out.find("/* no good */").unwrap();
    let after_comment = &out[comment_pos..];
    assert!(
        after_comment.contains('}'),
        "closing brace must come after the comment:\n{out}"
    );
}

// ── nl_fcall_brace: macro call + block body ───────────────────────────────

#[test]
fn macro_call_brace_stays_on_same_line() {
    // DL_FOREACH_SAFE-style macro call: `{` must NOT be moved to a new line.
    let src = "void f() { DL_FOREACH_SAFE(head, n, tmp) { use(n); } }\n";
    let out = fmt(src);
    assert!(
        out.contains("DL_FOREACH_SAFE(head, n, tmp) {"),
        "macro-call brace must stay on same line:\n{out}"
    );
}

#[test]
fn macro_call_brace_no_space_normalized() {
    // Source has `MACRO(){` with no space — formatter should add the space.
    let src = "void f() { MACRO(a, b){\nwork();\n} }\n";
    let out = fmt(src);
    assert!(
        out.contains("MACRO(a, b) {"),
        "space must be added before macro-call brace:\n{out}"
    );
}

#[test]
fn fn_def_brace_still_on_own_line() {
    // Regular function definition must still put `{` on its own line with fn_brace_newline.
    let src = "int foo(int x) { return x; }\n";
    let out = fmt(src);
    // With fn_brace_newline=true (default), `{` goes on its own line.
    assert!(
        out.contains("int foo(int x)\n{"),
        "fn def brace must go on own line:\n{out}"
    );
}

#[test]
fn constructor_brace_still_on_own_line() {
    // Constructor inside a class body — must still apply fn_brace_newline.
    let src = "class Foo { Foo(int x) { m_ = x; } };\n";
    let out = fmt(src);
    // The constructor `{` should be on its own line.
    assert!(
        out.contains("Foo(int x)\n"),
        "constructor brace must go on own line:\n{out}"
    );
}

// ── goto label indentation ────────────────────────────────────────────────

#[test]
fn goto_label_at_column_zero() {
    let src = "void f() {\n    if (fail) goto error;\n    return;\nerror:\n    free(p);\n}\n";
    let out = fmt(src);
    // `error:` must appear at column 0 (no leading spaces).
    assert!(
        out.lines().any(|l| l == "error:"),
        "goto label must be at column 0:\n{out}"
    );
}

#[test]
fn goto_label_code_after_remains_indented() {
    let src = "void f() {\n    goto done;\ndone:\n    return;\n}\n";
    let out = fmt(src);
    assert!(out.lines().any(|l| l == "done:"), "label at col 0:\n{out}");
    assert!(
        out.lines().any(|l| l == "    return;"),
        "code after label must still be indented:\n{out}"
    );
}

#[test]
fn goto_label_multiple_labels() {
    let src = "void f() {\nerror_a:\n    cleanup_a();\nerror_b:\n    cleanup_b();\n}\n";
    let out = fmt(src);
    assert!(
        out.lines().any(|l| l == "error_a:"),
        "error_a at col 0:\n{out}"
    );
    assert!(
        out.lines().any(|l| l == "error_b:"),
        "error_b at col 0:\n{out}"
    );
}

#[test]
fn goto_label_indent_goto_labels_true() {
    // When indent_goto_labels = true, labels follow normal indentation.
    let config = Config {
        indent: IndentConfig {
            indent_goto_labels: true,
            ..IndentConfig::default()
        },
        ..Config::default()
    };
    let src = "void f() {\nerror:\n    cleanup();\n}\n";
    let out = fmt_with(src, &config);
    // Label should be indented at function body level (4 spaces).
    assert!(
        out.lines().any(|l| l == "    error:"),
        "label must be indented when indent_goto_labels=true:\n{out}"
    );
}

#[test]
fn goto_label_does_not_affect_ternary_colon() {
    // A ternary `a ? b : c` must not be confused with a goto label.
    let src = "void f() { int x = a ? b : c; }\n";
    let out = fmt(src);
    assert!(
        out.contains("a ? b : c"),
        "ternary must keep spaces around colon:\n{out}"
    );
}

#[test]
fn add_braces_nested_for_in_if() {
    let src = "void f() { if (ok) for (int i=0;i<n;i++) use(i); }\n";
    let out = fmt_with(src, &cfg_add_braces_all());
    assert!(out.contains("if (ok) {"), "if brace:\n{out}");
    // for inside if body must also be braced
    assert!(
        out.contains("i++) {") || out.contains("i < n; i++) {"),
        "for brace:\n{out}"
    );
}

#[test]
fn enum_closing_brace_not_aligned_to_last_assign() {
    // When the last enum value has no trailing comma, the `=` sets assign_col.
    // The closing `}` must NOT align to that column — it goes at indent level 0.
    let src = "enum foo {\n    A = 1,\n    B = 2\n};\n";
    let out = fmt(src);
    // `};` must appear at column 0, not indented to the `=` position
    assert!(
        out.lines().any(|l| l == "};"),
        "closing `}};` should be at column 0:\n{out}"
    );
}
