//! What holds of the library as a whole, on concrete sources.

use funky::config::{
    BraceConfig, BraceStyle, Config, Eol, IndentConfig, NewlineConfig, NewlineStyle, PointerAlign,
    PreprocConfig, SpaceOption, SpacingConfig,
};
use funky::formatter::format_with_eol;
use funky::inject::inject_braces_pass;
use funky::lexer::tokenize;
use funky::token::TokenKind;
use funky::trivia::normalize_endif_spacing;

fn fmt_with(src: &str, config: &Config) -> String {
    let (tokens, _) = tokenize(src, "<test>").unwrap();
    funky::formatter::format(&tokens, config).unwrap()
}

fn fmt(src: &str) -> String {
    fmt_with(src, &Config::default())
}

fn no_braces() -> Config {
    Config {
        braces: BraceConfig {
            add_braces_to_if: false,
            add_braces_to_while: false,
            add_braces_to_for: false,
            ..BraceConfig::default()
        },
        ..Config::default()
    }
}

fn solid(s: &str) -> String {
    s.chars().filter(|c| !c.is_whitespace()).collect()
}

const SOURCES: [&str; 8] = [
    "int main(){if(x)return 1;for(;;)f();return 0;}\n",
    "struct S{int a;// first\r\nlong long b; /* second */};\n",
    "enum E{A=1,\nLONG_NAME = 2,B};\n#ifdef X\nint y;\n#endif   /* X */\n",
    "void f(){switch(a){case 1:{g();}break;default:h();}}\n",
    "std::vector<std::vector<int>> v = {1,2,-3};\n\n\n\n\nint *p=&q[ 2 ];\n",
    "/*\n\t* 注释\n*/\n#define M(a) \\\n\tdo { a; } while (0)\n",
    "label:\n  x = a ? b : c; goto label;\n",
    "class C : public B { public: C &operator=(const C &o); private: int x : 3; };\n",
];

#[test]
fn only_white_space_changes() {
    for src in SOURCES {
        assert_eq!(solid(&fmt_with(src, &no_braces())), solid(src));
    }
}

#[test]
fn only_braces_are_added() {
    let src = "int main(){if(x)return 1;else g();for(;;)f();while(y)h();return 0;}\n";
    assert_eq!(
        solid(&fmt(src)),
        "intmain(){if(x){return1;}else{g();}for(;;){f();}while(y){h();}return0;}"
    );
}

#[test]
fn injection_keeps_every_token() {
    for src in SOURCES {
        let (tokens, _) = tokenize(src, "<test>").unwrap();
        let out = inject_braces_pass(&tokens, &Config::default());
        let kept: String = out.iter().filter(|t| t.span.line > 0).map(|t| t.lexeme).collect();
        assert_eq!(kept, src);
        let added = |k: TokenKind| out.iter().filter(|t| t.span.line == 0 && t.kind == k).count();
        assert_eq!(added(TokenKind::LBrace), added(TokenKind::RBrace));
    }
}

#[test]
fn nested_bodies_are_all_braced() {
    assert_eq!(
        fmt("void f(){if(a)while(b)for(;;)g();}\n"),
        "void f()\n{\n    if (a) {\n        while (b) {\n            for (;;) {\n                g();\n            }\n        }\n    }\n}\n"
    );
}

#[test]
fn trailing_comment_moves_into_the_braces() {
    assert_eq!(
        fmt("void f(){\nif (a) return; /* note */\ng();\n}\n"),
        "void f()\n{\n    if (a) {\n        return; /* note */\n    }\n    g();\n}\n"
    );
}

#[test]
fn output_ends_with_one_line_end() {
    for src in SOURCES {
        let out = fmt(src.trim_end());
        assert!(out.ends_with('\n') && !out.ends_with("\n\n"), "{out:?}");
    }
    assert_eq!(fmt(""), "");
    assert_eq!(fmt("   \n\n"), "");
}

#[test]
fn final_newline_can_be_switched_off() {
    let config = Config {
        newlines: NewlineConfig {
            final_newline: false,
            ..NewlineConfig::default()
        },
        ..Config::default()
    };
    assert_eq!(fmt_with("int x", &config), "int x");
    assert_eq!(fmt("int x"), "int x\n");
}

#[test]
fn crlf_throughout() {
    let config = Config {
        newlines: NewlineConfig {
            style: NewlineStyle::Crlf,
            ..NewlineConfig::default()
        },
        ..Config::default()
    };
    for src in SOURCES {
        let out = fmt_with(src, &config);
        assert!(out.contains("\r\n"));
        assert_eq!(out.replace("\r\n", "").matches(['\r', '\n']).count(), 0);
        assert_eq!(out.replace("\r\n", "\n"), fmt(src));
    }
}

#[test]
fn explicit_line_end_overrides_nothing_else() {
    let (tokens, _) = tokenize(SOURCES[0], "<test>").unwrap();
    let config = Config::default();
    let lf = format_with_eol(&tokens, &config, Eol::Lf).unwrap();
    assert_eq!(lf, fmt(SOURCES[0]));
}

#[test]
fn native_line_end_is_that_of_the_platform() {
    let config = Config {
        newlines: NewlineConfig {
            style: NewlineStyle::Native,
            ..NewlineConfig::default()
        },
        ..Config::default()
    };
    let expected = if std::path::MAIN_SEPARATOR == '\\' {
        "\r\n"
    } else {
        "\n"
    };
    assert_eq!(config.newline_str(), expected);
    assert_eq!(fmt_with("int x;", &config), format!("int x;{expected}"));
}

#[test]
fn blank_lines_are_capped() {
    assert_eq!(fmt("int a;\n\n\n\n\nint b;\n"), "int a;\n\n\nint b;\n");
    let config = Config {
        newlines: NewlineConfig {
            max_blank_lines: 0,
            ..NewlineConfig::default()
        },
        ..Config::default()
    };
    assert_eq!(fmt_with("int a;\n\n\nint b;\n", &config), "int a;\nint b;\n");
}

#[test]
fn function_brace_gets_its_own_line_in_every_style() {
    for style in [BraceStyle::Kr, BraceStyle::Allman, BraceStyle::Stroustrup] {
        let config = Config {
            braces: BraceConfig {
                style,
                ..BraceConfig::default()
            },
            ..Config::default()
        };
        let out = fmt_with("void f() { g(); }\n", &config);
        assert_eq!(out, "void f()\n{\n    g();\n}\n");
    }
}

#[test]
fn else_starts_a_line_unless_cuddled() {
    let src = "void f() { if (a) { b(); } else { c(); } }\n";
    assert!(fmt(src).contains("    }\n    else {\n"));
    let cuddled = Config {
        braces: BraceConfig {
            cuddle_else: true,
            ..BraceConfig::default()
        },
        newlines: NewlineConfig {
            nl_brace_else: false,
            ..NewlineConfig::default()
        },
        ..Config::default()
    };
    assert!(fmt_with(src, &cuddled).contains("    } else {\n"));
    let overridden = Config {
        braces: BraceConfig {
            cuddle_else: true,
            ..BraceConfig::default()
        },
        ..Config::default()
    };
    assert!(fmt_with(src, &overridden).contains("    }\n    else {\n"));
}

#[test]
fn pointer_align_moves_declarators_only() {
    let src = "void f(int *p) { x = a * b; y = *p; }\n";
    let aligned = |pointer_align: PointerAlign| {
        let config = Config {
            spacing: SpacingConfig {
                pointer_align,
                ..SpacingConfig::default()
            },
            ..Config::default()
        };
        fmt_with(src, &config)
    };
    for (align, declarator) in [
        (PointerAlign::Name, "int *p"),
        (PointerAlign::Type, "int* p"),
        (PointerAlign::Middle, "int * p"),
    ] {
        let out = aligned(align);
        assert!(out.contains(declarator), "{out}");
        assert!(out.contains("x = a * b;"), "{out}");
        assert!(out.contains("y = *p;"), "{out}");
    }
}

#[test]
fn preprocessor_lines_pass_through() {
    let line = "#define  M( a,b )   do {a  ;b ;}  \\\n\t while( 0 )\n";
    assert_eq!(fmt(line), line);
}

#[test]
fn preprocessor_indent_follows_the_groups() {
    let config = Config {
        preprocessor: PreprocConfig {
            pp_indent: true,
            ..PreprocConfig::default()
        },
        ..Config::default()
    };
    assert_eq!(
        fmt_with("#if A\n#define B\n#else\n#define C\n#endif\n", &config),
        "#if A\n    #define B\n#else\n    #define C\n#endif\n"
    );
}

#[test]
fn endif_spacing_is_exact_and_stable() {
    assert_eq!(normalize_endif_spacing("#endif/* X */", 1), "#endif /* X */");
    assert_eq!(normalize_endif_spacing("#endif \t  /* X */\n", 2), "#endif  /* X */\n");
    assert_eq!(normalize_endif_spacing("#endif /* X */", 0), "#endif/* X */");
    assert_eq!(normalize_endif_spacing("#endif // X", 3), "#endif // X");
    let once = normalize_endif_spacing("#endif     /* X */", 2);
    assert_eq!(normalize_endif_spacing(&once, 2), once);
}

#[test]
fn words_stay_apart() {
    assert_eq!(fmt("unsigned\tlong/**/x;\n"), "unsigned long /**/ x;\n");
    assert_eq!(fmt("return\n1;\n"), "return\n1;\n");
}

#[test]
fn closing_brace_returns_to_the_level_before() {
    assert_eq!(
        fmt("namespace n{class C{void f(){if(a){b();}}int x;};}\nint y;\n"),
        "namespace n\n{\n    class C {\n        void f()\n        {\n            if (a) {\n                b();\n            }\n        }\n        int x;\n    };\n}\nint y;\n"
    );
}

#[test]
fn case_blocks_do_not_indent_twice() {
    let config = Config {
        indent: IndentConfig {
            width: 2,
            ..IndentConfig::default()
        },
        ..Config::default()
    };
    assert_eq!(
        fmt_with("void f(){switch(a){case 1:{g();}break;case 2:h();}}\n", &config),
        "void f()\n{\n  switch (a) {\n    case 1: {\n      g();\n    }\n    break;\n    case 2:\n      h();\n  }\n}\n"
    );
}

#[test]
fn optional_spaces_follow_the_settings() {
    let spaced = |option: SpaceOption| {
        let config = Config {
            spacing: SpacingConfig {
                space_inside_parens: option,
                space_inside_brackets: option,
                space_after_cast: option,
                ..SpacingConfig::default()
            },
            ..Config::default()
        };
        fmt_with("x = f( a[1] ) + (int) y;\n", &config)
    };
    assert_eq!(spaced(SpaceOption::Add), "x = f( a[ 1 ] ) + ( int ) y;\n");
    assert_eq!(spaced(SpaceOption::Remove), "x = f(a[1]) + (int)y;\n");
    assert_eq!(spaced(SpaceOption::Preserve), "x = f( a[1] ) + (int) y;\n");
}

#[test]
fn more_parentheses_closed_than_opened_on_a_line() {
    assert_eq!(fmt("f(g(a,\nb))(c);\n"), "f(g(a,\n    b))(c);\n");
}

#[test]
fn unbalanced_closers_are_harmless() {
    for src in ["}\n", ")))\n", "]]]]\n", "} } ;\n", "> >> :\n", "#endif\n#else\n"] {
        assert_eq!(solid(&fmt(src)), solid(src));
    }
}

#[test]
fn truncated_sources_lose_nothing() {
    let whole = SOURCES[3];
    for (i, _) in whole.char_indices() {
        let part = &whole[..i];
        assert_eq!(solid(&fmt_with(part, &no_braces())), solid(part));
    }
}

#[test]
fn reference_declarations_belong_to_the_leading_run() {
    assert_eq!(
        fmt("void f()\n{\n    int a;\n    Widget &w = get();\n    use(w);\n}\n"),
        "void f()\n{\n    int a;\n    Widget &w = get();\n\n    use(w);\n}\n"
    );
}

#[test]
fn leading_declarations_are_followed_by_a_blank_line() {
    assert_eq!(
        fmt("int f(void)\n{\n    int a;\n    int b;\n    a = b;\n    return a;\n}\n"),
        "int f(void)\n{\n    int a;\n    int b;\n\n    a = b;\n    return a;\n}\n"
    );
}

#[test]
fn empty_bodies_collapse() {
    assert_eq!(fmt("void f()\n{\n\n}\n"), "void f()\n{}\n");
    assert_eq!(fmt("struct S {\n};\n"), "struct S {};\n");
}

#[test]
fn goto_labels_start_in_the_first_column() {
    let src = "void f() {\n        out:\n  g();\n}\n";
    assert_eq!(fmt(src), "void f()\n{\nout:\n    g();\n}\n");
    let config = Config {
        indent: IndentConfig {
            indent_goto_labels: true,
            ..IndentConfig::default()
        },
        ..Config::default()
    };
    assert!(fmt_with(src, &config).contains("\n    out:"));
}

#[test]
fn both_branches_start_at_the_same_level() {
    assert_eq!(
        fmt("void f()\n{\n#if A\n    if (x) {\n#else\n    if (y) {\n#endif\n        g();\n    }\n}\n"),
        "void f()\n{\n#if A\n    if (x) {\n#else\n    if (y) {\n#endif\n        g();\n    }\n}\n"
    );
}

#[test]
fn else_bodies_get_braces() {
    assert_eq!(
        solid(&fmt("void f(){if(a)b();else c();if(d);else if(e)g();}\n")),
        "voidf(){if(a){b();}else{c();}if(d);elseif(e){g();}}"
    );
}

fn in_function(stmt: &str) -> String {
    let out = fmt(&format!("void f(T *x, ns::U *y) {{\n{}\n}}\n", stmt));
    let lines: Vec<&str> = out.lines().collect();
    assert_eq!(lines[0], "void f(T *x, ns::U *y)");
    lines[2].trim().to_string()
}

#[test]
fn products_in_arguments_are_no_declarators() {
    for stmt in [
        "int r = foo(a * b);",
        "foo(x, a * b);",
        "foo(g(a * b), c);",
        "printf(\"%d\", a * b);",
        "return max(a * b, c & d);",
        "x = ns::foo(a * b);",
        "x = static_cast<int>(a * b);",
        "p->foo(1, a * b);",
        "x = a * b * c;",
        "x = (int)a * b;",
        "x = c ? d : a * b;",
        "int v[] = { a * b, c };",
        "x = v[a * b[1]];",
        "y = ns::a * b;",
    ] {
        assert_eq!(in_function(stmt), stmt);
    }
}

#[test]
fn declarators_stay_declarators() {
    for stmt in [
        "T *p = q;",
        "T *p, *q;",
        "ns::T *p;",
        "T *g(U *x, V &y);",
    ] {
        assert_eq!(in_function(stmt), stmt);
    }
    let src = "class C {\npublic:\n    C(T *a, U &b);\n    C &operator+(T *a);\n    explicit C(V *c);\n};\n";
    assert_eq!(fmt(src), src);
    let src = "class C {\n    C operator-(const T &x);\n    T &operator*() const;\n    C operator&(int x);\n};\n";
    assert_eq!(fmt(src), src);
    let src = "int f(char *, int, T &, std::vector<int *> v, U *w);\n";
    assert_eq!(fmt(src), src);
    let src = "C::C(T *a): m(x * y), n(z * w)\n{}\n";
    assert_eq!(fmt(src), src);
}

/// The source with braces injected, without its layout.
fn injected(src: &str, flags: [bool; 3]) -> String {
    let config = Config {
        braces: BraceConfig {
            add_braces_to_if: flags[0],
            add_braces_to_while: flags[1],
            add_braces_to_for: flags[2],
            ..BraceConfig::default()
        },
        ..Config::default()
    };
    let (tokens, _) = tokenize(src, "<test>").unwrap();
    let out = inject_braces_pass(&tokens, &config);
    out.iter().map(|t| t.lexeme).filter(|s| !s.trim().is_empty()).collect()
}

#[test]
fn a_body_without_braces_is_one_whole_statement() {
    let for_only = [false, false, true];
    let all = [true, true, true];
    assert_eq!(injected("for (;;) if (x) y(); z();", for_only), "for(;;){if(x)y();}z();");
    assert_eq!(
        injected("for (;;) if (x) y(); else w(); z();", for_only),
        "for(;;){if(x)y();elsew();}z();"
    );
    assert_eq!(injected("if (x) switch (y) {} z();", all), "if(x){switch(y){}}z();");
    assert_eq!(
        injected("if (x) try { a(); } catch (...) { b(); } z();", all),
        "if(x){try{a();}catch(...){b();}}z();"
    );
    assert_eq!(
        injected("if (x) do a(); while (b); else c(); z();", all),
        "if(x){doa();while(b);}else{c();}z();"
    );
    assert_eq!(injected("if (x) EACH(y) { a(); } z();", all), "if(x){EACH(y){a();}}z();");
    assert_eq!(
        injected("if (x) /* c */ for (;;) { a(); } z();", all),
        "if(x){/* c */for(;;){a();}}z();"
    );
    assert_eq!(
        injected("if (a) if (b) { c(); } /* d */ else e(); f();", all),
        "if(a){if(b){c();}/* d */else{e();}}f();"
    );
}

#[test]
fn braced_code_comes_back_unchanged() {
    for src in [
        "if constexpr (x) {}",
        "if consteval { a(); } else { b(); }",
        "if /* c */ (x) { a(); }",
        "else /* c */ { a(); } b();",
        "if (x) {} else /* c */ if (y) {} else ;",
        "do { a(); } while (x);",
        "for (;;) ; while (y) // c\n{ b(); }",
    ] {
        let (tokens, _) = tokenize(src, "<test>").unwrap();
        let out = inject_braces_pass(&tokens, &Config::default());
        let kinds: Vec<TokenKind> = out.iter().map(|t| t.kind).collect();
        let before: Vec<TokenKind> = tokens.iter().map(|t| t.kind).collect();
        assert_eq!(kinds, before, "{}", src);
    }
}

#[test]
fn styles_differ_in_line_ends_only() {
    for src in SOURCES {
        if src.contains('\r') {
            continue;
        }
        let (tokens, _) = tokenize(src, "<test>").unwrap();
        let lf = format_with_eol(&tokens, &Config::default(), Eol::Lf).unwrap();
        let crlf = format_with_eol(&tokens, &Config::default(), Eol::CrLf).unwrap();
        assert_eq!(crlf, lf.replace('\n', "\r\n"));
    }
    let src = "/*\n**/\nchar *s = R\"(a\nb)\";\n#define A \\\n  1\n#endif   /* A */\n";
    let (tokens, _) = tokenize(src, "<test>").unwrap();
    let lf = format_with_eol(&tokens, &Config::default(), Eol::Lf).unwrap();
    let crlf = format_with_eol(&tokens, &Config::default(), Eol::CrLf).unwrap();
    assert_eq!(crlf, lf.replace('\n', "\r\n"));
}

#[test]
fn no_line_ends_in_a_space() {
    for src in SOURCES {
        let spread = src.replace(';', "  ;   ").replace('{', "  {   ");
        if spread.contains('#') {
            continue;
        }
        for line in fmt(&spread).lines() {
            assert!(!line.ends_with(' '), "{:?}", line);
        }
    }
    assert_eq!(fmt("int a;   \n/* b   \n   */   \n\n   int c;   // d   \n"), fmt("int a;\n/* b\n   */\n\nint c; // d\n"));
}

#[test]
fn increments_before_their_operand_are_spaced_like_it() {
    for stmt in [
        "x = ++i;",
        "f(a, ++b);",
        "x = a + ++b;",
        "x = a - --b;",
        "return ++i;",
        "x = (++i) * -(--j);",
        "i++;",
        "v[i++] = j--;",
    ] {
        assert_eq!(in_function(stmt), stmt);
    }
}

/// The longest run of empty lines.
fn blank_run(text: &str, eol: &str) -> usize {
    let mut longest = 0;
    let mut run = 0;
    for line in text.split(eol) {
        run = if line.is_empty() { run + 1 } else { 0 };
        longest = std::cmp::max(longest, run);
    }
    longest
}

#[test]
fn empty_lines_are_capped_in_the_whole_output() {
    let src = "\n\n\n\nint a;\n\n\n\n\n\n#define X\n\n\n\n\n// c\n\n\n\n\nvoid f() {\n\n\n\n  g();\n\n\n\n}\n\n\n\n\nint z;\n";
    for max in [0, 1, 2, 3] {
        for (style, eol) in [(NewlineStyle::Lf, "\n"), (NewlineStyle::Crlf, "\r\n")] {
            let config = Config {
                newlines: NewlineConfig {
                    max_blank_lines: max,
                    style,
                    ..NewlineConfig::default()
                },
                ..Config::default()
            };
            let out = fmt_with(src, &config);
            // Behind the last line end the split leaves an empty part.
            assert!(blank_run(out.trim_end(), eol) <= max as usize, "{}", out);
        }
    }
}

#[test]
fn empty_lines_within_a_comment_are_kept() {
    let src = "int a;\n/* one\n\n\n\n\n   two */\nint b;\n";
    assert_eq!(blank_run(&fmt(src), "\n"), 4);
}

/// The tokens of a source without layout, white space at their ends aside.
fn words(src: &str) -> Vec<(TokenKind, String)> {
    let (tokens, _) = tokenize(src, "<test>").unwrap();
    let mut out = Vec::new();
    for t in tokens {
        if !matches!(t.kind, TokenKind::Whitespace | TokenKind::Newline | TokenKind::Eof) {
            out.push((t.kind, t.lexeme.trim_end().to_string()));
        }
    }
    out
}

#[test]
fn output_reads_as_its_tokens() {
    for src in [
        "int main(){if(x){return 1;}for(;;){f();}return -0x1e+2;}\n",
        "struct S{int a;// first\nlong long b; /* second */};\n",
        "enum E{A=1,\nLONG_NAME = 2,B};\n#ifdef X\nint y;\n#endif   /* X */\n",
        "std::vector<std::vector<int>> v = {1,2,-3};\n\n\n\n\nint *p=&q[ 2 ];\n",
        "auto s = R\"(a // b)\"; const char *t = u8\"=\" L\"c\";\nx = a+++b - --c; y = !*p;\n",
        "#define M(a) \\\n\tdo { a; } while (0)\nint z = M(1) ... ;\n",
    ] {
        for config in [Config::default(), no_braces()] {
            let out = fmt_with(src, &config);
            let new = words(&out);
            let old = words(src);
            assert_eq!(new.len(), old.len(), "{}", out);
            for k in 0..new.len() {
                assert_eq!(new[k].0, old[k].0);
                if old[k].0 != TokenKind::PreprocLine {
                    assert_eq!(new[k].1, old[k].1);
                }
            }
        }
    }
}

#[test]
fn tokens_read_alone() {
    let src = "int x = 0x1.8p+3 + .5e-2;\nauto s = LR\"q(a)\"b)q\" u8\"\\\"\" 'c';\nf(a, ...)->*b <<= ~c; /* d\n*/\n";
    for (kind, text) in words(src) {
        assert_eq!(words(&text), vec![(kind, text.clone())]);
    }
}

#[test]
fn nothing_is_injected_unasked() {
    let src = "void f(){if(a)b();else c();while(d)e();for(;;)g();}\n";
    let (tokens, _) = tokenize(src, "<test>").unwrap();
    let config = no_braces();
    let same = inject_braces_pass(&tokens, &config);
    assert_eq!(same.len(), tokens.len());
    for k in 0..same.len() {
        assert_eq!(same[k].kind, tokens[k].kind);
        assert_eq!(same[k].lexeme, tokens[k].lexeme);
    }
}

#[test]
fn later_endif_spacing_wins() {
    let line = "#endif/* X */\n";
    for a in [0, 1, 4] {
        for b in [0, 1, 4] {
            let twice = normalize_endif_spacing(&normalize_endif_spacing(line, a), b);
            assert_eq!(twice, normalize_endif_spacing(line, b));
        }
    }
}

#[test]
fn no_line_ends_in_a_space_in_either_style() {
    let src = "int a = 1 ;   \n/* one   \n * two   \n */\nvoid f( ) {   \n\n  g( );   // c\n}\n";
    for (style, eol) in [(NewlineStyle::Lf, "\n"), (NewlineStyle::Crlf, "\r\n")] {
        let config = Config {
            newlines: NewlineConfig { style, ..NewlineConfig::default() },
            ..Config::default()
        };
        for line in fmt_with(src, &config).split(eol) {
            assert!(!line.ends_with(' '), "{:?}", line);
        }
    }
}

#[test]
fn signs_join_the_operator_in_front_of_them() {
    assert_eq!(in_function("x = - -y;"), "x = --y;");
    assert_eq!(in_function("x = + +y;"), "x = ++y;");
    assert_eq!(in_function("x = a - -b;"), "x = a - -b;");
    let tight = Config {
        spacing: SpacingConfig {
            space_around_binary_ops: false,
            ..SpacingConfig::default()
        },
        ..Config::default()
    };
    assert!(fmt_with("int f() { x = a / *p; }\n", &tight).contains("a/*p;"));
    assert!(fmt_with("int f() { x = a - -b; }\n", &tight).contains("a--b;"));
    let joined = fmt_with("int f() {\n  if (a) // c\n  {\n    g();\n  }\n}\n", &Config::default());
    assert!(joined.contains("if (a) // c {"));
}
