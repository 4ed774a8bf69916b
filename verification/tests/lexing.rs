//! The lexer on its own.

use funky::lexer::{tokenize, WarningKind};
use funky::token::TokenKind;

fn kinds(src: &str) -> Vec<TokenKind> {
    let (tokens, _) = tokenize(src, "<test>").unwrap();
    tokens.iter().map(|t| t.kind).collect()
}

fn solid_kinds(src: &str) -> Vec<TokenKind> {
    kinds(src)
        .into_iter()
        .filter(|k| !matches!(k, TokenKind::Whitespace | TokenKind::Newline | TokenKind::Eof))
        .collect()
}

fn lexemes(src: &str) -> Vec<String> {
    let (tokens, _) = tokenize(src, "<test>").unwrap();
    tokens.iter().map(|t| t.lexeme.to_string()).collect()
}

#[test]
fn empty_source_is_only_the_end() {
    assert_eq!(kinds(""), vec![TokenKind::Eof]);
}

#[test]
fn lexemes_are_the_source() {
    let sources = [
        "int main(void) { return 0; }\n",
        "/* 注释 */ int 变量 = 1; // конец\r\n",
        "#define X \\\n  1\nchar c = '\\'';\n",
        "\"unterminated\nx = R\"ab(raw \" )ab\";",
        "a\rb\r\nc\n\t\u{a0}d @ ` $x",
        "/* never closed",
    ];
    for src in sources {
        assert_eq!(lexemes(src).concat(), src);
    }
}

#[test]
fn only_the_last_token_is_the_end() {
    let ks = kinds("int x;\n/* c */\n");
    assert_eq!(ks.last(), Some(&TokenKind::Eof));
    assert_eq!(ks.iter().filter(|k| **k == TokenKind::Eof).count(), 1);
}

#[test]
fn longest_symbol_wins() {
    assert_eq!(
        solid_kinds("a->*b <<= c ... x.*y >>= 1"),
        vec![
            TokenKind::Ident,
            TokenKind::ArrowStar,
            TokenKind::Ident,
            TokenKind::LtLtEq,
            TokenKind::Ident,
            TokenKind::DotDotDot,
            TokenKind::Ident,
            TokenKind::DotStar,
            TokenKind::Ident,
            TokenKind::GtGtEq,
            TokenKind::LitInt,
        ]
    );
}

#[test]
fn every_single_symbol_has_its_kind() {
    let symbols = [
        ("{", TokenKind::LBrace),
        ("}", TokenKind::RBrace),
        ("(", TokenKind::LParen),
        (")", TokenKind::RParen),
        ("[", TokenKind::LBracket),
        ("]", TokenKind::RBracket),
        (";", TokenKind::Semi),
        (",", TokenKind::Comma),
        (":", TokenKind::Colon),
        ("::", TokenKind::ColonColon),
        ("?", TokenKind::Question),
        (".", TokenKind::Dot),
        ("->", TokenKind::Arrow),
        ("~", TokenKind::Tilde),
        ("!", TokenKind::Bang),
        ("+", TokenKind::Plus),
        ("-", TokenKind::Minus),
        ("*", TokenKind::Star),
        ("/", TokenKind::Slash),
        ("%", TokenKind::Percent),
        ("&", TokenKind::Amp),
        ("|", TokenKind::Pipe),
        ("^", TokenKind::Caret),
        ("<<", TokenKind::LtLt),
        (">>", TokenKind::GtGt),
        ("<", TokenKind::Lt),
        (">", TokenKind::Gt),
        ("<=", TokenKind::LtEq),
        (">=", TokenKind::GtEq),
        ("==", TokenKind::EqEq),
        ("!=", TokenKind::BangEq),
        ("&&", TokenKind::AmpAmp),
        ("||", TokenKind::PipePipe),
        ("=", TokenKind::Eq),
        ("+=", TokenKind::PlusEq),
        ("-=", TokenKind::MinusEq),
        ("*=", TokenKind::StarEq),
        ("/=", TokenKind::SlashEq),
        ("%=", TokenKind::PercentEq),
        ("&=", TokenKind::AmpEq),
        ("|=", TokenKind::PipeEq),
        ("^=", TokenKind::CaretEq),
        ("++", TokenKind::PlusPlus),
        ("--", TokenKind::MinusMinus),
        ("@", TokenKind::Unknown),
    ];
    for (text, kind) in symbols {
        assert_eq!(kinds(text), vec![kind, TokenKind::Eof], "{text}");
    }
}

#[test]
fn keywords_and_names() {
    assert_eq!(
        solid_kinds("if unsigned operator name static_cast 变量"),
        vec![
            TokenKind::KwIf,
            TokenKind::Keyword,
            TokenKind::Keyword,
            TokenKind::Ident,
            TokenKind::Ident,
            TokenKind::Ident,
        ]
    );
}

#[test]
fn numbers_are_integers_or_floats() {
    assert_eq!(
        solid_kinds("0x1F 1'000 1.5e+3 .5 1e9 0xE+1 0x1p-3"),
        vec![
            TokenKind::LitInt,
            TokenKind::LitInt,
            TokenKind::LitFloat,
            TokenKind::LitFloat,
            TokenKind::LitFloat,
            TokenKind::LitInt,
            TokenKind::Plus,
            TokenKind::LitInt,
            TokenKind::LitFloat,
        ]
    );
}

#[test]
fn literals_keep_their_prefix() {
    assert_eq!(lexemes("u8\"x\""), vec!["u8\"x\"", ""]);
    assert_eq!(solid_kinds("L'a' L\"b\""), vec![TokenKind::LitChar, TokenKind::LitStr]);
}

#[test]
fn raw_string_ends_at_its_delimiter() {
    assert_eq!(
        lexemes("R\"x(a \" )\" b)x\";"),
        vec!["R\"x(a \" )\" b)x\"", ";", ""]
    );
}

#[test]
fn preprocessor_line_takes_its_continuations_and_its_line_end() {
    assert_eq!(lexemes("#define A \\\n 1\nx"), vec!["#define A \\\n 1\n", "x", ""]);
    assert_eq!(lexemes("#if A /* x\ny */\nz"), vec!["#if A /* x\ny */\n", "z", ""]);
    assert_eq!(lexemes("#define U \"/*\"\nz"), vec!["#define U \"/*\"\n", "z", ""]);
}

#[test]
fn hash_inside_a_line_is_no_preprocessor_line() {
    assert_eq!(
        solid_kinds("a # b"),
        vec![TokenKind::Ident, TokenKind::Unknown, TokenKind::Ident]
    );
}

#[test]
fn crlf_is_one_line_end() {
    assert_eq!(
        kinds("a\r\nb\rc\n"),
        vec![
            TokenKind::Ident,
            TokenKind::Newline,
            TokenKind::Ident,
            TokenKind::Newline,
            TokenKind::Ident,
            TokenKind::Newline,
            TokenKind::Eof,
        ]
    );
}

#[test]
fn spans_count_bytes_lines_and_columns() {
    let (tokens, _) = tokenize("é = 1;\r\n  x", "<test>").unwrap();
    let first = tokens[0].span;
    assert_eq!((first.start_byte, first.end_byte, first.line, first.col), (0, 2, 1, 1));
    let eq = tokens[2].span;
    assert_eq!((eq.start_byte, eq.end_byte, eq.line, eq.col), (3, 4, 1, 3));
    let x = tokens.iter().find(|t| t.lexeme == "x").unwrap().span;
    assert_eq!((x.start_byte, x.end_byte, x.line, x.col), (11, 12, 2, 3));
}

#[test]
fn unterminated_tokens_are_reported() {
    let (_, warnings) = tokenize("x = \"abc\n/* open", "a.c").unwrap();
    assert_eq!(warnings.len(), 2);
    assert_eq!(warnings[0].file, "a.c");
    assert_eq!((warnings[0].line, warnings[0].kind), (1, WarningKind::UnterminatedLiteral));
    assert_eq!((warnings[1].line, warnings[1].kind), (2, WarningKind::UnterminatedComment));
}

#[test]
fn well_terminated_source_has_no_warning() {
    let (_, warnings) = tokenize("char *s = \"a\\\"b\"; /* c */ 'x'", "a.c").unwrap();
    assert!(warnings.is_empty());
}
