//! How the source is cut into tokens.

use crate::lexer::Piece;
use crate::token::TokenKind;
use vstd::prelude::*;

verus! {

// ── Symbols ──────────────────────────────────────────────────────────────────

/// The kind of a symbol, if the text is one.
pub open spec fn symbol_kind(t: Seq<char>) -> Option<TokenKind> {
    if t.len() == 1 {
        match t[0] {
            '{' => Some(TokenKind::LBrace),
            '}' => Some(TokenKind::RBrace),
            '(' => Some(TokenKind::LParen),
            ')' => Some(TokenKind::RParen),
            '[' => Some(TokenKind::LBracket),
            ']' => Some(TokenKind::RBracket),
            ';' => Some(TokenKind::Semi),
            ',' => Some(TokenKind::Comma),
            '?' => Some(TokenKind::Question),
            '~' => Some(TokenKind::Tilde),
            ':' => Some(TokenKind::Colon),
            '.' => Some(TokenKind::Dot),
            '!' => Some(TokenKind::Bang),
            '+' => Some(TokenKind::Plus),
            '-' => Some(TokenKind::Minus),
            '*' => Some(TokenKind::Star),
            '/' => Some(TokenKind::Slash),
            '%' => Some(TokenKind::Percent),
            '&' => Some(TokenKind::Amp),
            '|' => Some(TokenKind::Pipe),
            '^' => Some(TokenKind::Caret),
            '<' => Some(TokenKind::Lt),
            '>' => Some(TokenKind::Gt),
            '=' => Some(TokenKind::Eq),
            _ => None,
        }
    } else if t.len() == 2 {
        let (a, b) = (t[0], t[1]);
        if b == '=' {
            match a {
                '!' => Some(TokenKind::BangEq),
                '+' => Some(TokenKind::PlusEq),
                '-' => Some(TokenKind::MinusEq),
                '*' => Some(TokenKind::StarEq),
                '/' => Some(TokenKind::SlashEq),
                '%' => Some(TokenKind::PercentEq),
                '&' => Some(TokenKind::AmpEq),
                '|' => Some(TokenKind::PipeEq),
                '^' => Some(TokenKind::CaretEq),
                '<' => Some(TokenKind::LtEq),
                '>' => Some(TokenKind::GtEq),
                '=' => Some(TokenKind::EqEq),
                _ => None,
            }
        } else if a == b {
            match a {
                ':' => Some(TokenKind::ColonColon),
                '+' => Some(TokenKind::PlusPlus),
                '-' => Some(TokenKind::MinusMinus),
                '&' => Some(TokenKind::AmpAmp),
                '|' => Some(TokenKind::PipePipe),
                '<' => Some(TokenKind::LtLt),
                '>' => Some(TokenKind::GtGt),
                _ => None,
            }
        } else if a == '-' && b == '>' {
            Some(TokenKind::Arrow)
        } else if a == '.' && b == '*' {
            Some(TokenKind::DotStar)
        } else {
            None
        }
    } else if t == seq!['.', '.', '.'] {
        Some(TokenKind::DotDotDot)
    } else if t == seq!['-', '>', '*'] {
        Some(TokenKind::ArrowStar)
    } else if t == seq!['<', '<', '='] {
        Some(TokenKind::LtLtEq)
    } else if t == seq!['>', '>', '='] {
        Some(TokenKind::GtGtEq)
    } else {
        None
    }
}

/// The `n` characters from `i` on.
pub open spec fn cut(src: Seq<char>, i: int, n: int) -> Seq<char> {
    src.subrange(i, i + n)
}

/// Neither a number nor a comment starts at `i`.
pub open spec fn starts_symbol(src: Seq<char>, i: int) -> bool {
    &&& 0 <= i < src.len()
    &&& symbol_kind(seq![src[i]]) is Some
    &&& i + 1 < src.len() ==> {
        &&& !(src[i] == '/' && (src[i + 1] == '/' || src[i + 1] == '*'))
        &&& !(src[i] == '.' && '0' <= src[i + 1] <= '9')
    }
}

/// A symbol is the longest one that the characters from there on spell.
pub proof fn law_the_longest_symbol_is_taken(src: Seq<char>, i: int, line_start: bool)
    requires
        starts_symbol(src, i),
    ensures
        ({
            let p = crate::lexer::piece_at(src, i, line_start);
            let n = p.end - i;
            &&& p.start == i && p.closed && 1 <= n <= 3 && p.end <= src.len()
            &&& symbol_kind(cut(src, i, n)) == Some(p.kind)
            &&& forall|m: int|
                n < m <= 3 && i + m <= src.len() ==> symbol_kind(#[trigger] cut(src, i, m)) is None
        }),
{
    let p = crate::lexer::piece_at(src, i, line_start);
    let n = p.end - i;
    let a = src[i];
    let b = crate::lexer::at(src, i + 1);
    let c = crate::lexer::at(src, i + 2);
    assert(!crate::text::is_white(a));
    assert(!crate::lexer::starts_word(a));
    assert(p.kind == crate::lexer::symbol(a, b, c).kind && n == crate::lexer::symbol(a, b, c).len);
    crate::laws::lexing::lemma_piece(src, i, line_start);
    assert forall|m: int| 1 <= m <= 3 && i + m <= src.len() implies {
        let t = #[trigger] cut(src, i, m);
        &&& t.len() == m && t[0] == a
        &&& m >= 2 ==> t[1] == b
        &&& m >= 3 ==> t[2] == c
        &&& m == 1 ==> t == seq![a]
        &&& m == 2 ==> t == seq![a, b]
        &&& m == 3 ==> t == seq![a, b, c]
    } by {
        let t = cut(src, i, m);
        if m == 1 {
            assert(t =~= seq![a]);
        } else if m == 2 {
            assert(t =~= seq![a, b]);
        } else {
            assert(t =~= seq![a, b, c]);
        }
    }
    lemma_longest(a, b, c);
    let t = cut(src, i, n);
    assert forall|m: int| n < m <= 3 && i + m <= src.len() implies symbol_kind(
        #[trigger] cut(src, i, m),
    ) is None by {
        let u = cut(src, i, m);
    }
}

proof fn lemma_longest(a: char, b: char, c: char)
    requires
        symbol_kind(seq![a]) is Some,
    ensures
        ({
            let s = crate::lexer::symbol(a, b, c);
            &&& s.len == 1 ==> symbol_kind(seq![a]) == Some(s.kind) && symbol_kind(seq![a, b])
                is None && symbol_kind(seq![a, b, c]) is None
            &&& s.len == 2 ==> symbol_kind(seq![a, b]) == Some(s.kind) && symbol_kind(
                seq![a, b, c],
            ) is None
            &&& s.len == 3 ==> symbol_kind(seq![a, b, c]) == Some(s.kind)
            &&& 1 <= s.len <= 3
        }),
{
    let t = seq![a, b, c];
    assert(t[0] == a && t[1] == b && t[2] == c);
    assert(a == '.' && b == '.' && c == '.' ==> t =~= seq!['.', '.', '.']);
    assert(a == '-' && b == '>' && c == '*' ==> t =~= seq!['-', '>', '*']);
    assert(a == '<' && b == '<' && c == '=' ==> t =~= seq!['<', '<', '=']);
    assert(a == '>' && b == '>' && c == '=' ==> t =~= seq!['>', '>', '=']);
    assert(t == seq!['.', '.', '.'] ==> a == '.' && b == '.' && c == '.');
    assert(t == seq!['-', '>', '*'] ==> a == '-' && b == '>' && c == '*');
    assert(t == seq!['<', '<', '='] ==> a == '<' && b == '<' && c == '=');
    assert(t == seq!['>', '>', '='] ==> a == '>' && b == '>' && c == '=');
}

// ── Words ────────────────────────────────────────────────────────────────────

/// The control words and the others with a kind of their own.
pub proof fn law_words_have_their_kind()
    ensures
        crate::lexer::word_kind("if"@) == TokenKind::KwIf,
        crate::lexer::word_kind("else"@) == TokenKind::KwElse,
        crate::lexer::word_kind("for"@) == TokenKind::KwFor,
        crate::lexer::word_kind("while"@) == TokenKind::KwWhile,
        crate::lexer::word_kind("do"@) == TokenKind::KwDo,
        crate::lexer::word_kind("switch"@) == TokenKind::KwSwitch,
        crate::lexer::word_kind("case"@) == TokenKind::KwCase,
        crate::lexer::word_kind("default"@) == TokenKind::KwDefault,
        crate::lexer::word_kind("return"@) == TokenKind::KwReturn,
        crate::lexer::word_kind("break"@) == TokenKind::KwBreak,
        crate::lexer::word_kind("continue"@) == TokenKind::KwContinue,
        crate::lexer::word_kind("goto"@) == TokenKind::KwGoto,
        crate::lexer::word_kind("throw"@) == TokenKind::KwThrow,
        crate::lexer::word_kind("try"@) == TokenKind::KwTry,
        crate::lexer::word_kind("catch"@) == TokenKind::KwCatch,
        crate::lexer::word_kind("namespace"@) == TokenKind::KwNamespace,
        crate::lexer::word_kind("struct"@) == TokenKind::KwStruct,
        crate::lexer::word_kind("class"@) == TokenKind::KwClass,
        crate::lexer::word_kind("union"@) == TokenKind::KwUnion,
        crate::lexer::word_kind("enum"@) == TokenKind::KwEnum,
        crate::lexer::word_kind("typename"@) == TokenKind::KwTypename,
        crate::lexer::word_kind("typedef"@) == TokenKind::KwTypedef,
        crate::lexer::word_kind("template"@) == TokenKind::KwTemplate,
        crate::lexer::word_kind("using"@) == TokenKind::KwUsing,
        crate::lexer::word_kind("public"@) == TokenKind::KwPublic,
        crate::lexer::word_kind("private"@) == TokenKind::KwPrivate,
        crate::lexer::word_kind("protected"@) == TokenKind::KwProtected,
        crate::lexer::word_kind("new"@) == TokenKind::KwNew,
        crate::lexer::word_kind("delete"@) == TokenKind::KwDelete,
{
    lemma_words_look();
}

/// The length of a word, its first two characters, the one in its middle and
/// the last: no two reserved words agree in all of them.
spec fn looks(w: Seq<char>, n: nat, a: char, b: char, c: char, d: char) -> bool {
    w.len() == n && w[0] == a && w[1] == b && w[(n / 2) as int] == c && w[n - 1] == d
}

proof fn lemma_words_look()
    ensures
        looks("if"@, 2, 'i', 'f', 'f', 'f'),
        looks("else"@, 4, 'e', 'l', 's', 'e'),
        looks("for"@, 3, 'f', 'o', 'o', 'r'),
        looks("while"@, 5, 'w', 'h', 'i', 'e'),
        looks("do"@, 2, 'd', 'o', 'o', 'o'),
        looks("switch"@, 6, 's', 'w', 't', 'h'),
        looks("case"@, 4, 'c', 'a', 's', 'e'),
        looks("default"@, 7, 'd', 'e', 'a', 't'),
        looks("return"@, 6, 'r', 'e', 'u', 'n'),
        looks("break"@, 5, 'b', 'r', 'e', 'k'),
        looks("continue"@, 8, 'c', 'o', 'i', 'e'),
        looks("goto"@, 4, 'g', 'o', 't', 'o'),
        looks("throw"@, 5, 't', 'h', 'r', 'w'),
        looks("try"@, 3, 't', 'r', 'r', 'y'),
        looks("catch"@, 5, 'c', 'a', 't', 'h'),
        looks("namespace"@, 9, 'n', 'a', 's', 'e'),
        looks("struct"@, 6, 's', 't', 'u', 't'),
        looks("class"@, 5, 'c', 'l', 'a', 's'),
        looks("union"@, 5, 'u', 'n', 'i', 'n'),
        looks("enum"@, 4, 'e', 'n', 'u', 'm'),
        looks("typename"@, 8, 't', 'y', 'n', 'e'),
        looks("typedef"@, 7, 't', 'y', 'e', 'f'),
        looks("template"@, 8, 't', 'e', 'l', 'e'),
        looks("using"@, 5, 'u', 's', 'i', 'g'),
        looks("public"@, 6, 'p', 'u', 'l', 'c'),
        looks("private"@, 7, 'p', 'r', 'v', 'e'),
        looks("protected"@, 9, 'p', 'r', 'e', 'd'),
        looks("new"@, 3, 'n', 'e', 'e', 'w'),
        looks("delete"@, 6, 'd', 'e', 'e', 'e'),
{
    reveal_strlit("if");
    reveal_strlit("else");
    reveal_strlit("for");
    reveal_strlit("while");
    reveal_strlit("do");
    reveal_strlit("switch");
    reveal_strlit("case");
    reveal_strlit("default");
    reveal_strlit("return");
    reveal_strlit("break");
    reveal_strlit("continue");
    reveal_strlit("goto");
    reveal_strlit("throw");
    reveal_strlit("try");
    reveal_strlit("catch");
    reveal_strlit("namespace");
    reveal_strlit("struct");
    reveal_strlit("class");
    reveal_strlit("union");
    reveal_strlit("enum");
    reveal_strlit("typename");
    reveal_strlit("typedef");
    reveal_strlit("template");
    reveal_strlit("using");
    reveal_strlit("public");
    reveal_strlit("private");
    reveal_strlit("protected");
    reveal_strlit("new");
    reveal_strlit("delete");
}

proof fn lemma_reserved_words_look()
    ensures
        looks("void"@, 4, 'v', 'o', 'i', 'd'),
        looks("bool"@, 4, 'b', 'o', 'o', 'l'),
        looks("char"@, 4, 'c', 'h', 'a', 'r'),
        looks("short"@, 5, 's', 'h', 'o', 't'),
        looks("int"@, 3, 'i', 'n', 'n', 't'),
        looks("long"@, 4, 'l', 'o', 'n', 'g'),
        looks("float"@, 5, 'f', 'l', 'o', 't'),
        looks("double"@, 6, 'd', 'o', 'b', 'e'),
        looks("signed"@, 6, 's', 'i', 'n', 'd'),
        looks("unsigned"@, 8, 'u', 'n', 'g', 'd'),
        looks("wchar_t"@, 7, 'w', 'c', 'a', 't'),
        looks("char8_t"@, 7, 'c', 'h', 'r', 't'),
        looks("char16_t"@, 8, 'c', 'h', '1', 't'),
        looks("char32_t"@, 8, 'c', 'h', '3', 't'),
        looks("_Bool"@, 5, '_', 'B', 'o', 'l'),
        looks("_Complex"@, 8, '_', 'C', 'p', 'x'),
        looks("const"@, 5, 'c', 'o', 'n', 't'),
        looks("volatile"@, 8, 'v', 'o', 't', 'e'),
        looks("restrict"@, 8, 'r', 'e', 'r', 't'),
        looks("__restrict"@, 10, '_', '_', 't', 't'),
        looks("__restrict__"@, 12, '_', '_', 'r', '_'),
        looks("static"@, 6, 's', 't', 't', 'c'),
        looks("register"@, 8, 'r', 'e', 's', 'r'),
        looks("auto"@, 4, 'a', 'u', 't', 'o'),
        looks("inline"@, 6, 'i', 'n', 'i', 'e'),
        looks("__inline"@, 8, '_', '_', 'l', 'e'),
        looks("__inline__"@, 10, '_', '_', 'i', '_'),
        looks("thread_local"@, 12, 't', 'h', '_', 'l'),
        looks("_Thread_local"@, 13, '_', 'T', 'd', 'l'),
        looks("_Atomic"@, 7, '_', 'A', 'o', 'c'),
        looks("constexpr"@, 9, 'c', 'o', 't', 'r'),
        looks("consteval"@, 9, 'c', 'o', 't', 'l'),
        looks("constinit"@, 9, 'c', 'o', 't', 't'),
        looks("mutable"@, 7, 'm', 'u', 'a', 'e'),
        looks("virtual"@, 7, 'v', 'i', 't', 'l'),
        looks("explicit"@, 8, 'e', 'x', 'i', 't'),
        looks("friend"@, 6, 'f', 'r', 'e', 'd'),
        looks("noexcept"@, 8, 'n', 'o', 'c', 't'),
        looks("operator"@, 8, 'o', 'p', 'a', 'r'),
        looks("sizeof"@, 6, 's', 'i', 'e', 'f'),
        looks("alignof"@, 7, 'a', 'l', 'g', 'f'),
        looks("alignas"@, 7, 'a', 'l', 'g', 's'),
        looks("__alignof__"@, 11, '_', '_', 'g', '_'),
        looks("_Alignof"@, 8, '_', 'A', 'g', 'f'),
        looks("_Alignas"@, 8, '_', 'A', 'g', 's'),
        looks("decltype"@, 8, 'd', 'e', 't', 'e'),
        looks("typeid"@, 6, 't', 'y', 'e', 'd'),
        looks("typeof"@, 6, 't', 'y', 'e', 'f'),
        looks("__typeof__"@, 10, '_', '_', 'e', '_'),
        looks("static_assert"@, 13, 's', 't', '_', 't'),
        looks("_Static_assert"@, 14, '_', 'S', '_', 't'),
        looks("_Noreturn"@, 9, '_', 'N', 'e', 'n'),
        looks("asm"@, 3, 'a', 's', 's', 'm'),
        looks("__asm__"@, 7, '_', '_', 's', '_'),
        looks("concept"@, 7, 'c', 'o', 'c', 't'),
        looks("requires"@, 8, 'r', 'e', 'i', 's'),
        looks("co_await"@, 8, 'c', 'o', 'w', 't'),
        looks("co_return"@, 9, 'c', 'o', 'e', 'n'),
        looks("co_yield"@, 8, 'c', 'o', 'i', 'd'),
        looks("export"@, 6, 'e', 'x', 'o', 't'),
{
    reveal_strlit("void");
    reveal_strlit("bool");
    reveal_strlit("char");
    reveal_strlit("short");
    reveal_strlit("int");
    reveal_strlit("long");
    reveal_strlit("float");
    reveal_strlit("double");
    reveal_strlit("signed");
    reveal_strlit("unsigned");
    reveal_strlit("wchar_t");
    reveal_strlit("char8_t");
    reveal_strlit("char16_t");
    reveal_strlit("char32_t");
    reveal_strlit("_Bool");
    reveal_strlit("_Complex");
    reveal_strlit("const");
    reveal_strlit("volatile");
    reveal_strlit("restrict");
    reveal_strlit("__restrict");
    reveal_strlit("__restrict__");
    reveal_strlit("static");
    reveal_strlit("register");
    reveal_strlit("auto");
    reveal_strlit("inline");
    reveal_strlit("__inline");
    reveal_strlit("__inline__");
    reveal_strlit("thread_local");
    reveal_strlit("_Thread_local");
    reveal_strlit("_Atomic");
    reveal_strlit("constexpr");
    reveal_strlit("consteval");
    reveal_strlit("constinit");
    reveal_strlit("mutable");
    reveal_strlit("virtual");
    reveal_strlit("explicit");
    reveal_strlit("friend");
    reveal_strlit("noexcept");
    reveal_strlit("operator");
    reveal_strlit("sizeof");
    reveal_strlit("alignof");
    reveal_strlit("alignas");
    reveal_strlit("__alignof__");
    reveal_strlit("_Alignof");
    reveal_strlit("_Alignas");
    reveal_strlit("decltype");
    reveal_strlit("typeid");
    reveal_strlit("typeof");
    reveal_strlit("__typeof__");
    reveal_strlit("static_assert");
    reveal_strlit("_Static_assert");
    reveal_strlit("_Noreturn");
    reveal_strlit("asm");
    reveal_strlit("__asm__");
    reveal_strlit("concept");
    reveal_strlit("requires");
    reveal_strlit("co_await");
    reveal_strlit("co_return");
    reveal_strlit("co_yield");
    reveal_strlit("export");
}

/// Types, qualifiers, storage classes and the other reserved words.
pub open spec fn is_reserved(w: Seq<char>) -> bool {
    ||| w == seq!['e', 'x', 't', 'e', 'r', 'n']
    ||| w == "void"@ || w == "bool"@ || w == "char"@
    ||| w == "short"@ || w == "int"@ || w == "long"@
    ||| w == "float"@ || w == "double"@ || w == "signed"@
    ||| w == "unsigned"@ || w == "wchar_t"@ || w == "char8_t"@
    ||| w == "char16_t"@ || w == "char32_t"@ || w == "_Bool"@
    ||| w == "_Complex"@ || w == "const"@ || w == "volatile"@
    ||| w == "restrict"@ || w == "__restrict"@ || w == "__restrict__"@
    ||| w == "static"@ || w == "register"@ || w == "auto"@
    ||| w == "inline"@ || w == "__inline"@ || w == "__inline__"@
    ||| w == "thread_local"@ || w == "_Thread_local"@ || w == "_Atomic"@
    ||| w == "constexpr"@ || w == "consteval"@ || w == "constinit"@
    ||| w == "mutable"@ || w == "virtual"@ || w == "explicit"@
    ||| w == "friend"@ || w == "noexcept"@ || w == "operator"@
    ||| w == "sizeof"@ || w == "alignof"@ || w == "alignas"@
    ||| w == "__alignof__"@ || w == "_Alignof"@ || w == "_Alignas"@
    ||| w == "decltype"@ || w == "typeid"@ || w == "typeof"@
    ||| w == "__typeof__"@ || w == "static_assert"@ || w == "_Static_assert"@
    ||| w == "_Noreturn"@ || w == "asm"@ || w == "__asm__"@
    ||| w == "concept"@ || w == "requires"@ || w == "co_await"@
    ||| w == "co_return"@ || w == "co_yield"@ || w == "export"@
}

/// The words with a kind of their own.
pub open spec fn has_own_kind(w: Seq<char>) -> bool {
    ||| w == "if"@ || w == "else"@ || w == "for"@
    ||| w == "while"@ || w == "do"@ || w == "switch"@
    ||| w == "case"@ || w == "default"@ || w == "return"@
    ||| w == "break"@ || w == "continue"@ || w == "goto"@
    ||| w == "throw"@ || w == "try"@ || w == "catch"@
    ||| w == "namespace"@ || w == "struct"@ || w == "class"@
    ||| w == "union"@ || w == "enum"@ || w == "typename"@
    ||| w == "typedef"@ || w == "template"@ || w == "using"@
    ||| w == "public"@ || w == "private"@ || w == "protected"@
    ||| w == "new"@ || w == "delete"@
}

/// Every other reserved word is a keyword, and every word that is not reserved
/// a name.
pub proof fn law_reserved_words_are_keywords(w: Seq<char>)
    ensures
        is_reserved(w) ==> crate::lexer::word_kind(w) == TokenKind::Keyword,
        !is_reserved(w) && !has_own_kind(w) ==> crate::lexer::word_kind(w) == TokenKind::Ident,
{
    lemma_words_look();
    lemma_reserved_words_look();
}

// ── Extents ──────────────────────────────────────────────────────────────────

/// A letter, a digit, `_` or `$`.
pub open spec fn is_word_char(c: char) -> bool {
    crate::text::is_letter_or_digit(c) || c == '_' || c == '$'
}

/// A letter, `_` or `$`.
pub open spec fn starts_name(c: char) -> bool {
    crate::text::is_letter(c) || c == '_' || c == '$'
}

proof fn lemma_word_to(src: Seq<char>, i: int, e: int)
    requires
        0 <= i <= e <= src.len(),
        forall|x: int| i <= x < e ==> is_word_char(#[trigger] src[x]),
        e < src.len() ==> !is_word_char(src[e]),
    ensures
        crate::lexer::word_end(src, i) == e,
    decreases e - i,
{
    if i < e {
        assert(is_word_char(src[i]));
        lemma_word_to(src, i + 1, e);
    }
}

/// A word reaches as far as letters, digits, `_` and `$` do. In front of a
/// quote it may be the prefix of a literal.
pub proof fn law_words_are_whole(src: Seq<char>, i: int, e: int, line_start: bool)
    requires
        0 <= i < e <= src.len(),
        starts_name(src[i]) && !crate::text::is_white(src[i]) && !('0' <= src[i] <= '9'),
        forall|x: int| i < x < e ==> is_word_char(#[trigger] src[x]),
        e < src.len() ==> !is_word_char(src[e]) && src[e] != '"' && src[e] != '\'',
    ensures
        crate::lexer::piece_at(src, i, line_start) == (Piece {
            kind: crate::lexer::word_kind(src.subrange(i, e)),
            start: i,
            end: e,
            closed: true,
        }),
{
    assert(src[i] > '\x7f' || src[i] == '_' || src[i] == '$' || 'a' <= src[i] <= 'z' || 'A'
        <= src[i] <= 'Z');
    lemma_word_to(src, i + 1, e);
}

/// A quote closes the literal that it opened: the next one that no backslash
/// precedes.
pub proof fn law_literals_end_at_their_quote(src: Seq<char>, i: int, e: int, line_start: bool)
    requires
        0 <= i < e < src.len(),
        src[i] == '"' || src[i] == '\'',
        src[e] == src[i],
        forall|x: int|
            i < x < e ==> #[trigger] src[x] != src[i] && src[x] != '\\' && src[x] != '\n' && src[x]
                != '\r',
    ensures
        crate::lexer::piece_at(src, i, line_start) == (Piece {
            kind: if src[i] == '"' {
                TokenKind::LitStr
            } else {
                TokenKind::LitChar
            },
            start: i,
            end: e + 1,
            closed: true,
        }),
{
    lemma_quote_to(src, i + 1, e, src[i]);
}

proof fn lemma_quote_to(src: Seq<char>, i: int, e: int, quote: char)
    requires
        0 <= i <= e < src.len(),
        src[e] == quote,
        forall|x: int|
            i <= x < e ==> #[trigger] src[x] != quote && src[x] != '\\' && src[x] != '\n' && src[x]
                != '\r',
    ensures
        crate::lexer::quoted(src, i, quote) == (crate::lexer::Extent { end: e + 1, closed: true }),
    decreases e - i,
{
    if i < e {
        assert(src[i] != quote);
        lemma_quote_to(src, i + 1, e, quote);
    }
}

/// A backslash takes the character behind it into the literal, a quote, too.
pub proof fn law_backslashes_escape(src: Seq<char>, i: int, quote: char)
    requires
        0 <= i && i + 1 < src.len(),
        src[i] == '\\' && quote != '\\',
        src[i + 1] != '\n' && src[i + 1] != '\r',
    ensures
        crate::lexer::quoted(src, i, quote) == crate::lexer::quoted(src, i + 2, quote),
{
}

/// A `//` comment reaches through the next line end, a carriage return and line
/// feed being one, unless a backslash stands before it.
pub proof fn law_line_comments_reach_to_the_line_end(
    src: Seq<char>,
    i: int,
    e: int,
    line_start: bool,
)
    requires
        0 <= i && i + 2 <= e <= src.len(),
        src[i] == '/' && src[i + 1] == '/',
        forall|x: int| i + 2 <= x < e ==> #[trigger] src[x] != '\n' && src[x] != '\r',
        e < src.len() ==> (src[e] == '\n' || src[e] == '\r') && src[e - 1] != '\\',
    ensures
        crate::lexer::piece_at(src, i, line_start) == (Piece {
            kind: TokenKind::CommentLine,
            start: i,
            end: if e == src.len() {
                e
            } else if src[e] == '\r' && e + 1 < src.len() && src[e + 1] == '\n' {
                e + 2
            } else {
                e + 1
            },
            closed: true,
        }),
{
    lemma_line_to(src, i + 2, e);
}

proof fn lemma_line_to(src: Seq<char>, i: int, e: int)
    requires
        0 <= i <= e <= src.len(),
        forall|x: int| i <= x < e ==> #[trigger] src[x] != '\n' && src[x] != '\r',
        e < src.len() ==> (src[e] == '\n' || src[e] == '\r') && crate::lexer::at(src, e - 1)
            != '\\',
    ensures
        crate::lexer::line_end(src, i) == if e == src.len() {
            e
        } else if src[e] == '\r' && e + 1 < src.len() && src[e + 1] == '\n' {
            e + 2
        } else {
            e + 1
        },
    decreases e - i,
{
    if i < e {
        assert(src[i] != '\n');
        lemma_line_to(src, i + 1, e);
    }
}

/// A comment between `/*` and `*/` ends with the first `*/`.
pub proof fn law_block_comments_end_at_the_first_close(
    src: Seq<char>,
    i: int,
    e: int,
    line_start: bool,
)
    requires
        0 <= i && i + 2 <= e && e + 1 < src.len(),
        src[i] == '/' && src[i + 1] == '*',
        src[e] == '*' && src[e + 1] == '/',
        forall|x: int| i + 2 <= x < e ==> !(#[trigger] src[x] == '*' && src[x + 1] == '/'),
    ensures
        crate::lexer::piece_at(src, i, line_start) == (Piece {
            kind: TokenKind::CommentBlock,
            start: i,
            end: e + 2,
            closed: true,
        }),
{
    let close = seq!['*', '/'];
    assert forall|x: int| i + 2 <= x < e implies !#[trigger] crate::text::matches_at(
        src,
        x,
        close,
    ) by {
        if crate::text::matches_at(src, x, close) {
            let t = src.subrange(x, x + 2);
            assert(t[0] == src[x] && t[1] == src[x + 1]);
        }
    }
    assert(src.subrange(e, e + 2) =~= close);
    crate::laws::rules::lemma_find_first(src, close, i + 2, e);
}

/// A `#` at the start of a line takes the line with it, up to a line end without
/// a backslash before it; in the middle of a line it is no directive.
pub proof fn law_directives_take_their_line(src: Seq<char>, i: int, e: int)
    requires
        0 <= i < e <= src.len(),
        src[i] == '#',
        forall|x: int|
            i < x < e ==> #[trigger] src[x] != '\n' && src[x] != '\r' && src[x] != '"' && src[x]
                != '\'' && src[x] != '/',
        e < src.len() ==> (src[e] == '\n' || src[e] == '\r') && src[e - 1] != '\\',
    ensures
        crate::lexer::piece_at(src, i, true) == (Piece {
            kind: TokenKind::PreprocLine,
            start: i,
            end: if e == src.len() {
                e
            } else if src[e] == '\r' && e + 1 < src.len() && src[e + 1] == '\n' {
                e + 2
            } else {
                e + 1
            },
            closed: true,
        }),
        crate::lexer::piece_at(src, i, false).kind == TokenKind::Unknown,
{
    lemma_directive_to(src, i + 1, e);
}

proof fn lemma_directive_to(src: Seq<char>, i: int, e: int)
    requires
        0 <= i <= e <= src.len(),
        forall|x: int|
            i <= x < e ==> #[trigger] src[x] != '\n' && src[x] != '\r' && src[x] != '"' && src[x]
                != '\'' && src[x] != '/',
        e < src.len() ==> (src[e] == '\n' || src[e] == '\r') && crate::lexer::at(src, e - 1)
            != '\\',
    ensures
        crate::lexer::preproc_end(src, i) == if e == src.len() {
            e
        } else if src[e] == '\r' && e + 1 < src.len() && src[e + 1] == '\n' {
            e + 2
        } else {
            e + 1
        },
    decreases e - i,
{
    if i < e {
        assert(src[i] != '\n');
        lemma_directive_to(src, i + 1, e);
    }
}

/// A directive is one at the start of the source, behind a line end, a `//`
/// comment or another directive, blanks and other comments aside.
pub proof fn law_lines_start_behind_line_ends(k: TokenKind, line_start: bool)
    ensures
        crate::lexer::line_start_after(k, line_start) == (k == TokenKind::Newline || k
            == TokenKind::CommentLine || k == TokenKind::PreprocLine || (line_start && (k
            == TokenKind::Whitespace || k == TokenKind::CommentBlock))),
{
}

/// A line end is one token, also that of a carriage return and a line feed;
/// other white space is one as far as it reaches.
pub proof fn law_layout_is_cut_at_line_ends(src: Seq<char>, i: int, e: int, line_start: bool)
    requires
        0 <= i < e <= src.len(),
    ensures
        src[i] == '\n' || src[i] == '\r' ==> crate::lexer::piece_at(src, i, line_start) == (Piece {
            kind: TokenKind::Newline,
            start: i,
            end: if src[i] == '\r' && i + 1 < src.len() && src[i + 1] == '\n' {
                i + 2
            } else {
                i + 1
            },
            closed: true,
        }),
        (forall|x: int|
            i <= x < e ==> crate::text::is_white(#[trigger] src[x]) && src[x] != '\n' && src[x]
                != '\r') && (e < src.len() ==> !crate::text::is_white(src[e]) || src[e] == '\n'
            || src[e] == '\r') ==> crate::lexer::piece_at(src, i, line_start) == (Piece {
            kind: TokenKind::Whitespace,
            start: i,
            end: e,
            closed: true,
        }),
{
    if (forall|x: int|
        i <= x < e ==> crate::text::is_white(#[trigger] src[x]) && src[x] != '\n' && src[x]
            != '\r') && (e < src.len() ==> !crate::text::is_white(src[e]) || src[e] == '\n'
        || src[e] == '\r') {
        assert(crate::text::is_white(src[i]));
        lemma_blanks_to(src, i, e);
    }
}

proof fn lemma_blanks_to(src: Seq<char>, i: int, e: int)
    requires
        0 <= i <= e <= src.len(),
        forall|x: int|
            i <= x < e ==> crate::text::is_white(#[trigger] src[x]) && src[x] != '\n' && src[x]
                != '\r',
        e < src.len() ==> !crate::text::is_white(src[e]) || src[e] == '\n' || src[e] == '\r',
    ensures
        crate::lexer::blanks_end(src, i) == e,
    decreases e - i,
{
    if i < e {
        assert(crate::text::is_white(src[i]));
        lemma_blanks_to(src, i + 1, e);
    }
}

/// A number of digits and letters reaches as far as they do, with a `.` in it. It
/// is a float if it holds a `.` or an exponent: `e` in a decimal number, `p` in
/// one that starts with `0x`.
pub proof fn law_numbers_are_whole(src: Seq<char>, i: int, e: int, line_start: bool)
    requires
        0 <= i < e <= src.len(),
        '0' <= src[i] <= '9',
        forall|x: int| i < x < e ==> is_word_char(#[trigger] src[x]) || src[x] == '.',
        e < src.len() ==> !is_word_char(src[e]) && src[e] != '.' && src[e] != '+' && src[e] != '-'
            && src[e] != '\'',
    ensures
        ({
            let t = src.subrange(i, e);
            let hex = t.len() >= 2 && t[0] == '0' && (t[1] == 'x' || t[1] == 'X');
            let float = t.contains('.') || if hex {
                t.contains('p') || t.contains('P')
            } else {
                t.contains('e') || t.contains('E')
            };
            crate::lexer::piece_at(src, i, line_start) == (Piece {
                kind: if float {
                    TokenKind::LitFloat
                } else {
                    TokenKind::LitInt
                },
                start: i,
                end: e,
                closed: true,
            })
        }),
{
    let t = src.subrange(i, e);
    let hex = crate::lexer::is_hex(src, i);
    assert(hex == (t.len() >= 2 && t[0] == '0' && (t[1] == 'x' || t[1] == 'X'))) by {
        if e > i + 1 {
            assert(t[1] == src[i + 1]);
        }
    }
    lemma_number_to(src, i + 1, e, hex);
}

proof fn lemma_number_to(src: Seq<char>, i: int, e: int, hex: bool)
    requires
        0 <= i <= e <= src.len(),
        forall|x: int| i <= x < e ==> is_word_char(#[trigger] src[x]) || src[x] == '.',
        e < src.len() ==> !is_word_char(src[e]) && src[e] != '.' && src[e] != '+' && src[e] != '-'
            && src[e] != '\'',
    ensures
        crate::lexer::number_end(src, i, hex) == e,
    decreases e - i,
{
    if i < e {
        assert(is_word_char(src[i]) || src[i] == '.');
        lemma_number_to(src, i + 1, e, hex);
    }
}

/// A number goes on over a sign behind its exponent, and over a `'` between
/// digits.
pub proof fn law_numbers_go_on_over_signs(src: Seq<char>, i: int, hex: bool)
    requires
        1 <= i < src.len(),
    ensures
        (src[i] == '+' || src[i] == '-') && (if hex {
            src[i - 1] == 'p' || src[i - 1] == 'P'
        } else {
            src[i - 1] == 'e' || src[i - 1] == 'E'
        }) ==> crate::lexer::number_end(src, i, hex) == crate::lexer::number_end(src, i + 1, hex),
        (src[i] == '+' || src[i] == '-') && !(if hex {
            src[i - 1] == 'p' || src[i - 1] == 'P'
        } else {
            src[i - 1] == 'e' || src[i - 1] == 'E'
        }) ==> crate::lexer::number_end(src, i, hex) == i,
        src[i] == '\'' && i + 1 < src.len() && is_word_char(src[i + 1])
            ==> crate::lexer::number_end(src, i, hex) == crate::lexer::number_end(src, i + 1, hex),
        src[i] == '\'' && !(i + 1 < src.len() && is_word_char(src[i + 1]))
            ==> crate::lexer::number_end(src, i, hex) == i,
{
}

/// A literal that no quote closes ends with its line, and is not closed.
pub proof fn law_open_literals_end_with_their_line(src: Seq<char>, i: int, e: int, line_start: bool)
    requires
        0 <= i < e <= src.len(),
        src[i] == '"' || src[i] == '\'',
        forall|x: int|
            i < x < e ==> #[trigger] src[x] != src[i] && src[x] != '\\' && src[x] != '\n' && src[x]
                != '\r',
        e < src.len() ==> src[e] == '\n' || src[e] == '\r',
    ensures
        ({
            let p = crate::lexer::piece_at(src, i, line_start);
            p.end == e && !p.closed
        }),
{
    lemma_open_to(src, i + 1, e, src[i]);
}

proof fn lemma_open_to(src: Seq<char>, i: int, e: int, quote: char)
    requires
        0 <= i <= e <= src.len(),
        quote != '\n' && quote != '\r',
        forall|x: int|
            i <= x < e ==> #[trigger] src[x] != quote && src[x] != '\\' && src[x] != '\n' && src[x]
                != '\r',
        e < src.len() ==> src[e] == '\n' || src[e] == '\r',
    ensures
        crate::lexer::quoted(src, i, quote) == (crate::lexer::Extent { end: e, closed: false }),
    decreases e - i,
{
    if i < e {
        assert(src[i] != quote);
        lemma_open_to(src, i + 1, e, quote);
    }
}

/// A prefix of a literal belongs to it: `L`, `u`, `U` and `u8`.
pub proof fn law_prefixes_belong_to_their_literal(
    src: Seq<char>,
    i: int,
    a: int,
    e: int,
    line_start: bool,
)
    requires
        0 <= i < a < e < src.len(),
        src.subrange(i, a) == "L"@ || src.subrange(i, a) == "u"@ || src.subrange(i, a) == "U"@
            || src.subrange(i, a) == "u8"@,
        src[a] == '"' || src[a] == '\'',
        src[e] == src[a],
        forall|x: int|
            a < x < e ==> #[trigger] src[x] != src[a] && src[x] != '\\' && src[x] != '\n' && src[x]
                != '\r',
    ensures
        crate::lexer::piece_at(src, i, line_start) == (Piece {
            kind: if src[a] == '"' {
                TokenKind::LitStr
            } else {
                TokenKind::LitChar
            },
            start: i,
            end: e + 1,
            closed: true,
        }),
{
    let w = src.subrange(i, a);
    reveal_strlit("L");
    reveal_strlit("u");
    reveal_strlit("U");
    reveal_strlit("u8");
    reveal_strlit("R");
    reveal_strlit("LR");
    reveal_strlit("uR");
    reveal_strlit("UR");
    reveal_strlit("u8R");
    assert("L"@ =~= seq!['L'] && "u"@ =~= seq!['u'] && "U"@ =~= seq!['U'] && "u8"@ =~= seq!['u', '8']);
    assert("R"@ =~= seq!['R'] && "LR"@.len() == 2 && "uR"@.len() == 2 && "UR"@.len() == 2
        && "u8R"@.len() == 3);
    assert("LR"@[1] == 'R' && "uR"@[1] == 'R' && "UR"@[1] == 'R');
    assert(w[0] == src[i]);
    assert(w.len() == 2 ==> w[1] == src[i + 1]);
    assert forall|x: int| i + 1 <= x < a implies is_word_char(#[trigger] src[x]) by {
        assert(src[x] == w[x - i]);
    }
    lemma_word_to(src, i + 1, a);
    lemma_quote_to(src, a + 1, e, src[a]);
}

/// A raw string ends with the first `)`, delimiter and quote that stand behind
/// its `(`: nothing in it is escaped.
pub proof fn law_raw_strings_end_at_their_delimiter(
    src: Seq<char>,
    i: int,
    open: int,
    j: int,
    line_start: bool,
)
    requires
        0 <= i && i + 2 <= open < j <= src.len(),
        src[i] == 'R' && src[i + 1] == '"' && src[open] == '(',
        open - (i + 2) <= 16,
        forall|x: int| i + 2 <= x < open ==> #[trigger] src[x] != '(',
        ({
            let close = seq![')'] + src.subrange(i + 2, open) + seq!['"'];
            &&& crate::text::matches_at(src, j, close)
            &&& forall|x: int| open + 1 <= x < j ==> !#[trigger] crate::text::matches_at(
                src,
                x,
                close,
            )
        }),
    ensures
        crate::lexer::piece_at(src, i, line_start) == (Piece {
            kind: TokenKind::LitStr,
            start: i,
            end: j + 2 + (open - (i + 2)),
            closed: true,
        }),
{
    reveal_strlit("R");
    let w = src.subrange(i, i + 1);
    assert(w =~= "R"@);
    lemma_word_to(src, i + 1, i + 1);
    let paren = seq!['('];
    assert forall|x: int| i + 2 <= x < open implies !#[trigger] crate::text::matches_at(
        src,
        x,
        paren,
    ) by {
        if crate::text::matches_at(src, x, paren) {
            assert(src.subrange(x, x + 1)[0] == src[x]);
        }
    }
    assert(src.subrange(open, open + 1) =~= paren);
    crate::laws::rules::lemma_find_first(src, paren, i + 2, open);
    let close = seq![')'] + src.subrange(i + 2, open) + seq!['"'];
    crate::laws::rules::lemma_find_first(src, close, open + 1, j);
}

// ── Places ───────────────────────────────────────────────────────────────────

/// Lines and columns are counted from one. A line feed ends a line, and a
/// carriage return that no line feed follows.
pub proof fn law_places_are_counted(src: Seq<char>, i: int)
    requires
        0 <= i < src.len(),
    ensures
        crate::lexer::line_of(src, 0) == 1,
        crate::lexer::col_of(src, 0) == 1,
        ({
            let ends = src[i] == '\n' || (src[i] == '\r' && !(i + 1 < src.len() && src[i + 1]
                == '\n'));
            &&& crate::lexer::line_of(src, i + 1) == crate::lexer::line_of(src, i) + if ends {
                1nat
            } else {
                0nat
            }
            &&& crate::lexer::col_of(src, i + 1) == if ends {
                1
            } else {
                crate::lexer::col_of(src, i) + 1
            }
        }),
{
}

/// The tokens that lack their closing delimiter are warned of, and no others.
pub proof fn law_open_tokens_are_warned_of(ps: Seq<Piece>, p: Piece)
    ensures
        crate::lexer::unclosed(ps).contains(p) <==> ps.contains(p) && !p.closed,
        crate::lexer::unclosed(ps).len() <= ps.len(),
        p.kind == TokenKind::CommentBlock <==> crate::lexer::warning_kind(p.kind)
            == crate::lexer::WarningKind::UnterminatedComment,
    decreases ps.len(),
{
    if ps.len() > 0 {
        let init = ps.drop_last();
        law_open_tokens_are_warned_of(init, p);
        if ps.contains(p) {
            let k = choose|k: int| 0 <= k < ps.len() && ps[k] == p;
            if k < init.len() {
                assert(init[k] == p);
            }
        }
        if init.contains(p) {
            let k = choose|k: int| 0 <= k < init.len() && init[k] == p;
            assert(ps[k] == p);
        }
        let a = crate::lexer::unclosed(init);
        let b = crate::lexer::unclosed(ps);
        if !ps.last().closed {
            assert(b[b.len() - 1] == ps.last());
            assert(ps[ps.len() - 1] == ps.last());
            if a.contains(p) {
                let k = choose|k: int| 0 <= k < a.len() && a[k] == p;
                assert(b[k] == p);
            }
            if b.contains(p) && p != ps.last() {
                let k = choose|k: int| 0 <= k < b.len() && b[k] == p;
                assert(a[k] == p);
            }
        }
    }
}

// ── Characters ───────────────────────────────────────────────────────────────

/// White space is what Unicode counts as such.
pub proof fn law_white_space(c: char)
    ensures
        crate::text::is_white(c) <==> {
            let n = c as u32;
            ||| 9 <= n <= 13
            ||| n == 32
            ||| n == 133
            ||| n == 160
            ||| n == 5760
            ||| 8192 <= n <= 8202
            ||| n == 8232
            ||| n == 8233
            ||| n == 8239
            ||| n == 8287
            ||| n == 12288
        },
{
}

/// The ASCII letters and digits are letters and digits, and no other ASCII
/// character is.
pub proof fn law_ascii_letters(c: char)
    requires
        c <= '\x7f',
    ensures
        crate::text::is_letter(c) <==> 'a' <= c <= 'z' || 'A' <= c <= 'Z',
        crate::text::is_letter_or_digit(c) <==> 'a' <= c <= 'z' || 'A' <= c <= 'Z' || '0' <= c
            <= '9',
{
}

/// Trimming cuts off as many characters of the class as there are.
pub proof fn law_trimming_cuts_off_the_class(s: Seq<char>, class: crate::text::Class)
    ensures
        ({
            let t = crate::text::trim_end(s, class);
            let n = t.len() as int;
            &&& n <= s.len() && t == s.take(n)
            &&& n > 0 ==> !class.has(s[n - 1])
            &&& forall|i: int| n <= i < s.len() ==> class.has(#[trigger] s[i])
        }),
        ({
            let t = crate::text::trim_start(s, class);
            let n = s.len() - t.len();
            &&& 0 <= n && t == s.skip(n)
            &&& t.len() > 0 ==> !class.has(t[0])
            &&& forall|i: int| 0 <= i < n ==> class.has(#[trigger] s[i])
        }),
    decreases s.len(),
{
    assert(s.take(s.len() as int) =~= s);
    assert(s.skip(0) =~= s);
    if s.len() > 0 {
        if class.has(s.last()) {
            let init = s.drop_last();
            law_trimming_cuts_off_the_class(init, class);
            let n = crate::text::trim_end(init, class).len() as int;
            assert(init.take(n) =~= s.take(n));
            assert forall|i: int| n <= i < s.len() implies class.has(#[trigger] s[i]) by {
                if i < init.len() {
                    assert(init[i] == s[i]);
                }
            }
            assert(n > 0 ==> init[n - 1] == s[n - 1]);
        }
        if class.has(s[0]) {
            let rest = s.drop_first();
            law_trimming_cuts_off_the_class(rest, class);
            let t = crate::text::trim_start(rest, class);
            let n = rest.len() - t.len();
            assert(rest.skip(n) =~= s.skip(n + 1));
            assert forall|i: int| 0 <= i < n + 1 implies class.has(#[trigger] s[i]) by {
                if i > 0 {
                    assert(rest[i - 1] == s[i]);
                }
            }
        }
    }
}

/// The classes of characters that are trimmed.
pub proof fn law_classes(c: char)
    ensures
        crate::text::Class::White.has(c) == crate::text::is_white(c),
        crate::text::Class::AsciiWhite.has(c) == (c == ' ' || c == '\t' || c == '\n' || c == '\r' || c
            as u32 == 12),
        crate::text::Class::Space.has(c) == (c == ' '),
        crate::text::Class::Tab.has(c) == (c == '\t'),
        crate::text::Class::Break.has(c) == (c == '\n' || c == '\r'),
{
}

} // verus!
