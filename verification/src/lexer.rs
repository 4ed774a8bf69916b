//! The lexer. It is lossless: every character of the source stands in exactly
//! one token, in order.

use crate::error::FunkyError;
use crate::text::{
    bytes_in, chars_of, has_char, is_word, occurs_at, push_all, same, split_str, white,
};
use crate::token::{Span, Token, TokenKind};
use vstd::prelude::*;

verus! {

// ── Characters ───────────────────────────────────────────────────────────────

/// A character that ends a line.
pub open spec fn is_break(c: char) -> bool {
    c == '\n' || c == '\r'
}

/// White space within a line.
pub open spec fn is_blank(c: char) -> bool {
    crate::text::is_white(c) && !is_break(c)
}

/// A character that starts a word.
pub open spec fn starts_word(c: char) -> bool {
    crate::text::is_letter(c) || c == '_' || c == '$'
}

/// A character that goes on with a word.
pub open spec fn in_word(c: char) -> bool {
    crate::text::is_letter_or_digit(c) || c == '_' || c == '$'
}

pub open spec fn is_digit(c: char) -> bool {
    '0' <= c <= '9'
}

fn breaks(c: char) -> (r: bool)
    ensures
        r == is_break(c),
{
    c == '\n' || c == '\r'
}

fn blank(c: char) -> (r: bool)
    ensures
        r == is_blank(c),
{
    white(c) && !breaks(c)
}

fn word_starts(c: char) -> (r: bool)
    ensures
        r == starts_word(c),
{
    c.is_alphabetic() || c == '_' || c == '$'
}

fn word_goes_on(c: char) -> (r: bool)
    ensures
        r == in_word(c),
{
    c.is_alphanumeric() || c == '_' || c == '$'
}

fn digit(c: char) -> (r: bool)
    ensures
        r == is_digit(c),
{
    '0' <= c && c <= '9'
}

/// The character at `i`; a NUL behind the end.
pub open spec fn at(src: Seq<char>, i: int) -> char {
    if 0 <= i < src.len() {
        src[i]
    } else {
        '\0'
    }
}

fn char_at(src: &[char], i: usize) -> (r: char)
    ensures
        r == at(src@, i as int),
        i < src@.len() ==> i < usize::MAX,
{
    if i < src.len() {
        src[i]
    } else {
        '\0'
    }
}

// ── Extents ──────────────────────────────────────────────────────────────────

/// Behind the blanks from `i` on.
pub open spec fn blanks_end(src: Seq<char>, i: int) -> int
    decreases src.len() - i,
{
    if 0 <= i < src.len() && is_blank(src[i]) {
        blanks_end(src, i + 1)
    } else {
        i
    }
}

/// Behind the word characters from `i` on.
pub open spec fn word_end(src: Seq<char>, i: int) -> int
    decreases src.len() - i,
{
    if 0 <= i < src.len() && in_word(src[i]) {
        word_end(src, i + 1)
    } else {
        i
    }
}

/// Behind the line end at `i`; a carriage return and a line feed are one.
pub open spec fn break_end(src: Seq<char>, i: int) -> int {
    if at(src, i) == '\r' && at(src, i + 1) == '\n' {
        i + 2
    } else {
        i + 1
    }
}

/// Behind the line that goes on at `i`. A backslash at its end continues it.
pub open spec fn line_end(src: Seq<char>, i: int) -> int
    decreases src.len() - i,
{
    if !(0 <= i < src.len()) {
        i
    } else if !is_break(src[i]) {
        line_end(src, i + 1)
    } else if at(src, i - 1) == '\\' {
        line_end(src, break_end(src, i))
    } else {
        break_end(src, i)
    }
}

/// Behind the comment whose inside starts at `i`.
pub open spec fn block_end(src: Seq<char>, i: int) -> int {
    match crate::text::find_from(src, seq!['*', '/'], i) {
        Some(j) => j + 2,
        None => src.len() as int,
    }
}

/// A literal: where it ends, and whether its closing quote was found.
pub struct Extent {
    pub end: int,
    pub closed: bool,
}

/// The literal whose inside starts at `i`. It ends at the latest with its
/// line, unless a backslash continues that.
pub open spec fn quoted(src: Seq<char>, i: int, quote: char) -> Extent
    decreases src.len() + 1 - i,
{
    if !(0 <= i < src.len()) {
        Extent { end: src.len() as int, closed: false }
    } else if src[i] == quote {
        Extent { end: i + 1, closed: true }
    } else if is_break(src[i]) {
        Extent { end: i, closed: false }
    } else if src[i] == '\\' {
        if is_break(at(src, i + 1)) {
            quoted(src, break_end(src, i + 1), quote)
        } else {
            quoted(src, i + 2, quote)
        }
    } else {
        quoted(src, i + 1, quote)
    }
}

/// The longest delimiter of a raw string.
pub const RAW_DELIMITER: usize = 16;

/// The raw string whose inside starts at `i`.
pub open spec fn raw(src: Seq<char>, i: int) -> Extent {
    match crate::text::find_from(src, seq!['('], i) {
        Some(open) => if open - i <= RAW_DELIMITER {
            let close = seq![')'] + src.subrange(i, open) + seq!['"'];
            match crate::text::find_from(src, close, open + 1) {
                Some(j) => Extent { end: j + close.len(), closed: true },
                None => Extent { end: src.len() as int, closed: false },
            }
        } else {
            quoted(src, i, '"')
        },
        None => quoted(src, i, '"'),
    }
}

/// A letter that introduces the exponent of a number.
pub open spec fn is_exponent(c: char, hex: bool) -> bool {
    if hex {
        c == 'p' || c == 'P'
    } else {
        c == 'e' || c == 'E'
    }
}

/// The number at `i` is hexadecimal.
pub open spec fn is_hex(src: Seq<char>, i: int) -> bool {
    at(src, i) == '0' && (at(src, i + 1) == 'x' || at(src, i + 1) == 'X')
}

/// Behind the number that goes on at `i`.
pub open spec fn number_end(src: Seq<char>, i: int, hex: bool) -> int
    decreases src.len() - i,
{
    if !(0 <= i < src.len()) {
        i
    } else if in_word(src[i]) || src[i] == '.' {
        number_end(src, i + 1, hex)
    } else if (src[i] == '+' || src[i] == '-') && is_exponent(at(src, i - 1), hex) {
        number_end(src, i + 1, hex)
    } else if src[i] == '\'' && in_word(at(src, i + 1)) && i + 1 < src.len() {
        number_end(src, i + 1, hex)
    } else {
        i
    }
}

/// Behind the preprocessor line that goes on at `i`. It is continued by a
/// backslash and by a comment; literals are skipped.
pub open spec fn preproc_end(src: Seq<char>, i: int) -> int
    decreases src.len() - i,
{
    if !(0 <= i < src.len()) {
        i
    } else if is_break(src[i]) {
        if at(src, i - 1) == '\\' {
            preproc_end(src, break_end(src, i))
        } else {
            break_end(src, i)
        }
    } else if src[i] == '/' && at(src, i + 1) == '/' {
        line_end(src, i)
    } else {
        let next = if src[i] == '/' && at(src, i + 1) == '*' {
            block_end(src, i + 2)
        } else if src[i] == '"' || src[i] == '\'' {
            quoted(src, i + 1, src[i]).end
        } else {
            i + 1
        };
        if i < next <= src.len() {
            preproc_end(src, next)
        } else {
            src.len() as int
        }
    }
}

fn find_blanks_end(src: &[char], i: usize) -> (r: usize)
    requires
        i <= src@.len(),
    ensures
        r == blanks_end(src@, i as int),
        i <= r <= src@.len(),
{
    let mut j: usize = i;
    while j < src.len() && blank(src[j])
        invariant
            i <= j <= src@.len(),
            blanks_end(src@, i as int) == blanks_end(src@, j as int),
        decreases src@.len() - j,
    {
        j += 1;
    }
    j
}

fn find_word_end(src: &[char], i: usize) -> (r: usize)
    requires
        i <= src@.len(),
    ensures
        r == word_end(src@, i as int),
        i <= r <= src@.len(),
{
    let mut j: usize = i;
    while j < src.len() && word_goes_on(src[j])
        invariant
            i <= j <= src@.len(),
            word_end(src@, i as int) == word_end(src@, j as int),
        decreases src@.len() - j,
    {
        j += 1;
    }
    j
}

fn find_break_end(src: &[char], i: usize) -> (r: usize)
    requires
        i < src@.len(),
    ensures
        r == break_end(src@, i as int),
        i < r <= src@.len(),
{
    if src[i] == '\r' && i + 1 < src.len() && src[i + 1] == '\n' {
        i + 2
    } else {
        i + 1
    }
}

fn follows_backslash(src: &[char], i: usize) -> (r: bool)
    requires
        i < src@.len(),
    ensures
        r == (at(src@, i - 1) == '\\'),
{
    i > 0 && src[i - 1] == '\\'
}

fn find_line_end(src: &[char], i: usize) -> (r: usize)
    requires
        i <= src@.len(),
    ensures
        r == line_end(src@, i as int),
        i <= r <= src@.len(),
{
    let mut j: usize = i;
    while j < src.len()
        invariant
            i <= j <= src@.len(),
            line_end(src@, i as int) == line_end(src@, j as int),
        decreases src@.len() - j,
    {
        if !breaks(src[j]) {
            j += 1;
        } else if follows_backslash(src, j) {
            j = find_break_end(src, j);
        } else {
            return find_break_end(src, j);
        }
    }
    j
}

/// Where `p` first occurs from `i` on.
pub(crate) fn find_text(src: &[char], p: &[char], i: usize) -> (r: Option<usize>)
    requires
        i <= src@.len(),
        p@.len() > 0,
    ensures
        match r {
            Some(j) => crate::text::find_from(src@, p@, i as int) == Some(j as int) && i <= j && j
                + p@.len() <= src@.len() <= usize::MAX,
            None => crate::text::find_from(src@, p@, i as int) is None,
        },
{
    let mut j: usize = i;
    while j < src.len()
        invariant
            i <= j <= src@.len(),
            p@.len() > 0,
            crate::text::find_from(src@, p@, i as int) == crate::text::find_from(
                src@,
                p@,
                j as int,
            ),
        decreases src@.len() - j,
    {
        if occurs_at(src, j, p) {
            return Some(j);
        }
        assert(j + p@.len() > src@.len() ==> crate::text::find_from(src@, p@, j + 1) is None);
        j += 1;
    }
    None
}

fn find_block_end(src: &[char], i: usize) -> (r: (usize, bool))
    requires
        i <= src@.len(),
    ensures
        r.0 == block_end(src@, i as int),
        r.1 == (crate::text::find_from(src@, seq!['*', '/'], i as int) is Some),
        i <= r.0 <= src@.len(),
{
    let close: [char; 2] = ['*', '/'];
    assert(close@ =~= seq!['*', '/']);
    match find_text(src, close.as_slice(), i) {
        Some(j) => (j + 2, true),
        None => (src.len(), false),
    }
}

fn find_quoted(src: &[char], i: usize, quote: char) -> (r: (usize, bool))
    requires
        i <= src@.len(),
    ensures
        r.0 == quoted(src@, i as int, quote).end,
        r.1 == quoted(src@, i as int, quote).closed,
        i <= r.0 <= src@.len(),
{
    let n: usize = src.len();
    let mut j: usize = i;
    while j < n
        invariant
            i <= j <= n == src@.len(),
            quoted(src@, i as int, quote) == quoted(src@, j as int, quote),
        decreases n - j,
    {
        let c = src[j];
        if c == quote {
            return (j + 1, true);
        } else if breaks(c) {
            return (j, false);
        } else if c == '\\' {
            if j + 1 >= n {
                assert(quoted(src@, j + 2, quote).end == n);
                return (n, false);
            }
            if breaks(src[j + 1]) {
                j = find_break_end(src, j + 1);
            } else {
                j += 2;
            }
        } else {
            j += 1;
        }
    }
    (n, false)
}

fn find_raw(src: &[char], i: usize) -> (r: (usize, bool))
    requires
        i <= src@.len(),
    ensures
        r.0 == raw(src@, i as int).end,
        r.1 == raw(src@, i as int).closed,
        i <= r.0 <= src@.len(),
{
    let paren: [char; 1] = ['('];
    assert(paren@ =~= seq!['(']);
    match find_text(src, paren.as_slice(), i) {
        Some(open) => {
            if open - i > RAW_DELIMITER {
                return find_quoted(src, i, '"');
            }
            let mut close: Vec<char> = Vec::new();
            close.push(')');
            push_all(&mut close, vstd::slice::slice_subrange(src, i, open));
            close.push('"');
            assert(close@ =~= seq![')'] + src@.subrange(i as int, open as int) + seq!['"']);
            match find_text(src, close.as_slice(), open + 1) {
                Some(j) => (j + close.len(), true),
                None => (src.len(), false),
            }
        },
        None => find_quoted(src, i, '"'),
    }
}

fn exponent(c: char, hex: bool) -> (r: bool)
    ensures
        r == is_exponent(c, hex),
{
    if hex {
        c == 'p' || c == 'P'
    } else {
        c == 'e' || c == 'E'
    }
}

fn find_number_end(src: &[char], i: usize, hex: bool) -> (r: usize)
    requires
        0 < i <= src@.len(),
    ensures
        r == number_end(src@, i as int, hex),
        i <= r <= src@.len(),
{
    let n: usize = src.len();
    let mut j: usize = i;
    while j < n
        invariant
            0 < i <= j <= n == src@.len(),
            number_end(src@, i as int, hex) == number_end(src@, j as int, hex),
        decreases n - j,
    {
        let c = src[j];
        let goes_on = word_goes_on(c) || c == '.' || ((c == '+' || c == '-') && exponent(
            src[j - 1],
            hex,
        )) || (c == '\'' && j + 1 < n && word_goes_on(src[j + 1]));
        if !goes_on {
            return j;
        }
        j += 1;
    }
    j
}

fn find_preproc_end(src: &[char], i: usize) -> (r: usize)
    requires
        i <= src@.len(),
    ensures
        r == preproc_end(src@, i as int),
        i <= r <= src@.len(),
{
    let n: usize = src.len();
    let mut j: usize = i;
    while j < n
        invariant
            i <= j <= n == src@.len(),
            preproc_end(src@, i as int) == preproc_end(src@, j as int),
        decreases n - j,
    {
        let c = src[j];
        if breaks(c) {
            if !follows_backslash(src, j) {
                return find_break_end(src, j);
            }
            j = find_break_end(src, j);
        } else if c == '/' && j + 1 < n && src[j + 1] == '/' {
            return find_line_end(src, j);
        } else if c == '/' && j + 1 < n && src[j + 1] == '*' {
            j = find_block_end(src, j + 2).0;
        } else if c == '"' || c == '\'' {
            j = find_quoted(src, j + 1, c).0;
        } else {
            j += 1;
        }
    }
    j
}

// ── Words ────────────────────────────────────────────────────────────────────

/// A reserved word that has no kind of its own.
pub open spec fn is_plain_keyword(w: Seq<char>) -> bool {
    w == crate::words::linkage_word()
        || w == "void"@
        || w == "bool"@
        || w == "char"@
        || w == "short"@
        || w == "int"@
        || w == "long"@
        || w == "float"@
        || w == "double"@
        || w == "signed"@
        || w == "unsigned"@
        || w == "wchar_t"@
        || w == "char8_t"@
        || w == "char16_t"@
        || w == "char32_t"@
        || w == "_Bool"@
        || w == "_Complex"@
        || w == "const"@
        || w == "volatile"@
        || w == "restrict"@
        || w == "__restrict"@
        || w == "__restrict__"@
        || w == "static"@
        || w == "register"@
        || w == "auto"@
        || w == "inline"@
        || w == "__inline"@
        || w == "__inline__"@
        || w == "thread_local"@
        || w == "_Thread_local"@
        || w == "_Atomic"@
        || w == "constexpr"@
        || w == "consteval"@
        || w == "constinit"@
        || w == "mutable"@
        || w == "virtual"@
        || w == "explicit"@
        || w == "friend"@
        || w == "noexcept"@
        || w == "operator"@
        || w == "sizeof"@
        || w == "alignof"@
        || w == "alignas"@
        || w == "__alignof__"@
        || w == "_Alignof"@
        || w == "_Alignas"@
        || w == "decltype"@
        || w == "typeid"@
        || w == "typeof"@
        || w == "__typeof__"@
        || w == "static_assert"@
        || w == "_Static_assert"@
        || w == "_Noreturn"@
        || w == "asm"@
        || w == "__asm__"@
        || w == "concept"@
        || w == "requires"@
        || w == "co_await"@
        || w == "co_return"@
        || w == "co_yield"@
        || w == "export"@
}

/// The kind of a word.
pub open spec fn word_kind(w: Seq<char>) -> TokenKind {
    if w == "if"@ {
        TokenKind::KwIf
    } else if w == "else"@ {
        TokenKind::KwElse
    } else if w == "for"@ {
        TokenKind::KwFor
    } else if w == "while"@ {
        TokenKind::KwWhile
    } else if w == "do"@ {
        TokenKind::KwDo
    } else if w == "switch"@ {
        TokenKind::KwSwitch
    } else if w == "case"@ {
        TokenKind::KwCase
    } else if w == "default"@ {
        TokenKind::KwDefault
    } else if w == "return"@ {
        TokenKind::KwReturn
    } else if w == "break"@ {
        TokenKind::KwBreak
    } else if w == "continue"@ {
        TokenKind::KwContinue
    } else if w == "goto"@ {
        TokenKind::KwGoto
    } else if w == "throw"@ {
        TokenKind::KwThrow
    } else if w == "try"@ {
        TokenKind::KwTry
    } else if w == "catch"@ {
        TokenKind::KwCatch
    } else if w == "namespace"@ {
        TokenKind::KwNamespace
    } else if w == "struct"@ {
        TokenKind::KwStruct
    } else if w == "class"@ {
        TokenKind::KwClass
    } else if w == "union"@ {
        TokenKind::KwUnion
    } else if w == "enum"@ {
        TokenKind::KwEnum
    } else if w == "typename"@ {
        TokenKind::KwTypename
    } else if w == "typedef"@ {
        TokenKind::KwTypedef
    } else if w == "template"@ {
        TokenKind::KwTemplate
    } else if w == "using"@ {
        TokenKind::KwUsing
    } else if w == "public"@ {
        TokenKind::KwPublic
    } else if w == "private"@ {
        TokenKind::KwPrivate
    } else if w == "protected"@ {
        TokenKind::KwProtected
    } else if w == "new"@ {
        TokenKind::KwNew
    } else if w == "delete"@ {
        TokenKind::KwDelete
    } else if is_plain_keyword(w) {
        TokenKind::Keyword
    } else {
        TokenKind::Ident
    }
}

fn plain_keyword(w: &[char]) -> (r: bool)
    ensures
        r == is_plain_keyword(w@),
{
    let linkage: [char; 6] = ['e', 'x', 't', 'e', 'r', 'n'];
    assert(linkage@ =~= crate::words::linkage_word());
    same(w, linkage.as_slice())
        || is_word(w, "void")
        || is_word(w, "bool")
        || is_word(w, "char")
        || is_word(w, "short")
        || is_word(w, "int")
        || is_word(w, "long")
        || is_word(w, "float")
        || is_word(w, "double")
        || is_word(w, "signed")
        || is_word(w, "unsigned")
        || is_word(w, "wchar_t")
        || is_word(w, "char8_t")
        || is_word(w, "char16_t")
        || is_word(w, "char32_t")
        || is_word(w, "_Bool")
        || is_word(w, "_Complex")
        || is_word(w, "const")
        || is_word(w, "volatile")
        || is_word(w, "restrict")
        || is_word(w, "__restrict")
        || is_word(w, "__restrict__")
        || is_word(w, "static")
        || is_word(w, "register")
        || is_word(w, "auto")
        || is_word(w, "inline")
        || is_word(w, "__inline")
        || is_word(w, "__inline__")
        || is_word(w, "thread_local")
        || is_word(w, "_Thread_local")
        || is_word(w, "_Atomic")
        || is_word(w, "constexpr")
        || is_word(w, "consteval")
        || is_word(w, "constinit")
        || is_word(w, "mutable")
        || is_word(w, "virtual")
        || is_word(w, "explicit")
        || is_word(w, "friend")
        || is_word(w, "noexcept")
        || is_word(w, "operator")
        || is_word(w, "sizeof")
        || is_word(w, "alignof")
        || is_word(w, "alignas")
        || is_word(w, "__alignof__")
        || is_word(w, "_Alignof")
        || is_word(w, "_Alignas")
        || is_word(w, "decltype")
        || is_word(w, "typeid")
        || is_word(w, "typeof")
        || is_word(w, "__typeof__")
        || is_word(w, "static_assert")
        || is_word(w, "_Static_assert")
        || is_word(w, "_Noreturn")
        || is_word(w, "asm")
        || is_word(w, "__asm__")
        || is_word(w, "concept")
        || is_word(w, "requires")
        || is_word(w, "co_await")
        || is_word(w, "co_return")
        || is_word(w, "co_yield")
        || is_word(w, "export")
}

fn kind_of_word(w: &[char]) -> (r: TokenKind)
    ensures
        r == word_kind(w@),
{
    if is_word(w, "if") {
        TokenKind::KwIf
    } else if is_word(w, "else") {
        TokenKind::KwElse
    } else if is_word(w, "for") {
        TokenKind::KwFor
    } else if is_word(w, "while") {
        TokenKind::KwWhile
    } else if is_word(w, "do") {
        TokenKind::KwDo
    } else if is_word(w, "switch") {
        TokenKind::KwSwitch
    } else if is_word(w, "case") {
        TokenKind::KwCase
    } else if is_word(w, "default") {
        TokenKind::KwDefault
    } else if is_word(w, "return") {
        TokenKind::KwReturn
    } else if is_word(w, "break") {
        TokenKind::KwBreak
    } else if is_word(w, "continue") {
        TokenKind::KwContinue
    } else if is_word(w, "goto") {
        TokenKind::KwGoto
    } else if is_word(w, "throw") {
        TokenKind::KwThrow
    } else if is_word(w, "try") {
        TokenKind::KwTry
    } else if is_word(w, "catch") {
        TokenKind::KwCatch
    } else if is_word(w, "namespace") {
        TokenKind::KwNamespace
    } else if is_word(w, "struct") {
        TokenKind::KwStruct
    } else if is_word(w, "class") {
        TokenKind::KwClass
    } else if is_word(w, "union") {
        TokenKind::KwUnion
    } else if is_word(w, "enum") {
        TokenKind::KwEnum
    } else if is_word(w, "typename") {
        TokenKind::KwTypename
    } else if is_word(w, "typedef") {
        TokenKind::KwTypedef
    } else if is_word(w, "template") {
        TokenKind::KwTemplate
    } else if is_word(w, "using") {
        TokenKind::KwUsing
    } else if is_word(w, "public") {
        TokenKind::KwPublic
    } else if is_word(w, "private") {
        TokenKind::KwPrivate
    } else if is_word(w, "protected") {
        TokenKind::KwProtected
    } else if is_word(w, "new") {
        TokenKind::KwNew
    } else if is_word(w, "delete") {
        TokenKind::KwDelete
    } else if plain_keyword(w) {
        TokenKind::Keyword
    } else {
        TokenKind::Ident
    }
}

/// A prefix that gives a literal its encoding.
pub open spec fn is_encoding(w: Seq<char>) -> bool {
    w == "L"@ || w == "u"@ || w == "U"@ || w == "u8"@
}

/// A prefix that starts a raw string.
pub open spec fn is_raw_prefix(w: Seq<char>) -> bool {
    w == "R"@ || w == "LR"@ || w == "uR"@ || w == "UR"@ || w == "u8R"@
}

fn encoding(w: &[char]) -> (r: bool)
    ensures
        r == is_encoding(w@),
{
    is_word(w, "L") || is_word(w, "u") || is_word(w, "U") || is_word(w, "u8")
}

fn raw_prefix(w: &[char]) -> (r: bool)
    ensures
        r == is_raw_prefix(w@),
{
    is_word(w, "R") || is_word(w, "LR") || is_word(w, "uR") || is_word(w, "UR") || is_word(w, "u8R")
}

// ── Punctuation ──────────────────────────────────────────────────────────────

/// A symbol: its kind and its length.
pub struct Symbol {
    pub kind: TokenKind,
    pub len: int,
}

/// The longest symbol that starts with `a`, when `b` and `c` follow.
pub open spec fn symbol(a: char, b: char, c: char) -> Symbol {
    let (kind, len): (TokenKind, int) = match a {
        '{' => (TokenKind::LBrace, 1),
        '}' => (TokenKind::RBrace, 1),
        '(' => (TokenKind::LParen, 1),
        ')' => (TokenKind::RParen, 1),
        '[' => (TokenKind::LBracket, 1),
        ']' => (TokenKind::RBracket, 1),
        ';' => (TokenKind::Semi, 1),
        ',' => (TokenKind::Comma, 1),
        '?' => (TokenKind::Question, 1),
        '~' => (TokenKind::Tilde, 1),
        ':' => if b == ':' {
            (TokenKind::ColonColon, 2)
        } else {
            (TokenKind::Colon, 1)
        },
        '.' => if b == '.' && c == '.' {
            (TokenKind::DotDotDot, 3)
        } else if b == '*' {
            (TokenKind::DotStar, 2)
        } else {
            (TokenKind::Dot, 1)
        },
        '!' => if b == '=' {
            (TokenKind::BangEq, 2)
        } else {
            (TokenKind::Bang, 1)
        },
        '+' => if b == '+' {
            (TokenKind::PlusPlus, 2)
        } else if b == '=' {
            (TokenKind::PlusEq, 2)
        } else {
            (TokenKind::Plus, 1)
        },
        '-' => if b == '>' && c == '*' {
            (TokenKind::ArrowStar, 3)
        } else if b == '>' {
            (TokenKind::Arrow, 2)
        } else if b == '-' {
            (TokenKind::MinusMinus, 2)
        } else if b == '=' {
            (TokenKind::MinusEq, 2)
        } else {
            (TokenKind::Minus, 1)
        },
        '*' => if b == '=' {
            (TokenKind::StarEq, 2)
        } else {
            (TokenKind::Star, 1)
        },
        '/' => if b == '=' {
            (TokenKind::SlashEq, 2)
        } else {
            (TokenKind::Slash, 1)
        },
        '%' => if b == '=' {
            (TokenKind::PercentEq, 2)
        } else {
            (TokenKind::Percent, 1)
        },
        '&' => if b == '&' {
            (TokenKind::AmpAmp, 2)
        } else if b == '=' {
            (TokenKind::AmpEq, 2)
        } else {
            (TokenKind::Amp, 1)
        },
        '|' => if b == '|' {
            (TokenKind::PipePipe, 2)
        } else if b == '=' {
            (TokenKind::PipeEq, 2)
        } else {
            (TokenKind::Pipe, 1)
        },
        '^' => if b == '=' {
            (TokenKind::CaretEq, 2)
        } else {
            (TokenKind::Caret, 1)
        },
        '<' => if b == '<' && c == '=' {
            (TokenKind::LtLtEq, 3)
        } else if b == '<' {
            (TokenKind::LtLt, 2)
        } else if b == '=' {
            (TokenKind::LtEq, 2)
        } else {
            (TokenKind::Lt, 1)
        },
        '>' => if b == '>' && c == '=' {
            (TokenKind::GtGtEq, 3)
        } else if b == '>' {
            (TokenKind::GtGt, 2)
        } else if b == '=' {
            (TokenKind::GtEq, 2)
        } else {
            (TokenKind::Gt, 1)
        },
        '=' => if b == '=' {
            (TokenKind::EqEq, 2)
        } else {
            (TokenKind::Eq, 1)
        },
        _ => (TokenKind::Unknown, 1),
    };
    Symbol { kind, len }
}

fn symbol_of(a: char, b: char, c: char) -> (r: (TokenKind, usize))
    ensures
        r.0 == symbol(a, b, c).kind,
        r.1 == symbol(a, b, c).len,
        1 <= r.1 <= 3,
        r.1 >= 2 ==> b != '\0',
        r.1 >= 3 ==> c != '\0',
{
    match a {
        '{' => (TokenKind::LBrace, 1),
        '}' => (TokenKind::RBrace, 1),
        '(' => (TokenKind::LParen, 1),
        ')' => (TokenKind::RParen, 1),
        '[' => (TokenKind::LBracket, 1),
        ']' => (TokenKind::RBracket, 1),
        ';' => (TokenKind::Semi, 1),
        ',' => (TokenKind::Comma, 1),
        '?' => (TokenKind::Question, 1),
        '~' => (TokenKind::Tilde, 1),
        ':' => if b == ':' {
            (TokenKind::ColonColon, 2)
        } else {
            (TokenKind::Colon, 1)
        },
        '.' => if b == '.' && c == '.' {
            (TokenKind::DotDotDot, 3)
        } else if b == '*' {
            (TokenKind::DotStar, 2)
        } else {
            (TokenKind::Dot, 1)
        },
        '!' => if b == '=' {
            (TokenKind::BangEq, 2)
        } else {
            (TokenKind::Bang, 1)
        },
        '+' => if b == '+' {
            (TokenKind::PlusPlus, 2)
        } else if b == '=' {
            (TokenKind::PlusEq, 2)
        } else {
            (TokenKind::Plus, 1)
        },
        '-' => if b == '>' && c == '*' {
            (TokenKind::ArrowStar, 3)
        } else if b == '>' {
            (TokenKind::Arrow, 2)
        } else if b == '-' {
            (TokenKind::MinusMinus, 2)
        } else if b == '=' {
            (TokenKind::MinusEq, 2)
        } else {
            (TokenKind::Minus, 1)
        },
        '*' => if b == '=' {
            (TokenKind::StarEq, 2)
        } else {
            (TokenKind::Star, 1)
        },
        '/' => if b == '=' {
            (TokenKind::SlashEq, 2)
        } else {
            (TokenKind::Slash, 1)
        },
        '%' => if b == '=' {
            (TokenKind::PercentEq, 2)
        } else {
            (TokenKind::Percent, 1)
        },
        '&' => if b == '&' {
            (TokenKind::AmpAmp, 2)
        } else if b == '=' {
            (TokenKind::AmpEq, 2)
        } else {
            (TokenKind::Amp, 1)
        },
        '|' => if b == '|' {
            (TokenKind::PipePipe, 2)
        } else if b == '=' {
            (TokenKind::PipeEq, 2)
        } else {
            (TokenKind::Pipe, 1)
        },
        '^' => if b == '=' {
            (TokenKind::CaretEq, 2)
        } else {
            (TokenKind::Caret, 1)
        },
        '<' => if b == '<' && c == '=' {
            (TokenKind::LtLtEq, 3)
        } else if b == '<' {
            (TokenKind::LtLt, 2)
        } else if b == '=' {
            (TokenKind::LtEq, 2)
        } else {
            (TokenKind::Lt, 1)
        },
        '>' => if b == '>' && c == '=' {
            (TokenKind::GtGtEq, 3)
        } else if b == '>' {
            (TokenKind::GtGt, 2)
        } else if b == '=' {
            (TokenKind::GtEq, 2)
        } else {
            (TokenKind::Gt, 1)
        },
        '=' => if b == '=' {
            (TokenKind::EqEq, 2)
        } else {
            (TokenKind::Eq, 1)
        },
        _ => (TokenKind::Unknown, 1),
    }
}

// ── Tokens ───────────────────────────────────────────────────────────────────

/// A token as a part of the source.
pub struct Piece {
    pub kind: TokenKind,
    pub start: int,
    pub end: int,
    /// Its closing delimiter was found, if it has one.
    pub closed: bool,
}

/// The number that starts at `i` has a fraction or an exponent.
pub open spec fn is_float(text: Seq<char>, hex: bool) -> bool {
    text.contains('.') || if hex {
        text.contains('p') || text.contains('P')
    } else {
        text.contains('e') || text.contains('E')
    }
}

/// The word or prefixed literal that starts at `i`.
pub open spec fn word_piece(src: Seq<char>, i: int) -> Piece {
    let e = word_end(src, i + 1);
    let w = src.subrange(i, e);
    let next = at(src, e);
    if next == '"' && is_raw_prefix(w) {
        let lit = raw(src, e + 1);
        Piece { kind: TokenKind::LitStr, start: i, end: lit.end, closed: lit.closed }
    } else if next == '"' && is_encoding(w) {
        let lit = quoted(src, e + 1, '"');
        Piece { kind: TokenKind::LitStr, start: i, end: lit.end, closed: lit.closed }
    } else if next == '\'' && is_encoding(w) {
        let lit = quoted(src, e + 1, '\'');
        Piece { kind: TokenKind::LitChar, start: i, end: lit.end, closed: lit.closed }
    } else {
        Piece { kind: word_kind(w), start: i, end: e, closed: true }
    }
}

/// The number that starts at `i`.
pub open spec fn number_piece(src: Seq<char>, i: int) -> Piece {
    let hex = is_hex(src, i);
    let e = number_end(src, i + 1, hex);
    Piece {
        kind: if is_float(src.subrange(i, e), hex) {
            TokenKind::LitFloat
        } else {
            TokenKind::LitInt
        },
        start: i,
        end: e,
        closed: true,
    }
}

/// The token that starts at `i`. `line_start` tells that nothing but blanks
/// and comments stands before it on its line.
pub open spec fn piece_at(src: Seq<char>, i: int, line_start: bool) -> Piece {
    let c = at(src, i);
    let d = at(src, i + 1);
    if is_break(c) {
        Piece { kind: TokenKind::Newline, start: i, end: break_end(src, i), closed: true }
    } else if is_blank(c) {
        Piece { kind: TokenKind::Whitespace, start: i, end: blanks_end(src, i), closed: true }
    } else if c == '#' && line_start {
        Piece { kind: TokenKind::PreprocLine, start: i, end: preproc_end(src, i + 1), closed: true }
    } else if c == '/' && d == '/' {
        Piece { kind: TokenKind::CommentLine, start: i, end: line_end(src, i + 2), closed: true }
    } else if c == '/' && d == '*' {
        Piece {
            kind: TokenKind::CommentBlock,
            start: i,
            end: block_end(src, i + 2),
            closed: crate::text::find_from(src, seq!['*', '/'], i + 2) is Some,
        }
    } else if c == '"' {
        let lit = quoted(src, i + 1, '"');
        Piece { kind: TokenKind::LitStr, start: i, end: lit.end, closed: lit.closed }
    } else if c == '\'' {
        let lit = quoted(src, i + 1, '\'');
        Piece { kind: TokenKind::LitChar, start: i, end: lit.end, closed: lit.closed }
    } else if is_digit(c) || (c == '.' && is_digit(d)) {
        number_piece(src, i)
    } else if starts_word(c) {
        word_piece(src, i)
    } else {
        let sym = symbol(c, d, at(src, i + 2));
        Piece { kind: sym.kind, start: i, end: i + sym.len, closed: true }
    }
}

/// Whether the token behind one of kind `k` may start a preprocessor line.
pub open spec fn line_start_after(k: TokenKind, line_start: bool) -> bool {
    match k {
        TokenKind::Newline | TokenKind::CommentLine | TokenKind::PreprocLine => true,
        TokenKind::Whitespace | TokenKind::CommentBlock => line_start,
        _ => false,
    }
}

/// The tokens from `i` on, with the end of the source as the last.
pub open spec fn pieces_from(src: Seq<char>, i: int, line_start: bool) -> Seq<Piece>
    decreases src.len() - i,
{
    if !(0 <= i < src.len()) {
        seq![Piece { kind: TokenKind::Eof, start: i, end: i, closed: true }]
    } else {
        let p = piece_at(src, i, line_start);
        if i < p.end <= src.len() {
            seq![p] + pieces_from(src, p.end, line_start_after(p.kind, line_start))
        } else {
            seq![p]
        }
    }
}

/// The tokens of a source.
pub open spec fn pieces(src: Seq<char>) -> Seq<Piece> {
    pieces_from(src, 0, true)
}

fn find_piece(src: &[char], i: usize, line_start: bool) -> (r: (TokenKind, usize, bool))
    requires
        i < src@.len(),
    ensures
        piece_at(src@, i as int, line_start) == (Piece {
            kind: r.0,
            start: i as int,
            end: r.1 as int,
            closed: r.2,
        }),
        i < r.1 <= src@.len(),
{
    let n: usize = src.len();
    let c = src[i];
    let d = char_at(src, i + 1);
    if breaks(c) {
        (TokenKind::Newline, find_break_end(src, i), true)
    } else if blank(c) {
        (TokenKind::Whitespace, find_blanks_end(src, i + 1), true)
    } else if c == '#' && line_start {
        (TokenKind::PreprocLine, find_preproc_end(src, i + 1), true)
    } else if c == '/' && d == '/' {
        (TokenKind::CommentLine, find_line_end(src, i + 2), true)
    } else if c == '/' && d == '*' {
        let (end, closed) = find_block_end(src, i + 2);
        (TokenKind::CommentBlock, end, closed)
    } else if c == '"' {
        let (end, closed) = find_quoted(src, i + 1, '"');
        (TokenKind::LitStr, end, closed)
    } else if c == '\'' {
        let (end, closed) = find_quoted(src, i + 1, '\'');
        (TokenKind::LitChar, end, closed)
    } else if digit(c) || (c == '.' && digit(d)) {
        let hex = c == '0' && (d == 'x' || d == 'X');
        let end = find_number_end(src, i + 1, hex);
        let text = vstd::slice::slice_subrange(src, i, end);
        let float = has_char(text, '.') || (if hex {
            has_char(text, 'p') || has_char(text, 'P')
        } else {
            has_char(text, 'e') || has_char(text, 'E')
        });
        (
            if float {
                TokenKind::LitFloat
            } else {
                TokenKind::LitInt
            },
            end,
            true,
        )
    } else if word_starts(c) {
        find_word(src, i)
    } else {
        let (kind, len) = symbol_of(c, d, char_at(src, if n - i > 2 { i + 2 } else { n }));
        (kind, i + len, true)
    }
}

fn find_word(src: &[char], i: usize) -> (r: (TokenKind, usize, bool))
    requires
        i < src@.len() <= usize::MAX,
    ensures
        word_piece(src@, i as int) == (Piece {
            kind: r.0,
            start: i as int,
            end: r.1 as int,
            closed: r.2,
        }),
        i < r.1 <= src@.len(),
{
    let e = find_word_end(src, i + 1);
    let w = vstd::slice::slice_subrange(src, i, e);
    let next = char_at(src, e);
    if next == '"' && raw_prefix(w) {
        let (end, closed) = find_raw(src, e + 1);
        (TokenKind::LitStr, end, closed)
    } else if next == '"' && encoding(w) {
        let (end, closed) = find_quoted(src, e + 1, '"');
        (TokenKind::LitStr, end, closed)
    } else if next == '\'' && encoding(w) {
        let (end, closed) = find_quoted(src, e + 1, '\'');
        (TokenKind::LitChar, end, closed)
    } else {
        (kind_of_word(w), e, true)
    }
}

// ── Places ───────────────────────────────────────────────────────────────────

/// The character at `i` ends a line.
pub open spec fn ends_line(src: Seq<char>, i: int) -> bool {
    src[i] == '\n' || (src[i] == '\r' && at(src, i + 1) != '\n')
}

/// The line of the character at `i`, counted from one.
pub open spec fn line_of(src: Seq<char>, i: int) -> nat
    decreases i,
{
    if i <= 0 {
        1
    } else if ends_line(src, i - 1) {
        line_of(src, i - 1) + 1
    } else {
        line_of(src, i - 1)
    }
}

/// The column of the character at `i` in characters, counted from one.
pub open spec fn col_of(src: Seq<char>, i: int) -> nat
    decreases i,
{
    if i <= 0 || ends_line(src, i - 1) {
        1
    } else {
        col_of(src, i - 1) + 1
    }
}

/// The token stands for the part of the source.
pub open spec fn stands_for(t: Token, src: Seq<char>, p: Piece) -> bool {
    &&& t.kind == p.kind
    &&& t.lexeme@ == src.subrange(p.start, p.end)
    &&& t.span.start_byte == crate::text::byte_len(src.take(p.start))
    &&& t.span.end_byte == crate::text::byte_len(src.take(p.end))
    &&& t.span.line == line_of(src, p.start)
    &&& t.span.col == col_of(src, p.start)
}

/// The tokens stand for the parts of the source, one for one.
pub open spec fn all_stand_for(toks: Seq<Token>, src: Seq<char>, ps: Seq<Piece>) -> bool {
    &&& toks.len() == ps.len()
    &&& forall|k: int| 0 <= k < toks.len() ==> stands_for(#[trigger] toks[k], src, ps[k])
}

// ── Warnings ─────────────────────────────────────────────────────────────────

/// What is wrong with a token.
#[derive(Debug, Clone, Copy, PartialEq, Eq, Structural)]
pub enum WarningKind {
    UnterminatedComment,
    UnterminatedLiteral,
}

/// Something suspicious in the source. Lexing goes on behind it.
#[derive(Debug, Clone)]
pub struct Warning {
    pub file: String,
    pub line: u32,
    pub kind: WarningKind,
}

/// The kind of warning that an unclosed token of kind `k` gives.
pub open spec fn warning_kind(k: TokenKind) -> WarningKind {
    if k == TokenKind::CommentBlock {
        WarningKind::UnterminatedComment
    } else {
        WarningKind::UnterminatedLiteral
    }
}

/// The parts of the source that lack their closing delimiter.
pub open spec fn unclosed(ps: Seq<Piece>) -> Seq<Piece>
    decreases ps.len(),
{
    if ps.len() == 0 {
        Seq::empty()
    } else if ps.last().closed {
        unclosed(ps.drop_last())
    } else {
        unclosed(ps.drop_last()).push(ps.last())
    }
}

/// The warnings are those of the given parts, in order.
pub open spec fn warn_of(ws: Seq<Warning>, name: Seq<char>, src: Seq<char>, ps: Seq<Piece>) -> bool {
    &&& ws.len() == ps.len()
    &&& forall|k: int|
        0 <= k < ws.len() ==> {
            &&& (#[trigger] ws[k]).file@ == name
            &&& ws[k].line == line_of(src, ps[k].start)
            &&& ws[k].kind == warning_kind(ps[k].kind)
        }
}

// ── Lexing ───────────────────────────────────────────────────────────────────

/// The longest source, in characters, whose lines can be numbered.
pub const MAX_SOURCE: usize = 0xffff_fffe;

proof fn lemma_places(src: Seq<char>, i: int)
    requires
        0 <= i <= src.len(),
    ensures
        1 <= line_of(src, i) <= i + 1,
        1 <= col_of(src, i) <= i + 1,
    decreases i,
{
    if i > 0 {
        lemma_places(src, i - 1);
    }
}

/// The place behind the characters from `i` up to `end`.
fn advance(src: &[char], i: usize, end: usize, line: u32, col: u32) -> (r: (u32, u32))
    requires
        i <= end <= src@.len() <= MAX_SOURCE,
        line == line_of(src@, i as int),
        col == col_of(src@, i as int),
    ensures
        r.0 == line_of(src@, end as int),
        r.1 == col_of(src@, end as int),
{
    let mut k: usize = i;
    let mut l: u32 = line;
    let mut c: u32 = col;
    while k < end
        invariant
            i <= k <= end <= src@.len() <= MAX_SOURCE,
            l == line_of(src@, k as int),
            c == col_of(src@, k as int),
        decreases end - k,
    {
        proof {
            lemma_places(src@, k as int);
        }
        if src[k] == '\n' || (src[k] == '\r' && char_at(src, k + 1) != '\n') {
            l += 1;
            c = 1;
        } else {
            c += 1;
        }
        k += 1;
    }
    (l, c)
}

proof fn lemma_take_bytes(src: Seq<char>, i: int, j: int)
    requires
        0 <= i <= j <= src.len(),
    ensures
        crate::text::byte_len(src.take(j)) == crate::text::byte_len(src.take(i))
            + crate::text::byte_len(src.subrange(i, j)),
        crate::text::byte_len(src.take(j)) <= crate::text::byte_len(src),
{
    assert(src.take(i) + src.subrange(i, j) =~= src.take(j));
    crate::text::lemma_encode_add(src.take(i), src.subrange(i, j));
    assert(src.take(j) + src.skip(j) =~= src);
    crate::text::lemma_encode_add(src.take(j), src.skip(j));
}

proof fn lemma_unclosed_push(ps: Seq<Piece>, p: Piece)
    ensures
        unclosed(ps.push(p)) == if p.closed {
            unclosed(ps)
        } else {
            unclosed(ps).push(p)
        },
{
    assert(ps.push(p).drop_last() =~= ps);
}

/// Turn a source into tokens. `name` is the file's name in warnings.
pub fn tokenize<'src>(src: &'src str, name: &str) -> (r: Result<
    (Vec<Token<'src>>, Vec<Warning>),
    FunkyError,
>)
    ensures
        match r {
            Ok((tokens, warnings)) => {
                &&& src@.len() <= MAX_SOURCE
                &&& all_stand_for(tokens@, src@, pieces(src@))
                &&& warn_of(warnings@, name@, src@, unclosed(pieces(src@)))
            },
            Err(e) => e == FunkyError::SourceTooLarge && src@.len() > MAX_SOURCE,
        },
{
    let chars = chars_of(src);
    let text = chars.as_slice();
    let n: usize = text.len();
    if n > MAX_SOURCE {
        return Err(FunkyError::SourceTooLarge);
    }
    let total: usize = src.as_bytes().len();
    let mut tokens: Vec<Token<'src>> = Vec::new();
    let mut warnings: Vec<Warning> = Vec::new();
    let mut rest: &'src str = src;
    let mut i: usize = 0;
    let mut byte: usize = 0;
    let mut line: u32 = 1;
    let mut col: u32 = 1;
    let mut line_start = true;
    let ghost mut done: Seq<Piece> = Seq::empty();
    proof {
        assert(src@.skip(0) =~= src@);
        assert(src@.take(0) =~= Seq::<char>::empty());
        assert(crate::text::byte_len(Seq::<char>::empty()) == 0) by {
            reveal_with_fuel(vstd::utf8::encode_utf8, 1);
        }
    }
    while i < n
        invariant
            n == src@.len() <= MAX_SOURCE,
            text@ == src@,
            total == crate::text::byte_len(src@),
            i <= n,
            rest@ == src@.skip(i as int),
            byte == crate::text::byte_len(src@.take(i as int)),
            line == line_of(src@, i as int),
            col == col_of(src@, i as int),
            pieces(src@) =~= done + pieces_from(src@, i as int, line_start),
            all_stand_for(tokens@, src@, done),
            warn_of(warnings@, name@, src@, unclosed(done)),
        decreases n - i,
    {
        let (kind, end, closed) = find_piece(text, i, line_start);
        let ghost p = piece_at(src@, i as int, line_start);
        let len_bytes = bytes_in(vstd::slice::slice_subrange(text, i, end));
        proof {
            lemma_take_bytes(src@, i as int, end as int);
            assert(rest@.take(end - i) =~= src@.subrange(i as int, end as int));
            assert(rest@.skip(end - i) =~= src@.skip(end as int));
        }
        let bytes = len_bytes as usize;
        let (lexeme, tail) = split_str(rest, end - i, bytes);
        let span = Span { start_byte: byte, end_byte: byte + bytes, line, col };
        tokens.push(Token { kind, lexeme, span });
        if !closed {
            let fault = if kind == TokenKind::CommentBlock {
                WarningKind::UnterminatedComment
            } else {
                WarningKind::UnterminatedLiteral
            };
            warnings.push(Warning { file: name.to_owned(), line, kind: fault });
        }
        proof {
            lemma_unclosed_push(done, p);
            done = done.push(p);
        }
        let place = advance(text, i, end, line, col);
        line = place.0;
        col = place.1;
        line_start = match kind {
            TokenKind::Newline | TokenKind::CommentLine | TokenKind::PreprocLine => true,
            TokenKind::Whitespace | TokenKind::CommentBlock => line_start,
            _ => false,
        };
        byte = byte + bytes;
        rest = tail;
        i = end;
    }
    let ghost p = Piece { kind: TokenKind::Eof, start: i as int, end: i as int, closed: true };
    let span = Span { start_byte: byte, end_byte: byte, line, col };
    tokens.push(Token { kind: TokenKind::Eof, lexeme: rest, span });
    proof {
        assert(rest@ =~= src@.subrange(i as int, i as int));
        lemma_unclosed_push(done, p);
        assert(pieces(src@) =~= done.push(p));
    }
    Ok((tokens, warnings))
}

} // verus!
