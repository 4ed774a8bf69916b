//! The alignment passes: trailing comments, the `=` signs of enum members and
//! Doxygen member comments are moved to a common column, group by group.

use crate::config::Eol;
use crate::lexer::find_text;
use crate::text::{
    bytes_in, chars_of, cut, has_char, join_lines, last_is, occurs_at, prefix, push_all,
    push_spaces, split_lines, suffix, trimmed_len, trimmed_start, white, Class,
};
use vstd::prelude::*;

verus! {

// ── Marked lines ─────────────────────────────────────────────────────────────

/// The text holds something besides spaces and tabs.
pub open spec fn has_code(s: Seq<char>) -> bool {
    exists|i: int| 0 <= i < s.len() && #[trigger] s[i] != ' ' && s[i] != '\t'
}

/// A trailing comment starts at `i`: a `//` that is not part of a URL, or a
/// `/*` with nothing behind its `*/`, with code in front of it. Doxygen member
/// comments do not count.
pub open spec fn comment_at(line: Seq<char>, i: int) -> bool {
    has_code(line.take(i)) && {
        ||| crate::text::matches_at(line, i, seq!['/', '/']) && line[i - 1] != ':'
        ||| crate::text::matches_at(line, i, seq!['/', '*']) && !crate::text::matches_at(
            line,
            i,
            seq!['/', '*', '*', '<'],
        ) && match crate::text::find_from(line, seq!['*', '/'], i + 2) {
            Some(j) => !has_code(line.skip(j + 2)),
            None => false,
        }
    }
}

/// A Doxygen member comment starts at `i`, with code in front of it.
pub open spec fn doxygen_at(line: Seq<char>, i: int) -> bool {
    has_code(line.take(i)) && crate::text::matches_at(line, i, seq!['/', '*', '*', '<'])
}

/// The line is empty, a comment or a preprocessor line.
pub open spec fn is_plain_line(line: Seq<char>) -> bool {
    let t = crate::text::trim_start(line, Class::White);
    t.len() == 0 || t[0] == '#' || crate::text::begins_with(t, seq!['/', '/'])
        || crate::text::begins_with(t, seq!['/', '*'])
}

/// A character that, in front of `=`, makes a compound operator.
pub open spec fn is_compound_lead(c: char) -> bool {
    c == '!' || c == '<' || c == '>' || c == '+' || c == '-' || c == '*' || c == '/' || c == '%'
        || c == '&' || c == '|' || c == '^'
}

/// An `=` that assigns stands at `i`.
pub open spec fn equals_at(line: Seq<char>, i: int) -> bool {
    line[i] == '=' && !(i + 1 < line.len() && line[i + 1] == '=') && !(i > 0 && (line[i - 1] == '='
        || is_compound_lead(line[i - 1])))
}

/// The comment that ends the line starts at `i`, with or without code in front
/// of it; it may go on behind the line.
pub open spec fn note_at(line: Seq<char>, i: int) -> bool {
    ||| crate::text::matches_at(line, i, seq!['/', '/']) && !(i > 0 && line[i - 1] == ':')
    ||| crate::text::matches_at(line, i, seq!['/', '*']) && match crate::text::find_from(
        line,
        seq!['*', '/'],
        i + 2,
    ) {
        Some(j) => !has_code(line.skip(j + 2)),
        None => true,
    }
}

// ── Walking a line ───────────────────────────────────────────────────────────

/// What the character before a position belongs to.
#[derive(Debug, Clone, Copy, PartialEq, Eq, Structural)]
pub enum Spot {
    Code,
    Word,
    Number,
}

/// What is looked for in a line.
#[derive(Debug, Clone, Copy, PartialEq, Eq, Structural)]
pub enum Goal {
    /// A trailing comment.
    Comment,
    /// A Doxygen member comment.
    Doxygen,
    /// An `=` that assigns.
    Equals,
    /// The comment that ends the line.
    Note,
}

impl Goal {
    /// What is looked for starts at `i`.
    pub open spec fn hit(self, line: Seq<char>, i: int) -> bool {
        match self {
            Goal::Comment => comment_at(line, i),
            Goal::Doxygen => doxygen_at(line, i),
            Goal::Equals => equals_at(line, i),
            Goal::Note => note_at(line, i),
        }
    }

    /// The first place where it starts, from position `k` on, outside of
    /// literals and comments.
    pub open spec fn first(self, line: Seq<char>, k: int, spot: Spot) -> Option<int>
        decreases line.len() - k,
    {
        if !(0 <= k < line.len()) {
            None
        } else if self.hit(line, k) {
            Some(k)
        } else {
            match step(line, k, spot) {
                Some((next, after)) => if k < next <= line.len() {
                    self.first(line, next, after)
                } else {
                    None
                },
                None => None,
            }
        }
    }
}

/// An ASCII letter, a digit or `_`.
pub open spec fn is_ascii_word(c: char) -> bool {
    'a' <= c <= 'z' || 'A' <= c <= 'Z' || '0' <= c <= '9' || c == '_'
}

/// No word reaches up to position `i`.
pub open spec fn is_word_start(line: Seq<char>, i: int) -> bool {
    i <= 0 || !is_ascii_word(line[i - 1])
}

/// The word that ends before position `k` is the prefix of a raw string.
pub open spec fn is_raw_at(line: Seq<char>, k: int) -> bool {
    &&& k >= 1 && line[k - 1] == 'R'
    &&& {
        ||| is_word_start(line, k - 1)
        ||| k >= 2 && (line[k - 2] == 'L' || line[k - 2] == 'u' || line[k - 2] == 'U')
            && is_word_start(line, k - 2)
        ||| k >= 3 && line[k - 2] == '8' && line[k - 3] == 'u' && is_word_start(line, k - 3)
    }
}

/// A character of the delimiter of a raw string.
pub open spec fn in_delimiter(c: char) -> bool {
    !crate::text::is_white(c) && c != '(' && c != ')' && c != '\\' && c != '"'
}

/// Behind the delimiter that starts at `i`.
pub open spec fn delimiter_end(line: Seq<char>, i: int) -> int
    decreases line.len() - i,
{
    if 0 <= i < line.len() && in_delimiter(line[i]) {
        delimiter_end(line, i + 1)
    } else {
        i
    }
}

/// A raw string starts with the quote at `k`.
pub open spec fn opens_raw(line: Seq<char>, k: int) -> bool {
    let open = delimiter_end(line, k + 1);
    is_raw_at(line, k) && open < line.len() && line[open] == '('
}

/// What closes the raw string that starts with the quote at `k`.
pub open spec fn raw_close(line: Seq<char>, k: int) -> Seq<char> {
    seq![')'] + line.subrange(k + 1, delimiter_end(line, k + 1)) + seq!['"']
}

/// Behind the quote that closes a literal from `k` on; `None` if there is none.
pub open spec fn closing(line: Seq<char>, k: int, quote: char) -> Option<int>
    decreases line.len() + 1 - k,
{
    if !(0 <= k < line.len()) {
        None
    } else if line[k] == '\\' {
        closing(line, k + 2, quote)
    } else if line[k] == quote {
        Some(k + 1)
    } else {
        closing(line, k + 1, quote)
    }
}

/// Behind the literal whose opening quote stands at `k`; `None` if it goes on
/// behind the line. A quote that opens no literal is passed over.
pub open spec fn literal_end(line: Seq<char>, k: int) -> Option<int> {
    if line[k] == '"' && opens_raw(line, k) {
        let close = raw_close(line, k);
        match crate::text::find_from(line, close, delimiter_end(line, k + 1) + 1) {
            Some(j) => Some(j + close.len()),
            None => None,
        }
    } else {
        match closing(line, k + 1, line[k]) {
            Some(end) => Some(end),
            None => if crate::text::ends_with(line, '\\') {
                None
            } else {
                Some(k + 1)
            },
        }
    }
}

/// A literal starts at `k`, behind `spot`: within a number, a `'` separates
/// digits.
pub open spec fn literal_at(line: Seq<char>, k: int, spot: Spot) -> bool {
    line[k] == '"' || (line[k] == '\'' && !(spot == Spot::Number && k + 1 < line.len()
        && is_ascii_word(line[k + 1])))
}

/// Passes over the character, literal or comment at `k`. `None` if the rest of
/// the line is a comment or an open literal.
pub open spec fn step(line: Seq<char>, k: int, spot: Spot) -> Option<(int, Spot)> {
    let c = line[k];
    if literal_at(line, k, spot) {
        match literal_end(line, k) {
            Some(end) => Some((end, Spot::Code)),
            None => None,
        }
    } else if c == '\'' {
        Some((k + 1, Spot::Number))
    } else if c == '/' && k + 1 < line.len() && line[k + 1] == '*' {
        match crate::text::find_from(line, seq!['*', '/'], k + 2) {
            Some(j) => Some((j + 2, Spot::Code)),
            None => None,
        }
    } else if c == '/' && k + 1 < line.len() && line[k + 1] == '/' {
        if k > 0 && line[k - 1] == ':' {
            Some((k + 1, Spot::Code))
        } else {
            None
        }
    } else if !is_ascii_word(c) {
        Some((k + 1, Spot::Code))
    } else if spot == Spot::Number || (spot == Spot::Code && '0' <= c <= '9') {
        Some((k + 1, Spot::Number))
    } else {
        Some((k + 1, Spot::Word))
    }
}

/// What a line starts in.
pub enum CarryView {
    /// Nothing that began on a line before.
    Outside,
    /// A literal that `mark` closes.
    Quote { mark: char },
    /// A raw string that `close` closes.
    Raw { close: Seq<char> },
}

/// The literal that starts at `k` and goes on behind the line.
pub open spec fn open_at(line: Seq<char>, k: int) -> CarryView {
    if line[k] == '"' && opens_raw(line, k) {
        CarryView::Raw { close: raw_close(line, k) }
    } else if line[k] == '"' || line[k] == '\'' {
        CarryView::Quote { mark: line[k] }
    } else {
        CarryView::Outside
    }
}

/// What the line is left in, when its code goes on at `k`.
pub open spec fn left_open(line: Seq<char>, k: int, spot: Spot) -> CarryView
    decreases line.len() - k,
{
    if !(0 <= k < line.len()) {
        CarryView::Outside
    } else {
        match step(line, k, spot) {
            Some((next, after)) => if k < next <= line.len() {
                left_open(line, next, after)
            } else {
                CarryView::Outside
            },
            None => open_at(line, k),
        }
    }
}

/// Where the code of a line begins: behind the literal that it starts in, at
/// its end if that goes on.
pub open spec fn entry(line: Seq<char>, carry: CarryView) -> int {
    match carry {
        CarryView::Outside => 0,
        CarryView::Quote { mark } => match closing(line, 0, mark) {
            Some(end) => end,
            None => line.len() as int,
        },
        CarryView::Raw { close } => match crate::text::find_from(line, close, 0) {
            Some(j) => j + close.len(),
            None => line.len() as int,
        },
    }
}

/// What the line behind this one starts in.
pub open spec fn leave(line: Seq<char>, carry: CarryView) -> CarryView {
    match carry {
        CarryView::Quote { mark } if closing(line, 0, mark) is None => if crate::text::ends_with(
            line,
            '\\',
        ) {
            carry
        } else {
            CarryView::Outside
        },
        CarryView::Raw { close } if crate::text::find_from(line, close, 0) is None => carry,
        _ => left_open(line, entry(line, carry), Spot::Code),
    }
}

/// What line `k` starts in.
pub open spec fn carry_to(lines: Seq<Seq<char>>, k: int) -> CarryView
    decreases k,
{
    if k <= 0 {
        CarryView::Outside
    } else {
        leave(lines[k - 1], carry_to(lines, k - 1))
    }
}

/// Where the code of line `k` begins.
pub open spec fn entry_of(lines: Seq<Seq<char>>, k: int) -> int {
    entry(lines[k], carry_to(lines, k))
}

/// Where the trailing comment of the line starts, whose code begins at `e`.
pub open spec fn comment_start(line: Seq<char>, e: int) -> Option<int> {
    if e == 0 && is_plain_line(line) {
        None
    } else {
        Goal::Comment.first(line, e, Spot::Code)
    }
}

/// Where the Doxygen member comment of the line starts.
pub open spec fn doxygen_start(line: Seq<char>, e: int) -> Option<int> {
    let t = crate::text::trim_start(line, Class::White);
    if e == 0 && crate::text::begins_with(t, seq!['/', '*', '*', '<']) {
        None
    } else {
        Goal::Doxygen.first(line, e, Spot::Code)
    }
}

/// The line without the comment that ends it.
pub open spec fn code_part(line: Seq<char>) -> Seq<char> {
    match Goal::Note.first(line, 0, Spot::Code) {
        Some(i) => line.take(i),
        None => line,
    }
}

/// The text begins like a name.
pub open spec fn begins_name(s: Seq<char>) -> bool {
    s.len() > 0 && (crate::text::is_letter(s[0]) || s[0] == '_')
}

/// The text ends like an enum member.
pub open spec fn ends_member(s: Seq<char>) -> bool {
    s.len() > 0 && (s.last() == ',' || s.last() == ')' || s.last() == '_'
        || crate::text::is_letter_or_digit(s.last()))
}

/// Where the `=` of an enum member with a value stands.
pub open spec fn equals_start(line: Seq<char>, e: int) -> Option<int> {
    let t = crate::text::trim_start(code_part(line), Class::White);
    if e == 0 && begins_name(t) && ends_member(crate::text::trim_end(t, Class::White)) {
        Goal::Equals.first(line, 0, Spot::Code)
    } else {
        None
    }
}

/// An enum member without a value.
pub open spec fn is_bare_member(line: Seq<char>) -> bool {
    let t = crate::text::trim_start(code_part(line), Class::White);
    begins_name(t) && t.contains(',') && !t.contains('=')
}

fn code_in(s: &[char]) -> (r: bool)
    ensures
        r == has_code(s@),
{
    for i in 0..s.len()
        invariant
            forall|j: int| 0 <= j < i ==> s@[j] == ' ' || s@[j] == '\t',
    {
        if s[i] != ' ' && s[i] != '\t' {
            assert(s@[i as int] != ' ');
            return true;
        }
    }
    false
}

fn find_close(line: &[char], from: usize) -> (r: Option<usize>)
    requires
        from <= line@.len(),
    ensures
        match r {
            Some(j) => crate::text::find_from(line@, seq!['*', '/'], from as int) == Some(j as int)
                && from <= j && j + 2 <= line@.len(),
            None => crate::text::find_from(line@, seq!['*', '/'], from as int) is None,
        },
{
    let close: [char; 2] = ['*', '/'];
    assert(close@ =~= seq!['*', '/']);
    find_text(line, close.as_slice(), from)
}

fn is_comment_at(line: &[char], i: usize) -> (r: bool)
    requires
        i < line@.len(),
    ensures
        r == comment_at(line@, i as int),
{
    let slashes: [char; 2] = ['/', '/'];
    let open: [char; 2] = ['/', '*'];
    let member: [char; 4] = ['/', '*', '*', '<'];
    proof {
        assert(slashes@ =~= seq!['/', '/']);
        assert(open@ =~= seq!['/', '*']);
        assert(member@ =~= seq!['/', '*', '*', '<']);
    }
    if line[i] != '/' || !code_in(prefix(line, i)) {
        proof {
            if crate::text::matches_at(line@, i as int, seq!['/', '/']) {
                assert(line@.subrange(i as int, i + 2)[0] == line@[i as int]);
            }
            if crate::text::matches_at(line@, i as int, seq!['/', '*']) {
                assert(line@.subrange(i as int, i + 2)[0] == line@[i as int]);
            }
        }
        return false;
    }
    assert(i > 0);
    if occurs_at(line, i, slashes.as_slice()) {
        assert(line@.subrange(i as int, i + 2)[1] == '/');
        assert(!crate::text::matches_at(line@, i as int, seq!['/', '*'])) by {
            if crate::text::matches_at(line@, i as int, seq!['/', '*']) {
                assert(line@.subrange(i as int, i + 2)[1] == '*');
            }
        }
        return line[i - 1] != ':';
    }
    if !occurs_at(line, i, open.as_slice()) || occurs_at(line, i, member.as_slice()) {
        return false;
    }
    match find_close(line, i + 2) {
        Some(j) => !code_in(suffix(line, j + 2)),
        None => false,
    }
}

fn is_note_at(line: &[char], i: usize) -> (r: bool)
    requires
        i < line@.len(),
    ensures
        r == note_at(line@, i as int),
{
    let slashes: [char; 2] = ['/', '/'];
    let open: [char; 2] = ['/', '*'];
    proof {
        assert(slashes@ =~= seq!['/', '/']);
        assert(open@ =~= seq!['/', '*']);
    }
    if occurs_at(line, i, slashes.as_slice()) && !(i > 0 && line[i - 1] == ':') {
        return true;
    }
    if line.len() - i < 2 || !occurs_at(line, i, open.as_slice()) {
        return false;
    }
    match find_close(line, i + 2) {
        Some(j) => !code_in(suffix(line, j + 2)),
        None => true,
    }
}

fn is_equals_at(line: &[char], i: usize) -> (r: bool)
    requires
        i < line@.len(),
    ensures
        r == equals_at(line@, i as int),
{
    line[i] == '=' && !(i + 1 < line.len() && line[i + 1] == '=') && !(i > 0 && (line[i - 1] == '='
        || leads_compound(line[i - 1])))
}

fn ascii_word(c: char) -> (r: bool)
    ensures
        r == is_ascii_word(c),
{
    ('a' <= c && c <= 'z') || ('A' <= c && c <= 'Z') || ('0' <= c && c <= '9') || c == '_'
}

fn starts_word(line: &[char], i: usize) -> (r: bool)
    requires
        i <= line@.len(),
    ensures
        r == is_word_start(line@, i as int),
{
    i == 0 || !ascii_word(line[i - 1])
}

fn follows_raw_prefix(line: &[char], k: usize) -> (r: bool)
    requires
        k < line@.len(),
    ensures
        r == is_raw_at(line@, k as int),
{
    if k < 1 || line[k - 1] != 'R' {
        return false;
    }
    if starts_word(line, k - 1) {
        return true;
    }
    if k < 2 {
        return false;
    }
    let c = line[k - 2];
    if (c == 'L' || c == 'u' || c == 'U') && starts_word(line, k - 2) {
        return true;
    }
    k >= 3 && c == '8' && line[k - 3] == 'u' && starts_word(line, k - 3)
}

fn delimits(c: char) -> (r: bool)
    ensures
        r == in_delimiter(c),
{
    !white(c) && c != '(' && c != ')' && c != '\\' && c != '"'
}

fn find_delimiter_end(line: &[char], i: usize) -> (r: usize)
    requires
        i <= line@.len(),
    ensures
        r == delimiter_end(line@, i as int),
        i <= r <= line@.len(),
{
    let mut j: usize = i;
    while j < line.len() && delimits(line[j])
        invariant
            i <= j <= line@.len(),
            delimiter_end(line@, i as int) == delimiter_end(line@, j as int),
        decreases line@.len() - j,
    {
        j += 1;
    }
    j
}

fn starts_raw(line: &[char], k: usize) -> (r: bool)
    requires
        k < line@.len(),
        k < usize::MAX,
    ensures
        r == opens_raw(line@, k as int),
{
    let open = find_delimiter_end(line, k + 1);
    follows_raw_prefix(line, k) && open < line.len() && line[open] == '('
}

fn close_of_raw(line: &[char], k: usize) -> (r: Vec<char>)
    requires
        k < line@.len(),
        k < usize::MAX,
    ensures
        r@ == raw_close(line@, k as int),
{
    let open = find_delimiter_end(line, k + 1);
    let mut close: Vec<char> = Vec::new();
    close.push(')');
    push_all(&mut close, vstd::slice::slice_subrange(line, k + 1, open));
    close.push('"');
    assert(close@ =~= raw_close(line@, k as int));
    close
}

fn find_closing(line: &[char], k: usize, quote: char) -> (r: Option<usize>)
    requires
        k <= line@.len(),
    ensures
        match r {
            Some(end) => closing(line@, k as int, quote) == Some(end as int) && k < end
                <= line@.len(),
            None => closing(line@, k as int, quote) is None,
        },
{
    let n: usize = line.len();
    let mut j: usize = k;
    while j < n
        invariant
            k <= j <= n == line@.len(),
            closing(line@, k as int, quote) == closing(line@, j as int, quote),
        decreases n - j,
    {
        if line[j] == '\\' {
            if n - j < 2 {
                assert(closing(line@, j + 2, quote) is None);
                return None;
            }
            j += 2;
        } else if line[j] == quote {
            return Some(j + 1);
        } else {
            j += 1;
        }
    }
    None
}

fn find_literal_end(line: &[char], k: usize) -> (r: Option<usize>)
    requires
        k < line@.len(),
    ensures
        match r {
            Some(end) => literal_end(line@, k as int) == Some(end as int) && k < end
                <= line@.len(),
            None => literal_end(line@, k as int) is None,
        },
{
    if line[k] == '"' && starts_raw(line, k) {
        let open = find_delimiter_end(line, k + 1);
        let close = close_of_raw(line, k);
        return match find_text(line, close.as_slice(), open + 1) {
            Some(j) => Some(j + close.len()),
            None => None,
        };
    }
    match find_closing(line, k + 1, line[k]) {
        Some(end) => Some(end),
        None => if last_is(line, '\\') {
            None
        } else {
            Some(k + 1)
        },
    }
}

fn next_step(line: &[char], k: usize, spot: Spot) -> (r: Option<(usize, Spot)>)
    requires
        k < line@.len(),
    ensures
        match r {
            Some((next, after)) => step(line@, k as int, spot) == Some((next as int, after)) && k
                < next <= line@.len(),
            None => step(line@, k as int, spot) is None,
        },
{
    let n: usize = line.len();
    let c = line[k];
    let separates = spot == Spot::Number && n - k > 1 && ascii_word(line[k + 1]);
    if c == '"' || (c == '\'' && !separates) {
        return match find_literal_end(line, k) {
            Some(end) => Some((end, Spot::Code)),
            None => None,
        };
    }
    if c == '\'' {
        return Some((k + 1, Spot::Number));
    }
    if c == '/' && n - k > 1 && line[k + 1] == '*' {
        return match find_close(line, k + 2) {
            Some(j) => Some((j + 2, Spot::Code)),
            None => None,
        };
    }
    if c == '/' && n - k > 1 && line[k + 1] == '/' {
        return if k > 0 && line[k - 1] == ':' {
            Some((k + 1, Spot::Code))
        } else {
            None
        };
    }
    if !ascii_word(c) {
        Some((k + 1, Spot::Code))
    } else if spot == Spot::Number || (spot == Spot::Code && '0' <= c && c <= '9') {
        Some((k + 1, Spot::Number))
    } else {
        Some((k + 1, Spot::Word))
    }
}

impl Goal {
    fn test(self, line: &[char], i: usize) -> (r: bool)
        requires
            i < line@.len(),
        ensures
            r == self.hit(line@, i as int),
    {
        let member: [char; 4] = ['/', '*', '*', '<'];
        assert(member@ =~= seq!['/', '*', '*', '<']);
        match self {
            Goal::Comment => is_comment_at(line, i),
            Goal::Doxygen => occurs_at(line, i, member.as_slice()) && code_in(prefix(line, i)),
            Goal::Equals => is_equals_at(line, i),
            Goal::Note => is_note_at(line, i),
        }
    }

    fn find(self, line: &[char], e: usize) -> (r: Option<usize>)
        requires
            e <= line@.len(),
        ensures
            match r {
                Some(i) => self.first(line@, e as int, Spot::Code) == Some(i as int) && i
                    < line@.len(),
                None => self.first(line@, e as int, Spot::Code) is None,
            },
    {
        let mut k: usize = e;
        let mut spot = Spot::Code;
        while k < line.len()
            invariant
                k <= line@.len(),
                self.first(line@, e as int, Spot::Code) == self.first(line@, k as int, spot),
            decreases line@.len() - k,
        {
            if self.test(line, k) {
                return Some(k);
            }
            match next_step(line, k, spot) {
                Some((next, after)) => {
                    k = next;
                    spot = after;
                },
                None => {
                    return None;
                },
            }
        }
        None
    }
}

fn find_comment(line: &[char], e: usize) -> (r: Option<usize>)
    requires
        e <= line@.len(),
    ensures
        match r {
            Some(i) => comment_start(line@, e as int) == Some(i as int) && i < line@.len(),
            None => comment_start(line@, e as int) is None,
        },
{
    let slashes: [char; 2] = ['/', '/'];
    let open: [char; 2] = ['/', '*'];
    proof {
        assert(slashes@ =~= seq!['/', '/']);
        assert(open@ =~= seq!['/', '*']);
    }
    let t = suffix(line, trimmed_start(line, Class::White));
    if e == 0 && (t.len() == 0 || t[0] == '#' || occurs_at(t, 0, slashes.as_slice()) || occurs_at(
        t,
        0,
        open.as_slice(),
    )) {
        return None;
    }
    Goal::Comment.find(line, e)
}

fn find_doxygen(line: &[char], e: usize) -> (r: Option<usize>)
    requires
        e <= line@.len(),
    ensures
        match r {
            Some(i) => doxygen_start(line@, e as int) == Some(i as int) && i < line@.len(),
            None => doxygen_start(line@, e as int) is None,
        },
{
    let member: [char; 4] = ['/', '*', '*', '<'];
    assert(member@ =~= seq!['/', '*', '*', '<']);
    let t = suffix(line, trimmed_start(line, Class::White));
    if e == 0 && occurs_at(t, 0, member.as_slice()) {
        return None;
    }
    Goal::Doxygen.find(line, e)
}

fn without_note(line: &[char]) -> (r: &[char])
    ensures
        r@ == code_part(line@),
{
    match Goal::Note.find(line, 0) {
        Some(i) => prefix(line, i),
        None => line,
    }
}

fn starts_name(s: &[char]) -> (r: bool)
    ensures
        r == begins_name(s@),
{
    s.len() > 0 && (s[0].is_alphabetic() || s[0] == '_')
}

fn leads_compound(c: char) -> (r: bool)
    ensures
        r == is_compound_lead(c),
{
    c == '!' || c == '<' || c == '>' || c == '+' || c == '-' || c == '*' || c == '/' || c == '%'
        || c == '&' || c == '|' || c == '^'
}

fn find_equals(line: &[char], e: usize) -> (r: Option<usize>)
    requires
        e <= line@.len(),
    ensures
        match r {
            Some(i) => equals_start(line@, e as int) == Some(i as int) && i < line@.len(),
            None => equals_start(line@, e as int) is None,
        },
{
    if e > 0 {
        return None;
    }
    let part = without_note(line);
    let t = suffix(part, trimmed_start(part, Class::White));
    let end = prefix(t, trimmed_len(t, Class::White));
    if !starts_name(t) || end.len() == 0 {
        return None;
    }
    let last = end[end.len() - 1];
    if last != ',' && last != ')' && last != '_' && !last.is_alphanumeric() {
        return None;
    }
    Goal::Equals.find(line, 0)
}

fn is_bare_enum_member(line: &[char]) -> (r: bool)
    ensures
        r == is_bare_member(line@),
{
    let part = without_note(line);
    let t = suffix(part, trimmed_start(part, Class::White));
    starts_name(t) && has_char(t, ',') && !has_char(t, '=')
}

// ── Columns in bytes ─────────────────────────────────────────────────────────

/// The byte index of the character at `i`.
pub open spec fn byte_col(line: Seq<char>, i: Option<int>) -> Option<nat> {
    match i {
        Some(i) => Some(crate::text::byte_len(line.take(i))),
        None => None,
    }
}

fn to_byte_col(line: &str, chars: &[char], i: Option<usize>) -> (r: Option<usize>)
    requires
        chars@ == line@,
        i is Some ==> i->0 <= line@.len(),
    ensures
        match r {
            Some(b) => i is Some && b == crate::text::byte_len(line@.take(i->0 as int)),
            None => i is None,
        },
{
    match i {
        Some(i) => {
            let total: usize = line.as_bytes().len();
            proof {
                crate::text::lemma_encode_add(line@.take(i as int), line@.skip(i as int));
                assert(line@.take(i as int) + line@.skip(i as int) =~= line@);
                assert(crate::text::byte_len(line@) == total);
            }
            Some(bytes_in(prefix(chars, i)) as usize)
        },
        None => None,
    }
}

/// Returns the byte index of the `//` or `/*` that starts a trailing inline
/// comment on `line`, or `None` if the line has no trailing comment (standalone
/// comment lines, preprocessor lines and blank lines also return `None`).
///
/// A `/* */` comment is only considered trailing when nothing non-whitespace
/// follows its closing `*/`. What stands inside of a literal or of another
/// comment starts none.
pub fn trailing_comment_col(line: &str) -> (r: Option<usize>)
    ensures
        match r {
            Some(b) => byte_col(line@, comment_start(line@, 0)) == Some(b as nat),
            None => comment_start(line@, 0) is None,
        },
{
    let chars = chars_of(line);
    let i = find_comment(chars.as_slice(), 0);
    to_byte_col(line, chars.as_slice(), i)
}

/// Returns the byte index of the `=` assignment operator in an enum value line
/// (e.g. `    FOO = 3,`), or `None` if the line isn't an enum value with `=`.
///
/// Requires the line, without the comment that ends it, to end with `,` (or,
/// for the last member, with a name, a number or `)`) to avoid false-positives
/// inside function bodies. Skips compound operators (`==`, `!=`, `<=`, `>=`,
/// `+=`, …) and the contents of literals and comments.
pub fn enum_eq_col(line: &str) -> (r: Option<usize>)
    ensures
        match r {
            Some(b) => byte_col(line@, equals_start(line@, 0)) == Some(b as nat),
            None => equals_start(line@, 0) is None,
        },
{
    let chars = chars_of(line);
    let i = find_equals(chars.as_slice(), 0);
    to_byte_col(line, chars.as_slice(), i)
}

/// Returns the byte index of the `/**<` that starts a Doxygen member comment
/// on `line`, or `None` if there is no such trailing comment.  Standalone
/// comment lines (where `/**<` is the first non-whitespace) return `None`.
pub fn trailing_doxygen_col(line: &str) -> (r: Option<usize>)
    ensures
        match r {
            Some(b) => byte_col(line@, doxygen_start(line@, 0)) == Some(b as nat),
            None => doxygen_start(line@, 0) is None,
        },
{
    let chars = chars_of(line);
    let i = find_doxygen(chars.as_slice(), 0);
    to_byte_col(line, chars.as_slice(), i)
}

// ── Groups ───────────────────────────────────────────────────────────────────

/// What is aligned.
#[derive(Debug, Clone, Copy, PartialEq, Eq, Structural)]
pub enum Marker {
    /// Trailing comments. Two of them belong together on consecutive lines, or
    /// when they are less than `span` lines apart.
    Comment { span: usize },
    /// The `=` of enum members. Members without a value, empty lines and
    /// preprocessor lines may stand between them.
    Equals,
    /// Doxygen member comments. Lines that are neither empty nor start with
    /// `}` may stand between them.
    Doxygen,
}

/// How a pass aligns.
#[derive(Debug, Clone, Copy)]
pub struct Rule {
    pub marker: Marker,
    /// The least number of columns between code and marker.
    pub gap: usize,
    /// Groups of fewer marked lines are left alone.
    pub least: usize,
    /// Markers are moved to multiples of this column; zero for any column.
    pub step: usize,
}

impl Marker {
    /// Where the marker of a line starts, whose code begins at `e`.
    pub open spec fn start(self, line: Seq<char>, e: int) -> Option<int> {
        match self {
            Marker::Comment { .. } => comment_start(line, e),
            Marker::Equals => equals_start(line, e),
            Marker::Doxygen => doxygen_start(line, e),
        }
    }

    /// Where the marker of line `k` starts.
    pub open spec fn start_of(self, lines: Seq<Seq<char>>, k: int) -> Option<int> {
        self.start(lines[k], entry_of(lines, k))
    }

    /// A line without a marker goes on with the group.
    pub open spec fn bridges(self, line: Seq<char>) -> bool {
        let t = crate::text::trim_start(line, Class::White);
        match self {
            Marker::Comment { .. } => true,
            Marker::Equals => is_bare_member(line) || t.len() == 0 || t[0] == '#',
            Marker::Doxygen => t.len() > 0 && t[0] != '}',
        }
    }

    /// Lines `last` and `k` are close enough to belong to one group.
    pub open spec fn reaches(self, last: int, k: int) -> bool {
        match self {
            Marker::Comment { span } => k - last < span || (span > 0 && k == last + 1),
            _ => true,
        }
    }

    /// Where the group ends whose last marked line so far is `last`, when the
    /// lines up to `k` were looked at: behind the last marked line that can be
    /// reached.
    pub open spec fn group_end(self, lines: Seq<Seq<char>>, last: int, k: int) -> int
        decreases lines.len() - k,
    {
        if !(0 <= k < lines.len()) {
            last + 1
        } else if self.start_of(lines, k) is Some {
            if self.reaches(last, k) {
                self.group_end(lines, k, k + 1)
            } else {
                last + 1
            }
        } else if self.bridges(lines[k]) {
            self.group_end(lines, last, k + 1)
        } else {
            last + 1
        }
    }

    /// How many lines from `i` up to `j` are marked.
    pub open spec fn marked(self, lines: Seq<Seq<char>>, i: int, j: int) -> nat
        decreases j - i,
    {
        if i >= j {
            0
        } else {
            self.marked(lines, i, j - 1) + if self.start_of(lines, j - 1) is Some {
                1nat
            } else {
                0nat
            }
        }
    }

    /// The code in front of the marker.
    pub open spec fn code(self, line: Seq<char>, e: int) -> Seq<char> {
        match self.start(line, e) {
            Some(i) => crate::text::trim_end(line.take(i), Class::White),
            None => Seq::empty(),
        }
    }

    /// The longest code in front of a marker, in bytes.
    pub open spec fn widest(self, lines: Seq<Seq<char>>, i: int, j: int) -> nat
        decreases j - i,
    {
        if i >= j {
            0
        } else {
            crate::layout::max(
                self.widest(lines, i, j - 1),
                crate::text::byte_len(self.code(lines[j - 1], entry_of(lines, j - 1))),
            )
        }
    }

    /// The line with its marker moved to byte column `target`, but always
    /// behind a space.
    pub open spec fn place(self, line: Seq<char>, e: int, target: nat) -> Seq<char> {
        match self.start(line, e) {
            Some(i) => {
                let code = self.code(line, e);
                let width = crate::text::byte_len(code);
                code + crate::text::spaces(
                    (crate::layout::max(target, width + 1) - width) as nat,
                ) + line.skip(i)
            },
            None => line,
        }
    }
}

/// `n` rounded up to a multiple of `step`; `n` itself if `step` is zero.
pub open spec fn round_up(n: nat, step: nat) -> nat {
    if step == 0 {
        n
    } else {
        ((n + step - 1) as nat / step) * step
    }
}

impl Rule {
    /// The column to which the group from `i` up to `j` is moved.
    pub open spec fn target(self, lines: Seq<Seq<char>>, i: int, j: int) -> nat {
        round_up(self.marker.widest(lines, i, j) + self.gap as nat, self.step as nat)
    }

    /// The group from `i` up to `j`, aligned.
    pub open spec fn align_group(self, lines: Seq<Seq<char>>, i: int, j: int) -> Seq<Seq<char>> {
        if self.marker.marked(lines, i, j) < self.least {
            lines.subrange(i, j)
        } else {
            self.place_all(lines, i, j, self.target(lines, i, j))
        }
    }

    /// The lines from `i` up to `j` with their markers moved to `target`.
    pub open spec fn place_all(self, lines: Seq<Seq<char>>, i: int, j: int, target: nat) -> Seq<
        Seq<char>,
    > {
        Seq::new(
            (j - i) as nat,
            |x: int| self.marker.place(lines[i + x], entry_of(lines, i + x), target),
        )
    }

    /// The lines from `i` on, aligned group by group.
    pub open spec fn align_from(self, lines: Seq<Seq<char>>, i: int) -> Seq<Seq<char>>
        decreases lines.len() - i,
    {
        if !(0 <= i < lines.len()) {
            Seq::empty()
        } else if self.marker.start_of(lines, i) is Some {
            let j = self.marker.group_end(lines, i, i + 1);
            if i < j <= lines.len() {
                self.align_group(lines, i, j) + self.align_from(lines, j)
            } else {
                seq![lines[i]]
            }
        } else {
            seq![lines[i]] + self.align_from(lines, i + 1)
        }
    }

    /// The text with its markers aligned.
    pub open spec fn align(self, text: Seq<char>, eol: Eol) -> Seq<char> {
        crate::text::join(self.align_from(crate::text::split(text, eol.text()), 0), eol.text())
    }
}

impl Marker {
    pub proof fn lemma_group_end(self, lines: Seq<Seq<char>>, last: int, k: int)
        requires
            0 <= last < k <= lines.len(),
        ensures
            last < self.group_end(lines, last, k) <= lines.len(),
        decreases lines.len() - k,
    {
        if k < lines.len() {
            self.lemma_group_end(lines, k, k + 1);
            self.lemma_group_end(lines, last, k + 1);
        }
    }

    fn find(self, line: &[char], e: usize) -> (r: Option<usize>)
        requires
            e <= line@.len(),
        ensures
            match r {
                Some(i) => self.start(line@, e as int) == Some(i as int) && i < line@.len(),
                None => self.start(line@, e as int) is None,
            },
    {
        match self {
            Marker::Comment { .. } => find_comment(line, e),
            Marker::Equals => find_equals(line, e),
            Marker::Doxygen => find_doxygen(line, e),
        }
    }

    fn is_bridge(self, line: &[char]) -> (r: bool)
        ensures
            r == self.bridges(line@),
    {
        let t = suffix(line, trimmed_start(line, Class::White));
        match self {
            Marker::Comment { .. } => true,
            Marker::Equals => is_bare_enum_member(line) || t.len() == 0 || t[0] == '#',
            Marker::Doxygen => t.len() > 0 && t[0] != '}',
        }
    }

    fn find_group_end(self, lines: &Vec<Vec<char>>, cols: &Vec<Option<usize>>, i: usize) -> (r:
        usize)
        requires
            i < lines@.len(),
            cols_match(self, lines@, cols@),
        ensures
            r == self.group_end(crate::text::rows(lines@), i as int, i + 1),
            i < r <= lines@.len(),
    {
        let ghost rows = crate::text::rows(lines@);
        let n: usize = lines.len();
        let mut last: usize = i;
        let mut k: usize = i + 1;
        while k < n
            invariant
                i <= last < k <= n == lines@.len(),
                rows == crate::text::rows(lines@),
                cols_match(self, lines@, cols@),
                self.group_end(rows, i as int, i + 1) == self.group_end(
                    rows,
                    last as int,
                    k as int,
                ),
            decreases n - k,
        {
            assert(rows[k as int] == lines@[k as int]@);
            assert(col_matches(self, lines@, k as int, cols@[k as int]));
            if cols[k].is_some() {
                let near = match self {
                    Marker::Comment { span } => k - last < span || (span > 0 && k - last == 1),
                    _ => true,
                };
                if !near {
                    return last + 1;
                }
                last = k;
            } else if !self.is_bridge(lines[k].as_slice()) {
                return last + 1;
            }
            k += 1;
        }
        last + 1
    }
}

/// `cols` holds the marker positions of the lines.
pub open spec fn cols_match(marker: Marker, lines: Seq<Vec<char>>, cols: Seq<Option<usize>>) -> bool {
    &&& cols.len() == lines.len()
    &&& forall|k: int|
        0 <= k < lines.len() ==> col_matches(marker, lines, k, #[trigger] cols[k])
}

/// `col` is the marker position of line `k`.
pub open spec fn col_matches(
    marker: Marker,
    lines: Seq<Vec<char>>,
    k: int,
    col: Option<usize>,
) -> bool {
    let start = marker.start_of(crate::text::rows(lines), k);
    match col {
        Some(c) => start == Some(c as int) && c < lines[k]@.len(),
        None => start is None,
    }
}

/// What a line starts in.
pub enum Carry {
    Outside,
    Quote { mark: char },
    Raw { close: Vec<char> },
}

impl View for Carry {
    type V = CarryView;

    open spec fn view(&self) -> CarryView {
        match self {
            Carry::Outside => CarryView::Outside,
            Carry::Quote { mark } => CarryView::Quote { mark: *mark },
            Carry::Raw { close } => CarryView::Raw { close: close@ },
        }
    }
}

fn find_entry(line: &[char], carry: &Carry) -> (r: usize)
    requires
        carry@ matches CarryView::Raw { close } ==> close.len() > 0,
    ensures
        r == entry(line@, carry@),
        r <= line@.len(),
{
    match carry {
        Carry::Outside => 0,
        Carry::Quote { mark } => match find_closing(line, 0, *mark) {
            Some(end) => end,
            None => line.len(),
        },
        Carry::Raw { close } => match find_text(line, close.as_slice(), 0) {
            Some(j) => j + close.len(),
            None => line.len(),
        },
    }
}

fn find_left_open(line: &[char], e: usize) -> (r: Carry)
    requires
        e <= line@.len(),
    ensures
        r@ == left_open(line@, e as int, Spot::Code),
        r@ matches CarryView::Raw { close } ==> close.len() > 0,
{
    let mut k: usize = e;
    let mut spot = Spot::Code;
    while k < line.len()
        invariant
            k <= line@.len(),
            left_open(line@, e as int, Spot::Code) == left_open(line@, k as int, spot),
        decreases line@.len() - k,
    {
        match next_step(line, k, spot) {
            Some((next, after)) => {
                k = next;
                spot = after;
            },
            None => {
                let c = line[k];
                if c == '"' && starts_raw(line, k) {
                    return Carry::Raw { close: close_of_raw(line, k) };
                }
                if c == '"' || c == '\'' {
                    return Carry::Quote { mark: c };
                }
                return Carry::Outside;
            },
        }
    }
    Carry::Outside
}

fn find_leave(line: &[char], carry: Carry) -> (r: Carry)
    requires
        carry@ matches CarryView::Raw { close } ==> close.len() > 0,
    ensures
        r@ == leave(line@, carry@),
        r@ matches CarryView::Raw { close } ==> close.len() > 0,
{
    let goes_on = match &carry {
        Carry::Outside => false,
        Carry::Quote { mark } => find_closing(line, 0, *mark).is_none(),
        Carry::Raw { close } => find_text(line, close.as_slice(), 0).is_none(),
    };
    if goes_on {
        return match &carry {
            Carry::Quote { .. } => if last_is(line, '\\') {
                carry
            } else {
                Carry::Outside
            },
            _ => carry,
        };
    }
    let e = find_entry(line, &carry);
    find_left_open(line, e)
}

/// Round `n` up to the next multiple of `step` (or `n` itself if already a
/// multiple).
pub fn round_up_to_multiple(n: u128, step: usize) -> (r: u128)
    requires
        n + step <= u128::MAX,
    ensures
        r == round_up(n as nat, step as nat),
        n <= r < n + (if step == 0 {
            1
        } else {
            step as int
        }),
{
    if step == 0 {
        return n;
    }
    let s = step as u128;
    let over = n % s;
    proof {
        lemma_round_up(n as nat, s as nat);
    }
    if over == 0 {
        n
    } else {
        n + (s - over)
    }
}

/// Rounding up adds what is missing to the next multiple.
pub proof fn lemma_round_up(n: nat, step: nat)
    requires
        step > 0,
    ensures
        round_up(n, step) == if n % step == 0 {
            n
        } else {
            (n + step - n % step) as nat
        },
        round_up(n, step) % step == 0,
        n <= round_up(n, step) < n + step,
{
    let q = n / step;
    let r = n % step;
    vstd::arithmetic::div_mod::lemma_fundamental_div_mod(n as int, step as int);
    let m = (n + step - 1) as nat;
    if r == 0 {
        assert(m == step * q + (step - 1));
        vstd::arithmetic::div_mod::lemma_fundamental_div_mod_converse(
            m as int,
            step as int,
            q as int,
            step - 1,
        );
        assert(q * step == step * q) by (nonlinear_arith);
        vstd::arithmetic::div_mod::lemma_mod_multiples_basic(q as int, step as int);
    } else {
        assert(step * q + step == step * (q + 1)) by (nonlinear_arith);
        assert((q + 1) * step == step * (q + 1)) by (nonlinear_arith);
        vstd::arithmetic::div_mod::lemma_fundamental_div_mod_converse(
            m as int,
            step as int,
            (q + 1) as int,
            r - 1,
        );
        vstd::arithmetic::div_mod::lemma_mod_multiples_basic((q + 1) as int, step as int);
    }
}

// ── Passes ───────────────────────────────────────────────────────────────────

impl Marker {
    fn find_all(self, lines: &Vec<Vec<char>>) -> (r: Vec<Option<usize>>)
        ensures
            cols_match(self, lines@, r@),
    {
        let ghost rows = crate::text::rows(lines@);
        let mut cols: Vec<Option<usize>> = Vec::new();
        let mut carry = Carry::Outside;
        let mut i: usize = 0;
        while i < lines.len()
            invariant
                i <= lines@.len(),
                rows == crate::text::rows(lines@),
                cols@.len() == i,
                carry@ == carry_to(rows, i as int),
                carry@ matches CarryView::Raw { close } ==> close.len() > 0,
                forall|k: int| 0 <= k < i ==> col_matches(self, lines@, k, #[trigger] cols@[k]),
            decreases lines@.len() - i,
        {
            assert(rows[i as int] == lines@[i as int]@);
            let e = find_entry(lines[i].as_slice(), &carry);
            let col = self.find(lines[i].as_slice(), e);
            assert(col_matches(self, lines@, i as int, col));
            cols.push(col);
            carry = find_leave(lines[i].as_slice(), carry);
            i += 1;
        }
        cols
    }

    fn count_marked(self, lines: &Vec<Vec<char>>, cols: &Vec<Option<usize>>, i: usize, j: usize)
        -> (r: usize)
        requires
            i <= j <= lines@.len(),
            cols_match(self, lines@, cols@),
        ensures
            r == self.marked(crate::text::rows(lines@), i as int, j as int),
    {
        let ghost rows = crate::text::rows(lines@);
        let mut n: usize = 0;
        let mut k: usize = i;
        while k < j
            invariant
                i <= k <= j <= lines@.len(),
                n <= k - i,
                rows == crate::text::rows(lines@),
                cols_match(self, lines@, cols@),
                n == self.marked(rows, i as int, k as int),
            decreases j - k,
        {
            assert(rows[k as int] == lines@[k as int]@);
            assert(col_matches(self, lines@, k as int, cols@[k as int]));
            if cols[k].is_some() {
                n += 1;
            }
            k += 1;
        }
        n
    }

    fn find_widest(self, lines: &Vec<Vec<char>>, cols: &Vec<Option<usize>>, i: usize, j: usize)
        -> (r: u128)
        requires
            i <= j <= lines@.len(),
            cols_match(self, lines@, cols@),
        ensures
            r == self.widest(crate::text::rows(lines@), i as int, j as int),
            r <= 4 * usize::MAX,
    {
        let ghost rows = crate::text::rows(lines@);
        let mut widest: u128 = 0;
        let mut k: usize = i;
        while k < j
            invariant
                i <= k <= j <= lines@.len(),
                widest <= 4 * usize::MAX,
                rows == crate::text::rows(lines@),
                cols_match(self, lines@, cols@),
                widest == self.widest(rows, i as int, k as int),
            decreases j - k,
        {
            assert(rows[k as int] == lines@[k as int]@);
            assert(col_matches(self, lines@, k as int, cols@[k as int]));
            assert(crate::text::byte_len(Seq::<char>::empty()) == 0) by {
                reveal_with_fuel(vstd::utf8::encode_utf8, 1);
            }
            match cols[k] {
                Some(c) => {
                    let head = prefix(lines[k].as_slice(), c);
                    let code = prefix(head, trimmed_len(head, Class::White));
                    let width = bytes_in(code);
                    if width > widest {
                        widest = width;
                    }
                },
                None => {},
            }
            k += 1;
        }
        widest
    }

    fn placed(
        self,
        lines: &Vec<Vec<char>>,
        k: usize,
        col: Option<usize>,
        target: u128,
    ) -> (r: Vec<char>)
        requires
            k < lines@.len(),
            col_matches(self, lines@, k as int, col),
        ensures
            r@ == self.place(
                lines@[k as int]@,
                entry_of(crate::text::rows(lines@), k as int),
                target as nat,
            ),
    {
        let line = lines[k].as_slice();
        assert(crate::text::rows(lines@)[k as int] == line@);
        match col {
            Some(c) => {
                let head = prefix(line, c);
                let code = prefix(head, trimmed_len(head, Class::White));
                let width = bytes_in(code);
                let pad = if target < width + 1 {
                    1
                } else {
                    target - width
                };
                let mut out: Vec<char> = Vec::new();
                push_all(&mut out, code);
                push_spaces(&mut out, pad);
                push_all(&mut out, suffix(line, c));
                assert(out@ =~= self.place(
                    line@,
                    entry_of(crate::text::rows(lines@), k as int),
                    target as nat,
                ));
                out
            },
            None => {
                let whole = cut(line, 0, line.len());
                assert(whole@ =~= line@);
                whole
            },
        }
    }
}

impl Rule {
    /// Append the lines from `i` up to `j` as they are.
    fn copy_lines(lines: &Vec<Vec<char>>, i: usize, j: usize, out: &mut Vec<Vec<char>>)
        requires
            i <= j <= lines@.len(),
        ensures
            crate::text::rows(final(out)@) == crate::text::rows(old(out)@) + crate::text::rows(
                lines@,
            ).subrange(i as int, j as int),
    {
        let ghost rows = crate::text::rows(lines@);
        let ghost start = crate::text::rows(out@);
        let mut k: usize = i;
        assert(start + rows.subrange(i as int, i as int) =~= start);
        while k < j
            invariant
                i <= k <= j <= lines@.len(),
                rows == crate::text::rows(lines@),
                crate::text::rows(out@) == start + rows.subrange(i as int, k as int),
            decreases j - k,
        {
            let ghost before = out@;
            let line = cut(lines[k].as_slice(), 0, lines[k].len());
            assert(line@ =~= rows[k as int]);
            out.push(line);
            assert(crate::text::rows(out@) =~= crate::text::rows(before).push(line@));
            k += 1;
            assert(crate::text::rows(out@) =~= start + rows.subrange(i as int, k as int));
        }
    }

    /// Append the lines from `i` up to `j` with their markers at `target`.
    fn place_lines(
        self,
        lines: &Vec<Vec<char>>,
        cols: &Vec<Option<usize>>,
        i: usize,
        j: usize,
        target: u128,
        out: &mut Vec<Vec<char>>,
    )
        requires
            i <= j <= lines@.len(),
            cols_match(self.marker, lines@, cols@),
        ensures
            crate::text::rows(final(out)@) == crate::text::rows(old(out)@) + self.place_all(
                crate::text::rows(lines@),
                i as int,
                j as int,
                target as nat,
            ),
    {
        let ghost rows = crate::text::rows(lines@);
        let ghost start = crate::text::rows(out@);
        let mut k: usize = i;
        assert(start + self.place_all(rows, i as int, i as int, target as nat) =~= start);
        while k < j
            invariant
                i <= k <= j <= lines@.len(),
                rows == crate::text::rows(lines@),
                cols_match(self.marker, lines@, cols@),
                crate::text::rows(out@) == start + self.place_all(
                    rows,
                    i as int,
                    k as int,
                    target as nat,
                ),
            decreases j - k,
        {
            let ghost before = out@;
            assert(rows[k as int] == lines@[k as int]@);
            assert(col_matches(self.marker, lines@, k as int, cols@[k as int]));
            let line = self.marker.placed(lines, k, cols[k], target);
            out.push(line);
            assert(crate::text::rows(out@) =~= crate::text::rows(before).push(line@));
            assert(self.place_all(rows, i as int, k + 1, target as nat) =~= self.place_all(
                rows,
                i as int,
                k as int,
                target as nat,
            ).push(line@));
            k += 1;
            assert(crate::text::rows(out@) =~= start + self.place_all(
                rows,
                i as int,
                k as int,
                target as nat,
            ));
        }
    }

    fn align_lines(self, lines: &Vec<Vec<char>>) -> (r: Vec<Vec<char>>)
        ensures
            crate::text::rows(r@) == self.align_from(crate::text::rows(lines@), 0),
    {
        let ghost rows = crate::text::rows(lines@);
        let cols = self.marker.find_all(lines);
        let n: usize = lines.len();
        let mut out: Vec<Vec<char>> = Vec::new();
        let mut i: usize = 0;
        while i < n
            invariant
                i <= n == lines@.len(),
                rows == crate::text::rows(lines@),
                cols_match(self.marker, lines@, cols@),
                self.align_from(rows, 0) =~= crate::text::rows(out@) + self.align_from(
                    rows,
                    i as int,
                ),
            decreases n - i,
        {
            let ghost before = out@;
            assert(rows[i as int] == lines@[i as int]@);
            assert(col_matches(self.marker, lines@, i as int, cols@[i as int]));
            if cols[i].is_some() {
                let j = self.marker.find_group_end(lines, &cols, i);
                let marked = self.marker.count_marked(lines, &cols, i, j);
                if marked < self.least {
                    Self::copy_lines(lines, i, j, &mut out);
                } else {
                    let widest = self.marker.find_widest(lines, &cols, i, j);
                    let target = round_up_to_multiple(widest + self.gap as u128, self.step);
                    self.place_lines(lines, &cols, i, j, target, &mut out);
                }
                assert(crate::text::rows(out@) == crate::text::rows(before) + self.align_group(
                    rows,
                    i as int,
                    j as int,
                ));
                i = j;
            } else {
                Self::copy_lines(lines, i, i + 1, &mut out);
                assert(rows.subrange(i as int, i + 1) =~= seq![rows[i as int]]);
                i += 1;
            }
        }
        out
    }

    /// Align the markers of a text.
    pub(crate) fn apply(self, text: &[char], eol: Eol) -> (r: Vec<char>)
        ensures
            r@ == self.align(text@, eol),
    {
        let end = chars_of(eol.as_str());
        let lines = split_lines(text, end.as_slice());
        let aligned = self.align_lines(&lines);
        join_lines(&aligned, end.as_slice())
    }
}

/// The rule for trailing comments.
pub open spec fn comment_rule(
    min_gap: usize,
    normalize_single: bool,
    on_tabstop: bool,
    tab_width: usize,
    span: usize,
) -> Rule {
    Rule {
        marker: Marker::Comment { span },
        gap: min_gap,
        least: if normalize_single {
            1
        } else {
            2
        },
        step: if on_tabstop {
            tab_width
        } else {
            0
        },
    }
}

/// The rule for the `=` of enum members.
pub open spec fn equals_rule(on_tabstop: bool, tab_width: usize) -> Rule {
    Rule {
        marker: Marker::Equals,
        gap: 1,
        least: 2,
        step: if on_tabstop {
            tab_width
        } else {
            0
        },
    }
}

/// The rule for Doxygen member comments.
pub open spec fn doxygen_rule() -> Rule {
    Rule { marker: Marker::Doxygen, gap: 1, least: 2, step: 0 }
}

/// Align trailing comments within groups of lines that carry one. Lines
/// without a comment may stand inside a group when the commented lines around
/// them are less than `span` lines apart. `min_gap` is the least number of
/// columns between code and comment.
pub fn align_trailing_comments(
    text: &[char],
    eol: Eol,
    min_gap: usize,
    normalize_single: bool,
    on_tabstop: bool,
    tab_width: usize,
    span: usize,
) -> (r: Vec<char>)
    ensures
        r@ == comment_rule(min_gap, normalize_single, on_tabstop, tab_width, span).align(
            text@,
            eol,
        ),
{
    let rule = Rule {
        marker: Marker::Comment { span },
        gap: min_gap,
        least: if normalize_single {
            1
        } else {
            2
        },
        step: if on_tabstop {
            tab_width
        } else {
            0
        },
    };
    rule.apply(text, eol)
}

/// Align `=` signs within groups of enum value lines. Members without a value
/// do not break a group and are left unchanged.
pub fn align_enum_equals(text: &[char], eol: Eol, on_tabstop: bool, tab_width: usize) -> (r: Vec<
    char,
>)
    ensures
        r@ == equals_rule(on_tabstop, tab_width).align(text@, eol),
{
    let rule = Rule {
        marker: Marker::Equals,
        gap: 1,
        least: 2,
        step: if on_tabstop {
            tab_width
        } else {
            0
        },
    };
    rule.apply(text, eol)
}

/// Align trailing `/**<` comments within groups of member lines. Lines without
/// one do not break a group; empty lines and closing braces do.
pub fn align_doxygen_comments(text: &[char], eol: Eol) -> (r: Vec<char>)
    ensures
        r@ == doxygen_rule().align(text@, eol),
{
    let rule = Rule { marker: Marker::Doxygen, gap: 1, least: 2, step: 0 };
    rule.apply(text, eol)
}

} // verus!
