//! Operations on sequences of characters: trimming, searching, replacing,
//! splitting into lines and measuring in UTF-8 bytes.

use vstd::prelude::*;

verus! {

// ── Character classes ────────────────────────────────────────────────────────

/// A set of characters that can be trimmed from the ends of a text.
#[derive(Debug, Clone, Copy, PartialEq, Eq, Structural)]
pub enum Class {
    /// The Unicode `White_Space` property.
    White,
    /// Space, tab, line feed, form feed and carriage return.
    AsciiWhite,
    /// The space character alone.
    Space,
    /// The tab character alone.
    Tab,
    /// Line feed and carriage return.
    Break,
}

/// The Unicode `White_Space` property.
pub open spec fn is_white(c: char) -> bool {
    ||| '\u{9}' <= c <= '\u{d}'
    ||| c == ' '
    ||| c == '\u{85}'
    ||| c == '\u{a0}'
    ||| c == '\u{1680}'
    ||| '\u{2000}' <= c <= '\u{200a}'
    ||| c == '\u{2028}'
    ||| c == '\u{2029}'
    ||| c == '\u{202f}'
    ||| c == '\u{205f}'
    ||| c == '\u{3000}'
}

pub(crate) fn white(c: char) -> (r: bool)
    ensures
        r == is_white(c),
{
    ('\u{9}' <= c && c <= '\u{d}') || c == ' ' || c == '\u{85}' || c == '\u{a0}' || c == '\u{1680}'
        || ('\u{2000}' <= c && c <= '\u{200a}') || c == '\u{2028}' || c == '\u{2029}' || c
        == '\u{202f}' || c == '\u{205f}' || c == '\u{3000}'
}

/// A letter: one of ASCII, or beyond it an alphabetic character.
pub open spec fn is_letter(c: char) -> bool {
    if c <= '\x7f' {
        'a' <= c <= 'z' || 'A' <= c <= 'Z'
    } else {
        crate::std_contracts::unicode_alphabetic(c)
    }
}

/// A letter or a digit: one of ASCII, or beyond it an alphabetic or numeric
/// character.
pub open spec fn is_letter_or_digit(c: char) -> bool {
    if c <= '\x7f' {
        'a' <= c <= 'z' || 'A' <= c <= 'Z' || '0' <= c <= '9'
    } else {
        crate::std_contracts::unicode_alphanumeric(c)
    }
}

impl Class {
    pub open spec fn has(self, c: char) -> bool {
        match self {
            Class::White => is_white(c),
            Class::AsciiWhite => c == ' ' || c == '\t' || c == '\n' || c == '\u{c}' || c == '\r',
            Class::Space => c == ' ',
            Class::Tab => c == '\t',
            Class::Break => c == '\n' || c == '\r',
        }
    }

    pub(crate) fn test(self, c: char) -> (r: bool)
        ensures
            r == self.has(c),
    {
        match self {
            Class::White => white(c),
            Class::AsciiWhite => c == ' ' || c == '\t' || c == '\n' || c == '\u{c}' || c == '\r',
            Class::Space => c == ' ',
            Class::Tab => c == '\t',
            Class::Break => c == '\n' || c == '\r',
        }
    }
}

// ── Conversions ──────────────────────────────────────────────────────────────

/// The characters of a string.
pub(crate) fn chars_of(s: &str) -> (r: Vec<char>)
    ensures
        r@ == s@,
{
    let mut out: Vec<char> = Vec::new();
    for c in it: s.chars()
        invariant
            it.seq() == s@,
            out@ == s@.take(it.index() as int),
    {
        out.push(c);
        assert(out@ =~= s@.take(it.index() + 1));
    }
    assert(s@.take(s@.len() as int) =~= s@);
    out
}

/// The string made of the given characters.
pub(crate) fn string_of(s: &[char]) -> (r: String)
    ensures
        r@ == s@,
{
    let mut out = String::new();
    for i in 0..s.len()
        invariant
            out@ == s@.take(i as int),
    {
        out.push(s[i]);
        assert(out@ =~= s@.take(i + 1));
    }
    assert(s@.take(s@.len() as int) =~= s@);
    out
}

/// Append characters to a buffer.
pub(crate) fn push_all(out: &mut Vec<char>, s: &[char])
    ensures
        final(out)@ == old(out)@ + s@,
{
    let ghost start = out@;
    for i in 0..s.len()
        invariant
            out@ == start + s@.take(i as int),
    {
        out.push(s[i]);
        assert(out@ =~= start + s@.take(i + 1));
    }
    assert(s@.take(s@.len() as int) =~= s@);
}

/// `n` spaces.
pub open spec fn spaces(n: nat) -> Seq<char> {
    Seq::new(n, |i: int| ' ')
}

/// Append `n` spaces to a buffer.
pub(crate) fn push_spaces(out: &mut Vec<char>, n: u128)
    ensures
        final(out)@ == old(out)@ + spaces(n as nat),
{
    let ghost start = out@;
    let mut i: u128 = 0;
    while i < n
        invariant
            i <= n,
            out@ == start + spaces(i as nat),
        decreases n - i,
    {
        out.push(' ');
        i += 1;
        assert(out@ =~= start + spaces(i as nat));
    }
}

/// `n` copies of `t`, one behind the other.
pub open spec fn repeat(t: Seq<char>, n: nat) -> Seq<char>
    decreases n,
{
    if n == 0 {
        Seq::empty()
    } else {
        repeat(t, (n - 1) as nat) + t
    }
}

/// Append `n` copies of `t` to a buffer.
pub(crate) fn push_repeat(out: &mut Vec<char>, t: &[char], n: usize)
    ensures
        final(out)@ == old(out)@ + repeat(t@, n as nat),
{
    let ghost start = out@;
    for i in 0..n
        invariant
            out@ == start + repeat(t@, i as nat),
    {
        push_all(out, t);
        assert(out@ =~= start + repeat(t@, (i + 1) as nat));
    }
}

/// Append the characters of a string to a buffer.
pub(crate) fn push_str(out: &mut Vec<char>, s: &str)
    ensures
        final(out)@ == old(out)@ + s@,
{
    let ghost start = out@;
    for c in it: s.chars()
        invariant
            it.seq() == s@,
            out@ == start + s@.take(it.index() as int),
    {
        out.push(c);
        assert(out@ =~= start + s@.take(it.index() + 1));
    }
    assert(s@.take(s@.len() as int) =~= s@);
}

/// The text ends with the character.
pub open spec fn ends_with(s: Seq<char>, c: char) -> bool {
    s.len() > 0 && s.last() == c
}

pub(crate) fn last_is(s: &[char], c: char) -> (r: bool)
    ensures
        r == ends_with(s@, c),
{
    s.len() > 0 && s[s.len() - 1] == c
}

// ── Trimming ─────────────────────────────────────────────────────────────────

/// The text without its trailing characters of the class.
pub open spec fn trim_end(s: Seq<char>, class: Class) -> Seq<char>
    decreases s.len(),
{
    if s.len() > 0 && class.has(s.last()) {
        trim_end(s.drop_last(), class)
    } else {
        s
    }
}

/// The text without its leading characters of the class.
pub open spec fn trim_start(s: Seq<char>, class: Class) -> Seq<char>
    decreases s.len(),
{
    if s.len() > 0 && class.has(s[0]) {
        trim_start(s.drop_first(), class)
    } else {
        s
    }
}

/// How much of `s` is left once its trailing characters of the class are cut.
pub(crate) fn trimmed_len(s: &[char], class: Class) -> (r: usize)
    ensures
        r <= s@.len(),
        s@.take(r as int) == trim_end(s@, class),
        r > 0 ==> !class.has(s@[r - 1]),
{
    let mut n: usize = s.len();
    assert(s@.take(n as int) =~= s@);
    while n > 0 && class.test(s[n - 1])
        invariant
            n <= s@.len(),
            trim_end(s@.take(n as int), class) == trim_end(s@, class),
        decreases n,
    {
        assert(s@.take(n as int).drop_last() =~= s@.take(n - 1));
        n -= 1;
    }
    n
}

/// Where `s` starts once its leading characters of the class are cut.
pub(crate) fn trimmed_start(s: &[char], class: Class) -> (r: usize)
    ensures
        r <= s@.len(),
        s@.skip(r as int) == trim_start(s@, class),
{
    let mut n: usize = 0;
    assert(s@.skip(0) =~= s@);
    while n < s.len() && class.test(s[n])
        invariant
            n <= s@.len(),
            trim_start(s@.skip(n as int), class) == trim_start(s@, class),
        decreases s@.len() - n,
    {
        assert(s@.skip(n as int).drop_first() =~= s@.skip(n + 1));
        n += 1;
    }
    n
}

/// The suffix of `s` that starts at `i`.
pub(crate) fn suffix(s: &[char], i: usize) -> (r: &[char])
    requires
        i <= s@.len(),
    ensures
        r@ == s@.skip(i as int),
{
    let r = vstd::slice::slice_subrange(s, i, s.len());
    assert(r@ =~= s@.skip(i as int));
    r
}

/// The prefix of `s` that ends before `i`.
pub(crate) fn prefix(s: &[char], i: usize) -> (r: &[char])
    requires
        i <= s@.len(),
    ensures
        r@ == s@.take(i as int),
{
    let r = vstd::slice::slice_subrange(s, 0, i);
    assert(r@ =~= s@.take(i as int));
    r
}

// ── Searching ────────────────────────────────────────────────────────────────

/// `p` occurs in `s` at position `i`.
pub open spec fn matches_at(s: Seq<char>, i: int, p: Seq<char>) -> bool {
    0 <= i && i + p.len() <= s.len() && s.subrange(i, i + p.len()) == p
}

pub(crate) fn occurs_at(s: &[char], i: usize, p: &[char]) -> (r: bool)
    requires
        i <= s@.len(),
    ensures
        r == matches_at(s@, i as int, p@),
{
    if s.len() - i < p.len() {
        return false;
    }
    for k in 0..p.len()
        invariant
            i + p@.len() <= s@.len() <= usize::MAX,
            forall|j: int| 0 <= j < k ==> s@[i + j] == p@[j],
    {
        if s[i + k] != p[k] {
            assert(s@.subrange(i as int, i + p@.len())[k as int] != p@[k as int]);
            return false;
        }
    }
    assert(s@.subrange(i as int, i + p@.len()) =~= p@);
    true
}

/// The text begins with `p`.
pub open spec fn begins_with(s: Seq<char>, p: Seq<char>) -> bool {
    matches_at(s, 0, p)
}

/// The first position from `i` on at which `p` occurs.
pub open spec fn find_from(s: Seq<char>, p: Seq<char>, i: int) -> Option<int>
    decreases s.len() + 1 - i,
{
    if i + p.len() > s.len() {
        None
    } else if matches_at(s, i, p) {
        Some(i)
    } else {
        find_from(s, p, i + 1)
    }
}

/// The first position at which `p` occurs.
pub open spec fn find(s: Seq<char>, p: Seq<char>) -> Option<int> {
    find_from(s, p, 0)
}

pub(crate) fn position_of(s: &[char], p: &[char]) -> (r: Option<usize>)
    ensures
        match r {
            Some(i) => find(s@, p@) == Some(i as int) && i + p@.len() <= s@.len(),
            None => find(s@, p@) is None,
        },
{
    let mut i: usize = 0;
    while i <= s.len() && p.len() <= s.len() - i
        invariant
            i <= s@.len(),
            find(s@, p@) == find_from(s@, p@, i as int),
        decreases s@.len() - i,
    {
        if occurs_at(s, i, p) {
            return Some(i);
        }
        if i == s.len() {
            assert(find_from(s@, p@, i + 1) is None);
            return None;
        }
        i += 1;
    }
    None
}

pub(crate) fn has_char(s: &[char], c: char) -> (r: bool)
    ensures
        r == s@.contains(c),
{
    for i in 0..s.len()
        invariant
            forall|j: int| 0 <= j < i ==> s@[j] != c,
    {
        if s[i] == c {
            assert(s@[i as int] == c);
            return true;
        }
    }
    false
}

/// Whether two texts have the same characters.
pub(crate) fn same(a: &[char], b: &[char]) -> (r: bool)
    ensures
        r == (a@ == b@),
{
    if a.len() != b.len() {
        return false;
    }
    let r = occurs_at(a, 0, b);
    assert(a@.subrange(0, b@.len() as int) =~= a@);
    r
}

/// Whether two strings have the same characters.
pub(crate) fn same_text(a: &str, b: &str) -> (r: bool)
    ensures
        r == (a@ == b@),
{
    let chars = chars_of(a);
    is_word(chars.as_slice(), b)
}

/// Whether a text is the given word.
pub(crate) fn is_word(s: &[char], word: &str) -> (r: bool)
    ensures
        r == (s@ == word@),
{
    let mut n: usize = 0;
    for c in it: word.chars()
        invariant
            it.seq() == word@,
            n == it.index(),
            n <= s@.len(),
            s@.take(n as int) == word@.take(n as int),
    {
        if n >= s.len() || s[n] != c {
            proof {
                if s@ == word@ {
                    assert(s@[n as int] == c);
                }
            }
            return false;
        }
        n += 1;
        assert(s@.take(n as int) =~= word@.take(n as int));
    }
    assert(word@.take(word@.len() as int) =~= word@);
    assert(n == s@.len() ==> s@.take(n as int) =~= s@);
    n == s.len()
}

// ── Replacing ────────────────────────────────────────────────────────────────

/// `s` from position `i` on, with each non-overlapping occurrence of `from`,
/// taken from the left, replaced by `to`.
pub open spec fn replace_from(s: Seq<char>, from: Seq<char>, to: Seq<char>, i: int) -> Seq<char>
    decreases s.len() - i,
{
    if i >= s.len() || from.len() == 0 {
        Seq::empty()
    } else if matches_at(s, i, from) {
        to + replace_from(s, from, to, i + from.len())
    } else {
        seq![s[i]] + replace_from(s, from, to, i + 1)
    }
}

/// `s` with every occurrence of `from` replaced by `to`.
pub open spec fn replace(s: Seq<char>, from: Seq<char>, to: Seq<char>) -> Seq<char> {
    replace_from(s, from, to, 0)
}

pub(crate) fn replaced(s: &[char], from: &[char], to: &[char]) -> (r: Vec<char>)
    requires
        from@.len() > 0,
    ensures
        r@ == replace(s@, from@, to@),
{
    let mut out: Vec<char> = Vec::new();
    let mut i: usize = 0;
    while i < s.len()
        invariant
            i <= s@.len(),
            from@.len() > 0,
            replace(s@, from@, to@) =~= out@ + replace_from(s@, from@, to@, i as int),
        decreases s@.len() - i,
    {
        if occurs_at(s, i, from) {
            push_all(&mut out, to);
            i += from.len();
        } else {
            out.push(s[i]);
            i += 1;
        }
    }
    out
}

// ── Lines ────────────────────────────────────────────────────────────────────

/// The pieces between the separators of `s.skip(start)`, when no separator
/// begins before `i`.
pub open spec fn split_from(s: Seq<char>, sep: Seq<char>, start: int, i: int) -> Seq<Seq<char>>
    decreases s.len() - i,
{
    if i >= s.len() || sep.len() == 0 {
        seq![s.skip(start)]
    } else if matches_at(s, i, sep) {
        seq![s.subrange(start, i)] + split_from(s, sep, i + sep.len(), i + sep.len())
    } else {
        split_from(s, sep, start, i + 1)
    }
}

/// The pieces of `s` between the separators, taken from the left.
pub open spec fn split(s: Seq<char>, sep: Seq<char>) -> Seq<Seq<char>> {
    split_from(s, sep, 0, 0)
}

/// The lines with the separator between each two.
pub open spec fn join(lines: Seq<Seq<char>>, sep: Seq<char>) -> Seq<char>
    decreases lines.len(),
{
    if lines.len() == 0 {
        Seq::empty()
    } else if lines.len() == 1 {
        lines[0]
    } else {
        join(lines.drop_last(), sep) + sep + lines.last()
    }
}

/// The contents of a vector of lines.
pub open spec fn rows(lines: Seq<Vec<char>>) -> Seq<Seq<char>> {
    lines.map_values(|line: Vec<char>| line@)
}

/// The characters from `start` to `end`.
pub(crate) fn cut(s: &[char], start: usize, end: usize) -> (r: Vec<char>)
    requires
        start <= end <= s@.len(),
    ensures
        r@ == s@.subrange(start as int, end as int),
{
    let mut out: Vec<char> = Vec::new();
    push_all(&mut out, vstd::slice::slice_subrange(s, start, end));
    assert(out@ =~= s@.subrange(start as int, end as int));
    out
}

pub(crate) fn split_lines(s: &[char], sep: &[char]) -> (r: Vec<Vec<char>>)
    requires
        sep@.len() > 0,
    ensures
        rows(r@) == split(s@, sep@),
        r@.len() > 0,
{
    let mut out: Vec<Vec<char>> = Vec::new();
    let mut start: usize = 0;
    let mut i: usize = 0;
    while i < s.len()
        invariant
            start <= i <= s@.len(),
            sep@.len() > 0,
            split(s@, sep@) =~= rows(out@) + split_from(s@, sep@, start as int, i as int),
        decreases s@.len() - i,
    {
        if occurs_at(s, i, sep) {
            let ghost before = rows(out@);
            let line = cut(s, start, i);
            out.push(line);
            assert(rows(out@) =~= before + seq![s@.subrange(start as int, i as int)]);
            i += sep.len();
            start = i;
        } else {
            i += 1;
        }
    }
    let ghost before = rows(out@);
    let line = cut(s, start, s.len());
    assert(line@ =~= s@.skip(start as int));
    out.push(line);
    assert(rows(out@) =~= before + seq![s@.skip(start as int)]);
    out
}

pub(crate) fn join_lines(lines: &Vec<Vec<char>>, sep: &[char]) -> (r: Vec<char>)
    ensures
        r@ == join(rows(lines@), sep@),
{
    let mut out: Vec<char> = Vec::new();
    for i in 0..lines.len()
        invariant
            out@ == join(rows(lines@).take(i as int), sep@),
    {
        let ghost all = rows(lines@);
        assert(all.take(i + 1).drop_last() =~= all.take(i as int));
        assert(all.take(i + 1).last() == lines@[i as int]@);
        if i > 0 {
            push_all(&mut out, sep);
        }
        push_all(&mut out, lines[i].as_slice());
        assert(out@ =~= join(all.take(i + 1), sep@));
    }
    assert(rows(lines@).take(lines@.len() as int) =~= rows(lines@));
    out
}

/// How many characters follow the last line feed.
pub open spec fn tail_len(s: Seq<char>) -> nat
    decreases s.len(),
{
    if s.len() == 0 || s.last() == '\n' {
        0
    } else {
        1 + tail_len(s.drop_last())
    }
}

pub(crate) fn last_line_len(s: &[char]) -> (r: usize)
    ensures
        r == tail_len(s@),
{
    let mut n: usize = s.len();
    let mut count: usize = 0;
    assert(s@.take(n as int) =~= s@);
    while n > 0 && s[n - 1] != '\n'
        invariant
            n <= s@.len(),
            count + n == s@.len(),
            tail_len(s@) == count + tail_len(s@.take(n as int)),
        decreases n,
    {
        assert(s@.take(n as int).drop_last() =~= s@.take(n - 1));
        n -= 1;
        count += 1;
    }
    count
}

// ── Measuring ────────────────────────────────────────────────────────────────

/// The length of the text in UTF-8 bytes.
pub open spec fn byte_len(s: Seq<char>) -> nat {
    vstd::utf8::encode_utf8(s).len()
}

/// How many bytes UTF-8 spends on the character.
pub open spec fn utf8_width(c: char) -> nat {
    byte_len(seq![c])
}

pub proof fn lemma_encode_add(a: Seq<char>, b: Seq<char>)
    ensures
        vstd::utf8::encode_utf8(a + b) == vstd::utf8::encode_utf8(a) + vstd::utf8::encode_utf8(b),
        byte_len(a + b) == byte_len(a) + byte_len(b),
    decreases a.len(),
{
    if a.len() == 0 {
        assert(a + b =~= b);
        assert(vstd::utf8::encode_utf8(a) + vstd::utf8::encode_utf8(b) =~= vstd::utf8::encode_utf8(b));
    } else {
        assert((a + b).drop_first() =~= a.drop_first() + b);
        lemma_encode_add(a.drop_first(), b);
        assert(vstd::utf8::encode_utf8(a + b) =~= vstd::utf8::encode_utf8(a) + vstd::utf8::encode_utf8(b));
    }
}

pub proof fn lemma_utf8_width(c: char)
    ensures
        utf8_width(c) == (if c as u32 <= 0x7f {
            1nat
        } else if c as u32 <= 0x7ff {
            2nat
        } else if c as u32 <= 0xffff {
            3nat
        } else {
            4nat
        }),
{
    reveal_with_fuel(vstd::utf8::encode_utf8, 2);
    assert(seq![c].drop_first() =~= Seq::<char>::empty());
}

pub(crate) fn width_of(c: char) -> (r: u8)
    ensures
        r == utf8_width(c),
        1 <= r <= 4,
{
    proof {
        lemma_utf8_width(c);
    }
    let code = c as u32;
    if code <= 0x7f {
        1
    } else if code <= 0x7ff {
        2
    } else if code <= 0xffff {
        3
    } else {
        4
    }
}

pub proof fn lemma_byte_len_push(s: Seq<char>, c: char)
    ensures
        byte_len(s.push(c)) == byte_len(s) + utf8_width(c),
{
    assert(s.push(c) =~= s + seq![c]);
    lemma_encode_add(s, seq![c]);
}

pub(crate) fn bytes_in(s: &[char]) -> (r: u128)
    ensures
        r == byte_len(s@),
        s@.len() <= r <= 4 * s@.len(),
{
    let mut n: u128 = 0;
    for i in 0..s.len()
        invariant
            n == byte_len(s@.take(i as int)),
            i <= n <= 4 * i,
    {
        proof {
            lemma_byte_len_push(s@.take(i as int), s@[i as int]);
            assert(s@.take(i + 1) =~= s@.take(i as int).push(s@[i as int]));
        }
        n += width_of(s[i]) as u128;
    }
    assert(s@.take(s@.len() as int) =~= s@);
    n
}

/// The first `n` characters end on a character boundary.
proof fn lemma_boundary(s: Seq<char>, n: int)
    requires
        0 <= n <= s.len(),
    ensures
        vstd::utf8::is_char_boundary(vstd::utf8::encode_utf8(s), byte_len(s.take(n)) as int),
    decreases n,
{
    vstd::utf8::encode_utf8_valid_utf8(s);
    if n == 0 {
        assert(s.take(0) =~= Seq::<char>::empty());
        reveal_with_fuel(vstd::utf8::is_char_boundary, 1);
    } else {
        let rest = s.drop_first();
        lemma_boundary(rest, n - 1);
        vstd::utf8::encode_utf8_first_scalar(s);
        assert(s.take(n).drop_first() =~= rest.take(n - 1));
        assert(s.take(n)[0] == s[0]);
        assert(vstd::utf8::pop_first_scalar(vstd::utf8::encode_utf8(s)) =~= vstd::utf8::encode_utf8(rest));
        lemma_encode_add(s.take(n), s.skip(n));
        assert(s.take(n) + s.skip(n) =~= s);
    }
}

/// Split a string behind its first `n` characters, which take `bytes` bytes.
pub(crate) fn split_str(s: &str, n: usize, bytes: usize) -> (r: (&str, &str))
    requires
        n <= s@.len(),
        bytes == byte_len(s@.take(n as int)),
    ensures
        r.0@ == s@.take(n as int),
        r.1@ == s@.skip(n as int),
{
    proof {
        lemma_boundary(s@, n as int);
        lemma_encode_add(s@.take(n as int), s@.skip(n as int));
        assert(s@.take(n as int) + s@.skip(n as int) =~= s@);
    }
    let r = s.split_at(bytes);
    proof {
        assert(vstd::utf8::encode_utf8(r.0@) =~= vstd::utf8::encode_utf8(s@.take(n as int)));
        assert(vstd::utf8::encode_utf8(r.1@) =~= vstd::utf8::encode_utf8(s@.skip(n as int)));
        vstd::utf8::encode_utf8_decode_utf8(r.0@);
        vstd::utf8::encode_utf8_decode_utf8(r.1@);
        vstd::utf8::encode_utf8_decode_utf8(s@.take(n as int));
        vstd::utf8::encode_utf8_decode_utf8(s@.skip(n as int));
    }
    r
}

} // verus!
