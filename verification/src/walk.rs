//! Which files of a directory tree are formatted.

use crate::config::IgnoreConfig;
use crate::text::{chars_of, is_word};
use vstd::prelude::*;

verus! {

// ── Patterns ─────────────────────────────────────────────────────────────────

/// The pattern matches the path: `*` stands for any characters, `?` for any
/// one, and every other character for itself. A `**` is then the same as `*`.
pub open spec fn glob(pattern: Seq<char>, path: Seq<char>) -> bool
    decreases pattern.len(), path.len(),
{
    if pattern.len() == 0 {
        path.len() == 0
    } else if pattern[0] == '*' {
        glob(pattern.drop_first(), path) || (path.len() > 0 && glob(pattern, path.drop_first()))
    } else {
        path.len() > 0 && (pattern[0] == '?' || pattern[0] == path[0]) && glob(
            pattern.drop_first(),
            path.drop_first(),
        )
    }
}

/// Some pattern matches the path.
pub open spec fn ignored(config: IgnoreConfig, path: Seq<char>) -> bool {
    exists|k: int|
        0 <= k < config.patterns@.len() && glob((#[trigger] config.patterns@[k])@, path)
}

/// `row[j]` tells whether the pattern matches the path from `j` on.
spec fn is_row(row: Seq<bool>, pattern: Seq<char>, path: Seq<char>) -> bool {
    row.len() == path.len() + 1 && forall|j: int|
        0 <= j <= path.len() ==> #[trigger] row[j] == glob(pattern, path.skip(j))
}

/// From the row of a pattern, that of the pattern with `c` in front.
fn prepend(c: char, row: &Vec<bool>, path: &[char], Ghost(rest): Ghost<Seq<char>>) -> (r: Vec<bool>)
    requires
        is_row(row@, rest, path@),
    ensures
        is_row(r@, seq![c] + rest, path@),
{
    let n: usize = path.len();
    let ghost pattern = seq![c] + rest;
    assert(pattern.drop_first() =~= rest);
    let mut out: Vec<bool> = Vec::new();
    for k in 0..row.len()
        invariant
            out@.len() == k,
            forall|j: int| 0 <= j < k ==> !#[trigger] out@[j],
    {
        out.push(false);
    }
    let last = c == '*' && row[n];
    out.set(n, last);
    assert(path@.skip(n as int) =~= Seq::<char>::empty());
    let mut j: usize = n;
    while j > 0
        invariant
            j <= n == path@.len(),
            out@.len() == n + 1,
            pattern == seq![c] + rest,
            pattern.drop_first() == rest,
            is_row(row@, rest, path@),
            forall|k: int| j <= k <= n ==> #[trigger] out@[k] == glob(pattern, path@.skip(k)),
        decreases j,
    {
        j -= 1;
        let ghost here = path@.skip(j as int);
        assert(here.drop_first() =~= path@.skip(j + 1));
        assert(here[0] == path@[j as int]);
        let value = if c == '*' {
            row[j] || out[j + 1]
        } else {
            (c == '?' || c == path[j]) && row[j + 1]
        };
        out.set(j, value);
    }
    out
}

/// Whether the pattern matches the path.
pub fn glob_match(pattern: &str, path: &str) -> (r: bool)
    ensures
        r == glob(pattern@, path@),
{
    let p = chars_of(pattern);
    let s = chars_of(path);
    let n: usize = s.len();
    let mut row: Vec<bool> = Vec::new();
    for k in 0..n
        invariant
            row@.len() == k,
            forall|j: int| 0 <= j < k ==> !#[trigger] row@[j],
    {
        row.push(false);
    }
    row.push(true);
    let mut i: usize = p.len();
    assert(p@.skip(i as int) =~= Seq::<char>::empty());
    assert(is_row(row@, p@.skip(i as int), s@));
    while i > 0
        invariant
            i <= p@.len(),
            is_row(row@, p@.skip(i as int), s@),
        decreases i,
    {
        i -= 1;
        assert(seq![p@[i as int]] + p@.skip(i + 1) =~= p@.skip(i as int));
        row = prepend(p[i], &row, s.as_slice(), Ghost(p@.skip(i + 1)));
    }
    assert(p@.skip(0) =~= p@);
    assert(s@.skip(0) =~= s@);
    row[0]
}

/// Whether some pattern of the settings matches the path.
pub fn is_ignored(config: &IgnoreConfig, path: &str) -> (r: bool)
    ensures
        r == ignored(*config, path@),
{
    for k in 0..config.patterns.len()
        invariant
            forall|j: int| 0 <= j < k ==> !glob((#[trigger] config.patterns@[j])@, path@),
    {
        if glob_match(config.patterns[k].as_str(), path) {
            assert(glob(config.patterns@[k as int]@, path@));
            return true;
        }
    }
    false
}

// ── Extensions ───────────────────────────────────────────────────────────────

/// An extension of C and C++ sources.
pub open spec fn is_source_extension(ext: Seq<char>) -> bool {
    ext == "c"@ || ext == "cc"@ || ext == "cpp"@ || ext == "cxx"@ || ext == "h"@ || ext == "hh"@
        || ext == "hpp"@ || ext == "hxx"@
}

/// What a directory walk formats: sources that no pattern matches.
pub open spec fn selected(config: IgnoreConfig, path: Seq<char>, ext: Seq<char>) -> bool {
    is_source_extension(ext) && !ignored(config, path)
}

/// Whether a directory walk formats the file at `path`, relative to the
/// directory, whose extension is `ext`.
pub fn is_selected(config: &IgnoreConfig, path: &str, ext: &str) -> (r: bool)
    ensures
        r == selected(*config, path@, ext@),
{
    let e = chars_of(ext);
    let w = e.as_slice();
    let source = is_word(w, "c") || is_word(w, "cc") || is_word(w, "cpp") || is_word(w, "cxx")
        || is_word(w, "h") || is_word(w, "hh") || is_word(w, "hpp") || is_word(w, "hxx");
    source && !is_ignored(config, path)
}

} // verus!
