//! Moving a marker keeps what stands on its line: the search comes to it again,
//! and literals stay as they are.

use crate::align::{CarryView, Goal, Marker, Rule, Spot};
use crate::text::Class;
use vstd::prelude::*;

verus! {

// ── A moved line ─────────────────────────────────────────────────────────────

/// `line` with the white space before its position `i` replaced by `pad`
/// spaces.
pub open spec fn shifted(line: Seq<char>, i: int, pad: nat) -> Seq<char> {
    crate::text::trim_end(line.take(i), Class::White) + crate::text::spaces(pad) + line.skip(i)
}

/// How many characters of code stand before position `i`.
pub open spec fn code_len(line: Seq<char>, i: int) -> int {
    crate::text::trim_end(line.take(i), Class::White).len() as int
}

/// The characters of a shifted line, and the white space that it lost.
pub proof fn lemma_shifted(line: Seq<char>, i: int, pad: nat)
    requires
        0 <= i <= line.len(),
    ensures
        ({
            let c = code_len(line, i);
            let n = c + pad;
            let new = shifted(line, i, pad);
            &&& 0 <= c <= i
            &&& new.len() == n + line.len() - i
            &&& forall|k: int| 0 <= k < c ==> #[trigger] new[k] == line[k]
            &&& forall|k: int| c <= k < n ==> #[trigger] new[k] == ' '
            &&& forall|k: int| n <= k < new.len() ==> #[trigger] new[k] == line[k - n + i]
            &&& forall|k: int| c <= k < i ==> crate::text::is_white(#[trigger] line[k])
            &&& forall|k: int| 0 <= k <= c ==> #[trigger] new.take(k) == line.take(k)
            &&& forall|k: int| i <= k <= line.len() ==> #[trigger] line.skip(k) == new.skip(
                k - i + n,
            )
        }),
{
    let c = code_len(line, i);
    let n = c + pad;
    let new = shifted(line, i, pad);
    crate::laws::lines::lemma_trim_end_prefix(line.take(i), Class::White);
    lemma_cut_off(line.take(i));
    assert forall|k: int| c <= k < i implies crate::text::is_white(#[trigger] line[k]) by {
        assert(line.take(i)[k] == line[k]);
    }
    assert forall|k: int| 0 <= k < c implies #[trigger] new[k] == line[k] by {
        assert(line.take(i).take(c)[k] == line[k]);
    }
    assert forall|k: int| 0 <= k <= c implies #[trigger] new.take(k) == line.take(k) by {
        assert(new.take(k) =~= line.take(k));
    }
    assert forall|k: int| i <= k <= line.len() implies #[trigger] line.skip(k) == new.skip(
        k - i + n,
    ) by {
        assert(line.skip(k) =~= new.skip(k - i + n));
    }
}

/// What is trimmed is white space.
pub proof fn lemma_cut_off(s: Seq<char>)
    ensures
        ({
            let n = crate::text::trim_end(s, Class::White).len();
            forall|k: int| n <= k < s.len() ==> crate::text::is_white(#[trigger] s[k])
        }),
    decreases s.len(),
{
    if s.len() > 0 && crate::text::is_white(s.last()) {
        lemma_cut_off(s.drop_last());
        let n = crate::text::trim_end(s, Class::White).len();
        assert forall|k: int| n <= k < s.len() implies crate::text::is_white(#[trigger] s[k]) by {
            if k < s.len() - 1 {
                assert(s.drop_last()[k] == s[k]);
            }
        }
    }
}

/// How much white space leads a text.
proof fn lemma_lead(s: Seq<char>) -> (w: int)
    ensures
        0 <= w <= s.len(),
        crate::text::trim_start(s, Class::White) == s.skip(w),
        forall|k: int| 0 <= k < w ==> crate::text::is_white(#[trigger] s[k]),
        w < s.len() ==> !crate::text::is_white(s[w]),
    decreases s.len(),
{
    if s.len() > 0 && crate::text::is_white(s[0]) {
        let rest = s.drop_first();
        let w = lemma_lead(rest);
        assert(rest.skip(w) =~= s.skip(w + 1));
        assert forall|k: int| 0 <= k < w + 1 implies crate::text::is_white(#[trigger] s[k]) by {
            if k > 0 {
                assert(rest[k - 1] == s[k]);
            }
        }
        assert(w < rest.len() ==> rest[w] == s[w + 1]);
        w + 1
    } else {
        assert(s.skip(0) =~= s);
        0
    }
}

proof fn lemma_lead_is(s: Seq<char>, w: int)
    requires
        0 <= w < s.len(),
        forall|k: int| 0 <= k < w ==> crate::text::is_white(#[trigger] s[k]),
        !crate::text::is_white(s[w]),
    ensures
        crate::text::trim_start(s, Class::White) == s.skip(w),
{
    let v = lemma_lead(s);
    if v < w {
        assert(crate::text::is_white(s[v]));
    }
}

/// A pattern without spaces does not reach over the end of the code.
pub proof fn lemma_no_straddle(line: Seq<char>, i: int, pad: nat, k: int, p: Seq<char>)
    requires
        0 <= i <= line.len(),
        pad > 0,
        p.len() > 0,
        crate::laws::lines::lacks(p, ' '),
        crate::text::matches_at(shifted(line, i, pad), k, p),
    ensures
        ({
            let c = code_len(line, i);
            &&& k + p.len() <= c || c + pad <= k
            &&& k + p.len() <= c ==> crate::text::matches_at(line, k, p)
            &&& c + pad <= k ==> crate::text::matches_at(line, k - c - pad + i, p)
        }),
{
    let c = code_len(line, i);
    let n = c + pad;
    let new = shifted(line, i, pad);
    lemma_shifted(line, i, pad);
    let part = new.subrange(k, k + p.len());
    if k + p.len() > c && k < n {
        let at = if k < c {
            c
        } else {
            k
        };
        assert(part[at - k] == new[at]);
        assert(p[at - k] == ' ');
    } else if k + p.len() <= c {
        assert(line.subrange(k, k + p.len()) =~= part);
    } else {
        assert(line.subrange(k - n + i, k - n + i + p.len()) =~= part);
    }
}

pub proof fn lemma_find_shift(a: Seq<char>, b: Seq<char>, p: Seq<char>, k: int, d: int)
    requires
        0 <= k <= a.len(),
        0 <= k + d <= b.len(),
        a.skip(k) == b.skip(k + d),
        p.len() > 0,
    ensures
        crate::text::find_from(b, p, k + d) == match crate::text::find_from(a, p, k) {
            Some(j) => Some(j + d),
            None => None,
        },
        a.len() + d == b.len(),
    decreases a.len() - k,
{
    assert(a.skip(k).len() == a.len() - k);
    assert(b.skip(k + d).len() == b.len() - (k + d));
    if k + p.len() <= a.len() {
        assert(a.subrange(k, k + p.len()) =~= a.skip(k).subrange(0, p.len() as int));
        assert(b.subrange(k + d, k + d + p.len()) =~= b.skip(k + d).subrange(0, p.len() as int));
        assert(a.skip(k + 1) =~= a.skip(k).skip(1));
        assert(b.skip(k + d + 1) =~= b.skip(k + d).skip(1));
        lemma_find_shift(a, b, p, k + 1, d);
    }
}

/// Code in front of a comment or Doxygen comment is more than white space.
proof fn lemma_code_leads(line: Seq<char>, i: int) -> (w: int)
    requires
        0 <= i < line.len(),
        line[i] == '/',
        crate::text::trim_start(line, Class::White) != line.skip(i),
    ensures
        0 <= w < code_len(line, i),
        !crate::text::is_white(line[w]),
        crate::text::trim_start(line, Class::White) == line.skip(w),
        forall|k: int| 0 <= k < w ==> crate::text::is_white(#[trigger] line[k]),
{
    let w = lemma_lead(line);
    lemma_shifted(line, i, 1);
    if w > i {
        assert(crate::text::is_white(line[i]));
    }
    if w >= code_len(line, i) {
        assert(crate::text::is_white(line[w]));
    }
    w
}

proof fn lemma_same_code(s: Seq<char>, w: int)
    requires
        0 <= w < s.len(),
        !crate::text::is_white(s[w]),
    ensures
        crate::align::has_code(s),
{
    assert(s[w] != ' ' && s[w] != '\t');
}

/// What stands in front of a text that is not all white space is not trimmed.
proof fn lemma_trim_tail(a: Seq<char>, b: Seq<char>)
    requires
        b.len() > 0,
        !crate::text::is_white(b[0]),
    ensures
        crate::text::trim_end(a + b, Class::White) == a + crate::text::trim_end(b, Class::White),
        crate::text::trim_end(b, Class::White).len() > 0,
    decreases b.len(),
{
    if crate::text::is_white(b.last()) {
        lemma_trim_tail(a, b.drop_last());
        assert((a + b).drop_last() =~= a + b.drop_last());
    }
}

// ── Steps ────────────────────────────────────────────────────────────────────

/// From position `i` on, `b` is `a`, `d` places further on.
spec fn same_from(a: Seq<char>, b: Seq<char>, i: int, d: int) -> bool {
    b.len() == a.len() + d && forall|k: int| i <= k < a.len() ==> #[trigger] a[k] == b[k + d]
}

proof fn lemma_same_skip(a: Seq<char>, b: Seq<char>, i: int, d: int, k: int)
    requires
        same_from(a, b, i, d),
        i <= k <= a.len(),
        0 <= k,
        0 <= k + d,
    ensures
        a.skip(k) == b.skip(k + d),
{
    assert forall|x: int| 0 <= x < a.len() - k implies a.skip(k)[x] == b.skip(k + d)[x] by {
        assert(a[k + x] == b[k + x + d]);
    }
    assert(a.skip(k) =~= b.skip(k + d));
}

/// A literal ends with its quote.
proof fn lemma_closing(line: Seq<char>, k: int, quote: char)
    requires
        0 <= k,
    ensures
        match crate::align::closing(line, k, quote) {
            Some(end) => k < end <= line.len() && line[end - 1] == quote,
            None => true,
        },
    decreases line.len() + 1 - k,
{
    if k < line.len() {
        if line[k] == '\\' {
            lemma_closing(line, k + 2, quote);
        } else if line[k] != quote {
            lemma_closing(line, k + 1, quote);
        }
    }
}

proof fn lemma_closing_prefix(a: Seq<char>, b: Seq<char>, k: int, quote: char)
    requires
        0 <= k,
        crate::align::closing(a, k, quote) is Some,
        crate::align::closing(a, k, quote)->0 <= b.len(),
        forall|x: int|
            k <= x < crate::align::closing(a, k, quote)->0 ==> #[trigger] a[x] == b[x],
    ensures
        crate::align::closing(b, k, quote) == crate::align::closing(a, k, quote),
    decreases a.len() + 1 - k,
{
    lemma_closing(a, k, quote);
    assert(a[k] == b[k]);
    if a[k] == '\\' {
        lemma_closing(a, k + 2, quote);
        lemma_closing_prefix(a, b, k + 2, quote);
    } else if a[k] != quote {
        lemma_closing_prefix(a, b, k + 1, quote);
    }
}

proof fn lemma_closing_shift(a: Seq<char>, b: Seq<char>, k: int, d: int, quote: char)
    requires
        0 <= k,
        0 <= k + d,
        same_from(a, b, k, d),
    ensures
        crate::align::closing(b, k + d, quote) == match crate::align::closing(a, k, quote) {
            Some(end) => Some(end + d),
            None => None,
        },
    decreases a.len() + 1 - k,
{
    if k < a.len() {
        assert(a[k] == b[k + d]);
        if a[k] == '\\' {
            lemma_closing_shift(a, b, k + 2, d, quote);
        } else if a[k] != quote {
            lemma_closing_shift(a, b, k + 1, d, quote);
        }
    }
}

/// The search for a quote passes over white space.
proof fn lemma_closing_white(line: Seq<char>, k: int, i: int, quote: char)
    requires
        0 <= k <= i < line.len(),
        quote == '"' || quote == '\'',
        forall|x: int| k <= x < i ==> crate::text::is_white(#[trigger] line[x]),
    ensures
        crate::align::closing(line, k, quote) == crate::align::closing(line, i, quote),
    decreases i - k,
{
    if k < i {
        assert(crate::text::is_white(line[k]));
        lemma_closing_white(line, k + 1, i, quote);
    }
}

/// A literal that is not closed on its line is not closed when a marker moves.
proof fn lemma_closing_open(line: Seq<char>, i: int, pad: nat, k: int, quote: char)
    requires
        0 <= i < line.len(),
        line[i] == '/' || line[i] == '=',
        pad > 0,
        0 <= k <= code_len(line, i),
        quote == '"' || quote == '\'',
        crate::align::closing(line, k, quote) is None,
    ensures
        crate::align::closing(shifted(line, i, pad), k, quote) is None,
    decreases code_len(line, i) - k,
{
    let c = code_len(line, i);
    let n = c + pad;
    let new = shifted(line, i, pad);
    lemma_shifted(line, i, pad);
    assert forall|x: int| c <= x < n implies crate::text::is_white(#[trigger] new[x]) by {}
    assert(same_from(line, new, i + 1, n - i)) by {
        assert forall|x: int| i + 1 <= x < line.len() implies #[trigger] line[x] == new[x + (n
            - i)] by {}
    }
    lemma_closing_shift(line, new, i + 1, n - i, quote);
    assert(new[n] == line[i]);
    let tail = crate::align::closing(line, i + 1, quote);
    assert(crate::align::closing(line, i, quote) == tail);
    assert(crate::align::closing(new, n, quote) == crate::align::closing(new, n + 1, quote));
    if k == c {
        lemma_closing_white(line, c, i, quote);
        lemma_closing_white(new, c, n, quote);
    } else {
        assert(new[k] == line[k]);
        if line[k] == '\\' {
            if k + 2 <= c {
                lemma_closing_open(line, i, pad, k + 2, quote);
            } else {
                if c + 1 <= i {
                    lemma_closing_white(line, c + 1, i, quote);
                }
                lemma_closing_white(new, c + 1, n, quote);
            }
        } else {
            lemma_closing_open(line, i, pad, k + 1, quote);
        }
    }
}

proof fn lemma_find_prefix(a: Seq<char>, b: Seq<char>, p: Seq<char>, i: int)
    requires
        0 <= i,
        p.len() > 0,
        crate::text::find_from(a, p, i) is Some,
        crate::text::find_from(a, p, i)->0 + p.len() <= b.len(),
        forall|k: int|
            i <= k < crate::text::find_from(a, p, i)->0 + p.len() ==> #[trigger] a[k] == b[k],
    ensures
        crate::text::find_from(b, p, i) == crate::text::find_from(a, p, i),
{
    let j = crate::text::find_from(a, p, i)->0;
    crate::laws::rules::lemma_found(a, p, i);
    assert(b.subrange(j, j + p.len()) =~= a.subrange(j, j + p.len()));
    assert forall|k: int| i <= k < j implies !#[trigger] crate::text::matches_at(b, k, p) by {
        if crate::text::matches_at(b, k, p) {
            assert(a.subrange(k, k + p.len()) =~= b.subrange(k, k + p.len()));
            assert(crate::text::matches_at(a, k, p));
        }
    }
    crate::laws::rules::lemma_find_first(b, p, i, j);
}

proof fn lemma_delimiter(line: Seq<char>, k: int)
    requires
        0 <= k <= line.len(),
    ensures
        ({
            let e = crate::align::delimiter_end(line, k);
            &&& k <= e <= line.len()
            &&& forall|x: int| k <= x < e ==> crate::align::in_delimiter(#[trigger] line[x])
            &&& e < line.len() ==> !crate::align::in_delimiter(line[e])
        }),
    decreases line.len() - k,
{
    if k < line.len() && crate::align::in_delimiter(line[k]) {
        lemma_delimiter(line, k + 1);
    }
}

proof fn lemma_delimiter_is(line: Seq<char>, k: int, e: int)
    requires
        0 <= k <= e <= line.len(),
        forall|x: int| k <= x < e ==> crate::align::in_delimiter(#[trigger] line[x]),
        e < line.len() ==> !crate::align::in_delimiter(line[e]),
    ensures
        crate::align::delimiter_end(line, k) == e,
    decreases e - k,
{
    if k < e {
        assert(crate::align::in_delimiter(line[k]));
        lemma_delimiter_is(line, k + 1, e);
    }
}

/// A raw string ends with its quote.
proof fn lemma_raw_end(line: Seq<char>, k: int)
    requires
        0 <= k < line.len(),
        crate::align::opens_raw(line, k),
    ensures
        ({
            let open = crate::align::delimiter_end(line, k + 1);
            let close = crate::align::raw_close(line, k);
            &&& k + 1 <= open < line.len()
            &&& close.len() >= 2
            &&& match crate::text::find_from(line, close, open + 1) {
                Some(j) => open < j && j + close.len() <= line.len() && line[j + close.len() - 1]
                    == '"',
                None => true,
            }
        }),
{
    let open = crate::align::delimiter_end(line, k + 1);
    let close = crate::align::raw_close(line, k);
    lemma_delimiter(line, k + 1);
    if crate::text::find_from(line, close, open + 1) is Some {
        let j = crate::text::find_from(line, close, open + 1)->0;
        crate::laws::rules::lemma_found(line, close, open + 1);
        assert(line.subrange(j, j + close.len())[close.len() - 1] == line[j + close.len() - 1]);
    }
}

/// Whether a quote in the code starts a raw string does not change.
proof fn lemma_raw_moved(line: Seq<char>, i: int, pad: nat, k: int)
    requires
        0 <= i < line.len(),
        pad > 0,
        0 <= k < code_len(line, i),
        crate::align::is_raw_at(shifted(line, i, pad), k) == crate::align::is_raw_at(line, k),
        crate::align::opens_raw(line, k) ==> crate::align::delimiter_end(line, k + 1) < code_len(
            line,
            i,
        ),
    ensures
        crate::align::opens_raw(shifted(line, i, pad), k) == crate::align::opens_raw(line, k),
        crate::align::opens_raw(line, k) ==> crate::align::delimiter_end(
            shifted(line, i, pad),
            k + 1,
        ) == crate::align::delimiter_end(line, k + 1) && crate::align::raw_close(
            shifted(line, i, pad),
            k,
        ) == crate::align::raw_close(line, k),
{
    let c = code_len(line, i);
    let new = shifted(line, i, pad);
    lemma_shifted(line, i, pad);
    lemma_delimiter(line, k + 1);
    lemma_delimiter(new, k + 1);
    let e = crate::align::delimiter_end(line, k + 1);
    let f = crate::align::delimiter_end(new, k + 1);
    assert(new[c] == ' ');
    assert(f <= c) by {
        if f > c {
            assert(crate::align::in_delimiter(new[c]));
        }
    }
    if e < c {
        assert forall|x: int| k + 1 <= x < e implies crate::align::in_delimiter(
            #[trigger] new[x],
        ) by {
            assert(new[x] == line[x]);
        }
        assert(new[e] == line[e]);
        lemma_delimiter_is(new, k + 1, e);
        assert(new.subrange(k + 1, e) =~= line.subrange(k + 1, e));
    } else if f < c {
        assert forall|x: int| k + 1 <= x < f implies crate::align::in_delimiter(
            #[trigger] line[x],
        ) by {
            assert(new[x] == line[x]);
        }
        assert(new[f] == line[f]);
        lemma_delimiter_is(line, k + 1, f);
    }
}

proof fn lemma_raw_shift(a: Seq<char>, b: Seq<char>, i: int, d: int, k: int)
    requires
        0 <= i <= k < a.len(),
        0 <= i + d,
        same_from(a, b, i, d),
        crate::align::is_raw_at(b, k + d) == crate::align::is_raw_at(a, k),
    ensures
        crate::align::opens_raw(b, k + d) == crate::align::opens_raw(a, k),
        crate::align::delimiter_end(b, k + d + 1) == crate::align::delimiter_end(a, k + 1) + d,
        crate::align::raw_close(b, k + d) == crate::align::raw_close(a, k),
{
    let e = crate::align::delimiter_end(a, k + 1);
    lemma_delimiter(a, k + 1);
    assert forall|x: int| k + d + 1 <= x < e + d implies crate::align::in_delimiter(
        #[trigger] b[x],
    ) by {
        assert(a[x - d] == b[x - d + d]);
    }
    assert(e < a.len() ==> a[e] == b[e + d]);
    lemma_delimiter_is(b, k + d + 1, e + d);
    assert(b.subrange(k + d + 1, e + d) =~= a.subrange(k + 1, e)) by {
        let l = b.subrange(k + d + 1, e + d);
        let r = a.subrange(k + 1, e);
        assert forall|x: int| 0 <= x < e - k - 1 implies #[trigger] l[x] == r[x] by {
            assert(a[k + 1 + x] == b[k + 1 + x + d]);
        }
    }
}

/// A step goes forward and stays within the line.
proof fn lemma_step(line: Seq<char>, k: int, spot: Spot)
    requires
        0 <= k < line.len(),
    ensures
        match crate::align::step(line, k, spot) {
            Some((next, _)) => k < next <= line.len() && (next > k + 1 ==> line[next - 1] == '"'
                || line[next - 1] == '\'' || line[next - 1] == '/'),
            None => true,
        },
{
    lemma_closing(line, k + 1, line[k]);
    if crate::align::opens_raw(line, k) {
        lemma_raw_end(line, k);
    }
    if crate::text::find_from(line, seq!['*', '/'], k + 2) is Some {
        let j = crate::text::find_from(line, seq!['*', '/'], k + 2)->0;
        crate::laws::rules::lemma_found(line, seq!['*', '/'], k + 2);
        assert(line.subrange(j, j + 2)[1] == line[j + 1]);
    }
}

/// Over the code of a shifted line the steps are the same.
proof fn lemma_step_prefix(line: Seq<char>, i: int, pad: nat, k: int, spot: Spot)
    requires
        0 <= i < line.len(),
        line[i] == '/' || line[i] == '=',
        pad > 0,
        0 <= k < code_len(line, i),
        crate::align::step(line, k, spot) is Some,
        (crate::align::step(line, k, spot)->0).0 <= i,
    ensures
        k < (crate::align::step(line, k, spot)->0).0 <= code_len(line, i),
        crate::align::step(shifted(line, i, pad), k, spot) == crate::align::step(line, k, spot),
        crate::align::literal_at(shifted(line, i, pad), k, spot) == crate::align::literal_at(
            line,
            k,
            spot,
        ),
{
    let c = code_len(line, i);
    let new = shifted(line, i, pad);
    let next = (crate::align::step(line, k, spot)->0).0;
    lemma_shifted(line, i, pad);
    lemma_step(line, k, spot);
    assert(next <= c) by {
        if next > c {
            assert(crate::text::is_white(line[next - 1]));
        }
    }
    assert(new[k] == line[k]);
    assert(new[c] == ' ');
    assert(k + 1 < c ==> new[k + 1] == line[k + 1]);
    assert(c < i ==> crate::text::is_white(line[c]));
    assert(k >= 1 ==> new[k - 1] == line[k - 1]);
    assert(k >= 2 ==> new[k - 2] == line[k - 2]);
    assert(k >= 3 ==> new[k - 3] == line[k - 3]);
    assert(k >= 4 ==> new[k - 4] == line[k - 4]);
    assert(crate::align::is_raw_at(new, k) == crate::align::is_raw_at(line, k));
    if crate::align::literal_at(line, k, spot) {
        if line[k] == '"' && crate::align::opens_raw(line, k) {
            lemma_raw_end(line, k);
            lemma_raw_moved(line, i, pad, k);
            let open = crate::align::delimiter_end(line, k + 1);
            lemma_find_prefix(line, new, crate::align::raw_close(line, k), open + 1);
        } else {
            if line[k] == '"' {
                lemma_raw_moved(line, i, pad, k);
            }
            lemma_closing(line, k + 1, line[k]);
            if crate::align::closing(line, k + 1, line[k]) is Some {
                lemma_closing_prefix(line, new, k + 1, line[k]);
            } else {
                lemma_closing_open(line, i, pad, k + 1, line[k]);
            }
            assert(new.last() == line.last());
        }
    } else if line[k] == '/' && line[k + 1] == '*' && k + 1 < c {
        crate::laws::rules::lemma_found(line, seq!['*', '/'], k + 2);
        lemma_find_prefix(line, new, seq!['*', '/'], k + 2);
    }
}

/// Behind the marker of a shifted line the steps are the same.
proof fn lemma_step_shift(a: Seq<char>, b: Seq<char>, i: int, d: int, k: int, spot: Spot)
    requires
        0 <= i < k < a.len(),
        0 <= i + d,
        a[i] == '/' || a[i] == '=',
        same_from(a, b, i, d),
    ensures
        crate::align::step(b, k + d, spot) == match crate::align::step(a, k, spot) {
            Some((next, after)) => Some((next + d, after)),
            None => None,
        },
        crate::align::literal_at(b, k + d, spot) == crate::align::literal_at(a, k, spot),
        crate::align::open_at(b, k + d) == crate::align::open_at(a, k),
{
    assert(a[i] == b[i + d]);
    assert(a[k] == b[k + d]);
    assert(k + 1 < a.len() ==> a[k + 1] == b[k + 1 + d]);
    assert(a[k - 1] == b[k - 1 + d]);
    assert(k - 2 >= i ==> a[k - 2] == b[k - 2 + d]);
    assert(k - 3 >= i ==> a[k - 3] == b[k - 3 + d]);
    assert(k - 4 >= i ==> a[k - 4] == b[k - 4 + d]);
    assert(crate::align::is_raw_at(b, k + d) == crate::align::is_raw_at(a, k));
    assert(same_from(a, b, k + 1, d));
    lemma_closing_shift(a, b, k + 1, d, a[k]);
    lemma_raw_shift(a, b, i, d, k);
    assert(a.last() == b.last()) by {
        assert(a[a.len() - 1] == b[a.len() - 1 + d]);
    }
    if crate::align::opens_raw(a, k) {
        lemma_raw_end(a, k);
        let open = crate::align::delimiter_end(a, k + 1);
        lemma_same_skip(a, b, i, d, open + 1);
        lemma_find_shift(a, b, crate::align::raw_close(a, k), open + 1, d);
    }
    if k + 2 <= a.len() {
        lemma_same_skip(a, b, i, d, k + 2);
        lemma_find_shift(a, b, seq!['*', '/'], k + 2, d);
    }
}

// ── Markers stay markers ─────────────────────────────────────────────────────

/// What starts with `/` or is an `=` starts at no other character.
proof fn lemma_hit_char(goal: Goal, line: Seq<char>, k: int)
    requires
        0 <= k < line.len(),
        goal.hit(line, k),
    ensures
        line[k] == if goal == Goal::Equals {
            '='
        } else {
            '/'
        },
        goal != Goal::Equals ==> k + 1 < line.len() && (line[k + 1] == '/' || line[k + 1] == '*'),
{
    if goal != Goal::Equals {
        if crate::text::matches_at(line, k, seq!['/', '*', '*', '<']) {
            let part = line.subrange(k, k + 4);
            assert(part[0] == line[k] && part[1] == line[k + 1]);
        } else {
            let part = line.subrange(k, k + 2);
            assert(part[0] == line[k] && part[1] == line[k + 1]);
        }
    }
}

/// Nothing starts within the spaces before the marker.
proof fn lemma_over_spaces(goal: Goal, new: Seq<char>, k: int, n: int, spot: Spot)
    requires
        0 <= k < n < new.len(),
        forall|x: int| k <= x < n ==> #[trigger] new[x] == ' ',
    ensures
        goal.first(new, k, spot) == goal.first(new, n, Spot::Code),
    decreases n - k,
{
    assert(new[k] == ' ');
    if goal.hit(new, k) {
        lemma_hit_char(goal, new, k);
    }
    assert(crate::align::step(new, k, spot) == Some((k + 1, Spot::Code)));
    if k + 1 < n {
        lemma_over_spaces(goal, new, k + 1, n, Spot::Code);
    }
}

/// A comment that the search passes over has the marker behind it.
proof fn lemma_not_last(line: Seq<char>, m: int, n: int)
    requires
        0 <= m <= n < line.len(),
        line[n] == '/' || line[n] == '=',
    ensures
        crate::align::has_code(line.skip(m)),
{
    assert(line.skip(m)[n - m] == line[n]);
}

/// What the search passes over is no comment that ends the line.
proof fn lemma_passed(goal: Goal, line: Seq<char>, k: int, spot: Spot, n: int)
    requires
        0 <= k < line.len(),
        goal == Goal::Comment || goal == Goal::Note,
        crate::align::step(line, k, spot) is Some,
        (crate::align::step(line, k, spot)->0).0 <= n < line.len(),
        line[n] == '/' || line[n] == '=',
    ensures
        !goal.hit(line, k),
{
    let open = seq!['/', '*'];
    let slashes = seq!['/', '/'];
    if goal.hit(line, k) {
        lemma_hit_char(goal, line, k);
        let part = line.subrange(k, k + 2);
        assert(part[0] == line[k] && part[1] == line[k + 1]);
        if line[k + 1] == '*' {
            lemma_step(line, k, spot);
            lemma_not_last(line, (crate::align::step(line, k, spot)->0).0, n);
            assert(part =~= open);
            assert(!crate::text::matches_at(line, k, slashes));
        } else {
            assert(part =~= slashes);
            assert(!crate::text::matches_at(line, k, open));
            assert(line[k - 1] == ':');
        }
    }
}

/// Nothing starts in the code of a shifted line where nothing started before.
proof fn lemma_hit_prefix(goal: Goal, line: Seq<char>, i: int, pad: nat, k: int, spot: Spot)
    requires
        0 <= i < line.len(),
        line[i] == '/' || line[i] == '=',
        goal == Goal::Equals ==> line[i] == '=' && crate::align::equals_at(line, i),
        pad > 0,
        0 <= k < code_len(line, i),
        crate::align::step(line, k, spot) is Some,
        (crate::align::step(line, k, spot)->0).0 <= i,
        goal == Goal::Note || !goal.hit(line, k),
    ensures
        !goal.hit(shifted(line, i, pad), k),
{
    let c = code_len(line, i);
    let n = c + pad;
    let new = shifted(line, i, pad);
    lemma_shifted(line, i, pad);
    lemma_step_prefix(line, i, pad, k, spot);
    assert(new[n] == line[i]);
    match goal {
        Goal::Comment | Goal::Note => lemma_passed(goal, new, k, spot, n),
        Goal::Doxygen => {
            if goal.hit(new, k) {
                lemma_no_straddle(line, i, pad, k, seq!['/', '*', '*', '<']);
                assert(new.take(k) == line.take(k));
            }
        },
        Goal::Equals => {
            assert(new[k] == line[k]);
            assert(k + 1 < c ==> new[k + 1] == line[k + 1]);
            assert(k >= 1 ==> new[k - 1] == line[k - 1]);
            assert(c < i ==> crate::text::is_white(line[c]));
        },
    }
}

/// The search comes to the marker of a shifted line as before.
proof fn lemma_first_moved(goal: Goal, line: Seq<char>, i: int, pad: nat, k: int, spot: Spot)
    requires
        goal.first(line, k, spot) == Some(i),
        pad > 0,
        0 <= k <= code_len(line, i),
        goal.hit(shifted(line, i, pad), code_len(line, i) + pad),
    ensures
        goal.first(shifted(line, i, pad), k, spot) == Some(code_len(line, i) + pad),
    decreases code_len(line, i) - k,
{
    let c = code_len(line, i);
    let n = c + pad;
    let new = shifted(line, i, pad);
    crate::laws::alignment::lemma_first(goal, line, k, spot);
    lemma_hit_char(goal, line, i);
    lemma_shifted(line, i, pad);
    if k == c {
        lemma_over_spaces(goal, new, k, n, spot);
    } else {
        let (next, after) = crate::align::step(line, k, spot)->0;
        crate::laws::alignment::lemma_first(goal, line, next, after);
        lemma_step_prefix(line, i, pad, k, spot);
        lemma_hit_prefix(goal, line, i, pad, k, spot);
        lemma_first_moved(goal, line, i, pad, next, after);
    }
}

/// A shifted line has its trailing comment where the marker is now.
#[verifier::spinoff_prover]
#[verifier::rlimit(40)]
pub proof fn lemma_comment_stays(line: Seq<char>, e: int, i: int, pad: nat)
    requires
        crate::align::comment_start(line, e) == Some(i),
        enters(line, e),
        pad > 0,
    ensures
        crate::align::comment_start(shifted(line, i, pad), e) == Some(code_len(line, i) + pad),
{
    let c = code_len(line, i);
    let n = c + pad;
    let new = shifted(line, i, pad);
    let slashes = seq!['/', '/'];
    let open = seq!['/', '*'];
    let member = seq!['/', '*', '*', '<'];
    let close = seq!['*', '/'];
    crate::laws::alignment::lemma_first(Goal::Comment, line, e, Spot::Code);
    lemma_hit_char(Goal::Comment, line, i);
    lemma_shifted(line, i, pad);
    assert(line.skip(i).subrange(0, 2) =~= line.subrange(i, i + 2));
    let w = if e == 0 {
        lemma_code_leads(line, i)
    } else {
        e - 1
    };
    assert(e - 1 < c) by {
        if e - 1 >= c {
            assert(crate::text::is_white(line[e - 1]));
        }
    }
    if e == 0 {
        lemma_lead_is(new, w);
    }
    let t = new.skip(w);
    assert(e == 0 ==> !crate::align::is_plain_line(new)) by {
        let old = line.skip(w);
        assert(t[0] == old[0]);
        if crate::text::begins_with(t, slashes) || crate::text::begins_with(t, open) {
            let part = t.subrange(0, 2);
            assert(part[1] == t[1] && t[1] == new[w + 1]);
            assert(w + 1 < c);
            assert(old.subrange(0, 2) =~= part);
        }
    }
    lemma_same_code(new.take(n), w);
    assert(crate::align::comment_at(new, n)) by {
        assert(new.subrange(n, n + 2) =~= line.subrange(i, i + 2));
        if crate::text::matches_at(line, i, open) {
            assert(crate::text::matches_at(new, n, open));
            if crate::text::matches_at(new, n, member) {
                assert(line.subrange(i, i + 4) =~= new.subrange(n, n + 4));
            }
            assert(line.skip(i + 2) == new.skip(i + 2 - i + n));
            lemma_find_shift(line, new, close, i + 2, n - i);
            crate::laws::rules::lemma_found(line, close, i + 2);
            let j = crate::text::find_from(line, close, i + 2)->0;
            assert(line.skip(j + 2) == new.skip(j + 2 - i + n));
        }
    }
    lemma_first_moved(Goal::Comment, line, i, pad, e, Spot::Code);
}

/// A shifted line has its Doxygen comment where the marker is now.
pub proof fn lemma_doxygen_stays(line: Seq<char>, e: int, i: int, pad: nat)
    requires
        crate::align::doxygen_start(line, e) == Some(i),
        enters(line, e),
        pad > 0,
    ensures
        crate::align::doxygen_start(shifted(line, i, pad), e) == Some(code_len(line, i) + pad),
{
    let c = code_len(line, i);
    let n = c + pad;
    let new = shifted(line, i, pad);
    let member = seq!['/', '*', '*', '<'];
    crate::laws::alignment::lemma_first(Goal::Doxygen, line, e, Spot::Code);
    lemma_hit_char(Goal::Doxygen, line, i);
    lemma_shifted(line, i, pad);
    assert(line.skip(i).subrange(0, 4) =~= line.subrange(i, i + 4));
    let w = if e == 0 {
        lemma_code_leads(line, i)
    } else {
        e - 1
    };
    assert(e - 1 < c) by {
        if e - 1 >= c {
            assert(crate::text::is_white(line[e - 1]));
        }
    }
    if e == 0 {
        lemma_lead_is(new, w);
    }
    let t = new.skip(w);
    assert(e == 0 ==> !crate::text::begins_with(t, member)) by {
        if crate::text::begins_with(t, member) {
            assert(new.subrange(w, w + 4) =~= t.subrange(0, 4));
            lemma_no_straddle(line, i, pad, w, member);
            assert(line.skip(w).subrange(0, 4) =~= line.subrange(w, w + 4));
        }
    }
    lemma_same_code(new.take(n), w);
    assert(new.subrange(n, n + 4) =~= line.subrange(i, i + 4));
    lemma_first_moved(Goal::Doxygen, line, i, pad, e, Spot::Code);
}

/// Up to the `=` of a line no comment ends it.
proof fn lemma_note_behind(line: Seq<char>, i: int, k: int, spot: Spot)
    requires
        0 <= k,
        Goal::Equals.first(line, k, spot) == Some(i),
    ensures
        Goal::Note.first(line, k, spot) == Goal::Note.first(line, i + 1, Spot::Code),
    decreases i - k,
{
    crate::laws::alignment::lemma_first(Goal::Equals, line, k, spot);
    if k == i {
        if Goal::Note.hit(line, k) {
            lemma_hit_char(Goal::Note, line, k);
        }
    } else {
        let (next, after) = crate::align::step(line, k, spot)->0;
        crate::laws::alignment::lemma_first(Goal::Equals, line, next, after);
        lemma_passed(Goal::Note, line, k, spot, i);
        lemma_note_behind(line, i, next, after);
    }
}

/// What ends a shifted line starts behind its `=` too.
proof fn lemma_note_shift(a: Seq<char>, b: Seq<char>, i: int, d: int, k: int, spot: Spot)
    requires
        0 <= i < k,
        0 <= i + d,
        a[i] == '/' || a[i] == '=',
        i < a.len(),
        same_from(a, b, i, d),
    ensures
        Goal::Note.first(b, k + d, spot) == match Goal::Note.first(a, k, spot) {
            Some(j) => Some(j + d),
            None => None,
        },
    decreases a.len() - k,
{
    if k < a.len() {
        let slashes = seq!['/', '/'];
        let open = seq!['/', '*'];
        let close = seq!['*', '/'];
        lemma_step_shift(a, b, i, d, k, spot);
        assert(a[k] == b[k + d]);
        assert(a[k - 1] == b[k - 1 + d]);
        assert(crate::align::note_at(b, k + d) == crate::align::note_at(a, k)) by {
            if k + 2 <= a.len() {
                assert(a[k + 1] == b[k + 1 + d]);
                assert(b.subrange(k + d, k + d + 2) =~= a.subrange(k, k + 2));
                lemma_same_skip(a, b, i, d, k + 2);
                lemma_find_shift(a, b, close, k + 2, d);
                if crate::text::find_from(a, close, k + 2) is Some {
                    let j = crate::text::find_from(a, close, k + 2)->0;
                    crate::laws::rules::lemma_found(a, close, k + 2);
                    lemma_same_skip(a, b, i, d, j + 2);
                }
            }
        }
        lemma_step(a, k, spot);
        match crate::align::step(a, k, spot) {
            Some((next, after)) => lemma_note_shift(a, b, i, d, next, after),
            None => {},
        }
    }
}

/// A shifted line has its `=` where the marker is now.
#[verifier::spinoff_prover]
#[verifier::rlimit(40)]
pub proof fn lemma_equals_stays(line: Seq<char>, e: int, i: int, pad: nat)
    requires
        crate::align::equals_start(line, e) == Some(i),
        pad > 0,
    ensures
        crate::align::equals_start(shifted(line, i, pad), e) == Some(code_len(line, i) + pad),
{
    let c = code_len(line, i);
    let n = c + pad;
    let d = n - i;
    let new = shifted(line, i, pad);
    crate::laws::alignment::lemma_first(Goal::Equals, line, 0, Spot::Code);
    lemma_shifted(line, i, pad);
    assert(same_from(line, new, i, d)) by {
        assert forall|k: int| i <= k < line.len() implies #[trigger] line[k] == new[k + d] by {}
    }
    assert(new[n] == line[i]);
    assert(Goal::Equals.hit(new, n)) by {
        assert(new[n - 1] == ' ');
        assert(i + 1 < line.len() ==> line[i + 1] == new[n + 1]);
    }
    lemma_first_moved(Goal::Equals, line, i, pad, 0, Spot::Code);
    lemma_note_behind(line, i, 0, Spot::Code);
    lemma_note_behind(new, n, 0, Spot::Code);
    lemma_note_shift(line, new, i, d, i + 1, Spot::Code);
    crate::laws::alignment::lemma_first(Goal::Note, line, i + 1, Spot::Code);
    let part = crate::align::code_part(line);
    assert(crate::align::code_part(new) =~= shifted(part, i, pad)) by {
        assert(part.take(i) =~= line.take(i));
    }
    lemma_member_stays(part, i, pad);
}

/// A shifted member begins and ends like a member.
proof fn lemma_member_stays(line: Seq<char>, i: int, pad: nat)
    requires
        0 <= i < line.len(),
        line[i] == '=',
    ensures
        ({
            let t = crate::text::trim_start(line, Class::White);
            let u = crate::text::trim_start(shifted(line, i, pad), Class::White);
            &&& crate::align::begins_name(t) == crate::align::begins_name(u)
            &&& crate::align::ends_member(crate::text::trim_end(t, Class::White))
                == crate::align::ends_member(crate::text::trim_end(u, Class::White))
        }),
{
    let c = code_len(line, i);
    let n = c + pad;
    let new = shifted(line, i, pad);
    lemma_shifted(line, i, pad);
    let w = lemma_lead(line);
    let rest = line.skip(i);
    assert(rest[0] == '=');
    assert(w <= i) by {
        if w > i {
            assert(crate::text::is_white(line[i]));
        }
    }
    let t = line.skip(w);
    assert(t =~= line.subrange(w, i) + rest);
    lemma_trim_tail(line.subrange(w, i), rest);
    let v = if w < c {
        w
    } else {
        n
    };
    assert(new[v] == line[w]) by {
        if w >= c && w < i {
            assert(crate::text::is_white(line[w]));
        }
    }
    assert forall|k: int| 0 <= k < v implies crate::text::is_white(#[trigger] new[k]) by {
        if k < c {
            assert(new[k] == line[k]);
        }
    }
    lemma_lead_is(new, v);
    let u = new.skip(v);
    assert(line.skip(i) == new.skip(i - i + n));
    assert(u =~= new.subrange(v, n) + rest);
    lemma_trim_tail(new.subrange(v, n), rest);
    assert(u[0] == t[0]);
    let end = crate::text::trim_end(rest, Class::White);
    assert((line.subrange(w, i) + end).last() == end.last());
    assert((new.subrange(v, n) + end).last() == end.last());
}

/// The code of a line can begin at `e`: at its start or behind something.
pub open spec fn enters(line: Seq<char>, e: int) -> bool {
    0 <= e <= line.len() && (e > 0 ==> !crate::text::is_white(line[e - 1]))
}

/// What is searched for.
pub open spec fn goal_of(marker: Marker) -> Goal {
    match marker {
        Marker::Comment { .. } => Goal::Comment,
        Marker::Equals => Goal::Equals,
        Marker::Doxygen => Goal::Doxygen,
    }
}

/// The marker of a shifted line is where it was moved to.
pub proof fn lemma_start_moved(marker: Marker, line: Seq<char>, e: int, i: int, pad: nat)
    requires
        marker.start(line, e) == Some(i),
        enters(line, e),
        pad > 0,
    ensures
        marker.start(shifted(line, i, pad), e) == Some(code_len(line, i) + pad),
        goal_of(marker).first(line, e, Spot::Code) == Some(i),
        goal_of(marker).hit(shifted(line, i, pad), code_len(line, i) + pad),
        e <= code_len(line, i),
{
    let n = code_len(line, i) + pad;
    let new = shifted(line, i, pad);
    match marker {
        Marker::Comment { .. } => lemma_comment_stays(line, e, i, pad),
        Marker::Equals => lemma_equals_stays(line, e, i, pad),
        Marker::Doxygen => lemma_doxygen_stays(line, e, i, pad),
    }
    crate::laws::alignment::lemma_first(goal_of(marker), new, e, Spot::Code);
    crate::laws::alignment::lemma_first(goal_of(marker), line, e, Spot::Code);
    lemma_shifted(line, i, pad);
    assert(e <= code_len(line, i)) by {
        if e > code_len(line, i) {
            assert(crate::text::is_white(line[e - 1]));
        }
    }
}

// ── Literals ─────────────────────────────────────────────────────────────────

/// The string and character literals of the line, from position `k` on, outside
/// of comments.
pub open spec fn literals_from(line: Seq<char>, k: int, spot: Spot) -> Seq<Seq<char>>
    decreases line.len() - k,
{
    if !(0 <= k < line.len()) {
        Seq::empty()
    } else {
        match crate::align::step(line, k, spot) {
            Some((next, after)) => if k < next <= line.len() {
                if crate::align::literal_at(line, k, spot) {
                    seq![line.subrange(k, next)] + literals_from(line, next, after)
                } else {
                    literals_from(line, next, after)
                }
            } else {
                Seq::empty()
            },
            None => Seq::empty(),
        }
    }
}

/// The string and character literals of a line, whose code begins at `e`; what
/// comes before is the end of one that began on a line before.
pub open spec fn literals(line: Seq<char>, e: int) -> Seq<Seq<char>> {
    seq![line.take(e)] + literals_from(line, e, Spot::Code)
}

proof fn lemma_literals_shift(a: Seq<char>, b: Seq<char>, i: int, d: int, k: int, spot: Spot)
    requires
        0 <= i < k,
        i < a.len(),
        0 <= i + d,
        a[i] == '/' || a[i] == '=',
        same_from(a, b, i, d),
    ensures
        literals_from(b, k + d, spot) == literals_from(a, k, spot),
    decreases a.len() - k,
{
    if k < a.len() {
        lemma_step_shift(a, b, i, d, k, spot);
        lemma_step(a, k, spot);
        match crate::align::step(a, k, spot) {
            Some((next, after)) => {
                lemma_literals_shift(a, b, i, d, next, after);
                assert(b.subrange(k + d, next + d) =~= a.subrange(k, next)) by {
                    assert forall|x: int| 0 <= x < next - k implies b.subrange(k + d, next + d)[x]
                        == a.subrange(k, next)[x] by {
                        assert(a[k + x] == b[k + x + d]);
                    }
                }
            },
            None => {},
        }
    }
}

proof fn lemma_literals_white(line: Seq<char>, k: int, i: int, spot: Spot) -> (at: Spot)
    requires
        0 <= k <= i < line.len(),
        forall|x: int| k <= x < i ==> crate::text::is_white(#[trigger] line[x]),
    ensures
        literals_from(line, k, spot) == literals_from(line, i, at),
    decreases i - k,
{
    if k < i {
        assert(crate::text::is_white(line[k]));
        assert(crate::align::step(line, k, spot) == Some((k + 1, Spot::Code)));
        lemma_literals_white(line, k + 1, i, Spot::Code)
    } else {
        spot
    }
}

/// At the marker, the search goes on as before.
proof fn lemma_literals_at(goal: Goal, a: Seq<char>, b: Seq<char>, i: int, d: int, s: Spot, t: Spot)
    requires
        0 <= i < a.len(),
        0 <= i + d,
        goal != Goal::Note,
        goal.hit(a, i),
        goal.hit(b, i + d),
        same_from(a, b, i, d),
    ensures
        literals_from(a, i, s) == literals_from(b, i + d, t),
{
    let close = seq!['*', '/'];
    lemma_hit_char(goal, a, i);
    assert(a[i] == b[i + d]);
    lemma_step(a, i, s);
    if goal == Goal::Equals {
        lemma_literals_shift(a, b, i, d, i + 1, Spot::Code);
    } else {
        assert(a[i + 1] == b[i + 1 + d]);
        if a[i + 1] == '/' {
            assert(a.subrange(i, i + 2)[1] == '/');
            assert(!crate::text::matches_at(a, i, seq!['/', '*'])) by {
                if crate::text::matches_at(a, i, seq!['/', '*']) {
                    assert(a.subrange(i, i + 2)[1] == '*');
                }
            }
            assert(!crate::text::matches_at(a, i, seq!['/', '*', '*', '<'])) by {
                if crate::text::matches_at(a, i, seq!['/', '*', '*', '<']) {
                    assert(a.subrange(i, i + 4)[1] == a[i + 1]);
                }
            }
            assert(!crate::text::matches_at(b, i + d, seq!['/', '*'])) by {
                if crate::text::matches_at(b, i + d, seq!['/', '*']) {
                    assert(b.subrange(i + d, i + d + 2)[1] == '*');
                }
            }
            assert(crate::align::step(a, i, s) is None);
            assert(crate::align::step(b, i + d, t) is None);
        } else {
            lemma_same_skip(a, b, i, d, i + 2);
            lemma_find_shift(a, b, close, i + 2, d);
            if crate::text::find_from(a, close, i + 2) is Some {
                let j = crate::text::find_from(a, close, i + 2)->0;
                crate::laws::rules::lemma_found(a, close, i + 2);
                lemma_literals_shift(a, b, i, d, j + 2, Spot::Code);
            }
        }
    }
}

/// From the end of the code on, a shifted line has the same literals.
proof fn lemma_literals_behind(goal: Goal, line: Seq<char>, i: int, pad: nat, spot: Spot)
    requires
        0 <= i < line.len(),
        goal != Goal::Note,
        goal.hit(line, i),
        pad > 0,
        goal.hit(shifted(line, i, pad), code_len(line, i) + pad),
    ensures
        literals_from(shifted(line, i, pad), code_len(line, i), spot) == literals_from(
            line,
            code_len(line, i),
            spot,
        ),
{
    let c = code_len(line, i);
    let n = c + pad;
    let new = shifted(line, i, pad);
    lemma_shifted(line, i, pad);
    assert forall|x: int| c <= x < n implies crate::text::is_white(#[trigger] new[x]) by {}
    let s = lemma_literals_white(line, c, i, spot);
    let t = lemma_literals_white(new, c, n, spot);
    assert(same_from(line, new, i, n - i)) by {
        assert forall|x: int| i <= x < line.len() implies #[trigger] line[x] == new[x + (n
            - i)] by {}
    }
    lemma_literals_at(goal, line, new, i, n - i, s, t);
}

proof fn lemma_literals_moved(goal: Goal, line: Seq<char>, i: int, pad: nat, k: int, spot: Spot)
    requires
        goal != Goal::Note,
        goal.first(line, k, spot) == Some(i),
        pad > 0,
        0 <= k <= code_len(line, i),
        goal.hit(shifted(line, i, pad), code_len(line, i) + pad),
    ensures
        literals_from(shifted(line, i, pad), k, spot) == literals_from(line, k, spot),
    decreases code_len(line, i) - k,
{
    let c = code_len(line, i);
    let new = shifted(line, i, pad);
    crate::laws::alignment::lemma_first(goal, line, k, spot);
    lemma_hit_char(goal, line, i);
    if k == c {
        lemma_literals_behind(goal, line, i, pad, spot);
    } else {
        assert(k < i) by {
            lemma_shifted(line, i, pad);
        }
        let (next, after) = crate::align::step(line, k, spot)->0;
        crate::laws::alignment::lemma_first(goal, line, next, after);
        lemma_step_prefix(line, i, pad, k, spot);
        lemma_literals_moved(goal, line, i, pad, next, after);
        assert(new.len() >= c && new.subrange(k, next) =~= line.subrange(k, next)) by {
            lemma_shifted(line, i, pad);
        }
    }
}

proof fn lemma_left_shift(a: Seq<char>, b: Seq<char>, i: int, d: int, k: int, spot: Spot)
    requires
        0 <= i < k,
        i < a.len(),
        0 <= i + d,
        a[i] == '/' || a[i] == '=',
        same_from(a, b, i, d),
    ensures
        crate::align::left_open(b, k + d, spot) == crate::align::left_open(a, k, spot),
    decreases a.len() - k,
{
    if k < a.len() {
        lemma_step_shift(a, b, i, d, k, spot);
        lemma_step(a, k, spot);
        match crate::align::step(a, k, spot) {
            Some((next, after)) => {
                lemma_left_shift(a, b, i, d, next, after);
                assert(b.subrange(k + d, next + d) =~= a.subrange(k, next)) by {
                    assert forall|x: int| 0 <= x < next - k implies b.subrange(k + d, next + d)[x]
                        == a.subrange(k, next)[x] by {
                        assert(a[k + x] == b[k + x + d]);
                    }
                }
            },
            None => {},
        }
    }
}

proof fn lemma_left_white(line: Seq<char>, k: int, i: int, spot: Spot) -> (at: Spot)
    requires
        0 <= k <= i < line.len(),
        forall|x: int| k <= x < i ==> crate::text::is_white(#[trigger] line[x]),
    ensures
        crate::align::left_open(line, k, spot) == crate::align::left_open(line, i, at),
    decreases i - k,
{
    if k < i {
        assert(crate::text::is_white(line[k]));
        assert(crate::align::step(line, k, spot) == Some((k + 1, Spot::Code)));
        lemma_left_white(line, k + 1, i, Spot::Code)
    } else {
        spot
    }
}

/// At the marker, the search goes on as before.
proof fn lemma_left_at(goal: Goal, a: Seq<char>, b: Seq<char>, i: int, d: int, s: Spot, t: Spot)
    requires
        0 <= i < a.len(),
        0 <= i + d,
        goal != Goal::Note,
        goal.hit(a, i),
        goal.hit(b, i + d),
        same_from(a, b, i, d),
    ensures
        crate::align::left_open(a, i, s) == crate::align::left_open(b, i + d, t),
{
    let close = seq!['*', '/'];
    lemma_hit_char(goal, a, i);
    assert(a[i] == b[i + d]);
    lemma_step(a, i, s);
    if goal == Goal::Equals {
        lemma_left_shift(a, b, i, d, i + 1, Spot::Code);
    } else {
        assert(a[i + 1] == b[i + 1 + d]);
        if a[i + 1] == '/' {
            assert(a.subrange(i, i + 2)[1] == '/');
            assert(!crate::text::matches_at(a, i, seq!['/', '*'])) by {
                if crate::text::matches_at(a, i, seq!['/', '*']) {
                    assert(a.subrange(i, i + 2)[1] == '*');
                }
            }
            assert(!crate::text::matches_at(a, i, seq!['/', '*', '*', '<'])) by {
                if crate::text::matches_at(a, i, seq!['/', '*', '*', '<']) {
                    assert(a.subrange(i, i + 4)[1] == a[i + 1]);
                }
            }
            assert(!crate::text::matches_at(b, i + d, seq!['/', '*'])) by {
                if crate::text::matches_at(b, i + d, seq!['/', '*']) {
                    assert(b.subrange(i + d, i + d + 2)[1] == '*');
                }
            }
            assert(crate::align::step(a, i, s) is None);
            assert(crate::align::step(b, i + d, t) is None);
        } else {
            lemma_same_skip(a, b, i, d, i + 2);
            lemma_find_shift(a, b, close, i + 2, d);
            if crate::text::find_from(a, close, i + 2) is Some {
                let j = crate::text::find_from(a, close, i + 2)->0;
                crate::laws::rules::lemma_found(a, close, i + 2);
                lemma_left_shift(a, b, i, d, j + 2, Spot::Code);
            }
        }
    }
}

/// From the end of the code on, a shifted line has the same literals.
proof fn lemma_left_behind(goal: Goal, line: Seq<char>, i: int, pad: nat, spot: Spot)
    requires
        0 <= i < line.len(),
        goal != Goal::Note,
        goal.hit(line, i),
        pad > 0,
        goal.hit(shifted(line, i, pad), code_len(line, i) + pad),
    ensures
        crate::align::left_open(shifted(line, i, pad), code_len(line, i), spot) == crate::align::left_open(
            line,
            code_len(line, i),
            spot,
        ),
{
    let c = code_len(line, i);
    let n = c + pad;
    let new = shifted(line, i, pad);
    lemma_shifted(line, i, pad);
    assert forall|x: int| c <= x < n implies crate::text::is_white(#[trigger] new[x]) by {}
    let s = lemma_left_white(line, c, i, spot);
    let t = lemma_left_white(new, c, n, spot);
    assert(same_from(line, new, i, n - i)) by {
        assert forall|x: int| i <= x < line.len() implies #[trigger] line[x] == new[x + (n
            - i)] by {}
    }
    lemma_left_at(goal, line, new, i, n - i, s, t);
}

proof fn lemma_left_moved(goal: Goal, line: Seq<char>, i: int, pad: nat, k: int, spot: Spot)
    requires
        goal != Goal::Note,
        goal.first(line, k, spot) == Some(i),
        pad > 0,
        0 <= k <= code_len(line, i),
        goal.hit(shifted(line, i, pad), code_len(line, i) + pad),
    ensures
        crate::align::left_open(shifted(line, i, pad), k, spot) == crate::align::left_open(line, k, spot),
    decreases code_len(line, i) - k,
{
    let c = code_len(line, i);
    let new = shifted(line, i, pad);
    crate::laws::alignment::lemma_first(goal, line, k, spot);
    lemma_hit_char(goal, line, i);
    if k == c {
        lemma_left_behind(goal, line, i, pad, spot);
    } else {
        assert(k < i) by {
            lemma_shifted(line, i, pad);
        }
        let (next, after) = crate::align::step(line, k, spot)->0;
        crate::laws::alignment::lemma_first(goal, line, next, after);
        lemma_step_prefix(line, i, pad, k, spot);
        lemma_left_moved(goal, line, i, pad, next, after);
        assert(new.len() >= c && new.subrange(k, next) =~= line.subrange(k, next)) by {
            lemma_shifted(line, i, pad);
        }
    }
}

/// A literal that began before closes with no white space.
pub open spec fn carries(carry: CarryView) -> bool {
    match carry {
        CarryView::Outside => true,
        CarryView::Quote { mark } => mark == '"' || mark == '\'',
        CarryView::Raw { close } => close.len() > 0 && close.last() == '"',
    }
}

proof fn lemma_left_carries(line: Seq<char>, k: int, spot: Spot)
    ensures
        carries(crate::align::left_open(line, k, spot)),
    decreases line.len() - k,
{
    if 0 <= k < line.len() {
        match crate::align::step(line, k, spot) {
            Some((next, after)) => {
                if k < next <= line.len() {
                    lemma_left_carries(line, next, after);
                }
            },
            None => {
                if line[k] == '"' && crate::align::opens_raw(line, k) {
                    lemma_raw_end(line, k);
                    assert(crate::align::raw_close(line, k).last() == '"');
                }
            },
        }
    }
}

pub proof fn lemma_carries(lines: Seq<Seq<char>>, k: int)
    ensures
        carries(crate::align::carry_to(lines, k)),
    decreases k,
{
    if k > 0 {
        lemma_carries(lines, k - 1);
        let carry = crate::align::carry_to(lines, k - 1);
        let line = lines[k - 1];
        lemma_left_carries(line, crate::align::entry(line, carry), Spot::Code);
    }
}

/// The code of a line begins at its start or behind a quote.
pub proof fn lemma_entry(line: Seq<char>, carry: CarryView)
    requires
        carries(carry),
    ensures
        ({
            let e = crate::align::entry(line, carry);
            &&& 0 <= e <= line.len()
            &&& e < line.len() ==> enters(line, e)
        }),
{
    match carry {
        CarryView::Outside => {},
        CarryView::Quote { mark } => lemma_closing(line, 0, mark),
        CarryView::Raw { close } => {
            if crate::text::find_from(line, close, 0) is Some {
                let j = crate::text::find_from(line, close, 0)->0;
                crate::laws::rules::lemma_found(line, close, 0);
                assert(line.subrange(j, j + close.len())[close.len() - 1] == line[j + close.len()
                    - 1]);
            }
        },
    }
}

/// Moving a marker changes neither where the code of its line begins nor what
/// the line is left in.
proof fn lemma_carry_moved(marker: Marker, line: Seq<char>, carry: CarryView, i: int, pad: nat)
    requires
        carries(carry),
        marker.start(line, crate::align::entry(line, carry)) == Some(i),
        pad > 0,
    ensures
        crate::align::entry(shifted(line, i, pad), carry) == crate::align::entry(line, carry),
        crate::align::leave(shifted(line, i, pad), carry) == crate::align::leave(line, carry),
{
    let e = crate::align::entry(line, carry);
    let goal = goal_of(marker);
    let new = shifted(line, i, pad);
    crate::laws::alignment::lemma_first(goal, line, e, Spot::Code);
    lemma_entry(line, carry);
    lemma_start_moved(marker, line, e, i, pad);
    lemma_shifted(line, i, pad);
    match carry {
        CarryView::Outside => {},
        CarryView::Quote { mark } => {
            assert(crate::align::closing(line, 0, mark) is Some);
            lemma_closing_prefix(line, new, 0, mark);
        },
        CarryView::Raw { close } => {
            assert(crate::text::find_from(line, close, 0) is Some);
            lemma_find_prefix(line, new, close, 0);
        },
    }
    lemma_left_moved(goal, line, i, pad, e, Spot::Code);
}

/// A line whose marker may have been moved.
pub open spec fn placed_at(marker: Marker, lines: Seq<Seq<char>>, k: int, to: Seq<char>) -> bool {
    to == lines[k] || exists|target: nat|
        to == #[trigger] marker.place(lines[k], crate::align::entry_of(lines, k), target)
}

/// The lines of `new` are those of `lines`, with some markers moved.
pub open spec fn all_placed(marker: Marker, lines: Seq<Seq<char>>, new: Seq<Seq<char>>) -> bool {
    new.len() == lines.len() && forall|k: int|
        0 <= k < lines.len() ==> #[trigger] placed_at(marker, lines, k, new[k])
}

/// Moved markers leave every line to start in what it started in.
pub proof fn lemma_carry_kept(marker: Marker, lines: Seq<Seq<char>>, new: Seq<Seq<char>>, k: int)
    requires
        all_placed(marker, lines, new),
        0 <= k <= lines.len(),
    ensures
        crate::align::carry_to(new, k) == crate::align::carry_to(lines, k),
        k < lines.len() ==> crate::align::entry_of(new, k) == crate::align::entry_of(lines, k),
    decreases k,
{
    if k > 0 {
        lemma_carry_kept(marker, lines, new, k - 1);
        lemma_line_kept(marker, lines, new, k - 1);
    }
    if k < lines.len() {
        lemma_line_kept(marker, lines, new, k);
    }
}

proof fn lemma_line_kept(marker: Marker, lines: Seq<Seq<char>>, new: Seq<Seq<char>>, k: int)
    requires
        all_placed(marker, lines, new),
        0 <= k < lines.len(),
    ensures
        ({
            let carry = crate::align::carry_to(lines, k);
            &&& crate::align::entry(new[k], carry) == crate::align::entry(lines[k], carry)
            &&& crate::align::leave(new[k], carry) == crate::align::leave(lines[k], carry)
        }),
{
    let carry = crate::align::carry_to(lines, k);
    let line = lines[k];
    let e = crate::align::entry_of(lines, k);
    lemma_carries(lines, k);
    assert(placed_at(marker, lines, k, new[k]));
    if new[k] != line {
        let target = choose|target: nat| new[k] == #[trigger] marker.place(line, e, target);
        let i = marker.start(line, e)->0;
        let width = crate::text::byte_len(marker.code(line, e));
        let pad = (crate::layout::max(target, width + 1) - width) as nat;
        assert(new[k] == shifted(line, i, pad));
        lemma_carry_moved(marker, line, carry, i, pad);
    }
}

/// Moving a marker keeps the literals of its line.
proof fn lemma_literals_placed(marker: Marker, line: Seq<char>, e: int, target: nat)
    requires
        enters(line, e) || e == line.len(),
    ensures
        literals(marker.place(line, e, target), e) == literals(line, e),
{
    match marker.start(line, e) {
        Some(i) => {
            let width = crate::text::byte_len(marker.code(line, e));
            let pad = (crate::layout::max(target, width + 1) - width) as nat;
            let new = shifted(line, i, pad);
            assert(marker.place(line, e, target) == new);
            crate::laws::alignment::lemma_first(goal_of(marker), line, e, Spot::Code);
            lemma_start_moved(marker, line, e, i, pad);
            lemma_shifted(line, i, pad);
            lemma_literals_moved(goal_of(marker), line, i, pad, e, Spot::Code);
            assert(new.take(e) == line.take(e));
        },
        None => {},
    }
}

/// Alignment keeps the text of string and character literals: on each line
/// they are what they were, blanks in them included, and so is the end of one
/// that began on a line before.
pub proof fn law_alignment_keeps_literals(rule: Rule, lines: Seq<Seq<char>>, k: int)
    requires
        0 <= k < lines.len(),
    ensures
        ({
            let new = rule.align_from(lines, 0);
            &&& crate::align::entry_of(new, k) == crate::align::entry_of(lines, k)
            &&& literals(new[k], crate::align::entry_of(new, k)) == literals(
                lines[k],
                crate::align::entry_of(lines, k),
            )
        }),
{
    let new = rule.align_from(lines, 0);
    let e = crate::align::entry_of(lines, k);
    crate::laws::alignment::lemma_all_placed(rule, lines);
    lemma_carry_kept(rule.marker, lines, new, k);
    lemma_carries(lines, k);
    lemma_entry(lines[k], crate::align::carry_to(lines, k));
    assert(placed_at(rule.marker, lines, k, new[k]));
    if new[k] != lines[k] {
        let target = choose|target: nat|
            new[k] == #[trigger] rule.marker.place(lines[k], e, target);
        lemma_literals_placed(rule.marker, lines[k], e, target);
    }
}

} // verus!
