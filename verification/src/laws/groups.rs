//! How far the groups of aligned lines reach.

use crate::align::{Marker, Rule};
use crate::laws::columns::{follows, is_blank_line, is_marked, leads_with};
use crate::text::Class;
use vstd::prelude::*;

verus! {

/// The markers of lines `k` and `l` belong to different groups: trailing comments
/// `span` lines apart or more; enum members with a line between that starts with
/// a brace; Doxygen comments with an empty line or one that starts with a `}`
/// between.
pub open spec fn are_parted(marker: Marker, lines: Seq<Seq<char>>, k: int, l: int) -> bool {
    match marker {
        Marker::Comment { span } => l - k >= span && l > k + 1,
        Marker::Equals => exists|x: int|
            k < x < l && (leads_with(#[trigger] lines[x], '}') || leads_with(lines[x], '{')),
        Marker::Doxygen => exists|x: int|
            k < x < l && (is_blank_line(#[trigger] lines[x]) || leads_with(lines[x], '}')),
    }
}

proof fn lemma_leads(line: Seq<char>, c: char) -> (n: int)
    requires
        leads_with(line, c),
    ensures
        0 <= n < line.len(),
        line[n] == c,
        forall|i: int| 0 <= i < n ==> crate::text::is_white(#[trigger] line[i]),
        crate::text::trim_start(line, Class::White) == line.skip(n),
{
    let n = choose|n: int|
        0 <= n < line.len() && #[trigger] line[n] == c && !crate::text::is_white(c) && forall|i: int|
            0 <= i < n ==> crate::text::is_white(#[trigger] line[i]);
    crate::laws::columns::lemma_trimmed_start(line, n);
    n
}

/// The code of a line that starts with a brace starts with it, too.
proof fn lemma_brace_is_no_member(line: Seq<char>, c: char)
    requires
        leads_with(line, c),
        c == '{' || c == '}',
    ensures
        !crate::align::is_bare_member(line),
{
    let n = lemma_leads(line, c);
    let code = crate::align::code_part(line);
    assert(code == line || exists|i: int| 0 <= i <= line.len() && code == #[trigger] line.take(i))
        by {
        crate::laws::alignment::lemma_first(
            crate::align::Goal::Note,
            line,
            0,
            crate::align::Spot::Code,
        );
    }
    if code != line {
        let i = choose|i: int| 0 <= i <= line.len() && code == #[trigger] line.take(i);
        if n < i {
            assert forall|x: int| 0 <= x < n implies crate::text::is_white(#[trigger] code[x]) by {
                assert(code[x] == line[x]);
            }
            assert(code[n] == c);
            crate::laws::columns::lemma_trimmed_start(code, n);
        } else {
            assert forall|x: int| 0 <= x < i implies crate::text::is_white(#[trigger] code[x]) by {
                assert(code[x] == line[x]);
            }
            crate::laws::columns::lemma_trimmed_start(code, i);
        }
    }
    let t = crate::text::trim_start(code, Class::White);
    assert(t.len() > 0 ==> t[0] == c);
    crate::laws::spelling::law_ascii_letters(c);
}

proof fn lemma_stops(marker: Marker, lines: Seq<Seq<char>>, k: int, l: int) -> (b: int)
    requires
        are_parted(marker, lines, k, l),
        0 <= k < l < lines.len(),
    ensures
        k < b <= l,
        b < l ==> !marker.bridges(lines[b]),
        b == l ==> !marker.reaches(k, l),
{
    match marker {
        Marker::Comment { .. } => l,
        Marker::Equals => {
            let x = choose|x: int|
                k < x < l && (leads_with(#[trigger] lines[x], '}') || leads_with(lines[x], '{'));
            let c = if leads_with(lines[x], '}') {
                '}'
            } else {
                '{'
            };
            lemma_brace_is_no_member(lines[x], c);
            let n = lemma_leads(lines[x], c);
            assert(lines[x].skip(n)[0] == c);
            x
        },
        Marker::Doxygen => {
            let x = choose|x: int|
                k < x < l && (is_blank_line(#[trigger] lines[x]) || leads_with(lines[x], '}'));
            if is_blank_line(lines[x]) {
                crate::laws::columns::lemma_blank_trim(lines[x]);
            } else {
                let n = lemma_leads(lines[x], '}');
                assert(lines[x].skip(n)[0] == '}');
            }
            x
        },
    }
}

/// Behind line `k` the group ends.
proof fn lemma_ends_here(marker: Marker, lines: Seq<Seq<char>>, k: int, l: int, b: int, x: int)
    requires
        follows(marker, lines, k, l),
        0 <= k < x <= b <= l,
        b < l ==> !marker.bridges(lines[b]),
        b == l ==> !marker.reaches(k, l),
    ensures
        marker.group_end(lines, k, x) == k + 1,
    decreases b - x,
{
    if x < l {
        assert(!is_marked(marker, lines, x));
        if x < b {
            lemma_ends_here(marker, lines, k, l, b, x + 1);
        }
    }
}

/// What a line starts in depends on the lines before it alone.
proof fn lemma_same_entry(lines: Seq<Seq<char>>, n: int, k: int)
    requires
        0 <= k < n <= lines.len(),
    ensures
        crate::align::carry_to(lines, k) == crate::align::carry_to(lines.take(n), k),
        crate::align::entry_of(lines, k) == crate::align::entry_of(lines.take(n), k),
    decreases k,
{
    if k > 0 {
        lemma_same_entry(lines, n, k - 1);
    }
}

proof fn lemma_same_group_end(
    marker: Marker,
    lines: Seq<Seq<char>>,
    k: int,
    l: int,
    last: int,
    x: int,
)
    requires
        follows(marker, lines, k, l),
        are_parted(marker, lines, k, l),
        0 <= last < x <= k + 1,
        x == k + 1 ==> last == k,
    ensures
        marker.group_end(lines, last, x) == marker.group_end(lines.take(k + 1), last, x),
    decreases k + 1 - x,
{
    let part = lines.take(k + 1);
    if x == k + 1 {
        let b = lemma_stops(marker, lines, k, l);
        lemma_ends_here(marker, lines, k, l, b, k + 1);
    } else {
        lemma_same_entry(lines, k + 1, x);
        assert(marker.start_of(lines, x) == marker.start_of(part, x));
        if is_marked(marker, lines, x) {
            lemma_same_group_end(marker, lines, k, l, x, x + 1);
        } else {
            assert(x != k);
            lemma_same_group_end(marker, lines, k, l, last, x + 1);
        }
    }
}

proof fn lemma_same_measure(marker: Marker, lines: Seq<Seq<char>>, n: int, i: int, j: int)
    requires
        0 <= i,
        j <= n <= lines.len(),
    ensures
        marker.marked(lines, i, j) == marker.marked(lines.take(n), i, j),
        marker.widest(lines, i, j) == marker.widest(lines.take(n), i, j),
    decreases j - i,
{
    if i < j {
        lemma_same_measure(marker, lines, n, i, j - 1);
        lemma_same_entry(lines, n, j - 1);
    }
}

proof fn lemma_same_alignment(rule: Rule, lines: Seq<Seq<char>>, k: int, l: int, i: int)
    requires
        follows(rule.marker, lines, k, l),
        are_parted(rule.marker, lines, k, l),
        0 <= i <= k + 1,
    ensures
        forall|x: int|
            i <= x <= k ==> #[trigger] rule.align_from(lines, i)[x - i] == rule.align_from(
                lines.take(k + 1),
                i,
            )[x - i],
    decreases k + 1 - i,
{
    let part = lines.take(k + 1);
    if i <= k {
        crate::laws::alignment::lemma_align_from(rule, lines, i);
        crate::laws::alignment::lemma_align_from(rule, part, i);
        lemma_same_entry(lines, k + 1, i);
        assert(rule.marker.start_of(lines, i) == rule.marker.start_of(part, i));
        let a = rule.align_from(lines, i);
        let b = rule.align_from(part, i);
        if is_marked(rule.marker, lines, i) {
            lemma_same_group_end(rule.marker, lines, k, l, i, i + 1);
            rule.marker.lemma_group_end(part, i, i + 1);
            let j = rule.marker.group_end(part, i, i + 1);
            lemma_same_measure(rule.marker, lines, k + 1, i, j);
            let g = rule.align_group(lines, i, j);
            let h = rule.align_group(part, i, j);
            assert forall|x: int| 0 <= x < j - i implies #[trigger] g[x] == h[x] by {
                lemma_same_entry(lines, k + 1, i + x);
            }
            assert(g.len() == j - i && h.len() == j - i);
            lemma_same_alignment(rule, lines, k, l, j);
            assert forall|x: int| i <= x <= k implies #[trigger] a[x - i] == b[x - i] by {
                if x < j {
                    assert(a[x - i] == g[x - i] && b[x - i] == h[x - i]);
                } else {
                    assert(a[x - i] == rule.align_from(lines, j)[x - j]);
                    assert(b[x - i] == rule.align_from(part, j)[x - j]);
                }
            }
        } else {
            lemma_same_alignment(rule, lines, k, l, i + 1);
            assert forall|x: int| i <= x <= k implies #[trigger] a[x - i] == b[x - i] by {
                if x > i {
                    assert(a[x - i] == rule.align_from(lines, i + 1)[x - (i + 1)]);
                    assert(b[x - i] == rule.align_from(part, i + 1)[x - (i + 1)]);
                }
            }
        }
    }
}

/// Markers of different groups do not move each other: what stands before the
/// break is aligned as if nothing followed.
pub proof fn law_groups_are_aligned_apart(rule: Rule, lines: Seq<Seq<char>>, k: int, l: int, x: int)
    requires
        follows(rule.marker, lines, k, l),
        are_parted(rule.marker, lines, k, l),
        0 <= x <= k,
    ensures
        rule.align_from(lines, 0)[x] == rule.align_from(lines.take(k + 1), 0)[x],
{
    lemma_same_alignment(rule, lines, k, l, 0);
    assert(rule.align_from(lines, 0)[x - 0] == rule.align_from(lines.take(k + 1), 0)[x - 0]);
}

} // verus!
