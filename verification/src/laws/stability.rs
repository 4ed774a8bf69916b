//! Aligning a text twice is the same as aligning it once.

use crate::align::{Marker, Rule, Spot};
use crate::config::Eol;
use crate::text::Class;
use vstd::prelude::*;

verus! {

// ── Groups ───────────────────────────────────────────────────────────────────

/// Moving a marker keeps the code before it, and it can be moved again.
proof fn lemma_place_again(marker: Marker, line: Seq<char>, e: int, target: nat)
    requires
        crate::laws::walking::enters(line, e) || e == line.len(),
    ensures
        ({
            let new = marker.place(line, e, target);
            &&& marker.start(new, e) is Some <==> marker.start(line, e) is Some
            &&& marker.code(new, e) == marker.code(line, e)
            &&& forall|again: nat| #[trigger]
                marker.place(new, e, again) == marker.place(line, e, again)
        }),
{
    crate::laws::alignment::lemma_start(marker, line, e);
    match marker.start(line, e) {
        Some(i) => {
            let code = marker.code(line, e);
            let width = crate::text::byte_len(code);
            let pad = (crate::layout::max(target, width + 1) - width) as nat;
            let new = marker.place(line, e, target);
            let n = crate::laws::walking::code_len(line, i) + pad;
            assert(new == crate::laws::walking::shifted(line, i, pad));
            crate::laws::walking::lemma_shifted(line, i, pad);
            crate::laws::alignment::lemma_first(
                crate::laws::walking::goal_of(marker),
                line,
                e,
                Spot::Code,
            );
            crate::laws::walking::lemma_start_moved(marker, line, e, i, pad);
            assert(marker.start(new, e) == Some(n));
            assert(new.take(n) =~= code + crate::text::spaces(pad));
            crate::laws::rules::lemma_trimmed(line.take(i), Class::White);
            crate::laws::rules::lemma_trim_spaces(code, pad);
            assert(line.skip(i) == new.skip(i - i + n));
            assert forall|again: nat| #[trigger] marker.place(new, e, again) == marker.place(
                line,
                e,
                again,
            ) by {}
        },
        None => {},
    }
}

proof fn lemma_moved(marker: Marker, lines: Seq<Seq<char>>, new: Seq<Seq<char>>, k: int)
    requires
        crate::laws::walking::all_placed(marker, lines, new),
        0 <= k < lines.len(),
    ensures
        crate::align::entry_of(new, k) == crate::align::entry_of(lines, k),
        marker.start_of(new, k) is Some <==> marker.start_of(lines, k) is Some,
        marker.start_of(lines, k) is None ==> new[k] == lines[k],
        ({
            let e = crate::align::entry_of(lines, k);
            &&& marker.code(new[k], e) == marker.code(lines[k], e)
            &&& forall|again: nat| #[trigger]
                marker.place(new[k], e, again) == marker.place(lines[k], e, again)
        }),
{
    let e = crate::align::entry_of(lines, k);
    crate::laws::walking::lemma_carry_kept(marker, lines, new, k);
    crate::laws::walking::lemma_carries(lines, k);
    crate::laws::walking::lemma_entry(lines[k], crate::align::carry_to(lines, k));
    assert(crate::laws::walking::placed_at(marker, lines, k, new[k]));
    if new[k] != lines[k] {
        let target = choose|target: nat| new[k] == #[trigger] marker.place(lines[k], e, target);
        lemma_place_again(marker, lines[k], e, target);
    }
}

proof fn lemma_group_end_again(
    marker: Marker,
    lines: Seq<Seq<char>>,
    new: Seq<Seq<char>>,
    last: int,
    k: int,
)
    requires
        crate::laws::walking::all_placed(marker, lines, new),
        0 <= k,
    ensures
        marker.group_end(new, last, k) == marker.group_end(lines, last, k),
    decreases lines.len() - k,
{
    if k < lines.len() {
        lemma_moved(marker, lines, new, k);
        lemma_group_end_again(marker, lines, new, k, k + 1);
        lemma_group_end_again(marker, lines, new, last, k + 1);
    }
}

proof fn lemma_measures_again(
    marker: Marker,
    lines: Seq<Seq<char>>,
    new: Seq<Seq<char>>,
    i: int,
    j: int,
)
    requires
        crate::laws::walking::all_placed(marker, lines, new),
        0 <= i,
        j <= lines.len(),
    ensures
        marker.marked(new, i, j) == marker.marked(lines, i, j),
        marker.widest(new, i, j) == marker.widest(lines, i, j),
    decreases j - i,
{
    if i < j {
        lemma_moved(marker, lines, new, j - 1);
        lemma_measures_again(marker, lines, new, i, j - 1);
    }
}

/// From line `i` on, aligning the aligned lines changes nothing.
proof fn lemma_align_again(rule: Rule, lines: Seq<Seq<char>>, new: Seq<Seq<char>>, i: int)
    requires
        crate::laws::walking::all_placed(rule.marker, lines, new),
        0 <= i <= lines.len(),
        new.skip(i) == rule.align_from(lines, i),
    ensures
        rule.align_from(new, i) == new.skip(i),
    decreases lines.len() - i,
{
    if i >= lines.len() {
        assert(new.skip(i) =~= Seq::empty());
    } else {
        lemma_moved(rule.marker, lines, new, i);
        if rule.marker.start_of(lines, i) is Some {
            let j = rule.marker.group_end(lines, i, i + 1);
            rule.marker.lemma_group_end(lines, i, i + 1);
            lemma_group_end_again(rule.marker, lines, new, i, i + 1);
            lemma_measures_again(rule.marker, lines, new, i, j);
            let group = rule.align_group(lines, i, j);
            let rest = rule.align_from(lines, j);
            let target = rule.target(lines, i, j);
            assert(group.len() == j - i);
            assert(new.subrange(i, j) =~= group) by {
                assert forall|k: int| 0 <= k < j - i implies new.subrange(i, j)[k] == group[k] by {
                    assert(new.skip(i)[k] == (group + rest)[k]);
                }
            }
            assert(new.skip(j) =~= rest) by {
                assert(new.skip(i).skip(j - i) =~= new.skip(j));
                assert((group + rest).skip(j - i) =~= rest);
            }
            lemma_align_again(rule, lines, new, j);
            let again = rule.align_group(new, i, j);
            assert(again =~= group) by {
                assert forall|k: int| 0 <= k < j - i implies again[k] == group[k] by {
                    lemma_moved(rule.marker, lines, new, i + k);
                    assert(new.subrange(i, j)[k] == new[i + k]);
                    assert(lines.subrange(i, j)[k] == lines[i + k]);
                    let e = crate::align::entry_of(lines, i + k);
                    assert(rule.marker.place(new[i + k], e, target) == rule.marker.place(
                        lines[i + k],
                        e,
                        target,
                    ));
                }
            }
            assert(rule.align_from(new, i) =~= new.skip(i));
        } else {
            let rest = rule.align_from(lines, i + 1);
            assert(new.skip(i + 1) =~= rest) by {
                assert(new.skip(i).skip(1) =~= new.skip(i + 1));
                assert((seq![lines[i]] + rest).skip(1) =~= rest);
            }
            lemma_align_again(rule, lines, new, i + 1);
            assert(rule.align_from(new, i) =~= new.skip(i));
        }
    }
}

/// Aligning the aligned lines changes nothing.
proof fn lemma_lines_stable(rule: Rule, lines: Seq<Seq<char>>)
    ensures
        rule.align_from(rule.align_from(lines, 0), 0) == rule.align_from(lines, 0),
{
    let new = rule.align_from(lines, 0);
    crate::laws::alignment::lemma_all_placed(rule, lines);
    assert(new.skip(0) =~= new);
    lemma_align_again(rule, lines, new, 0);
}

// ── Texts ────────────────────────────────────────────────────────────────────

/// The text holds no line end.
pub open spec fn holds_no(s: Seq<char>, sep: Seq<char>) -> bool {
    forall|k: int| !#[trigger] crate::text::matches_at(s, k, sep)
}

pub open spec fn all_hold_no(lines: Seq<Seq<char>>, sep: Seq<char>) -> bool {
    forall|k: int| 0 <= k < lines.len() ==> holds_no(#[trigger] lines[k], sep)
}

proof fn lemma_part_holds_no(s: Seq<char>, sep: Seq<char>, a: int, b: int)
    requires
        0 <= a <= b <= s.len(),
        forall|k: int|
            a <= k && k + sep.len() <= b ==> !#[trigger] crate::text::matches_at(s, k, sep),
    ensures
        holds_no(s.subrange(a, b), sep),
{
    let part = s.subrange(a, b);
    assert forall|k: int| !#[trigger] crate::text::matches_at(part, k, sep) by {
        if crate::text::matches_at(part, k, sep) {
            assert(s.subrange(a + k, a + k + sep.len()) =~= part.subrange(k, k + sep.len()));
            assert(crate::text::matches_at(s, a + k, sep));
        }
    }
}

proof fn lemma_split_parts(s: Seq<char>, sep: Seq<char>, start: int, i: int)
    requires
        0 <= start <= i <= s.len(),
        sep.len() > 0,
        forall|k: int| start <= k < i ==> !#[trigger] crate::text::matches_at(s, k, sep),
    ensures
        all_hold_no(crate::text::split_from(s, sep, start, i), sep),
        crate::text::split_from(s, sep, start, i).len() > 0,
    decreases s.len() - i,
{
    let lines = crate::text::split_from(s, sep, start, i);
    if i >= s.len() {
        assert forall|k: int|
            start <= k && k + sep.len() <= s.len() implies !#[trigger] crate::text::matches_at(
            s,
            k,
            sep,
        ) by {}
        lemma_part_holds_no(s, sep, start, s.len() as int);
        assert(s.skip(start) =~= s.subrange(start, s.len() as int));
    } else if crate::text::matches_at(s, i, sep) {
        let j = i + sep.len();
        let rest = crate::text::split_from(s, sep, j, j);
        lemma_split_parts(s, sep, j, j);
        lemma_part_holds_no(s, sep, start, i);
        assert forall|k: int| 0 <= k < lines.len() implies holds_no(#[trigger] lines[k], sep) by {
            if k > 0 {
                assert(lines[k] == rest[k - 1]);
            }
        }
    } else {
        lemma_split_parts(s, sep, start, i + 1);
    }
}

/// A moved marker brings no line end with it.
proof fn lemma_moved_holds_no(marker: Marker, line: Seq<char>, e: int, target: nat, eol: Eol)
    requires
        holds_no(line, eol.text()),
    ensures
        holds_no(marker.place(line, e, target), eol.text()),
{
    crate::laws::alignment::lemma_start(marker, line, e);
    match marker.start(line, e) {
        Some(i) => {
            let width = crate::text::byte_len(marker.code(line, e));
            let pad = (crate::layout::max(target, width + 1) - width) as nat;
            let new = marker.place(line, e, target);
            assert(new == crate::laws::walking::shifted(line, i, pad));
            assert forall|k: int| !#[trigger] crate::text::matches_at(new, k, eol.text()) by {
                if crate::text::matches_at(new, k, eol.text()) {
                    crate::laws::walking::lemma_no_straddle(line, i, pad, k, eol.text());
                }
            }
        },
        None => {},
    }
}

pub proof fn lemma_join_first(lines: Seq<Seq<char>>, sep: Seq<char>)
    requires
        lines.len() > 1,
    ensures
        crate::text::join(lines, sep) == lines[0] + sep + crate::text::join(
            lines.drop_first(),
            sep,
        ),
    decreases lines.len(),
{
    let rest = lines.drop_first();
    if lines.len() == 2 {
        let init = lines.drop_last();
        assert(init.len() == 1 && init[0] == lines[0]);
        assert(rest.len() == 1 && rest[0] == lines[1]);
        assert(crate::text::join(init, sep) == lines[0]);
        assert(crate::text::join(rest, sep) == lines[1]);
        assert(crate::text::join(lines, sep) == crate::text::join(init, sep) + sep + lines.last());
    } else {
        let init = lines.drop_last();
        lemma_join_first(init, sep);
        assert(init.drop_first() =~= rest.drop_last());
        assert(crate::text::join(lines, sep) =~= lines[0] + sep + crate::text::join(rest, sep));
    }
}

proof fn lemma_split_shift(s: Seq<char>, sep: Seq<char>, d: int, start: int, i: int)
    requires
        0 <= d <= s.len(),
        0 <= start <= i <= s.len() - d,
    ensures
        crate::text::split_from(s, sep, start + d, i + d) == crate::text::split_from(
            s.skip(d),
            sep,
            start,
            i,
        ),
    decreases s.len() - d - i,
{
    let t = s.skip(d);
    if i >= t.len() || sep.len() == 0 {
        assert(s.skip(start + d) =~= t.skip(start));
    } else {
        if i + sep.len() <= t.len() {
            assert(s.subrange(i + d, i + d + sep.len()) =~= t.subrange(i, i + sep.len()));
        }
        if crate::text::matches_at(t, i, sep) {
            assert(s.subrange(start + d, i + d) =~= t.subrange(start, i));
            lemma_split_shift(s, sep, d, i + sep.len(), i + sep.len());
        } else {
            lemma_split_shift(s, sep, d, start, i + 1);
        }
    }
}

/// The text starts with `line`, then comes a line end or nothing.
proof fn lemma_split_line(s: Seq<char>, line: Seq<char>, eol: Eol, i: int)
    requires
        holds_no(line, eol.text()),
        0 <= i <= line.len() <= s.len(),
        s.take(line.len() as int) == line,
        s.len() == line.len() || crate::text::matches_at(s, line.len() as int, eol.text()),
    ensures
        crate::text::split_from(s, eol.text(), 0, i) == crate::text::split_from(
            s,
            eol.text(),
            0,
            line.len() as int,
        ),
    decreases line.len() - i,
{
    let sep = eol.text();
    let n = line.len() as int;
    if i < n {
        assert(!crate::text::matches_at(s, i, sep)) by {
            if crate::text::matches_at(s, i, sep) {
                let part = s.subrange(i, i + sep.len());
                if i + sep.len() <= n {
                    assert(line.subrange(i, i + sep.len()) =~= part);
                    assert(crate::text::matches_at(line, i, sep));
                } else if s.len() > n {
                    assert(part[1] == s[n]);
                    assert(s.subrange(n, n + sep.len())[0] == s[n]);
                }
            }
        }
        lemma_split_line(s, line, eol, i + 1);
    }
}

/// Splitting joined lines gives them back.
pub proof fn lemma_split_join(lines: Seq<Seq<char>>, eol: Eol)
    requires
        lines.len() > 0,
        all_hold_no(lines, eol.text()),
    ensures
        crate::text::split(crate::text::join(lines, eol.text()), eol.text()) == lines,
    decreases lines.len(),
{
    let sep = eol.text();
    let s = crate::text::join(lines, sep);
    let first = lines[0];
    let n = first.len() as int;
    if lines.len() == 1 {
        assert(s.take(n) =~= first);
        lemma_split_line(s, first, eol, 0);
        assert(s.skip(0) =~= first);
        assert(lines =~= seq![first]);
    } else {
        let rest = lines.drop_first();
        let m = n + sep.len();
        lemma_join_first(lines, sep);
        assert(s.take(n) =~= first);
        assert(s.subrange(n, m) =~= sep);
        lemma_split_line(s, first, eol, 0);
        assert(s.subrange(0, n) =~= first);
        assert(s.skip(m) =~= crate::text::join(rest, sep));
        lemma_split_shift(s, sep, m, 0, 0);
        assert forall|k: int| 0 <= k < rest.len() implies holds_no(#[trigger] rest[k], sep) by {
            assert(holds_no(lines[k + 1], sep));
        }
        lemma_split_join(rest, eol);
        assert(seq![first] + rest =~= lines);
    }
}

/// Aligning a text twice is the same as aligning it once.
pub proof fn law_alignment_is_stable(rule: Rule, text: Seq<char>, eol: Eol)
    ensures
        rule.align(rule.align(text, eol), eol) == rule.align(text, eol),
{
    let sep = eol.text();
    let lines = crate::text::split(text, sep);
    let new = rule.align_from(lines, 0);
    lemma_lines_stable(rule, lines);
    crate::laws::alignment::law_alignment_keeps_lines(rule, lines);
    lemma_split_parts(text, sep, 0, 0);
    assert forall|k: int| 0 <= k < new.len() implies holds_no(#[trigger] new[k], sep) by {
        assert(holds_no(lines[k], sep));
        assert(crate::laws::alignment::moved(rule.marker, lines[k], rule.align_from(lines, 0)[k]));
        if new[k] != lines[k] {
            let (e, target) = choose|e: int, target: nat|
                new[k] == #[trigger] rule.marker.place(lines[k], e, target);
            lemma_moved_holds_no(rule.marker, lines[k], e, target, eol);
        }
    }
    lemma_split_join(new, eol);
}

} // verus!
