//! Alignment moves markers to a common column and touches nothing else.

use crate::align::{Goal, Marker, Rule, Spot};
use crate::config::Eol;
use crate::text::Class;
use vstd::prelude::*;

verus! {

// ── Markers lie within their lines ───────────────────────────────────────────

/// What is found lies within the line, where the search has come to.
pub proof fn lemma_first(goal: Goal, line: Seq<char>, k: int, spot: Spot)
    ensures
        match goal.first(line, k, spot) {
            Some(i) => 0 <= k <= i < line.len() && goal.hit(line, i),
            None => true,
        },
    decreases line.len() - k,
{
    if 0 <= k < line.len() && !goal.hit(line, k) {
        match crate::align::step(line, k, spot) {
            Some((next, after)) => {
                if k < next <= line.len() {
                    lemma_first(goal, line, next, after);
                }
            },
            None => {},
        }
    }
}

pub proof fn lemma_start(marker: Marker, line: Seq<char>, e: int)
    ensures
        match marker.start(line, e) {
            Some(i) => 0 <= i < line.len(),
            None => true,
        },
        line.len() == 0 ==> marker.start(line, e) is None,
{
    lemma_first(Goal::Comment, line, e, Spot::Code);
    lemma_first(Goal::Doxygen, line, e, Spot::Code);
    lemma_first(Goal::Equals, line, 0, Spot::Code);
}

// ── Content ──────────────────────────────────────────────────────────────────

proof fn lemma_place(marker: Marker, line: Seq<char>, e: int, target: nat)
    ensures
        crate::content::solid(marker.place(line, e, target)) == crate::content::solid(line),
{
    lemma_start(marker, line, e);
    match marker.start(line, e) {
        Some(i) => {
            let code = marker.code(line, e);
            let width = crate::text::byte_len(code);
            let pad = crate::text::spaces(
                (crate::layout::max(target, width + 1) - width) as nat,
            );
            crate::content::lemma_solid_trim_end(line.take(i), Class::White);
            crate::content::lemma_solid_tail(code, pad);
            crate::content::lemma_solid_add(code + pad, line.skip(i));
            crate::content::lemma_solid_add(line.take(i), line.skip(i));
            assert(line.take(i) + line.skip(i) =~= line);
        },
        None => {},
    }
}

/// Lines of the same content each have the same content.
proof fn lemma_same_lines(a: Seq<Seq<char>>, b: Seq<Seq<char>>)
    requires
        a.len() == b.len(),
        forall|k: int|
            0 <= k < a.len() ==> crate::content::solid(#[trigger] a[k]) == crate::content::solid(
                b[k],
            ),
    ensures
        crate::content::solid_lines(a) == crate::content::solid_lines(b),
    decreases a.len(),
{
    if a.len() > 0 {
        let n = a.len() - 1;
        assert forall|k: int| 0 <= k < a.drop_last().len() implies crate::content::solid(
            #[trigger] a.drop_last()[k],
        ) == crate::content::solid(b.drop_last()[k]) by {
            assert(crate::content::solid(a[k]) == crate::content::solid(b[k]));
        }
        lemma_same_lines(a.drop_last(), b.drop_last());
        assert(crate::content::solid(a[n]) == crate::content::solid(b[n]));
        crate::content::lemma_solid_lines_add(a.drop_last(), seq![a.last()]);
        crate::content::lemma_solid_lines_add(b.drop_last(), seq![b.last()]);
        crate::content::lemma_solid_one_line(a.last());
        crate::content::lemma_solid_one_line(b.last());
        assert(a.drop_last() + seq![a.last()] =~= a);
        assert(b.drop_last() + seq![b.last()] =~= b);
    } else {
        assert(a =~= b);
    }
}

proof fn lemma_align_group(rule: Rule, lines: Seq<Seq<char>>, i: int, j: int)
    requires
        0 <= i <= j <= lines.len(),
    ensures
        rule.align_group(lines, i, j).len() == j - i,
        crate::content::solid_lines(rule.align_group(lines, i, j)) == crate::content::solid_lines(
            lines.subrange(i, j),
        ),
        forall|k: int|
            0 <= k < j - i ==> crate::laws::walking::placed_at(
                rule.marker,
                lines,
                i + k,
                #[trigger] rule.align_group(lines, i, j)[k],
            ),
{
    let target = rule.target(lines, i, j);
    let out = rule.align_group(lines, i, j);
    assert forall|k: int| 0 <= k < j - i implies crate::laws::walking::placed_at(
        rule.marker,
        lines,
        i + k,
        #[trigger] out[k],
    ) by {
        if rule.marker.marked(lines, i, j) >= rule.least {
            assert(out[k] == rule.marker.place(
                lines[i + k],
                crate::align::entry_of(lines, i + k),
                target,
            ));
        }
    }
    assert forall|k: int| 0 <= k < out.len() implies crate::content::solid(#[trigger] out[k])
        == crate::content::solid(lines.subrange(i, j)[k]) by {
        lemma_place(
            rule.marker,
            lines[i + k],
            crate::align::entry_of(lines, i + k),
            target,
        );
    }
    lemma_same_lines(out, lines.subrange(i, j));
}

pub proof fn lemma_align_from(rule: Rule, lines: Seq<Seq<char>>, i: int)
    requires
        0 <= i <= lines.len(),
    ensures
        rule.align_from(lines, i).len() == lines.len() - i,
        crate::content::solid_lines(rule.align_from(lines, i)) == crate::content::solid_lines(
            lines.skip(i),
        ),
        forall|k: int|
            0 <= k < lines.len() - i ==> crate::laws::walking::placed_at(
                rule.marker,
                lines,
                i + k,
                #[trigger] rule.align_from(lines, i)[k],
            ),
    decreases lines.len() - i,
{
    let out = rule.align_from(lines, i);
    if i >= lines.len() {
        assert(lines.skip(i) =~= Seq::empty());
    } else if rule.marker.start_of(lines, i) is Some {
        rule.marker.lemma_group_end(lines, i, i + 1);
        let j = rule.marker.group_end(lines, i, i + 1);
        let group = rule.align_group(lines, i, j);
        let rest = rule.align_from(lines, j);
        lemma_align_group(rule, lines, i, j);
        lemma_align_from(rule, lines, j);
        crate::content::lemma_solid_lines_add(group, rest);
        crate::content::lemma_solid_lines_add(lines.subrange(i, j), lines.skip(j));
        assert(lines.subrange(i, j) + lines.skip(j) =~= lines.skip(i));
        assert forall|k: int| 0 <= k < lines.len() - i implies crate::laws::walking::placed_at(
            rule.marker,
            lines,
            i + k,
            #[trigger] out[k],
        ) by {
            if k < j - i {
                assert(out[k] == group[k]);
            } else {
                assert(out[k] == rest[k - (j - i)]);
                assert(crate::laws::walking::placed_at(
                    rule.marker,
                    lines,
                    j + (k - (j - i)),
                    rest[k - (j - i)],
                ));
            }
        }
    } else {
        let rest = rule.align_from(lines, i + 1);
        lemma_align_from(rule, lines, i + 1);
        crate::content::lemma_solid_lines_add(seq![lines[i]], rest);
        crate::content::lemma_solid_lines_add(seq![lines[i]], lines.skip(i + 1));
        assert(seq![lines[i]] + lines.skip(i + 1) =~= lines.skip(i));
        assert forall|k: int| 0 <= k < lines.len() - i implies crate::laws::walking::placed_at(
            rule.marker,
            lines,
            i + k,
            #[trigger] out[k],
        ) by {
            if k > 0 {
                assert(out[k] == rest[k - 1]);
                assert(crate::laws::walking::placed_at(
                    rule.marker,
                    lines,
                    i + 1 + (k - 1),
                    rest[k - 1],
                ));
            }
        }
    }
}

/// `to` is the line `from`, but for the white space in front of its marker.
pub open spec fn moved(marker: Marker, from: Seq<char>, to: Seq<char>) -> bool {
    to == from || exists|e: int, target: nat| to == #[trigger] marker.place(from, e, target)
}

pub proof fn lemma_all_placed(rule: Rule, lines: Seq<Seq<char>>)
    ensures
        crate::laws::walking::all_placed(rule.marker, lines, rule.align_from(lines, 0)),
{
    lemma_align_from(rule, lines, 0);
    let new = rule.align_from(lines, 0);
    assert forall|k: int| 0 <= k < lines.len() implies #[trigger] crate::laws::walking::placed_at(
        rule.marker,
        lines,
        k,
        new[k],
    ) by {
        assert(crate::laws::walking::placed_at(
            rule.marker,
            lines,
            0 + k,
            rule.align_from(lines, 0)[k],
        ));
    }
}

/// Alignment keeps the lines of a text: there are as many as before, each with
/// its content. A line without a marker stays as it is; on a line with one,
/// only the white space in front of the marker changes.
pub proof fn law_alignment_keeps_lines(rule: Rule, lines: Seq<Seq<char>>)
    ensures
        rule.align_from(lines, 0).len() == lines.len(),
        forall|k: int|
            #![trigger rule.align_from(lines, 0)[k]]
            0 <= k < lines.len() ==> {
                let line = rule.align_from(lines, 0)[k];
                &&& moved(rule.marker, lines[k], line)
                &&& rule.marker.start_of(lines, k) is None ==> line == lines[k]
                &&& crate::content::solid(line) == crate::content::solid(lines[k])
            },
{
    let new = rule.align_from(lines, 0);
    lemma_all_placed(rule, lines);
    assert forall|k: int|
        #![trigger rule.align_from(lines, 0)[k]]
        0 <= k < lines.len() implies {
        let line = rule.align_from(lines, 0)[k];
        &&& moved(rule.marker, lines[k], line)
        &&& rule.marker.start_of(lines, k) is None ==> line == lines[k]
        &&& crate::content::solid(line) == crate::content::solid(lines[k])
    } by {
        let line = rule.align_from(lines, 0)[k];
        let e = crate::align::entry_of(lines, k);
        assert(crate::laws::walking::placed_at(rule.marker, lines, k, new[k]));
        if line != lines[k] {
            let target = choose|target: nat|
                line == #[trigger] rule.marker.place(lines[k], e, target);
            lemma_place(rule.marker, lines[k], e, target);
        }
    }
}

/// Alignment keeps the content of a text.
pub proof fn law_alignment_keeps_content(rule: Rule, text: Seq<char>, eol: Eol)
    ensures
        crate::content::solid(rule.align(text, eol)) == crate::content::solid(text),
{
    let lines = crate::text::split(text, eol.text());
    lemma_align_from(rule, lines, 0);
    assert(lines.skip(0) =~= lines);
    crate::content::lemma_eol_white(eol);
    crate::content::lemma_solid_by_lines(text, eol.text(), rule.align_from(lines, 0));
}

// ── Columns ──────────────────────────────────────────────────────────────────

proof fn lemma_spaces_bytes(s: Seq<char>, n: nat)
    ensures
        crate::text::byte_len(s + crate::text::spaces(n)) == crate::text::byte_len(s) + n,
    decreases n,
{
    if n == 0 {
        assert(s + crate::text::spaces(0) =~= s);
    } else {
        let m = (n - 1) as nat;
        lemma_spaces_bytes(s, m);
        crate::text::lemma_byte_len_push(s + crate::text::spaces(m), ' ');
        crate::text::lemma_utf8_width(' ');
        assert((s + crate::text::spaces(m)).push(' ') =~= s + crate::text::spaces(n));
    }
}

proof fn lemma_widest(marker: Marker, lines: Seq<Seq<char>>, i: int, j: int, k: int)
    requires
        i <= k < j,
    ensures
        crate::text::byte_len(marker.code(lines[k], crate::align::entry_of(lines, k)))
            <= marker.widest(lines, i, j),
    decreases j - i,
{
    if k < j - 1 {
        lemma_widest(marker, lines, i, j - 1, k);
    }
}

/// In an aligned group every marker stands at the same byte column, behind the
/// longest code and the gap; that column is a multiple of the step. The lines
/// keep their code and what starts at the marker.
pub proof fn law_group_shares_a_column(rule: Rule, lines: Seq<Seq<char>>, i: int, j: int, k: int)
    requires
        0 <= i <= k < j <= lines.len(),
        rule.gap >= 1,
        rule.marker.start_of(lines, k) is Some,
    ensures
        ({
            let target = rule.target(lines, i, j);
            let e = crate::align::entry_of(lines, k);
            let code = rule.marker.code(lines[k], e);
            let width = crate::text::byte_len(code);
            let lead = code + crate::text::spaces((target - width) as nat);
            &&& rule.marker.place(lines[k], e, target) == lead + lines[k].skip(
                rule.marker.start_of(lines, k)->0,
            )
            &&& crate::text::byte_len(lead) == target
            &&& target >= width + rule.gap
            &&& rule.step > 0 ==> target % (rule.step as nat) == 0
        }),
{
    let target = rule.target(lines, i, j);
    let code = rule.marker.code(lines[k], crate::align::entry_of(lines, k));
    let width = crate::text::byte_len(code);
    lemma_widest(rule.marker, lines, i, j, k);
    if rule.step > 0 {
        crate::align::lemma_round_up(
            rule.marker.widest(lines, i, j) + rule.gap as nat,
            rule.step as nat,
        );
    }
    lemma_spaces_bytes(code, (target - width) as nat);
}

} // verus!
