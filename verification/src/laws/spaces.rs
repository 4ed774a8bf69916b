//! The lines of the output do not end in spaces.

use crate::align::Rule;
use crate::config::{Config, Eol};
use crate::token::{KindSet, Token};
use vstd::prelude::*;

verus! {

/// Alignment brings no space in front of a line end.
proof fn lemma_align_neat(rule: Rule, text: Seq<char>)
    requires
        crate::neat::neat(text),
        crate::laws::lines::lacks(text, '\r'),
    ensures
        crate::neat::neat(rule.align(text, Eol::Lf)),
{
    let lines = crate::text::split(text, Eol::Lf.text());
    let new = rule.align_from(lines, 0);
    crate::laws::carriage::lemma_split_within(text);
    crate::neat::lemma_neat_split(text, 0, 0);
    crate::laws::alignment::law_alignment_keeps_lines(rule, lines);
    assert forall|k: int| 0 <= k < new.len() implies crate::laws::lines::one_line(
        #[trigger] new[k],
    ) by {
        assert(crate::laws::lines::one_line(lines[k]));
        assert(crate::laws::alignment::moved(rule.marker, lines[k], rule.align_from(lines, 0)[k]));
        if new[k] != lines[k] {
            let (e, target) = choose|e: int, target: nat|
                new[k] == #[trigger] rule.marker.place(lines[k], e, target);
            crate::laws::lines::lemma_place_one_line(rule.marker, lines[k], e, target);
        }
    }
    assert forall|k: int| 0 <= k < new.len() - 1 implies !#[trigger] crate::text::ends_with(
        new[k],
        ' ',
    ) by {
        assert(!crate::text::ends_with(lines[k], ' '));
        assert(crate::laws::alignment::moved(rule.marker, lines[k], rule.align_from(lines, 0)[k]));
        if new[k] != lines[k] {
            let (e, target) = choose|e: int, target: nat|
                new[k] == #[trigger] rule.marker.place(lines[k], e, target);
            crate::laws::alignment::lemma_start(rule.marker, lines[k], e);
            let i = rule.marker.start(lines[k], e)->0;
            assert(lines[k].skip(i).last() == lines[k].last());
            assert(new[k].last() == lines[k].last());
        }
    }
    crate::neat::lemma_neat_join(new);
}

/// No line end, of either style, follows a space.
pub open spec fn ends_neatly(s: Seq<char>) -> bool {
    forall|i: int|
        0 < i < s.len() && (#[trigger] s[i] == '\n' || s[i] == '\r') ==> s[i - 1] != ' '
}

/// The LF text is neat; so is the text with its line ends written as pairs.
proof fn lemma_ends_neatly(s: Seq<char>)
    requires
        crate::neat::neat(s),
        crate::laws::lines::lacks(s, '\r'),
    ensures
        ends_neatly(s),
        ends_neatly(crate::laws::carriage::with_returns(s)),
{
    reveal(crate::neat::neat);
    let t = crate::laws::carriage::with_returns(s);
    let lines = crate::text::split(s, Eol::Lf.text());
    crate::laws::carriage::lemma_split_within(s);
    crate::laws::carriage::lemma_join_returns(lines);
    crate::neat::lemma_neat_split(s, 0, 0);
    lemma_pairs_end_neatly(lines);
}

proof fn lemma_pairs_end_neatly(lines: Seq<Seq<char>>)
    requires
        crate::laws::carriage::all_within(lines),
        crate::neat::lines_neat(lines),
    ensures
        ends_neatly(crate::text::join(lines, Eol::CrLf.text())),
    decreases lines.len(),
{
    let sep = Eol::CrLf.text();
    let s = crate::text::join(lines, sep);
    if lines.len() == 1 {
        assert(crate::laws::lines::one_line(lines[0]));
    } else if lines.len() > 1 {
        let rest = lines.drop_first();
        assert forall|k: int| 0 <= k < rest.len() implies crate::laws::lines::one_line(
            #[trigger] rest[k],
        ) by {
            assert(crate::laws::lines::one_line(lines[k + 1]));
        }
        assert forall|k: int| 0 <= k < rest.len() - 1 implies !#[trigger] crate::text::ends_with(
            rest[k],
            ' ',
        ) by {
            assert(!crate::text::ends_with(lines[k + 1], ' '));
        }
        lemma_pairs_end_neatly(rest);
        crate::laws::stability::lemma_join_first(lines, sep);
        let tail = crate::text::join(rest, sep);
        let first = lines[0];
        let n = first.len() as int;
        assert(crate::laws::lines::one_line(lines[0]));
        assert(!crate::text::ends_with(lines[0], ' '));
        assert forall|i: int|
            0 < i < s.len() && (#[trigger] s[i] == '\n' || s[i] == '\r') implies s[i - 1]
            != ' ' by {
            if i < n {
                assert(s[i] == first[i]);
            } else if i == n {
                assert(s[i - 1] == first.last());
            } else if i == n + 1 {
                assert(s[i - 1] == '\r');
            } else if i == n + 2 {
                assert(s[i - 1] == '\n');
            } else {
                assert(s[i] == tail[i - n - 2] && s[i - 1] == tail[i - n - 3]);
            }
        }
    }
}

/// Injected braces fit, and what they enclose fits.
proof fn lemma_prepared_suit(toks: Seq<Token>, config: Config)
    requires
        crate::keep::well_formed(toks),
    ensures
        crate::keep::well_formed(crate::formatter::prepared(toks, config)),
{
    let new = crate::formatter::prepared(toks, config);
    if crate::formatter::injects(config) {
        crate::laws::injection::lemma_drawn(toks, config);
        reveal_strlit("{");
        reveal_strlit("}");
        assert forall|i: int| 0 <= i < new.len() implies crate::keep::suits(#[trigger] new[i]) by {
            if toks.contains(new[i]) {
                let j = choose|j: int| 0 <= j < toks.len() && toks[j] == new[i];
                assert(crate::keep::suits(toks[j]));
            } else {
                assert("{"@ =~= seq!['{']);
                assert("}"@ =~= seq!['}']);
            }
        }
    }
}

/// No line of the output ends in a space, in either style, when no token that
/// is laid out holds a space in front of a line end. Block comments may: their
/// lines are trimmed, but for those in an initializer that is kept on one line.
pub proof fn law_no_line_ends_in_a_space(toks: Seq<Token>, config: Config, eol: Eol)
    requires
        config.allows_eol(eol),
        crate::keep::well_formed(toks),
        crate::keep::all_fit(crate::formatter::prepared(toks, config)),
    ensures
        ends_neatly(crate::formatter::format_text(toks, config, eol)),
{
    let lf = crate::laws::styles::lf_config(config);
    let prepared = crate::formatter::prepared(toks, config);
    assert(crate::formatter::prepared(toks, lf) == prepared);
    assert(crate::laws::styles::no_returns(prepared)) by {
        assert forall|i: int|
            0 <= i < prepared.len() && !KindSet::Layout.has(
                (#[trigger] prepared[i]).kind,
            ) implies crate::laws::lines::lacks(prepared[i].lexeme@, '\r') by {
            assert(crate::keep::fits_at(prepared, i));
        }
    }
    lemma_prepared_suit(toks, config);
    crate::keep::lemma_layout_neat(prepared, lf);
    crate::laws::styles::lemma_layout_lacks(prepared, lf);
    let a = crate::machine::layout_text(prepared, lf, Eol::Lf);
    let b = crate::formatter::with_comments_aligned(a, lf, Eol::Lf);
    let c = crate::formatter::with_equals_aligned(b, lf, Eol::Lf);
    let d = crate::formatter::with_doxygen_aligned(c, lf, Eol::Lf);
    let s = lf.spacing;
    let comments = crate::align::comment_rule(
        if s.align_right_cmt_gap < 1 {
            1
        } else {
            s.align_right_cmt_gap
        },
        s.align_right_cmt_style == crate::config::AlignCmtStyle::All,
        s.align_on_tabstop,
        lf.indent.width as usize,
        s.align_right_cmt_span,
    );
    let equals = crate::align::equals_rule(s.align_on_tabstop, lf.indent.width as usize);
    lemma_align_neat(comments, a);
    crate::laws::styles::lemma_align(comments, a);
    lemma_align_neat(equals, b);
    crate::laws::styles::lemma_align(equals, b);
    lemma_align_neat(crate::align::doxygen_rule(), c);
    crate::laws::styles::lemma_align(crate::align::doxygen_rule(), c);
    lemma_ends_neatly(d);
    if eol == Eol::CrLf {
        crate::laws::styles::lemma_prepared_styles(prepared, config);
    }
}

} // verus!
