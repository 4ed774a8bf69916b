//! Where the tokens stand in the output, and how many empty lines lie between
//! them.

use crate::align::Rule;
use crate::config::{Config, Eol};
use crate::token::Token;
use vstd::prelude::*;

verus! {

/// Where the white space in front of text `k` starts.
pub open spec fn gap_from(texts: Seq<Seq<char>>, starts: Seq<int>, k: int) -> int {
    if k <= 0 {
        0
    } else {
        starts[k - 1] + texts[k - 1].len()
    }
}

/// Where the white space in front of text `k` ends. That behind the last text
/// ends with the output.
pub open spec fn gap_to(out: Seq<char>, texts: Seq<Seq<char>>, starts: Seq<int>, k: int) -> int {
    if k < texts.len() {
        starts[k]
    } else {
        out.len() as int
    }
}

/// The white space in front of text `k`.
pub open spec fn gap(out: Seq<char>, texts: Seq<Seq<char>>, starts: Seq<int>, k: int) -> Seq<char> {
    out.subrange(gap_from(texts, starts, k), gap_to(out, texts, starts, k))
}

/// Text `k` stands where it is said to, with nothing but white space between
/// it and the text before it.
pub open spec fn stands_at(
    out: Seq<char>,
    texts: Seq<Seq<char>>,
    starts: Seq<int>,
    k: int,
) -> bool {
    let j = gap_to(out, texts, starts, k);
    &&& 0 <= gap_from(texts, starts, k) <= j <= out.len()
    &&& crate::laws::weave::blank(gap(out, texts, starts, k))
    &&& k < texts.len() ==> {
        &&& texts[k].len() > 0
        &&& !crate::text::is_white(texts[k].last())
        &&& j + texts[k].len() <= out.len()
        &&& out.subrange(j, j + texts[k].len()) == texts[k]
    }
}

/// The output is made of the texts, which stand at `starts` one behind the
/// other, with nothing but white space around them.
pub open spec fn placed(out: Seq<char>, texts: Seq<Seq<char>>, starts: Seq<int>) -> bool {
    &&& starts.len() == texts.len()
    &&& forall|k: int| 0 <= k <= texts.len() ==> #[trigger] stands_at(out, texts, starts, k)
}

/// No more than `m` empty lines lie in front of a text.
pub open spec fn capped(out: Seq<char>, texts: Seq<Seq<char>>, starts: Seq<int>, m: nat) -> bool {
    forall|k: int|
        0 <= k <= texts.len() ==> crate::laws::weave::feeds(
            #[trigger] gap(out, texts, starts, k),
        ) <= if k == 0 {
            m
        } else {
            m + 1
        }
}

/// If text `k` starts with a `#`, it starts its line.
pub open spec fn starts_line(
    out: Seq<char>,
    texts: Seq<Seq<char>>,
    starts: Seq<int>,
    k: int,
) -> bool {
    texts[k][0] == '#' ==> k == 0 || crate::laws::weave::feeds(gap(out, texts, starts, k)) > 0
}

/// The places of the texts that an output is woven of.
proof fn lemma_places(out: Seq<char>, texts: Seq<Seq<char>>, m: nat) -> (starts: Seq<int>)
    requires
        crate::laws::weave::woven(out, texts, m),
    ensures
        placed(out, texts, starts),
        capped(out, texts, starts, m),
        forall|k: int| 0 <= k < texts.len() ==> #[trigger] starts_line(out, texts, starts, k),
        texts.len() > 0 ==> gap(out, texts, starts, texts.len() as int)
            == crate::laws::weave::tail(out),
    decreases texts.len(),
{
    reveal_with_fuel(crate::laws::weave::woven, 1);
    crate::laws::weave::lemma_gist(out);
    let body = crate::laws::weave::gist(out);
    if texts.len() == 0 {
        let starts = Seq::<int>::empty();
        assert(crate::laws::weave::tail(out) =~= out);
        assert(gap(out, texts, starts, 0) =~= out);
        assert(stands_at(out, texts, starts, 0));
        starts
    } else {
        let t = texts.len() - 1;
        let last = texts.last();
        let n = body.len() - last.len();
        let inner = body.take(n);
        let rest = texts.drop_last();
        let before = lemma_places(inner, rest, m);
        let starts = before.push(n);
        assert(gap(out, texts, starts, t + 1) =~= crate::laws::weave::tail(out));
        assert forall|k: int| 0 <= k <= texts.len() implies #[trigger] stands_at(
            out,
            texts,
            starts,
            k,
        ) && crate::laws::weave::feeds(gap(out, texts, starts, k)) <= if k == 0 {
            m
        } else {
            m + 1
        } by {
            if k <= t {
                assert(stands_at(inner, rest, before, k));
                assert(gap_from(texts, starts, k) == gap_from(rest, before, k));
                assert(gap_to(out, texts, starts, k) == gap_to(inner, rest, before, k));
                assert(gap(out, texts, starts, k) =~= gap(inner, rest, before, k));
                if k < t {
                    let j = starts[k];
                    assert(out.subrange(j, j + texts[k].len()) =~= inner.subrange(
                        j,
                        j + texts[k].len(),
                    ));
                } else {
                    assert(out.subrange(n, n + last.len()) =~= body.skip(n));
                    assert(last.last() == body.last());
                }
            }
        }
        assert forall|k: int| 0 <= k < texts.len() implies #[trigger] starts_line(
            out,
            texts,
            starts,
            k,
        ) by {
            assert(stands_at(out, texts, starts, k));
            assert(stands_at(inner, rest, before, k));
            assert(gap(out, texts, starts, k) =~= gap(inner, rest, before, k));
            if k < t {
                assert(starts_line(inner, rest, before, k));
            }
        }
        assert forall|k: int| 0 <= k <= texts.len() implies crate::laws::weave::feeds(
            #[trigger] gap(out, texts, starts, k),
        ) <= if k == 0 {
            m
        } else {
            m + 1
        } by {
            assert(stands_at(out, texts, starts, k));
        }
        starts
    }
}

/// As many lines, and the same of them empty.
pub open spec fn alike(a: Seq<Seq<char>>, b: Seq<Seq<char>>) -> bool {
    &&& a.len() == b.len()
    &&& forall|k: int| 0 <= k < a.len() ==> ((#[trigger] a[k]).len() == 0) == (b[k].len() == 0)
}

/// Alignment empties no line and fills none.
proof fn lemma_align_alike(rule: Rule, text: Seq<char>)
    requires
        crate::laws::lines::lacks(text, '\r'),
    ensures
        alike(
            crate::text::split(rule.align(text, Eol::Lf), Eol::Lf.text()),
            crate::text::split(text, Eol::Lf.text()),
        ),
{
    let lines = crate::text::split(text, Eol::Lf.text());
    let new = rule.align_from(lines, 0);
    crate::laws::carriage::lemma_split_within(text);
    crate::laws::alignment::law_alignment_keeps_lines(rule, lines);
    assert forall|k: int| 0 <= k < new.len() implies crate::laws::lines::one_line(#[trigger] new[k])
        && (new[k].len() == 0) == (lines[k].len() == 0) by {
        assert(crate::laws::lines::one_line(lines[k]));
        assert(crate::laws::alignment::moved(rule.marker, lines[k], rule.align_from(lines, 0)[k]));
        if new[k] != lines[k] {
            let (e, target) = choose|e: int, target: nat|
                new[k] == #[trigger] rule.marker.place(lines[k], e, target);
            crate::laws::lines::lemma_place_one_line(rule.marker, lines[k], e, target);
            crate::laws::alignment::lemma_start(rule.marker, lines[k], e);
        }
    }
    crate::laws::carriage::lemma_split_joined(new, Eol::Lf);
}

/// Alignment empties no line of the layout and fills none.
proof fn lemma_aligned_alike(text: Seq<char>, config: Config)
    requires
        crate::laws::lines::lacks(text, '\r'),
    ensures
        alike(
            crate::text::split(crate::laws::styles::aligned(text, config, Eol::Lf), Eol::Lf.text()),
            crate::text::split(text, Eol::Lf.text()),
        ),
        crate::laws::lines::lacks(crate::laws::styles::aligned(text, config, Eol::Lf), '\r'),
{
    let b = crate::formatter::with_comments_aligned(text, config, Eol::Lf);
    let c = crate::formatter::with_equals_aligned(b, config, Eol::Lf);
    let s = config.spacing;
    let comments = crate::align::comment_rule(
        if s.align_right_cmt_gap < 1 {
            1
        } else {
            s.align_right_cmt_gap
        },
        s.align_right_cmt_style == crate::config::AlignCmtStyle::All,
        s.align_on_tabstop,
        config.indent.width as usize,
        s.align_right_cmt_span,
    );
    let equals = crate::align::equals_rule(s.align_on_tabstop, config.indent.width as usize);
    lemma_align_alike(comments, text);
    crate::laws::styles::lemma_align(comments, text);
    lemma_align_alike(equals, b);
    crate::laws::styles::lemma_align(equals, b);
    lemma_align_alike(crate::align::doxygen_rule(), c);
    crate::laws::styles::lemma_align(crate::align::doxygen_rule(), c);
}

/// The layout of the tokens, before anything is aligned.
pub open spec fn laid_out(toks: Seq<Token>, config: Config) -> Seq<char> {
    crate::machine::layout_text(
        crate::formatter::prepared(toks, config),
        crate::laws::styles::lf_config(config),
        Eol::Lf,
    )
}

/// The tokens are fit to be laid out: none holds a carriage return, what is
/// written of one starts with no white space and ends in at most one line
/// feed, and only the last is the end of the source.
pub open spec fn fit(toks: Seq<Token>, config: Config) -> bool {
    &&& crate::keep::well_formed(toks)
    &&& crate::laws::styles::no_returns(toks)
    &&& crate::laws::weave::all_calm(toks, crate::laws::styles::lf_config(config))
    &&& crate::laws::weave::ends_once(toks)
}

/// Empty lines do not pile up in the output, in either style: an empty line of
/// the output is one of the layout, and there no more of them than are wanted
/// lie between what is written of two tokens. What a comment, a line of the
/// preprocessor or a literal holds is left alone. A line of the preprocessor
/// starts a line of the output.
pub proof fn law_blank_lines_are_capped_throughout(
    toks: Seq<Token>,
    config: Config,
    eol: Eol,
) -> (r: (Seq<Seq<char>>, Seq<int>))
    requires
        config.allows_eol(eol),
        fit(crate::formatter::prepared(toks, config), config),
    ensures
        alike(
            crate::text::split(crate::formatter::format_text(toks, config, eol), eol.text()),
            crate::text::split(laid_out(toks, config), Eol::Lf.text()),
        ),
        placed(laid_out(toks, config), r.0, r.1),
        capped(laid_out(toks, config), r.0, r.1, config.newlines.max_blank_lines as nat),
        forall|k: int|
            0 <= k < r.0.len() ==> #[trigger] starts_line(laid_out(toks, config), r.0, r.1, k),
        crate::laws::weave::tells(
            r.0,
            crate::scan::content(
                crate::formatter::prepared(toks, config),
                0,
                crate::laws::weave::end_of(crate::formatter::prepared(toks, config)),
            ),
            crate::laws::styles::lf_config(config),
        ),
{
    let lf = crate::laws::styles::lf_config(config);
    let prepared = crate::formatter::prepared(toks, config);
    let laid = laid_out(toks, config);
    let texts = crate::laws::weave::lemma_layout_woven(prepared, lf);
    let starts = lemma_places(laid, texts, config.newlines.max_blank_lines as nat);
    crate::laws::styles::lemma_layout_lacks(prepared, lf);
    lemma_aligned_alike(laid, lf);
    if eol == Eol::CrLf {
        crate::laws::styles::lemma_prepared_styles(prepared, config);
        let b = crate::laws::styles::aligned(laid, lf, Eol::Lf);
        let lines = crate::text::split(b, Eol::Lf.text());
        crate::laws::carriage::lemma_split_within(b);
        crate::laws::carriage::lemma_join_returns(lines);
        crate::laws::carriage::lemma_split_joined(lines, Eol::CrLf);
    }
    (texts, starts)
}

} // verus!
