//! Alignment moves tokens and leaves their texts alone.

use crate::align::{Marker, Rule};
use crate::config::{Config, Eol};
use vstd::prelude::*;

verus! {

// ── One line ─────────────────────────────────────────────────────────────────

/// White space within the gap in front of text `k` gives way to `w`.
proof fn lemma_replace(
    out: Seq<char>,
    texts: Seq<Seq<char>>,
    starts: Seq<int>,
    k: int,
    a: int,
    b: int,
    w: Seq<char>,
) -> (new: Seq<int>)
    requires
        crate::laws::blanks::placed(out, texts, starts),
        0 <= k < texts.len(),
        crate::laws::blanks::gap_from(texts, starts, k) <= a <= b,
        b == starts[k],
        crate::laws::lines::lacks(out.subrange(a, b), '\n'),
        crate::laws::lines::lacks(w, '\n'),
        crate::laws::weave::blank(w),
    ensures
        crate::laws::blanks::placed(out.take(a) + w + out.skip(b), texts, new),
        same_feeds(out, starts, out.take(a) + w + out.skip(b), new, texts),
        forall|x: int| 0 <= x < k ==> #[trigger] new[x] == starts[x],
{
    let d = w.len() - (b - a);
    let text = out.take(a) + w + out.skip(b);
    let new = Seq::new(
        starts.len(),
        |x: int|
            if x < k {
                starts[x]
            } else {
                starts[x] + d
            },
    );
    assert forall|x: int| 0 <= x <= texts.len() implies #[trigger] crate::laws::blanks::stands_at(
        text,
        texts,
        new,
        x,
    ) && crate::laws::weave::feeds(crate::laws::blanks::gap(text, texts, new, x))
        == crate::laws::weave::feeds(crate::laws::blanks::gap(out, texts, starts, x)) by {
        lemma_order(out, texts, starts, x, k);
        lemma_order(out, texts, starts, k, x);
        assert(crate::laws::blanks::stands_at(out, texts, starts, x));
        assert(crate::laws::blanks::stands_at(out, texts, starts, k));
        let g = crate::laws::blanks::gap(out, texts, starts, x);
        let h = crate::laws::blanks::gap(text, texts, new, x);
        if x < k {
            assert(h =~= g);
            let j = starts[x];
            assert(text.subrange(j, j + texts[x].len()) =~= out.subrange(j, j + texts[x].len()));
        } else {
            if x < texts.len() {
                let j = starts[x];
                assert(text.subrange(j + d, j + d + texts[x].len()) =~= out.subrange(
                    j,
                    j + texts[x].len(),
                ));
            }
            if x == k {
                let from = crate::laws::blanks::gap_from(texts, starts, k);
                assert(g =~= out.subrange(from, a) + out.subrange(a, b));
                assert(h =~= out.subrange(from, a) + w);
                crate::laws::weave::lemma_feeds_add(out.subrange(from, a), out.subrange(a, b));
                crate::laws::weave::lemma_feeds_add(out.subrange(from, a), w);
                crate::laws::weave::lemma_feeds_none(out.subrange(a, b));
                crate::laws::weave::lemma_feeds_none(w);
                assert forall|y: int| 0 <= y < h.len() implies crate::text::is_white(
                    #[trigger] h[y],
                ) by {
                    if y < a - from {
                        assert(h[y] == g[y]);
                    } else {
                        assert(h[y] == w[y - (a - from)]);
                    }
                }
            } else {
                assert(h =~= g);
            }
        }
    }
    assert forall|x: int| 0 <= x <= texts.len() implies crate::laws::weave::feeds(
        #[trigger] crate::laws::blanks::gap(text, texts, new, x),
    ) == crate::laws::weave::feeds(crate::laws::blanks::gap(out, texts, starts, x)) by {
        assert(crate::laws::blanks::stands_at(text, texts, new, x));
    }
    new
}

/// As many lines end in each gap of the one text as in that of the other.
pub open spec fn same_feeds(
    a: Seq<char>,
    starts: Seq<int>,
    b: Seq<char>,
    new: Seq<int>,
    texts: Seq<Seq<char>>,
) -> bool {
    forall|x: int|
        0 <= x <= texts.len() ==> crate::laws::weave::feeds(
            #[trigger] crate::laws::blanks::gap(b, texts, new, x),
        ) == crate::laws::weave::feeds(crate::laws::blanks::gap(a, texts, starts, x))
}

/// A text before another ends before the gap in front of it.
proof fn lemma_order(out: Seq<char>, texts: Seq<Seq<char>>, starts: Seq<int>, x: int, k: int)
    requires
        crate::laws::blanks::placed(out, texts, starts),
        0 <= x <= texts.len(),
        0 <= k <= texts.len(),
    ensures
        x < k ==> starts[x] + texts[x].len() <= crate::laws::blanks::gap_from(texts, starts, k),
    decreases k,
{
    if x < k {
        assert(crate::laws::blanks::stands_at(out, texts, starts, k));
        assert(crate::laws::blanks::stands_at(out, texts, starts, k - 1));
        if x < k - 1 {
            lemma_order(out, texts, starts, x, k - 1);
        }
    }
}

// ── All lines ────────────────────────────────────────────────────────────────

/// What stands in front of line `l`.
pub open spec fn before(lines: Seq<Seq<char>>, l: int) -> Seq<char> {
    if l <= 0 {
        Seq::empty()
    } else {
        crate::text::join(lines.take(l), Eol::Lf.text()) + Eol::Lf.text()
    }
}

/// What stands behind line `l`.
spec fn behind(lines: Seq<Seq<char>>, l: int) -> Seq<char> {
    if l + 1 >= lines.len() {
        Seq::empty()
    } else {
        Eol::Lf.text() + crate::text::join(lines.skip(l + 1), Eol::Lf.text())
    }
}

proof fn lemma_around(lines: Seq<Seq<char>>, l: int)
    requires
        0 <= l < lines.len(),
    ensures
        crate::text::join(lines, Eol::Lf.text()) == before(lines, l) + lines[l] + behind(lines, l),
    decreases lines.len(),
{
    let lf = Eol::Lf.text();
    if l == lines.len() - 1 {
        assert(lines.take(l) =~= lines.drop_last());
        assert(before(lines, l) + lines[l] + behind(lines, l) =~= before(lines, l) + lines[l]);
        if l == 0 {
            assert(before(lines, l) + lines[l] =~= lines[0]);
        }
    } else {
        let init = lines.drop_last();
        lemma_around(init, l);
        assert(init.take(l) =~= lines.take(l));
        let tail = lines.skip(l + 1);
        if l + 1 == init.len() {
            assert(tail =~= seq![lines.last()]);
            assert(behind(init, l) =~= Seq::empty());
            assert(crate::text::join(tail, lf) == lines.last());
        } else {
            assert(tail.drop_last() =~= init.skip(l + 1));
            assert(crate::text::join(tail, lf) == crate::text::join(init.skip(l + 1), lf) + lf
                + lines.last());
        }
        assert(crate::text::join(lines, lf) =~= before(lines, l) + lines[l] + behind(lines, l));
    }
}

/// Lines in front of others start before them.
proof fn lemma_before(lines: Seq<Seq<char>>, l: int)
    requires
        0 <= l < lines.len(),
    ensures
        l + 1 < lines.len() ==> before(lines, l + 1).len() == before(lines, l).len()
            + lines[l].len() + 1,
{
    let lf = Eol::Lf.text();
    if l + 1 < lines.len() {
        let some = lines.take(l + 1);
        lemma_around(some, l);
        assert(some.take(l) =~= lines.take(l));
        assert(behind(some, l) =~= Seq::empty());
    }
}

/// Every marker stands where a text starts.
pub open spec fn marks_texts(marker: Marker, lines: Seq<Seq<char>>, starts: Seq<int>) -> bool {
    forall|l: int|
        #![trigger lines[l]]
        0 <= l < lines.len() && marker.start_of(lines, l) is Some ==> starts.contains(
            before(lines, l).len() + marker.start_of(lines, l)->0,
        )
}

/// The parts of a text.
proof fn lemma_parts(
    pre: Seq<char>,
    code: Seq<char>,
    mid: Seq<char>,
    rest: Seq<char>,
    post: Seq<char>,
)
    ensures
        ({
            let out = pre + (code + mid + rest) + post;
            let a = (pre.len() + code.len()) as int;
            let b = a + mid.len();
            &&& out.take(a) == pre + code
            &&& out.subrange(a, b) == mid
            &&& out.skip(b) == rest + post
        }),
{
    let out = pre + (code + mid + rest) + post;
    let a = (pre.len() + code.len()) as int;
    let b = a + mid.len();
    assert(out.take(a) =~= pre + code);
    assert(out.subrange(a, b) =~= mid);
    assert(out.skip(b) =~= rest + post);
}

/// White space in front of a text lies in its gap.
proof fn lemma_in_gap(out: Seq<char>, texts: Seq<Seq<char>>, starts: Seq<int>, k: int, a: int)
    requires
        crate::laws::blanks::placed(out, texts, starts),
        0 <= k < texts.len(),
        0 <= a <= starts[k],
        crate::laws::weave::blank(out.subrange(a, starts[k])),
    ensures
        crate::laws::blanks::gap_from(texts, starts, k) <= a,
{
    let from = crate::laws::blanks::gap_from(texts, starts, k);
    if from > a {
        assert(crate::laws::blanks::stands_at(out, texts, starts, k));
        assert(crate::laws::blanks::stands_at(out, texts, starts, k - 1));
        let t = texts[k - 1];
        let s = starts[k - 1];
        assert(out.subrange(s, s + t.len())[t.len() - 1] == out[from - 1]);
        assert(out.subrange(a, starts[k])[from - 1 - a] == out[from - 1]);
    }
}

/// The parts of a line whose marker is moved: the code, the white space in
/// front of the marker, the marker and what follows, and the new white space.
struct Parts {
    code: Seq<char>,
    mid: Seq<char>,
    rest: Seq<char>,
    pad: Seq<char>,
}

impl Parts {
    spec fn from(self) -> Seq<char> {
        self.code + self.mid + self.rest
    }

    spec fn to(self) -> Seq<char> {
        self.code + self.pad + self.rest
    }

    spec fn sound(self) -> bool {
        &&& crate::laws::weave::blank(self.mid)
        &&& crate::laws::lines::lacks(self.mid, '\n')
        &&& crate::laws::weave::blank(self.pad)
        &&& crate::laws::lines::lacks(self.pad, '\n')
    }

    spec fn at(self) -> int {
        (self.code.len() + self.mid.len()) as int
    }
}

proof fn lemma_place_parts(marker: Marker, line: Seq<char>, e: int, target: nat) -> (p: Parts)
    requires
        crate::laws::lines::one_line(line),
        marker.start(line, e) is Some,
    ensures
        p.sound(),
        p.from() == line,
        p.to() == marker.place(line, e, target),
        p.at() == marker.start(line, e)->0,
{
    let i = marker.start(line, e)->0;
    let code = marker.code(line, e);
    let rest = line.skip(i);
    let mid = crate::laws::weave::tail(line.take(i));
    let width = crate::text::byte_len(code);
    let pad = crate::text::spaces((crate::layout::max(target, width + 1) - width) as nat);
    crate::laws::alignment::lemma_start(marker, line, e);
    crate::laws::weave::lemma_gist(line.take(i));
    assert(line =~= code + mid + rest);
    assert forall|y: int| 0 <= y < mid.len() implies #[trigger] mid[y] != '\n' by {
        assert(mid[y] == line[code.len() + y]);
    }
    Parts { code, mid, rest, pad }
}

/// Line `l` of the text gives way to the one with its marker moved.
proof fn lemma_move_line(
    lines: Seq<Seq<char>>,
    l: int,
    p: Parts,
    texts: Seq<Seq<char>>,
    starts: Seq<int>,
    k: int,
) -> (new: Seq<int>)
    requires
        0 <= l < lines.len(),
        p.sound(),
        lines[l] == p.from(),
        crate::laws::blanks::placed(crate::text::join(lines, Eol::Lf.text()), texts, starts),
        0 <= k < texts.len(),
        starts[k] == before(lines, l).len() + p.at(),
    ensures
        crate::laws::blanks::placed(
            crate::text::join(lines.update(l, p.to()), Eol::Lf.text()),
            texts,
            new,
        ),
        same_feeds(
            crate::text::join(lines, Eol::Lf.text()),
            starts,
            crate::text::join(lines.update(l, p.to()), Eol::Lf.text()),
            new,
            texts,
        ),
        forall|x: int| 0 <= x < k ==> #[trigger] new[x] == starts[x],
{
    let out = crate::text::join(lines, Eol::Lf.text());
    let pre = before(lines, l);
    let post = behind(lines, l);
    let a: int = (pre.len() + p.code.len()) as int;
    lemma_around(lines, l);
    lemma_parts(pre, p.code, p.mid, p.rest, post);
    lemma_in_gap(out, texts, starts, k, a);
    let new = lemma_replace(out, texts, starts, k, a, a + p.mid.len(), p.pad);
    lemma_updated(lines, l, p);
    new
}

/// The text with line `l` given way.
proof fn lemma_updated(lines: Seq<Seq<char>>, l: int, p: Parts)
    requires
        0 <= l < lines.len(),
    ensures
        crate::text::join(lines.update(l, p.to()), Eol::Lf.text()) == (before(lines, l) + p.code)
            + p.pad + (p.rest + behind(lines, l)),
{
    let after = lines.update(l, p.to());
    lemma_around(after, l);
    assert(after.take(l) =~= lines.take(l));
    assert(after.skip(l + 1) =~= lines.skip(l + 1));
    let pre = before(lines, l);
    let post = behind(lines, l);
    assert((pre + p.code) + p.pad + (p.rest + post) =~= pre + (p.code + p.pad + p.rest) + post);
}

/// The first `l` lines, behind them those with their markers moved.
spec fn half(lines: Seq<Seq<char>>, new: Seq<Seq<char>>, l: int) -> Seq<Seq<char>> {
    lines.take(l) + new.skip(l)
}

/// The parts of a line that is changed.
proof fn lemma_new_line(
    lines: Seq<Seq<char>>,
    new: Seq<Seq<char>>,
    marker: Marker,
    l: int,
) -> (p: Parts)
    requires
        crate::laws::carriage::all_within(lines),
        crate::laws::walking::all_placed(marker, lines, new),
        0 <= l < lines.len(),
        new[l] != lines[l],
    ensures
        p.sound(),
        p.from() == lines[l],
        p.to() == new[l],
        marker.start_of(lines, l) == Some(p.at()),
{
    let e = crate::align::entry_of(lines, l);
    assert(crate::laws::walking::placed_at(marker, lines, l, new[l]));
    let target = choose|target: nat| new[l] == #[trigger] marker.place(lines[l], e, target);
    assert(crate::laws::lines::one_line(lines[l]));
    lemma_place_parts(marker, lines[l], e, target)
}

proof fn lemma_feeds_on(
    a: Seq<char>,
    i: Seq<int>,
    b: Seq<char>,
    j: Seq<int>,
    c: Seq<char>,
    k: Seq<int>,
    texts: Seq<Seq<char>>,
)
    requires
        same_feeds(a, i, b, j, texts),
        same_feeds(b, j, c, k, texts),
    ensures
        same_feeds(a, i, c, k, texts),
{
    assert forall|x: int| 0 <= x <= texts.len() implies crate::laws::weave::feeds(
        #[trigger] crate::laws::blanks::gap(c, texts, k, x),
    ) == crate::laws::weave::feeds(crate::laws::blanks::gap(a, texts, i, x)) by {
        let y = crate::laws::blanks::gap(b, texts, j, x);
    }
}

/// The texts in front of line `l` stay where they are.
spec fn keeps_before(
    lines: Seq<Seq<char>>,
    l: int,
    starts: Seq<int>,
    moved: Seq<int>,
) -> bool {
    forall|x: int|
        0 <= x < starts.len() && starts[x] < before(lines, l).len() ==> #[trigger] moved[x]
            == starts[x]
}

/// The texts in front of the moved one stay where they are.
proof fn lemma_keeps(
    out: Seq<char>,
    lines: Seq<Seq<char>>,
    l: int,
    texts: Seq<Seq<char>>,
    starts: Seq<int>,
    later: Seq<int>,
    moved: Seq<int>,
    k: int,
)
    requires
        crate::laws::blanks::placed(out, texts, starts),
        0 <= k < texts.len(),
        starts[k] >= before(lines, l).len(),
        keeps_before(lines, l, starts, later),
        forall|x: int| 0 <= x < k ==> #[trigger] moved[x] == later[x],
    ensures
        keeps_before(lines, l, starts, moved),
{
    assert forall|x: int|
        0 <= x < starts.len() && starts[x] < before(lines, l).len() implies #[trigger] moved[x]
        == starts[x] by {
        if x > k {
            lemma_order(out, texts, starts, k, x);
            assert(crate::laws::blanks::stands_at(out, texts, starts, x));
        }
        assert(later[x] == starts[x]);
    }
}

/// The lines from `l` on have their markers moved.
proof fn lemma_move_from(
    lines: Seq<Seq<char>>,
    new: Seq<Seq<char>>,
    marker: Marker,
    texts: Seq<Seq<char>>,
    starts: Seq<int>,
    l: int,
) -> (moved: Seq<int>)
    requires
        crate::laws::carriage::all_within(lines),
        crate::laws::walking::all_placed(marker, lines, new),
        crate::laws::blanks::placed(crate::text::join(lines, Eol::Lf.text()), texts, starts),
        marks_texts(marker, lines, starts),
        0 <= l <= lines.len(),
    ensures
        crate::laws::blanks::placed(
            crate::text::join(half(lines, new, l), Eol::Lf.text()),
            texts,
            moved,
        ),
        same_feeds(
            crate::text::join(lines, Eol::Lf.text()),
            starts,
            crate::text::join(half(lines, new, l), Eol::Lf.text()),
            moved,
            texts,
        ),
        l < lines.len() ==> keeps_before(lines, l, starts, moved),
        l == lines.len() ==> moved == starts,
    decreases lines.len() - l,
{
    if l == lines.len() {
        assert(half(lines, new, l) =~= lines);
        starts
    } else {
        let later = lemma_move_from(lines, new, marker, texts, starts, l + 1);
        lemma_move_back(lines, new, marker, texts, starts, later, l)
    }
}

/// The line `l` has its marker moved, as have those behind it.
proof fn lemma_move_back(
    lines: Seq<Seq<char>>,
    new: Seq<Seq<char>>,
    marker: Marker,
    texts: Seq<Seq<char>>,
    starts: Seq<int>,
    later: Seq<int>,
    l: int,
) -> (moved: Seq<int>)
    requires
        crate::laws::carriage::all_within(lines),
        crate::laws::walking::all_placed(marker, lines, new),
        crate::laws::blanks::placed(crate::text::join(lines, Eol::Lf.text()), texts, starts),
        marks_texts(marker, lines, starts),
        0 <= l < lines.len(),
        crate::laws::blanks::placed(
            crate::text::join(half(lines, new, l + 1), Eol::Lf.text()),
            texts,
            later,
        ),
        same_feeds(
            crate::text::join(lines, Eol::Lf.text()),
            starts,
            crate::text::join(half(lines, new, l + 1), Eol::Lf.text()),
            later,
            texts,
        ),
        l + 1 < lines.len() ==> keeps_before(lines, l + 1, starts, later),
        l + 1 == lines.len() ==> later == starts,
    ensures
        crate::laws::blanks::placed(
            crate::text::join(half(lines, new, l), Eol::Lf.text()),
            texts,
            moved,
        ),
        same_feeds(
            crate::text::join(lines, Eol::Lf.text()),
            starts,
            crate::text::join(half(lines, new, l), Eol::Lf.text()),
            moved,
            texts,
        ),
        keeps_before(lines, l, starts, moved),
{
    let lf = Eol::Lf.text();
    let from = half(lines, new, l + 1);
    let to = half(lines, new, l);
    lemma_before(lines, l);
    lemma_half(lines, new, l);
    assert(keeps_before(lines, l, starts, later)) by {
        assert forall|x: int|
            0 <= x < starts.len() && starts[x] < before(lines, l).len() implies #[trigger] later[x]
            == starts[x] by {}
    }
    if new[l] == lines[l] {
        assert(to =~= from);
        later
    } else {
        let p = lemma_new_line(lines, new, marker, l);
        let at = before(lines, l).len() + p.at();
        assert(starts.contains(at)) by {
            let line = lines[l];
        }
        let k = choose|k: int| 0 <= k < starts.len() && starts[k] == at;
        assert(later[k] == starts[k]) by {
            assert(p.at() <= lines[l].len());
        }
        let moved = lemma_move_line(from, l, p, texts, later, k);
        lemma_keeps(crate::text::join(lines, lf), lines, l, texts, starts, later, moved, k);
        lemma_feeds_on(
            crate::text::join(lines, lf),
            starts,
            crate::text::join(from, lf),
            later,
            crate::text::join(to, lf),
            moved,
            texts,
        );
        moved
    }
}

proof fn lemma_half(lines: Seq<Seq<char>>, new: Seq<Seq<char>>, l: int)
    requires
        0 <= l < lines.len(),
        lines.len() == new.len(),
    ensures
        half(lines, new, l) == half(lines, new, l + 1).update(l, new[l]),
        half(lines, new, l + 1)[l] == lines[l],
        half(lines, new, l + 1).len() == lines.len(),
        before(half(lines, new, l + 1), l) == before(lines, l),
{
    let from = half(lines, new, l + 1);
    assert(half(lines, new, l) =~= from.update(l, new[l]));
    assert(from.take(l) =~= lines.take(l));
}

/// Every marker of the rule stands where one of the texts starts.
pub open spec fn marks_tokens(rule: Rule, text: Seq<char>, texts: Seq<Seq<char>>) -> bool {
    forall|starts: Seq<int>|
        #[trigger] crate::laws::blanks::placed(text, texts, starts) ==> marks_texts(
            rule.marker,
            crate::text::split(text, Eol::Lf.text()),
            starts,
        )
}

/// Alignment moves tokens and leaves their texts alone, when every marker
/// stands where a token starts: the aligned text is made of the same texts,
/// and as many lines end between two of them as before.
pub proof fn law_alignment_moves_tokens(
    rule: Rule,
    text: Seq<char>,
    texts: Seq<Seq<char>>,
    starts: Seq<int>,
) -> (moved: Seq<int>)
    requires
        crate::laws::lines::lacks(text, '\r'),
        crate::laws::blanks::placed(text, texts, starts),
        marks_tokens(rule, text, texts),
    ensures
        crate::laws::blanks::placed(rule.align(text, Eol::Lf), texts, moved),
        same_feeds(text, starts, rule.align(text, Eol::Lf), moved, texts),
{
    let lines = crate::text::split(text, Eol::Lf.text());
    let new = rule.align_from(lines, 0);
    crate::laws::carriage::lemma_split_within(text);
    crate::laws::alignment::lemma_all_placed(rule, lines);
    let moved = lemma_move_from(lines, new, rule.marker, texts, starts, 0);
    assert(half(lines, new, 0) =~= new);
    moved
}

// ── All rules ────────────────────────────────────────────────────────────────

/// The rule that aligns trailing comments.
pub open spec fn comments(config: Config) -> Rule {
    let c = config.spacing;
    crate::align::comment_rule(
        if c.align_right_cmt_gap < 1 {
            1
        } else {
            c.align_right_cmt_gap
        },
        c.align_right_cmt_style == crate::config::AlignCmtStyle::All,
        c.align_on_tabstop,
        config.indent.width as usize,
        c.align_right_cmt_span,
    )
}

/// The rule that aligns the `=` of enum members.
pub open spec fn equals(config: Config) -> Rule {
    crate::align::equals_rule(config.spacing.align_on_tabstop, config.indent.width as usize)
}

/// Every marker that is aligned stands where one of the texts starts.
pub open spec fn markers_stand(laid: Seq<char>, config: Config, texts: Seq<Seq<char>>) -> bool {
    let a = crate::formatter::with_comments_aligned(laid, config, Eol::Lf);
    let b = crate::formatter::with_equals_aligned(a, config, Eol::Lf);
    let c = config.spacing;
    &&& c.align_right_cmt_span > 0 ==> marks_tokens(comments(config), laid, texts)
    &&& c.align_enum_equ_span > 0 ==> marks_tokens(equals(config), a, texts)
    &&& c.align_doxygen_cmt_span > 0 ==> marks_tokens(crate::align::doxygen_rule(), b, texts)
}

/// One rule, if it is wanted.
proof fn lemma_pass(
    rule: Rule,
    wanted: bool,
    text: Seq<char>,
    texts: Seq<Seq<char>>,
    starts: Seq<int>,
) -> (moved: Seq<int>)
    requires
        crate::laws::lines::lacks(text, '\r'),
        crate::laws::blanks::placed(text, texts, starts),
        wanted ==> marks_tokens(rule, text, texts),
    ensures
        ({
            let to = if wanted {
                rule.align(text, Eol::Lf)
            } else {
                text
            };
            &&& crate::laws::lines::lacks(to, '\r')
            &&& crate::laws::blanks::placed(to, texts, moved)
            &&& same_feeds(text, starts, to, moved, texts)
        }),
{
    if wanted {
        crate::laws::styles::lemma_align(rule, text);
        law_alignment_moves_tokens(rule, text, texts, starts)
    } else {
        starts
    }
}

/// All that is aligned moves tokens and leaves their texts alone.
pub proof fn lemma_aligned(
    laid: Seq<char>,
    config: Config,
    texts: Seq<Seq<char>>,
    starts: Seq<int>,
) -> (moved: Seq<int>)
    requires
        crate::laws::lines::lacks(laid, '\r'),
        crate::laws::blanks::placed(laid, texts, starts),
        markers_stand(laid, config, texts),
    ensures
        crate::laws::blanks::placed(
            crate::laws::styles::aligned(laid, config, Eol::Lf),
            texts,
            moved,
        ),
        same_feeds(
            laid,
            starts,
            crate::laws::styles::aligned(laid, config, Eol::Lf),
            moved,
            texts,
        ),
{
    let a = crate::formatter::with_comments_aligned(laid, config, Eol::Lf);
    let b = crate::formatter::with_equals_aligned(a, config, Eol::Lf);
    let c = crate::formatter::with_doxygen_aligned(b, config, Eol::Lf);
    let s = config.spacing;
    let i = lemma_pass(comments(config), s.align_right_cmt_span > 0, laid, texts, starts);
    let j = lemma_pass(equals(config), s.align_enum_equ_span > 0, a, texts, i);
    let k = lemma_pass(crate::align::doxygen_rule(), s.align_doxygen_cmt_span > 0, b, texts, j);
    lemma_feeds_on(laid, starts, a, i, b, j, texts);
    lemma_feeds_on(laid, starts, b, j, c, k, texts);
    k
}

} // verus!
