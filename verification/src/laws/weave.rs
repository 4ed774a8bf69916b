//! The layout is woven of the tokens: their texts stand in it one behind the
//! other, with white space between them, and empty lines do not pile up there.

use crate::config::{Config, Eol};
use crate::layout::{BraceCtx, DepthView, Input, Marks, PageView, State};
use crate::text::Class;
use crate::token::{KindSet, Token, TokenKind};
use crate::trivia::Conditional;
use vstd::prelude::*;

verus! {

// ── Weaving ──────────────────────────────────────────────────────────────────

/// The text without the white space at its end.
pub open spec fn gist(t: Seq<char>) -> Seq<char> {
    crate::text::trim_end(t, Class::White)
}

/// The white space at the end of the text.
pub open spec fn tail(t: Seq<char>) -> Seq<char> {
    t.skip(gist(t).len() as int)
}

/// How many line feeds the text holds.
pub open spec fn feeds(s: Seq<char>) -> nat
    decreases s.len(),
{
    if s.len() == 0 {
        0
    } else {
        feeds(s.drop_last()) + (if s.last() == '\n' {
            1nat
        } else {
            0nat
        })
    }
}

/// How many line ends stand behind the last text, or in front of the first.
pub open spec fn ends(out: Seq<char>, texts: Seq<Seq<char>>) -> nat {
    if texts.len() == 0 {
        feeds(out) + 1
    } else {
        feeds(tail(out))
    }
}

/// The output is made of the texts, one behind the other, with nothing but
/// white space between them and around them. In front of each text stand no
/// more than `m` empty lines: `m + 1` line feeds behind another text, `m` at
/// the start. A text that starts with a `#` starts its line.
#[verifier::opaque]
pub open spec fn woven(out: Seq<char>, texts: Seq<Seq<char>>, m: nat) -> bool
    decreases texts.len(),
{
    let body = gist(out);
    if texts.len() == 0 {
        body.len() == 0 && feeds(out) <= m
    } else {
        let last = texts.last();
        let n = body.len() - last.len();
        &&& feeds(tail(out)) <= m + 1
        &&& last.len() > 0 && n >= 0 && body.skip(n) == last && woven(
            body.take(n),
            texts.drop_last(),
            m,
        )
        &&& last[0] == '#' ==> ends(body.take(n), texts.drop_last()) > 0
    }
}

/// A line that is begun holds something.
#[verifier::opaque]
spec fn flushed(out: Seq<char>, texts: Seq<Seq<char>>, fresh: bool, m: nat) -> bool {
    woven(out, texts, m) && fresh == (ends(out, texts) > 0)
}

/// No empty line stands at the end.
#[verifier::opaque]
spec fn settled(out: Seq<char>, texts: Seq<Seq<char>>, fresh: bool, m: nat) -> bool {
    woven(out, texts, m) && ends(out, texts) == if fresh {
        1nat
    } else {
        0nat
    }
}

/// A text that can be written: it starts with no white space and with no `#`,
/// and ends in at most one line feed.
pub open spec fn calm(t: Seq<char>) -> bool {
    tidy(t) && t[0] != '#'
}

/// As `calm`, of a text that may start with a `#`.
pub open spec fn tidy(t: Seq<char>) -> bool {
    &&& t.len() > 0 && !crate::text::is_white(t[0])
    &&& feeds(tail(t)) <= if t.last() == '\n' {
        1nat
    } else {
        0nat
    }
}

spec fn is_led(s: State, texts: Seq<Seq<char>>, m: nat) -> bool {
    woven(s.page.out, texts, m)
}

spec fn is_flushed(s: State, texts: Seq<Seq<char>>, m: nat) -> bool {
    flushed(s.page.out, texts, s.page.at_line_start, m)
}

spec fn is_settled(s: State, texts: Seq<Seq<char>>, m: nat) -> bool {
    settled(s.page.out, texts, s.page.at_line_start, m)
}

/// How many empty lines may stand in a row.
pub open spec fn most(config: Config) -> nat {
    config.newlines.max_blank_lines as nat
}

pub proof fn lemma_feeds_add(a: Seq<char>, b: Seq<char>)
    ensures
        feeds(a + b) == feeds(a) + feeds(b),
    decreases b.len(),
{
    if b.len() == 0 {
        assert(a + b =~= a);
    } else {
        assert((a + b).drop_last() =~= a + b.drop_last());
        lemma_feeds_add(a, b.drop_last());
    }
}

pub proof fn lemma_feeds_none(s: Seq<char>)
    requires
        crate::laws::lines::lacks(s, '\n'),
    ensures
        feeds(s) == 0,
    decreases s.len(),
{
    if s.len() > 0 {
        let t = s.drop_last();
        assert forall|i: int| 0 <= i < t.len() implies #[trigger] t[i] != '\n' by {
            assert(s[i] != '\n');
        }
        lemma_feeds_none(t);
        assert(s[s.len() - 1] != '\n');
    }
}

proof fn lemma_feeds_repeat(n: nat)
    ensures
        feeds(crate::text::repeat(Eol::Lf.text(), n)) == n,
    decreases n,
{
    if n > 0 {
        let lf = Eol::Lf.text();
        lemma_feeds_repeat((n - 1) as nat);
        lemma_feeds_add(crate::text::repeat(lf, (n - 1) as nat), lf);
        assert(lf.drop_last() =~= Seq::empty());
        assert(feeds(lf.drop_last()) == 0);
        assert(feeds(lf) == 1);
    }
}

/// All characters are white space.
pub open spec fn blank(s: Seq<char>) -> bool {
    forall|i: int| 0 <= i < s.len() ==> crate::text::is_white(#[trigger] s[i])
}

/// White space behind a text does not change its gist.
proof fn lemma_gist_add(a: Seq<char>, w: Seq<char>)
    requires
        blank(w),
    ensures
        gist(a + w) == gist(a),
        tail(a + w) == tail(a) + w,
    decreases w.len(),
{
    crate::laws::lines::lemma_trim_end_prefix(a, Class::White);
    if w.len() == 0 {
        assert(a + w =~= a);
        assert(tail(a) + w =~= tail(a));
    } else {
        let v = w.drop_last();
        assert((a + w).drop_last() =~= a + v);
        assert(crate::text::is_white(w[w.len() - 1]));
        assert forall|i: int| 0 <= i < v.len() implies crate::text::is_white(#[trigger] v[i]) by {
            assert(crate::text::is_white(w[i]));
        }
        lemma_gist_add(a, v);
        assert(tail(a + w) =~= tail(a) + w);
    }
}

/// A text is its gist and white space.
pub proof fn lemma_gist(t: Seq<char>)
    ensures
        gist(t).len() <= t.len(),
        t == gist(t) + tail(t),
        gist(t) == t.take(gist(t).len() as int),
        blank(tail(t)),
        gist(t).len() > 0 ==> !crate::text::is_white(gist(t).last()),
{
    crate::laws::lines::lemma_trim_end_prefix(t, Class::White);
    crate::laws::rules::lemma_trimmed(t, Class::White);
    crate::laws::walking::lemma_cut_off(t);
    assert(t =~= gist(t) + tail(t));
    let n = gist(t).len() as int;
    assert forall|i: int| 0 <= i < tail(t).len() implies crate::text::is_white(
        #[trigger] tail(t)[i],
    ) by {
        assert(tail(t)[i] == t[n + i]);
    }
}

proof fn lemma_gist_front(a: Seq<char>, b: Seq<char>)
    requires
        b.len() > 0,
        !crate::text::is_white(b[0]),
    ensures
        gist(a + b) == a + gist(b),
        gist(b).len() > 0,
        gist(b)[0] == b[0],
        tail(a + b) == tail(b),
    decreases b.len(),
{
    if crate::text::is_white(b.last()) {
        lemma_gist_front(a, b.drop_last());
        assert((a + b).drop_last() =~= a + b.drop_last());
    }
    crate::laws::lines::lemma_trim_end_prefix(b, Class::White);
    assert(tail(a + b) =~= tail(b));
}

/// More white space behind the last text.
proof fn lemma_woven_add(out: Seq<char>, w: Seq<char>, texts: Seq<Seq<char>>, m: nat)
    requires
        woven(out, texts, m),
        blank(w),
        ends(out, texts) + feeds(w) <= m + 1,
    ensures
        woven(out + w, texts, m),
        ends(out + w, texts) == ends(out, texts) + feeds(w),
{
    reveal_with_fuel(woven, 1);
    lemma_gist_add(out, w);
    lemma_feeds_add(out, w);
    lemma_feeds_add(tail(out), w);
}

/// Less white space behind the last text.
proof fn lemma_woven_cut(out: Seq<char>, n: int, texts: Seq<Seq<char>>, m: nat)
    requires
        woven(out, texts, m),
        gist(out).len() <= n <= out.len(),
    ensures
        woven(out.take(n), texts, m),
        ends(out.take(n), texts) <= ends(out, texts),
        gist(out.take(n)) == gist(out),
        ends(out.take(n), texts) + feeds(out.skip(n)) == ends(out, texts),
{
    reveal_with_fuel(woven, 1);
    lemma_gist(out);
    let t = out.take(n);
    let w = tail(out).take(n - gist(out).len());
    assert(t =~= gist(out) + w);
    assert forall|i: int| 0 <= i < w.len() implies crate::text::is_white(#[trigger] w[i]) by {
        assert(w[i] == tail(out)[i]);
    }
    lemma_gist_add(gist(out), w);
    assert(gist(gist(out)) == gist(out)) by {
        crate::laws::rules::lemma_trimmed(out, Class::White);
    }
    assert(tail(gist(out)) =~= Seq::empty());
    assert(tail(t) =~= w);
    assert(tail(out) =~= w + out.skip(n));
    lemma_feeds_add(w, out.skip(n));
    assert(out =~= t + out.skip(n));
    lemma_feeds_add(t, out.skip(n));
}

proof fn lemma_weaken(s: State, texts: Seq<Seq<char>>, m: nat)
    ensures
        is_settled(s, texts, m) ==> is_flushed(s, texts, m),
        is_flushed(s, texts, m) ==> is_led(s, texts, m),
{
    reveal(flushed);
    reveal(settled);
}

proof fn lemma_write(s: State, t: Seq<char>, texts: Seq<Seq<char>>, m: nat)
    requires
        is_led(s, texts, m),
        tidy(t),
        t[0] == '#' ==> ends(s.page.out, texts) > 0,
    ensures
        is_settled(s.write(t), texts.push(gist(t)), m),
        s.write(t).page.at_line_start == (t.last() == '\n'),
{
    reveal_with_fuel(woven, 1);
    reveal(settled);
    let out = s.page.out;
    let more = texts.push(gist(t));
    lemma_gist_front(out, t);
    if t.last() == '\n' {
        crate::laws::lines::lemma_trim_end_prefix(t.drop_last(), Class::White);
        assert(tail(t).last() == '\n');
    }
    let body = gist(out + t);
    assert(more.drop_last() =~= texts);
    assert(body.take(out.len() as int) =~= out);
    assert(body.skip(out.len() as int) =~= gist(t));
    assert(woven(out + t, more, m));
}

proof fn lemma_symbol(c: char)
    requires
        !crate::text::is_white(c),
        c != '#',
    ensures
        calm(seq![c]),
        gist(seq![c]) == seq![c],
{
    assert(tail(seq![c]) =~= Seq::empty());
}

proof fn lemma_lead(s: State, lead: Seq<char>, started: bool, texts: Seq<Seq<char>>, m: nat)
    requires
        is_led(s, texts, m),
        crate::laws::lines::lacks(lead, '\n'),
        blank(lead),
    ensures
        woven(s.page.lead(lead, started).out, texts, m),
        ends(s.page.lead(lead, started).out, texts) == ends(s.page.out, texts),
{
    reveal_with_fuel(woven, 1);
    lemma_feeds_none(lead);
    lemma_woven_add(s.page.out, lead, texts, m);
}

proof fn lemma_space(s: State, texts: Seq<Seq<char>>, m: nat)
    requires
        is_led(s, texts, m),
    ensures
        is_led(s.space(), texts, m),
        is_settled(s, texts, m) ==> is_settled(s.space(), texts, m),
{
    reveal_with_fuel(woven, 1);
    reveal(settled);
    let one = seq![' '];
    let out = s.page.out;
    assert(out.push(' ') =~= out + one);
    lemma_feeds_none(one);
    lemma_woven_add(out, one, texts, m);
}

/// Trimming white space stops at the last text.
proof fn lemma_trim_gist(out: Seq<char>, class: Class)
    requires
        class == Class::Space || class == Class::AsciiWhite,
    ensures
        gist(out).len() <= crate::text::trim_end(out, class).len() <= out.len(),
        crate::text::trim_end(out, class) == out.take(
            crate::text::trim_end(out, class).len() as int,
        ),
    decreases out.len(),
{
    crate::laws::lines::lemma_trim_end_prefix(out, class);
    crate::laws::lines::lemma_trim_end_prefix(out, Class::White);
    if out.len() > 0 && class.has(out.last()) {
        lemma_trim_gist(out.drop_last(), class);
    }
}

proof fn lemma_join_line(s: State, texts: Seq<Seq<char>>, m: nat)
    requires
        is_led(s, texts, m),
    ensures
        is_led(s.join_line(), texts, m),
{
    let out = s.page.out;
    lemma_trim_gist(out, Class::AsciiWhite);
    lemma_woven_cut(
        out,
        crate::text::trim_end(out, Class::AsciiWhite).len() as int,
        texts,
        m,
    );
}

/// Trimming spaces takes no line feed away.
proof fn lemma_trim_feeds(out: Seq<char>)
    ensures
        feeds(out.skip(crate::text::trim_end(out, Class::Space).len() as int)) == 0,
    decreases out.len(),
{
    let n = crate::text::trim_end(out, Class::Space).len() as int;
    crate::laws::lines::lemma_trim_end_prefix(out, Class::Space);
    if out.len() > 0 && out.last() == ' ' {
        lemma_trim_feeds(out.drop_last());
        crate::laws::lines::lemma_trim_end_prefix(out.drop_last(), Class::Space);
        assert(out.skip(n).drop_last() =~= out.drop_last().skip(n));
    } else {
        assert(out.skip(n) =~= Seq::empty());
    }
}

proof fn lemma_end_lines(s: State, k: nat, texts: Seq<Seq<char>>, m: nat)
    requires
        is_led(s, texts, m),
        ends(s.page.out, texts) + k <= m + 1,
    ensures
        woven(s.page.end_lines(Eol::Lf, k).out, texts, m),
        k > 0 ==> ends(s.page.end_lines(Eol::Lf, k).out, texts) == ends(s.page.out, texts) + k,
{
    let out = s.page.out;
    let t = crate::text::trim_end(out, Class::Space);
    let r = crate::text::repeat(Eol::Lf.text(), k);
    if k > 0 {
        lemma_trim_gist(out, Class::Space);
        lemma_trim_feeds(out);
        lemma_woven_cut(out, t.len() as int, texts, m);
        lemma_feeds_repeat(k);
        lemma_repeat_blank(k);
        lemma_woven_add(t, r, texts, m);
    }
}

proof fn lemma_repeat_blank(n: nat)
    ensures
        blank(crate::text::repeat(Eol::Lf.text(), n)),
    decreases n,
{
    if n > 0 {
        lemma_repeat_blank((n - 1) as nat);
        let all = crate::text::repeat(Eol::Lf.text(), n);
        let init = crate::text::repeat(Eol::Lf.text(), (n - 1) as nat);
        assert forall|i: int| 0 <= i < all.len() implies crate::text::is_white(
            #[trigger] all[i],
        ) by {
            if i < init.len() {
                assert(all[i] == init[i]);
            }
        }
    }
}

proof fn lemma_units_blank(config: Config, n: nat)
    ensures
        blank(crate::text::repeat(config.indent_unit(), n)),
    decreases n,
{
    if n > 0 {
        lemma_units_blank(config, (n - 1) as nat);
        let unit = config.indent_unit();
        let all = crate::text::repeat(unit, n);
        let init = crate::text::repeat(unit, (n - 1) as nat);
        assert forall|i: int| 0 <= i < all.len() implies crate::text::is_white(
            #[trigger] all[i],
        ) by {
            if i < init.len() {
                assert(all[i] == init[i]);
            } else {
                assert(all[i] == unit[i - init.len()]);
            }
        }
    }
}

proof fn lemma_flush(s: State, config: Config, texts: Seq<Seq<char>>)
    requires
        is_settled(s, texts, most(config)),
    ensures
        is_flushed(s.flush(config, Eol::Lf), texts, most(config)),
{
    reveal(State::flush);
    reveal(flushed);
    reveal(settled);
    let m = most(config);
    let k = s.owed_lines(config);
    lemma_weaken(s, texts, m);
    lemma_end_lines(s, k, texts, m);
}

/// A line that holds something ends.
proof fn lemma_nl(s: State, texts: Seq<Seq<char>>, m: nat)
    requires
        is_flushed(s, texts, m),
        !s.page.at_line_start,
    ensures
        is_settled(s.nl(Eol::Lf), texts, m),
        is_settled(s.break_line(Eol::Lf), texts, m),
{
    reveal(flushed);
    reveal(settled);
    lemma_end_lines(s, 1, texts, m);
}

proof fn lemma_fresh(s: State, texts: Seq<Seq<char>>, m: nat)
    ensures
        is_flushed(s, texts, m) ==> is_flushed(s.fresh_line(Eol::Lf), texts, m),
        is_settled(s, texts, m) ==> is_settled(s.fresh_line(Eol::Lf), texts, m),
{
    lemma_weaken(s, texts, m);
    if !s.page.at_line_start && is_flushed(s, texts, m) {
        lemma_nl(s, texts, m);
        lemma_weaken(s.nl(Eol::Lf), texts, m);
    }
}

// ── Lines ────────────────────────────────────────────────────────────────────

proof fn lemma_align_to_paren(s: State, texts: Seq<Seq<char>>, m: nat)
    requires
        is_led(s, texts, m),
    ensures
        is_led(s.align_to_paren(), texts, m),
{
    if s.parens.len() > 0 {
        let top = s.parens.last();
        let eol = top.eol || s.page.tail_is('(');
        let col = if eol {
            top.eol_col
        } else {
            top.col
        };
        lemma_lead(s, crate::text::spaces(col), eol || col > 0, texts, m);
    }
}

proof fn lemma_start_line(s: State, config: Config, texts: Seq<Seq<char>>, m: nat)
    requires
        is_led(s, texts, m),
    ensures
        is_led(s.start_line(config), texts, m),
{
    reveal(State::start_line);
    lemma_align_to_paren(s, texts, m);
    crate::neat::lemma_units_lack(config, s.depth.indent);
    crate::neat::lemma_units_lack(config, s.depth.indent + 1);
    lemma_units_blank(config, s.depth.indent);
    lemma_units_blank(config, s.depth.indent + 1);
    match s.assign {
        Some(a) => {
            let eol = a.eol || s.page.tail_is('=');
            let lead = if eol {
                crate::text::repeat(config.indent_unit(), s.depth.indent + 1)
            } else {
                crate::text::spaces(a.col)
            };
            lemma_lead(s, lead, eol || a.col > 0, texts, m);
        },
        None => {
            lemma_lead(
                s,
                crate::text::repeat(config.indent_unit(), s.depth.indent),
                s.depth.indent > 0, texts, m,
            );
        },
    }
}

proof fn lemma_own_line(s: State, config: Config, texts: Seq<Seq<char>>, m: nat)
    requires
        is_flushed(s, texts, m),
    ensures
        is_led(s.own_line(config, Eol::Lf), texts, m),
{
    reveal(State::own_line);
    lemma_weaken(s, texts, m);
    if s.page.at_line_start {
        lemma_start_line(s, config, texts, m);
    } else {
        lemma_nl(s, texts, m);
        lemma_weaken(s.nl(Eol::Lf), texts, m);
        lemma_start_line(s.nl(Eol::Lf), config, texts, m);
    }
}

proof fn lemma_lead_in(s: State, config: Config, wanted: bool, texts: Seq<Seq<char>>, m: nat)
    requires
        is_led(s, texts, m),
    ensures
        is_led(s.lead_in(config, wanted), texts, m),
{
    reveal(State::lead_in);
    lemma_start_line(s, config, texts, m);
    lemma_space(s, texts, m);
}

/// A token behind its indentation or space.
proof fn lemma_put(s: State, config: Config, wanted: bool, t: Seq<char>, texts: Seq<Seq<char>>)
    requires
        is_settled(s, texts, most(config)),
        calm(t),
    ensures
        is_settled(
            s.flush(config, Eol::Lf).lead_in(config, wanted).write(t),
            texts.push(gist(t)),
            most(config),
        ),
        s.flush(config, Eol::Lf).lead_in(config, wanted).write(t).page.at_line_start == (t.last()
            == '\n'),
{
    let m = most(config);
    let f = s.flush(config, Eol::Lf);
    lemma_flush(s, config, texts);
    lemma_weaken(f, texts, m);
    lemma_lead_in(f, config, wanted, texts, m);
    lemma_write(f.lead_in(config, wanted), t, texts, m);
}

proof fn lemma_break_unless_comment(s: State, env: Input, p: int, line: u32, texts: Seq<Seq<char>>)
    requires
        is_settled(s, texts, most(env.config)),
        !s.page.at_line_start,
        env.eol == Eol::Lf,
    ensures
        is_settled(s.break_unless_comment(env, p, line), texts, most(env.config)),
{
    lemma_weaken(s, texts, most(env.config));
    lemma_nl(s, texts, most(env.config));
}

proof fn lemma_post_brace(
    s: State,
    env: Input,
    ctx: BraceCtx,
    next: Option<TokenKind>,
    p: int,
    line: u32,
    texts: Seq<Seq<char>>,
)
    requires
        is_settled(s, texts, most(env.config)),
        !s.page.at_line_start,
        env.eol == Eol::Lf,
    ensures
        is_settled(s.post_brace(env, ctx, next, p, line), texts, most(env.config)),
{
    reveal(State::post_brace);
    lemma_weaken(s, texts, most(env.config));
    lemma_nl(s, texts, most(env.config));
    lemma_space(s, texts, most(env.config));
    lemma_break_unless_comment(s, env, p, line, texts);
}

// ── Tokens ───────────────────────────────────────────────────────────────────

/// What is written of a token is calm.
pub open spec fn token_calm(t: Token, config: Config) -> bool {
    match t.kind {
        TokenKind::CommentBlock => {
            let text = crate::trivia::block_comment(t.lexeme@, config, Eol::Lf);
            calm(text) && text.last() != '\n'
        },
        TokenKind::CommentLine => calm(crate::text::trim_end(t.lexeme@, Class::Break)),
        TokenKind::PreprocLine => tidy(crate::trivia::preproc_line(t.lexeme@, config, Eol::Lf)),
        _ => calm(t.lexeme@),
    }
}

/// What is written of the token can be written; in an initializer that is kept
/// on one line that is the token's own text.
pub open spec fn calm_at(toks: Seq<Token>, i: int, config: Config) -> bool {
    &&& token_calm(toks[i], config)
    &&& crate::keep::in_small_init(toks, i) ==> calm(toks[i].lexeme@)
}

/// What is written of the tokens can be written.
pub open spec fn all_calm(toks: Seq<Token>, config: Config) -> bool {
    forall|i: int|
        #![trigger toks[i]]
        0 <= i < toks.len() && !KindSet::Layout.has(toks[i].kind) && toks[i].kind != TokenKind::Eof
            ==> calm_at(toks, i, config)
}

proof fn lemma_on_preproc(s: State, env: Input, text: Seq<char>, texts: Seq<Seq<char>>)
    requires
        is_settled(s, texts, most(env.config)),
        env.eol == Eol::Lf,
        tidy(crate::trivia::preproc_line(text, env.config, Eol::Lf)),
    ensures
        is_settled(
            s.on_preproc(env, text),
            texts.push(gist(crate::trivia::preproc_line(text, env.config, Eol::Lf))),
            most(env.config),
        ),
{
    let more = texts.push(gist(crate::trivia::preproc_line(text, env.config, Eol::Lf)));
    let m = most(env.config);
    let c = crate::trivia::conditional(crate::trivia::unify(text, env.eol));
    let line = crate::trivia::preproc_line(text, env.config, env.eol);
    let f = s.flush(env.config, Eol::Lf);
    lemma_flush(s, env.config, texts);
    lemma_fresh(f, texts, m);
    let g = f.fresh_line(Eol::Lf).track_group(c);
    lemma_weaken(g, texts, m);
    assert(ends(g.page.out, texts) > 0) by {
        reveal(flushed);
    }
    lemma_write_preproc(g, env.config, c, line, texts);
    lemma_fresh(g.write_preproc(env.config, c, line), more, m);
}

proof fn lemma_write_preproc(
    s: State,
    config: Config,
    c: Conditional,
    line: Seq<char>,
    texts: Seq<Seq<char>>,
)
    requires
        is_led(s, texts, most(config)),
        ends(s.page.out, texts) > 0,
        tidy(line),
    ensures
        is_settled(s.write_preproc(config, c, line), texts.push(gist(line)), most(config)),
{
    let m = most(config);
    if config.preprocessor.pp_indent {
        let n = if c == Conditional::Close || c == Conditional::Reopen {
            crate::layout::minus(s.depth.pp_groups, 1)
        } else {
            s.depth.pp_groups
        };
        let lead = crate::text::repeat(config.indent_unit(), n);
        let t = s.with_groups(n);
        lemma_units_blank(config, n);
        crate::neat::lemma_units_lack(config, n);
        lemma_lead(t, lead, true, texts, m);
        assert(t.page.lead(lead, true).out == t.page.out + lead);
        assert(t.write(lead).page.out =~= t.page.out + lead);
        lemma_write(t.write(lead), crate::text::trim_start(line, Class::White), texts, m);
    } else {
        lemma_write(s, line, texts, m);
    }
}

/// Line ends behind a text do not change its gist.
proof fn lemma_gist_break(t: Seq<char>)
    ensures
        gist(crate::text::trim_end(t, Class::Break)) == gist(t),
    decreases t.len(),
{
    if t.len() > 0 && Class::Break.has(t.last()) {
        lemma_gist_break(t.drop_last());
    }
}

proof fn lemma_on_line_comment(s: State, env: Input, text: Seq<char>, texts: Seq<Seq<char>>)
    requires
        is_settled(s, texts, most(env.config)),
        env.eol == Eol::Lf,
        calm(crate::text::trim_end(text, Class::Break)),
    ensures
        is_settled(s.on_line_comment(env, text), texts.push(gist(text)), most(env.config)),
{
    let more = texts.push(gist(text));
    let m = most(env.config);
    let f = s.flush(env.config, Eol::Lf);
    let body = crate::text::trim_end(text, Class::Break);
    lemma_gist_break(text);
    lemma_flush(s, env.config, texts);
    lemma_weaken(f, texts, m);
    lemma_join_line(f, texts, m);
    let placed = if s.merges_comment(env.config) {
        f.join_line()
    } else {
        f
    };
    lemma_lead_in(placed, env.config, true, texts, m);
    let l = placed.lead_in(env.config, true);
    lemma_write(l, body, texts, m);
    crate::laws::rules::lemma_trimmed(text, Class::Break);
    let w = l.write(body);
    lemma_weaken(w, more, m);
    lemma_nl(w, more, m);
}

proof fn lemma_on_block_comment(
    s: State,
    env: Input,
    text: Seq<char>,
    p: int,
    texts: Seq<Seq<char>>,
)
    requires
        is_settled(s, texts, most(env.config)),
        env.eol == Eol::Lf,
        calm(crate::trivia::block_comment(text, env.config, Eol::Lf)),
        crate::trivia::block_comment(text, env.config, Eol::Lf).last() != '\n',
    ensures
        is_settled(
            s.on_block_comment(env, text, p),
            texts.push(gist(crate::trivia::block_comment(text, env.config, Eol::Lf))),
            most(env.config),
        ),
{
    let more = texts.push(gist(crate::trivia::block_comment(text, env.config, Eol::Lf)));
    let m = most(env.config);
    let body = crate::trivia::block_comment(text, env.config, Eol::Lf);
    lemma_put(s, env.config, true, body, texts);
    let w = s.flush(env.config, Eol::Lf).lead_in(env.config, true).write(body);
    lemma_weaken(w, more, m);
    lemma_nl(w, more, m);
}

// ── Braces ───────────────────────────────────────────────────────────────────

/// All items are calm.
spec fn items_calm(items: Seq<Token>) -> bool {
    forall|i: int| 0 <= i < items.len() ==> calm((#[trigger] items[i]).lexeme@)
}

proof fn lemma_page_write(p: PageView, t: Seq<char>, texts: Seq<Seq<char>>, m: nat)
    requires
        woven(p.out, texts, m),
        calm(t),
    ensures
        settled(p.write(t).out, texts.push(gist(t)), p.write(t).at_line_start, m),
        woven(p.write(t).out, texts.push(gist(t)), m),
        p.write(t).at_line_start == (t.last() == '\n'),
{
    let s = State { page: p, ..crate::layout::initial_state() };
    lemma_write(s, t, texts, m);
    lemma_weaken(s.write(t), texts.push(gist(t)), m);
}

proof fn lemma_page_space(p: PageView, texts: Seq<Seq<char>>, m: nat)
    requires
        woven(p.out, texts, m),
    ensures
        woven(p.write(seq![' ']).out, texts, m),
{
    let s = State { page: p, ..crate::layout::initial_state() };
    lemma_lead(s, seq![' '], true, texts, m);
    assert(p.write(seq![' ']).out == p.lead(seq![' '], true).out);
}

/// What is written of the items of an initializer that is kept on one line.
spec fn gists(items: Seq<Token>) -> Seq<Seq<char>> {
    items.map_values(|t: Token| gist(t.lexeme@))
}

proof fn lemma_write_items(
    p: PageView,
    items: Seq<Token>,
    prev: TokenKind,
    unary: bool,
    texts: Seq<Seq<char>>,
    m: nat,
)
    requires
        woven(p.out, texts, m),
        items_calm(items),
    ensures
        woven(p.write_items(items, prev, unary).out, texts + gists(items), m),
    decreases items.len(),
{
    if items.len() > 0 {
        let t = items[0];
        lemma_page_space(p, texts, m);
        let spaced = if crate::braces::item_space(prev, t.kind, unary) {
            p.write(seq![' '])
        } else {
            p
        };
        assert(calm(items[0].lexeme@));
        lemma_page_write(spaced, t.lexeme@, texts, m);
        let rest = items.drop_first();
        assert forall|i: int| 0 <= i < rest.len() implies calm((#[trigger] rest[i]).lexeme@) by {
            assert(rest[i] == items[i + 1]);
        }
        let more = texts.push(gist(t.lexeme@));
        lemma_write_items(
            spaced.write(t.lexeme@),
            rest,
            t.kind,
            crate::braces::item_is_unary(prev, t.kind),
            more,
            m,
        );
        assert(more + gists(rest) =~= texts + gists(items));
    } else {
        assert(texts + gists(items) =~= texts);
    }
}

proof fn lemma_write_small_init(p: PageView, items: Seq<Token>, texts: Seq<Seq<char>>, m: nat)
    requires
        woven(p.out, texts, m),
        items_calm(items),
    ensures
        settled(
            p.write_small_init(items).out,
            (texts + gists(items)).push(seq!['}']),
            p.write_small_init(items).at_line_start,
            m,
        ),
{
    let close = seq!['}'];
    lemma_symbol('}');
    if items.len() == 0 {
        lemma_page_write(p, close, texts, m);
        assert(texts + gists(items) =~= texts);
    } else {
        let more = texts + gists(items);
        lemma_page_space(p, texts, m);
        let a = p.write(seq![' ']);
        lemma_write_items(a, items, TokenKind::LBrace, false, texts, m);
        let b = a.write_items(items, TokenKind::LBrace, false);
        lemma_page_space(b, more, m);
        lemma_page_write(b.write(seq![' ']), close, more, m);
        assert(seq![' ', '}'] =~= seq![' '] + close);
        assert(b.write(seq![' ', '}']).out =~= b.write(seq![' ']).write(close).out);
    }
}

proof fn lemma_content(toks: Seq<Token>, config: Config, p: int, i: int, end: int)
    requires
        all_calm(toks, config),
        crate::scan::is_at(toks, p - 1, TokenKind::LBrace),
        crate::scan::small_init_end(toks, p) == Some(end),
        0 <= p <= i,
        end <= toks.len(),
        forall|k: int| i <= k < end ==> (#[trigger] toks[k]).kind != TokenKind::Eof,
    ensures
        items_calm(crate::scan::content(toks, i, end)),
    decreases end - i,
{
    if i < end {
        lemma_content(toks, config, p, i + 1, end);
        let rest = crate::scan::content(toks, i + 1, end);
        let all = crate::scan::content(toks, i, end);
        assert forall|k: int| 0 <= k < all.len() implies calm((#[trigger] all[k]).lexeme@) by {
            if KindSet::Layout.has(toks[i].kind) {
                assert(all[k] == rest[k]);
            } else if k > 0 {
                assert(all[k] == rest[k - 1]);
            } else {
                assert(all[k] == toks[i]);
                assert(crate::keep::in_small_init(toks, i)) by {
                    assert(crate::scan::small_init_end(toks, p) is Some);
                }
                assert(calm_at(toks, i, config));
            }
        }
    }
}

proof fn lemma_place_brace(s: State, env: Input, ctx: BraceCtx, p: int, texts: Seq<Seq<char>>)
    requires
        is_flushed(s, texts, most(env.config)),
        env.eol == Eol::Lf,
    ensures
        is_settled(s.place_brace(env, ctx, p), texts.push(seq!['{']), most(env.config)),
        !s.place_brace(env, ctx, p).page.at_line_start,
{
    reveal(State::place_brace);
    let m = most(env.config);
    let open = seq!['{'];
    lemma_symbol('{');
    lemma_weaken(s, texts, m);
    lemma_space(s, texts, m);
    lemma_join_line(s, texts, m);
    lemma_space(s.join_line(), texts, m);
    lemma_own_line(s, env.config, texts, m);
    lemma_write(s, open, texts, m);
    lemma_write(s.space(), open, texts, m);
    lemma_write(s.cling(), open, texts, m);
    lemma_write(s.own_line(env.config, Eol::Lf), open, texts, m);
}

proof fn lemma_close_empty(
    s: State,
    env: Input,
    ctx: BraceCtx,
    p: int,
    line: u32,
    texts: Seq<Seq<char>>,
)
    requires
        is_settled(s, texts, most(env.config)),
        env.eol == Eol::Lf,
    ensures
        is_settled(s.close_empty(env, ctx, p, line), texts.push(seq!['}']), most(env.config)),
{
    let more = texts.push(seq!['}']);
    reveal(State::close_empty);
    let m = most(env.config);
    let next = crate::scan::kind_at(env.toks, crate::scan::skip(env.toks, p, KindSet::Layout));
    lemma_symbol('}');
    lemma_weaken(s, texts, m);
    lemma_write(s, seq!['}'], texts, m);
    lemma_post_brace(s.write(seq!['}']), env, ctx, next, p, line, more);
}

proof fn lemma_open_body(s: State, env: Input, ctx: BraceCtx, p: int, texts: Seq<Seq<char>>)
    requires
        is_settled(s, texts, most(env.config)),
        !s.page.at_line_start,
        env.eol == Eol::Lf,
    ensures
        is_settled(s.open_body(env, ctx, p), texts, most(env.config)),
{
    reveal(State::open_body);
    let t = s.enter(env.config, ctx).begin_decls(env.config, ctx).push_brace(env, ctx, p).settle();
    lemma_weaken(t, texts, most(env.config));
    lemma_nl(t, texts, most(env.config));
}

/// The texts are what is written of the tokens.
pub open spec fn tells(texts: Seq<Seq<char>>, toks: Seq<Token>, config: Config) -> bool {
    &&& texts.len() == toks.len()
    &&& forall|i: int| 0 <= i < toks.len() ==> stands(#[trigger] texts[i], toks[i], config)
}

/// The text is what is written of the token: the token's own text, but for a
/// comment or a line of the preprocessor that is laid out anew. White space
/// at its end does not count.
pub open spec fn stands(text: Seq<char>, t: Token, config: Config) -> bool {
    match t.kind {
        TokenKind::CommentBlock => text == gist(t.lexeme@) || text == gist(
            crate::trivia::block_comment(t.lexeme@, config, Eol::Lf),
        ),
        TokenKind::PreprocLine => text == gist(t.lexeme@) || text == gist(
            crate::trivia::preproc_line(t.lexeme@, config, Eol::Lf),
        ),
        _ => text == gist(t.lexeme@),
    }
}

proof fn lemma_gists_tell(items: Seq<Token>, config: Config)
    ensures
        tells(gists(items), items, config),
{
    assert forall|i: int| 0 <= i < items.len() implies stands(
        #[trigger] gists(items)[i],
        items[i],
        config,
    ) by {
        assert(gists(items)[i] == gist(items[i].lexeme@));
    }
}

proof fn lemma_tells_add(
    a: Seq<Seq<char>>,
    b: Seq<Seq<char>>,
    x: Seq<Token>,
    y: Seq<Token>,
    config: Config,
)
    requires
        tells(a, x, config),
        tells(b, y, config),
    ensures
        tells(a + b, x + y, config),
{
    assert forall|i: int| 0 <= i < (x + y).len() implies stands(
        #[trigger] (a + b)[i],
        (x + y)[i],
        config,
    ) by {
        if i < a.len() {
            assert((a + b)[i] == a[i]);
        } else {
            assert((a + b)[i] == b[i - a.len()]);
        }
    }
}

pub proof fn lemma_content_split(toks: Seq<Token>, i: int, m: int, j: int)
    requires
        i <= m <= j,
    ensures
        crate::scan::content(toks, i, j) == crate::scan::content(toks, i, m)
            + crate::scan::content(toks, m, j),
    decreases m - i,
{
    if i < m {
        lemma_content_split(toks, i + 1, m, j);
        assert(seq![toks[i]] + (crate::scan::content(toks, i + 1, m) + crate::scan::content(
            toks,
            m,
            j,
        )) =~= (seq![toks[i]] + crate::scan::content(toks, i + 1, m)) + crate::scan::content(
            toks,
            m,
            j,
        ));
    } else {
        assert(Seq::<Token>::empty() + crate::scan::content(toks, m, j) =~= crate::scan::content(
            toks,
            m,
            j,
        ));
    }
}

pub proof fn lemma_content_one(toks: Seq<Token>, i: int)
    ensures
        !KindSet::Layout.has(toks[i].kind) ==> crate::scan::content(toks, i, i + 1)
            == seq![toks[i]],
{
    reveal_with_fuel(crate::scan::content, 2);
    assert(seq![toks[i]] + Seq::empty() =~= seq![toks[i]]);
}

proof fn lemma_content_layout(toks: Seq<Token>, i: int)
    requires
        0 <= i,
    ensures
        crate::scan::content(toks, i, crate::scan::skip(toks, i, KindSet::Layout)) == Seq::<
            Token,
        >::empty(),
    decreases toks.len() - i,
{
    if crate::scan::any_at(toks, i, KindSet::Layout) {
        lemma_content_layout(toks, i + 1);
    }
}

/// A brace with its fixed text.
proof fn lemma_brace(toks: Seq<Token>, i: int)
    requires
        crate::keep::well_formed(toks),
        0 <= i < toks.len(),
    ensures
        toks[i].kind == TokenKind::LBrace ==> gist(toks[i].lexeme@) == seq!['{'],
        toks[i].kind == TokenKind::RBrace ==> gist(toks[i].lexeme@) == seq!['}'],
{
    assert(crate::keep::suits(toks[i]));
    lemma_symbol('{');
    lemma_symbol('}');
}

proof fn lemma_on_lbrace(s: State, env: Input, p: int, line: u32, texts: Seq<Seq<char>>) -> (w: Seq<
    Seq<char>,
>)
    requires
        is_settled(s, texts, most(env.config)),
        env.eol == Eol::Lf,
        all_calm(env.toks, env.config),
        ends_once(env.toks),
        crate::keep::well_formed(env.toks),
        1 <= p <= env.toks.len(),
        env.toks[p - 1].kind == TokenKind::LBrace,
    ensures
        p <= s.on_lbrace(env, p, line).1 <= env.toks.len(),
        env.toks[s.on_lbrace(env, p, line).1 - 1].kind != TokenKind::Eof,
        is_settled(s.on_lbrace(env, p, line).0, texts + w, most(env.config)),
        tells(
            w,
            crate::scan::content(env.toks, p - 1, s.on_lbrace(env, p, line).1),
            env.config,
        ),
{
    let m = most(env.config);
    let ctx = s.brace_ctx(env, p);
    let f = s.flush(env.config, Eol::Lf);
    let open = seq!['{'];
    let more = texts.push(open);
    lemma_flush(s, env.config, texts);
    lemma_place_brace(f, env, ctx, p, texts);
    let opened = f.place_brace(env, ctx, p);
    lemma_weaken(opened, more, m);
    let small = crate::scan::small_init_end(env.toks, p);
    let end = crate::scan::skip(env.toks, p, KindSet::Layout);
    lemma_brace(env.toks, p - 1);
    lemma_content_one(env.toks, p - 1);
    crate::scan::lemma_skip(env.toks, p, KindSet::FlatInit);
    crate::scan::lemma_skip(env.toks, p, KindSet::Layout);
    let brace = crate::scan::content(env.toks, p - 1, p);
    if ctx == BraceCtx::Other && small is Some {
        let e = small->0;
        let items = crate::scan::content(env.toks, p, e);
        lemma_content(env.toks, env.config, p, p, e);
        lemma_write_small_init(opened.page, items, more, m);
        lemma_brace(env.toks, e);
        lemma_content_one(env.toks, e);
        lemma_content_split(env.toks, p - 1, p, e + 1);
        lemma_content_split(env.toks, p, e, e + 1);
        let w = seq![open] + (gists(items) + seq![seq!['}']]);
        lemma_gists_tell(items, env.config);
        lemma_tells_add(gists(items), seq![seq!['}']], items, seq![env.toks[e]], env.config);
        lemma_tells_add(
            seq![open],
            gists(items) + seq![seq!['}']],
            brace,
            items + seq![env.toks[e]],
            env.config,
        );
        assert((more + gists(items)).push(seq!['}']) =~= texts + w);
        w
    } else if env.config.braces.collapse_empty_body && crate::scan::is_at(
        env.toks,
        end,
        TokenKind::RBrace,
    ) {
        lemma_close_empty(opened, env, ctx, end + 1, line, more);
        lemma_brace(env.toks, end);
        lemma_content_one(env.toks, end);
        lemma_content_layout(env.toks, p);
        lemma_content_split(env.toks, p - 1, p, end + 1);
        lemma_content_split(env.toks, p, end, end + 1);
        let w = seq![open, seq!['}']];
        assert(crate::scan::content(env.toks, p - 1, end + 1) =~= seq![
            env.toks[p - 1],
            env.toks[end],
        ]);
        assert(more.push(seq!['}']) =~= texts + w);
        w
    } else {
        lemma_open_body(opened, env, ctx, p, more);
        let w = seq![open];
        assert(more =~= texts + w);
        w
    }
}

/// Only the last token is the end of the source.
pub open spec fn ends_once(toks: Seq<Token>) -> bool {
    forall|i: int| 0 <= i < toks.len() - 1 ==> (#[trigger] toks[i]).kind != TokenKind::Eof
}

proof fn lemma_on_rbrace(s: State, env: Input, p: int, line: u32, texts: Seq<Seq<char>>)
    requires
        is_settled(s, texts, most(env.config)),
        env.eol == Eol::Lf,
    ensures
        is_settled(s.on_rbrace(env, p, line), texts.push(seq!['}']), most(env.config)),
{
    let more = texts.push(seq!['}']);
    let m = most(env.config);
    let next = crate::scan::kind_at(env.toks, crate::scan::skip(env.toks, p, KindSet::Layout));
    let a = s.dedent(env.config);
    let b = a.flush(env.config, Eol::Lf);
    let c = b.own_line(env.config, Eol::Lf);
    lemma_symbol('}');
    lemma_flush(a, env.config, texts);
    lemma_own_line(b, env.config, texts, m);
    lemma_write(c, seq!['}'], texts, m);
    let d = c.write(seq!['}']).close_body();
    lemma_post_brace(d, env, s.inner_ctx(), next, p, line, more);
}

// ── Punctuation ──────────────────────────────────────────────────────────────

/// A token that is written without indentation.
proof fn lemma_attach(s: State, config: Config, t: Seq<char>, texts: Seq<Seq<char>>)
    requires
        is_settled(s, texts, most(config)),
        calm(t),
    ensures
        is_settled(s.flush(config, Eol::Lf).write(t), texts.push(gist(t)), most(config)),
        s.flush(config, Eol::Lf).write(t).page.at_line_start == (t.last() == '\n'),
{
    let f = s.flush(config, Eol::Lf);
    lemma_flush(s, config, texts);
    lemma_weaken(f, texts, most(config));
    lemma_write(f, t, texts, most(config));
}

proof fn lemma_on_semi(s: State, env: Input, p: int, line: u32, texts: Seq<Seq<char>>)
    requires
        is_settled(s, texts, most(env.config)),
        env.eol == Eol::Lf,
    ensures
        is_settled(s.on_semi(env, p, line), texts.push(seq![';']), most(env.config)),
{
    let more = texts.push(seq![';']);
    let m = most(env.config);
    let semi = seq![';'];
    lemma_symbol(';');
    lemma_attach(s, env.config, semi, texts);
    let f = s.flush(env.config, Eol::Lf);
    let g = State {
        marks: Marks { pending_type: false, pending_linkage: false, ..f.marks },
        ..f
    };
    let w = g.write(semi);
    assert(w.page == f.write(semi).page);
    let x = State { assign: None, ..w };
    lemma_break_unless_comment(x, env, p, line, more);
}

proof fn lemma_on_comma(s: State, env: Input, p: int, line: u32, texts: Seq<Seq<char>>)
    requires
        is_settled(s, texts, most(env.config)),
        env.eol == Eol::Lf,
    ensures
        is_settled(s.on_comma(env, p, line), texts.push(seq![',']), most(env.config)),
{
    let more = texts.push(seq![',']);
    let m = most(env.config);
    let comma = seq![','];
    lemma_symbol(',');
    lemma_put(s, env.config, false, comma, texts);
    let w = s.flush(env.config, Eol::Lf).lead_in(env.config, false).write(comma);
    lemma_weaken(w, more, m);
    lemma_nl(w, more, m);
}

proof fn lemma_on_rparen(s: State, env: Input, texts: Seq<Seq<char>>)
    requires
        is_settled(s, texts, most(env.config)),
        env.eol == Eol::Lf,
    ensures
        is_settled(s.on_rparen(env), texts.push(seq![')']), most(env.config)),
{
    let m = most(env.config);
    let close = seq![')'];
    lemma_symbol(')');
    let f = s.flush(env.config, Eol::Lf);
    lemma_flush(s, env.config, texts);
    lemma_weaken(f, texts, m);
    lemma_align_to_paren(f, texts, m);
    lemma_space(f, texts, m);
    lemma_write(f, close, texts, m);
    lemma_write(f.space(), close, texts, m);
    lemma_write(f.align_to_paren(), close, texts, m);
}

proof fn lemma_on_brackets(s: State, env: Input, texts: Seq<Seq<char>>)
    requires
        is_settled(s, texts, most(env.config)),
        env.eol == Eol::Lf,
    ensures
        is_settled(s.on_lbracket(env), texts.push(seq!['[']), most(env.config)),
        is_settled(s.on_rbracket(env), texts.push(seq![']']), most(env.config)),
{
    let m = most(env.config);
    lemma_symbol('[');
    lemma_symbol(']');
    lemma_attach(s, env.config, seq!['['], texts);
    lemma_attach(s, env.config, seq![']'], texts);
    let f = s.flush(env.config, Eol::Lf);
    lemma_flush(s, env.config, texts);
    lemma_weaken(f, texts, m);
    lemma_space(f, texts, m);
    lemma_write(f.space(), seq![']'], texts, m);
}

proof fn lemma_on_colon(s: State, env: Input, p: int, texts: Seq<Seq<char>>)
    requires
        is_settled(s, texts, most(env.config)),
        env.eol == Eol::Lf,
    ensures
        is_settled(s.on_colon(env, p), texts.push(seq![':']), most(env.config)),
{
    let more = texts.push(seq![':']);
    let m = most(env.config);
    let colon = seq![':'];
    lemma_symbol(':');
    let f = s.flush(env.config, Eol::Lf);
    lemma_flush(s, env.config, texts);
    lemma_weaken(f, texts, m);
    lemma_space(f, texts, m);
    let b = f.before_colon(env, p);
    assert(b.page == f.page || b.page == f.space().page);
    lemma_write(b, colon, texts, m);
    let w = b.write(colon);
    lemma_weaken(w, more, m);
    lemma_nl(w, more, m);
    let t = w.after_colon(env);
    assert(t.page == w.page || t.page == w.nl(Eol::Lf).page);
}

// ── Words and operators ──────────────────────────────────────────────────────

proof fn lemma_write_spaced(
    s: State,
    env: Input,
    k: TokenKind,
    text: Seq<char>,
    texts: Seq<Seq<char>>,
)
    requires
        is_settled(s, texts, most(env.config)),
        env.eol == Eol::Lf,
        calm(text),
    ensures
        is_settled(s.write_spaced(env, k, text), texts.push(gist(text)), most(env.config)),
{
    reveal(State::write_spaced);
    let f = s.flush(env.config, Eol::Lf);
    lemma_put(s, env.config, f.needs_space(env.config, k), text, texts);
}

proof fn lemma_start_line_at(s: State, config: Config, n: nat, texts: Seq<Seq<char>>, m: nat)
    requires
        is_led(s, texts, m),
    ensures
        is_led(s.start_line_at(config, n), texts, m),
        is_led(s.start_case_line(config), texts, m),
{
    reveal(State::start_line_at);
    reveal(State::start_case_line);
    let one = crate::layout::minus(s.depth.indent, 1);
    lemma_start_line(s, config, texts, m);
    lemma_start_line(State { depth: DepthView { indent: n, ..s.depth }, ..s }, config, texts, m);
    lemma_start_line(State { depth: DepthView { indent: one, ..s.depth }, ..s }, config, texts, m);
    lemma_start_line(State {
            depth: DepthView { indent: one, ..s.depth },
            cases: s.cases.update(s.cases.len() - 1, false),
            ..s
        }, config, texts, m);
}

proof fn lemma_on_labels(s: State, env: Input, k: TokenKind, text: Seq<char>, texts: Seq<Seq<char>>)
    requires
        is_settled(s, texts, most(env.config)),
        env.eol == Eol::Lf,
        calm(text),
    ensures
        is_settled(s.on_case(env, k, text), texts.push(gist(text)), most(env.config)),
        is_settled(s.on_access(env, k, text), texts.push(gist(text)), most(env.config)),
        is_settled(s.on_goto_label(env, k, text), texts.push(gist(text)), most(env.config)),
{
    let m = most(env.config);
    let f = s.flush(env.config, Eol::Lf);
    let n = crate::layout::minus(f.depth.indent, 1);
    lemma_flush(s, env.config, texts);
    lemma_weaken(f, texts, m);
    lemma_start_line_at(f, env.config, n, texts, m);
    lemma_space(f, texts, m);
    lemma_write(f, text, texts, m);
    lemma_write(f.space(), text, texts, m);
    lemma_write(f.start_case_line(env.config), text, texts, m);
    lemma_write(f.start_line_at(env.config, n), text, texts, m);
}

proof fn lemma_on_templates(s: State, env: Input, text: Seq<char>, n: nat, texts: Seq<Seq<char>>)
    requires
        is_settled(s, texts, most(env.config)),
        env.eol == Eol::Lf,
        calm(text),
    ensures
        is_settled(s.on_template_open(env), texts.push(seq!['<']), most(env.config)),
        is_settled(s.on_template_close(env, text, n), texts.push(gist(text)), most(env.config)),
{
    let more = texts.push(seq!['<']);
    let m = most(env.config);
    lemma_symbol('<');
    lemma_put(s, env.config, false, seq!['<'], texts);
    lemma_put(s, env.config, env.config.spacing.space_inside_angle_brackets, text, texts);
    let w = s.flush(env.config, Eol::Lf).lead_in(env.config, false).write(seq!['<']);
    lemma_weaken(w, more, m);
    lemma_space(w, more, m);
    let x = w.with_templates(s.depth.templates + 1);
    assert(x.space().page == w.space().page);
}

proof fn lemma_on_signs(s: State, env: Input, k: TokenKind, text: Seq<char>, texts: Seq<Seq<char>>)
    requires
        is_settled(s, texts, most(env.config)),
        env.eol == Eol::Lf,
        calm(text),
    ensures
        is_settled(s.on_declarator(env, k, text), texts.push(gist(text)), most(env.config)),
        is_settled(s.on_sign(env, k, text), texts.push(gist(text)), most(env.config)),
{
    let f = s.flush(env.config, Eol::Lf);
    lemma_put(s, env.config, f.needs_space(env.config, k), text, texts);
    lemma_put(s, env.config, true, text, texts);
    lemma_put(s, env.config, false, text, texts);
}

proof fn lemma_step_operand(s: State, env: Input, t: Token, p: int, texts: Seq<Seq<char>>)
    requires
        is_settled(s, texts, most(env.config)),
        env.eol == Eol::Lf,
        calm(t.lexeme@),
        crate::keep::suits(t),
    ensures
        is_settled(s.step_operand(env, t, p), texts.push(gist(t.lexeme@)), most(env.config)),
{
    reveal(State::step_operand);
    let m = most(env.config);
    let k = t.kind;
    let text = t.lexeme@;
    lemma_symbol('>');
    lemma_symbol('<');
    assert(tail(seq!['>', '>']) =~= Seq::empty());
    lemma_on_templates(s, env, seq!['>'], 1, texts);
    lemma_on_templates(s, env, seq!['>', '>'], 2, texts);
    lemma_on_signs(s, env, k, text, texts);
    lemma_write_spaced(s, env, k, text, texts);
    lemma_on_labels(s, env, k, text, texts);
}

/// A token that is written as it stands.
proof fn lemma_one(t: Token, config: Config)
    ensures
        t.kind != TokenKind::CommentBlock && t.kind != TokenKind::PreprocLine ==> tells(
            seq![gist(t.lexeme@)],
            seq![t],
            config,
        ),
        t.kind == TokenKind::CommentBlock ==> tells(
            seq![gist(crate::trivia::block_comment(t.lexeme@, config, Eol::Lf))],
            seq![t],
            config,
        ),
        t.kind == TokenKind::PreprocLine ==> tells(
            seq![gist(crate::trivia::preproc_line(t.lexeme@, config, Eol::Lf))],
            seq![t],
            config,
        ),
{
}

/// The text that a token of a single sign has.
proof fn lemma_sign(t: Token, c: char)
    requires
        crate::keep::suits(t),
        crate::keep::fixed_text(t.kind) == Some(seq![c]),
        !crate::text::is_white(c),
        c != '#',
    ensures
        gist(t.lexeme@) == seq![c],
{
    lemma_symbol(c);
}

/// A step takes one token, but for a `{`.
proof fn lemma_step_to(s: State, env: Input, t: Token, p: int)
    ensures
        t.kind != TokenKind::LBrace ==> s.step(env, t, p).1 == p,
        t.kind == TokenKind::LBrace ==> s.step(env, t, p) == s.on_lbrace(env, p, t.span.line),
{
    reveal(State::step);
}

proof fn lemma_step(s: State, env: Input, t: Token, p: int, texts: Seq<Seq<char>>) -> (w: Seq<
    Seq<char>,
>)
    requires
        is_settled(s, texts, most(env.config)),
        env.eol == Eol::Lf,
        all_calm(env.toks, env.config),
        ends_once(env.toks),
        crate::keep::well_formed(env.toks),
        1 <= p <= env.toks.len(),
        t == env.toks[p - 1],
        !KindSet::Layout.has(t.kind),
        t.kind != TokenKind::Eof,
    ensures
        p <= s.step(env, t, p).1 <= env.toks.len(),
        env.toks[s.step(env, t, p).1 - 1].kind != TokenKind::Eof,
        is_settled(s.step(env, t, p).0, texts + w, most(env.config)),
        tells(w, crate::scan::content(env.toks, p - 1, s.step(env, t, p).1), env.config),
{
    lemma_step_to(s, env, t, p);
    let k = t.kind;
    let text = t.lexeme@;
    let config = env.config;
    assert(calm_at(env.toks, p - 1, config));
    assert(crate::keep::suits(env.toks[p - 1]));
    lemma_content_one(env.toks, p - 1);
    lemma_one(t, config);
    if k == TokenKind::LBrace {
        lemma_on_lbrace(s, env, p, t.span.line, texts)
    } else {
        let one = match k {
            TokenKind::CommentBlock => gist(crate::trivia::block_comment(text, config, Eol::Lf)),
            TokenKind::PreprocLine => gist(crate::trivia::preproc_line(text, config, Eol::Lf)),
            _ => gist(text),
        };
        lemma_step_plain(s, env, t, p, one, texts);
        assert(texts.push(one) =~= texts + seq![one]);
        seq![one]
    }
}

proof fn lemma_step_plain(
    s: State,
    env: Input,
    t: Token,
    p: int,
    one: Seq<char>,
    texts: Seq<Seq<char>>,
)
    requires
        is_settled(s, texts, most(env.config)),
        env.eol == Eol::Lf,
        token_calm(t, env.config),
        crate::keep::suits(t),
        t.kind != TokenKind::LBrace,
        one == (match t.kind {
            TokenKind::CommentBlock => gist(
                crate::trivia::block_comment(t.lexeme@, env.config, Eol::Lf),
            ),
            TokenKind::PreprocLine => gist(
                crate::trivia::preproc_line(t.lexeme@, env.config, Eol::Lf),
            ),
            _ => gist(t.lexeme@),
        }),
    ensures
        is_settled(s.step(env, t, p).0, texts.push(one), most(env.config)),
{
    reveal(State::step);
    let k = t.kind;
    let text = t.lexeme@;
    match k {
        TokenKind::PreprocLine => lemma_on_preproc(s, env, text, texts),
        TokenKind::CommentLine => lemma_on_line_comment(s, env, text, texts),
        TokenKind::CommentBlock => lemma_on_block_comment(s, env, text, p, texts),
        TokenKind::RBrace => {
            lemma_sign(t, '}');
            lemma_on_rbrace(s, env, p, t.span.line, texts);
        },
        TokenKind::Semi => {
            lemma_sign(t, ';');
            lemma_on_semi(s, env, p, t.span.line, texts);
        },
        TokenKind::Comma => {
            lemma_sign(t, ',');
            lemma_on_comma(s, env, p, t.span.line, texts);
        },
        TokenKind::LParen => {
            lemma_sign(t, '(');
            lemma_symbol('(');
            let f = s.flush(env.config, Eol::Lf);
            lemma_put(s, env.config, f.spaces_paren(env, p), seq!['('], texts);
        },
        TokenKind::RParen => {
            lemma_sign(t, ')');
            lemma_on_rparen(s, env, texts);
        },
        TokenKind::LBracket => {
            lemma_sign(t, '[');
            lemma_on_brackets(s, env, texts);
        },
        TokenKind::RBracket => {
            lemma_sign(t, ']');
            lemma_on_brackets(s, env, texts);
        },
        TokenKind::Colon => {
            lemma_sign(t, ':');
            lemma_on_colon(s, env, p, texts);
        },
        TokenKind::KwCase
        | TokenKind::KwDefault
        | TokenKind::KwPublic
        | TokenKind::KwPrivate
        | TokenKind::KwProtected => lemma_on_labels(s, env, k, text, texts),
        TokenKind::KwSwitch
        | TokenKind::KwClass
        | TokenKind::KwStruct
        | TokenKind::KwUnion
        | TokenKind::KwEnum => lemma_write_spaced(s, env, k, text, texts),
        _ => lemma_step_operand(s, env, t, p, texts),
    }
}

proof fn lemma_all_layout(toks: Seq<Token>, i: int)
    requires
        0 <= i < toks.len(),
        crate::scan::skip(toks, i, KindSet::Layout) >= toks.len(),
    ensures
        KindSet::Layout.has(toks.last().kind),
    decreases toks.len() - i,
{
    if i + 1 < toks.len() {
        lemma_all_layout(toks, i + 1);
    }
}

/// Where the tokens end: at the end of the source, if that is the last one.
pub open spec fn end_of(toks: Seq<Token>) -> int {
    if toks.len() > 0 && toks.last().kind == TokenKind::Eof {
        toks.len() - 1
    } else {
        toks.len() as int
    }
}

proof fn lemma_run(s: State, env: Input, i: int, texts: Seq<Seq<char>>) -> (w: Seq<Seq<char>>)
    requires
        is_settled(s, texts, most(env.config)),
        env.eol == Eol::Lf,
        all_calm(env.toks, env.config),
        ends_once(env.toks),
        crate::keep::well_formed(env.toks),
        0 <= i <= env.toks.len(),
    ensures
        is_settled(s.run(env, i), texts + w, most(env.config)),
        tells(w, crate::scan::content(env.toks, i, end_of(env.toks)), env.config),
    decreases env.toks.len() - i,
{
    let toks = env.toks;
    let at = crate::scan::skip(toks, i, KindSet::Layout);
    crate::scan::lemma_skip(toks, i, KindSet::Layout);
    lemma_content_layout(toks, i);
    crate::keep::lemma_behind_layout(toks, i);
    let a = s.pass_layout(toks, i, at);
    let none = Seq::<Seq<char>>::empty();
    assert(texts + none =~= texts);
    if at < toks.len() {
        let t = toks[at];
        let d = a.track_decls(env, t.kind, at + 1);
        assert(d.page == a.page) by {
            reveal(State::track_decls);
        }
        if t.kind == TokenKind::Eof {
            lemma_fresh(d, texts, most(env.config));
            assert(at == end_of(toks));
            none
        } else {
            let head = lemma_step(d, env, t, at + 1, texts);
            let (next, p) = d.step(env, t, at + 1);
            let rest = lemma_run(next, env, p, texts + head);
            lemma_content_split(toks, i, at, end_of(toks));
            lemma_content_split(toks, at, p, end_of(toks));
            lemma_tells_add(
                head,
                rest,
                crate::scan::content(toks, at, p),
                crate::scan::content(toks, p, end_of(toks)),
                env.config,
            );
            assert((texts + head) + rest =~= texts + (head + rest));
            assert(crate::scan::content(toks, i, end_of(toks)) =~= crate::scan::content(
                toks,
                at,
                p,
            ) + crate::scan::content(toks, p, end_of(toks)));
            head + rest
        }
    } else {
        if i < toks.len() {
            lemma_all_layout(toks, i);
        }
        none
    }
}

/// The layout is woven of what is written of the tokens, and no more empty
/// lines stand in front of a token than are wanted.
pub proof fn lemma_layout_woven(toks: Seq<Token>, config: Config) -> (texts: Seq<Seq<char>>)
    requires
        all_calm(toks, config),
        ends_once(toks),
        crate::keep::well_formed(toks),
    ensures
        woven(crate::machine::layout_text(toks, config, Eol::Lf), texts, most(config)),
        tells(texts, crate::scan::content(toks, 0, end_of(toks)), config),
{
    let env = Input { toks, config, eol: Eol::Lf };
    let s = crate::layout::initial_state();
    let none = Seq::<Seq<char>>::empty();
    assert(is_settled(s, none, most(config))) by {
        reveal(settled);
        reveal_with_fuel(woven, 1);
    }
    let w = lemma_run(s, env, 0, none);
    reveal(settled);
    assert(none + w =~= w);
    w
}

} // verus!
