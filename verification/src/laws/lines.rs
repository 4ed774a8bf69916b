//! How the lines of the output end.

use crate::align::{Marker, Rule};
use crate::config::{Config, Eol};
use crate::layout::{BraceCtx, Input, State};
use crate::text::Class;
use crate::token::{KindSet, Token, TokenKind};
use vstd::prelude::*;

verus! {

// ── Carriage returns ─────────────────────────────────────────────────────────

/// Carriage returns and line feeds occur in pairs only.
pub open spec fn all_crlf(s: Seq<char>) -> bool {
    forall|i: int|
        0 <= i < s.len() ==> (#[trigger] s[i] == '\n' ==> i > 0 && s[i - 1] == '\r') && (s[i]
            == '\r' ==> i + 1 < s.len() && s[i + 1] == '\n')
}

/// The text does not hold the character.
pub open spec fn lacks(s: Seq<char>, c: char) -> bool {
    forall|i: int| 0 <= i < s.len() ==> #[trigger] s[i] != c
}

/// The text lies within one line.
pub open spec fn one_line(s: Seq<char>) -> bool {
    lacks(s, '\n') && lacks(s, '\r')
}

proof fn lemma_crlf_add(a: Seq<char>, b: Seq<char>)
    requires
        all_crlf(a),
        all_crlf(b),
    ensures
        all_crlf(a + b),
{
    let s = a + b;
    assert forall|i: int| 0 <= i < s.len() implies (#[trigger] s[i] == '\n' ==> i > 0 && s[i - 1]
        == '\r') && (s[i] == '\r' ==> i + 1 < s.len() && s[i + 1] == '\n') by {
        if i < a.len() {
            assert(s[i] == a[i]);
        } else {
            assert(s[i] == b[i - a.len()]);
            if i > a.len() {
                assert(s[i - 1] == b[i - 1 - a.len()]);
            }
        }
    }
}

proof fn lemma_crlf_line(s: Seq<char>)
    requires
        one_line(s),
    ensures
        all_crlf(s),
{
}

proof fn lemma_crlf_text()
    ensures
        all_crlf(Eol::CrLf.text()),
{
}

/// Replacing every carriage return leaves none.
proof fn lemma_replace_cr(s: Seq<char>, i: int)
    requires
        0 <= i <= s.len(),
    ensures
        lacks(crate::text::replace_from(s, seq!['\r'], seq!['\n'], i), '\r'),
    decreases s.len() - i,
{
    if i < s.len() {
        lemma_replace_cr(s, i + 1);
        let rest = crate::text::replace_from(s, seq!['\r'], seq!['\n'], i + 1);
        let all = crate::text::replace_from(s, seq!['\r'], seq!['\n'], i);
        if s[i] == '\r' {
            assert(s.subrange(i, i + 1) =~= seq!['\r']);
        }
        assert forall|k: int| 0 <= k < all.len() implies #[trigger] all[k] != '\r' by {
            if k > 0 {
                assert(all[k] == rest[k - 1]);
            }
        }
    }
}

/// Writing each line feed as a pair gives pairs only.
proof fn lemma_replace_lf(s: Seq<char>, i: int)
    requires
        0 <= i <= s.len(),
        lacks(s, '\r'),
    ensures
        all_crlf(crate::text::replace_from(s, seq!['\n'], Eol::CrLf.text(), i)),
    decreases s.len() - i,
{
    if i < s.len() {
        lemma_replace_lf(s, i + 1);
        let rest = crate::text::replace_from(s, seq!['\n'], Eol::CrLf.text(), i + 1);
        if crate::text::matches_at(s, i, seq!['\n']) {
            lemma_crlf_text();
            lemma_crlf_add(Eol::CrLf.text(), rest);
        } else {
            assert(s[i] != '\n') by {
                if s[i] == '\n' {
                    assert(s.subrange(i, i + 1) =~= seq!['\n']);
                }
            }
            lemma_crlf_line(seq![s[i]]);
            lemma_crlf_add(seq![s[i]], rest);
        }
    }
}

proof fn lemma_unify_crlf(s: Seq<char>)
    ensures
        all_crlf(crate::trivia::unify(s, Eol::CrLf)),
{
    let lf = crate::text::replace(s, seq!['\r', '\n'], seq!['\n']);
    let no_cr = crate::text::replace(lf, seq!['\r'], seq!['\n']);
    lemma_replace_cr(lf, 0);
    lemma_replace_lf(no_cr, 0);
}

// ── Lines ────────────────────────────────────────────────────────────────────

/// Every line lies within one line.
spec fn all_one_line(lines: Seq<Seq<char>>) -> bool {
    forall|k: int| 0 <= k < lines.len() ==> one_line(#[trigger] lines[k])
}

proof fn lemma_split_crlf(s: Seq<char>, start: int, i: int)
    requires
        0 <= start <= i <= s.len(),
        all_crlf(s),
        start > 0 ==> s[start - 1] == '\n',
        one_line(s.subrange(start, i)),
    ensures
        all_one_line(crate::text::split_from(s, Eol::CrLf.text(), start, i)),
    decreases s.len() - i,
{
    let sep = Eol::CrLf.text();
    let lines = crate::text::split_from(s, sep, start, i);
    if i >= s.len() {
        assert(s.skip(start) =~= s.subrange(start, i));
    } else if crate::text::matches_at(s, i, sep) {
        assert(s.subrange(i, i + 2)[1] == s[i + 1]);
        assert(one_line(s.subrange(i + 2, i + 2)));
        lemma_split_crlf(s, i + 2, i + 2);
        let rest = crate::text::split_from(s, sep, i + 2, i + 2);
        assert forall|k: int| 0 <= k < lines.len() implies one_line(#[trigger] lines[k]) by {
            if k > 0 {
                assert(lines[k] == rest[k - 1]);
            }
        }
    } else {
        assert(s[i] != '\r') by {
            if s[i] == '\r' {
                assert(s.subrange(i, i + 2) =~= sep);
            }
        }
        assert(s[i] != '\n') by {
            if s[i] == '\n' {
                if i > start {
                    assert(s.subrange(start, i)[i - 1 - start] == s[i - 1]);
                }
            }
        }
        assert forall|k: int| 0 <= k < i + 1 - start implies (#[trigger] s.subrange(
            start,
            i + 1,
        )[k]) != '\n' && s.subrange(start, i + 1)[k] != '\r' by {
            if k < i - start {
                assert(s.subrange(start, i + 1)[k] == s.subrange(start, i)[k]);
            }
        }
        lemma_split_crlf(s, start, i + 1);
    }
}

proof fn lemma_join_crlf(lines: Seq<Seq<char>>)
    requires
        all_one_line(lines),
    ensures
        all_crlf(crate::text::join(lines, Eol::CrLf.text())),
    decreases lines.len(),
{
    let sep = Eol::CrLf.text();
    if lines.len() == 1 {
        lemma_crlf_line(lines[0]);
    } else if lines.len() > 1 {
        let init = lines.drop_last();
        assert forall|k: int| 0 <= k < init.len() implies one_line(#[trigger] init[k]) by {
            assert(one_line(lines[k]));
        }
        lemma_join_crlf(init);
        lemma_crlf_text();
        lemma_crlf_add(crate::text::join(init, sep), sep);
        assert(one_line(lines[lines.len() - 1]));
        lemma_crlf_line(lines.last());
        lemma_crlf_add(crate::text::join(init, sep) + sep, lines.last());
    }
}

pub proof fn lemma_trim_end_prefix(s: Seq<char>, class: Class)
    ensures
        crate::text::trim_end(s, class).len() <= s.len(),
        crate::text::trim_end(s, class) == s.take(crate::text::trim_end(s, class).len() as int),
    decreases s.len(),
{
    if s.len() > 0 && class.has(s.last()) {
        lemma_trim_end_prefix(s.drop_last(), class);
        let n = crate::text::trim_end(s, class).len() as int;
        assert(s.drop_last().take(n) =~= s.take(n));
    } else {
        assert(s.take(s.len() as int) =~= s);
    }
}

pub proof fn lemma_place_one_line(marker: Marker, line: Seq<char>, e: int, target: nat)
    requires
        one_line(line),
    ensures
        one_line(marker.place(line, e, target)),
{
    crate::laws::alignment::lemma_start(marker, line, e);
    match marker.start(line, e) {
        Some(i) => {
            let head = line.take(i);
            lemma_trim_end_prefix(head, Class::White);
            let code = marker.code(line, e);
            let placed = marker.place(line, e, target);
            assert forall|k: int| 0 <= k < placed.len() implies (#[trigger] placed[k]) != '\n'
                && placed[k] != '\r' by {
                if k < code.len() {
                    assert(placed[k] == code[k]);
                    assert(code[k] == line[k]);
                } else if k >= placed.len() - (line.len() - i) {
                    let m = k - (placed.len() - (line.len() - i));
                    assert(placed[k] == line.skip(i)[m]);
                    assert(line.skip(i)[m] == line[i + m]);
                }
            }
        },
        None => {},
    }
}

proof fn lemma_align_crlf(rule: Rule, text: Seq<char>)
    requires
        all_crlf(text),
    ensures
        all_crlf(rule.align(text, Eol::CrLf)),
{
    let lines = crate::text::split(text, Eol::CrLf.text());
    assert(one_line(text.subrange(0, 0)));
    lemma_split_crlf(text, 0, 0);
    crate::laws::alignment::law_alignment_keeps_lines(rule, lines);
    let out = rule.align_from(lines, 0);
    assert forall|k: int| 0 <= k < out.len() implies one_line(#[trigger] out[k]) by {
        assert(one_line(lines[k]));
        if out[k] != lines[k] {
            let (e, target) = choose|e: int, target: nat|
                out[k] == #[trigger] rule.marker.place(lines[k], e, target);
            lemma_place_one_line(rule.marker, lines[k], e, target);
        }
    }
    lemma_join_crlf(out);
}

/// In the CRLF style every line of the output ends with a carriage return and
/// a line feed, and neither character occurs alone.
pub proof fn law_crlf_throughout(toks: Seq<Token>, config: Config)
    ensures
        all_crlf(crate::formatter::format_text(toks, config, Eol::CrLf)),
{
    let prepared = crate::formatter::prepared(toks, config);
    let env = Input { toks: prepared, config, eol: Eol::CrLf };
    let out = crate::layout::initial_state().run(env, 0).page.out;
    lemma_unify_crlf(out);
    let a = crate::machine::layout_text(prepared, config, Eol::CrLf);
    let b = crate::formatter::with_comments_aligned(a, config, Eol::CrLf);
    let c = crate::formatter::with_equals_aligned(b, config, Eol::CrLf);
    let s = config.spacing;
    lemma_align_crlf(
        crate::align::comment_rule(
            if s.align_right_cmt_gap < 1 {
                1
            } else {
                s.align_right_cmt_gap
            },
            s.align_right_cmt_style == crate::config::AlignCmtStyle::All,
            s.align_on_tabstop,
            config.indent.width as usize,
            s.align_right_cmt_span,
        ),
        a,
    );
    lemma_align_crlf(
        crate::align::equals_rule(s.align_on_tabstop, config.indent.width as usize),
        b,
    );
    lemma_align_crlf(crate::align::doxygen_rule(), c);
}

// ── The last line ────────────────────────────────────────────────────────────

/// The text is empty or ends with a line feed.
pub open spec fn ends_line(s: Seq<char>) -> bool {
    s.len() == 0 || s.last() == '\n'
}

/// The `{` before `p` may open an initializer: the token in front of it is not
/// one that only a body can follow.
pub open spec fn may_open_initializer(toks: Seq<Token>, p: int) -> bool {
    crate::scan::is_at(toks, p - 1, TokenKind::LBrace) && match crate::scan::kind_at(
        toks,
        crate::scan::back(toks, p - 2, KindSet::Trivia),
    ) {
        Some(k) => !matches!(
            k,
            TokenKind::KwNamespace | TokenKind::KwStruct | TokenKind::KwClass
                | TokenKind::KwUnion | TokenKind::KwEnum | TokenKind::RParen
                | TokenKind::KwElse | TokenKind::KwDo | TokenKind::KwTry | TokenKind::Ident
                | TokenKind::Gt
        ),
        None => true,
    }
}

/// A small initializer encloses the end of the source.
pub open spec fn encloses_end(toks: Seq<Token>) -> bool {
    exists|p: int, e: int|
        #![trigger crate::scan::small_init_end(toks, p), toks[e]]
        0 <= p <= e && may_open_initializer(toks, p) && crate::scan::small_init_end(toks, p) is Some
            && e < crate::scan::small_init_end(toks, p)->0 && toks[e].kind == TokenKind::Eof
}

/// `prev` is the kind of the last token before `i` that is not layout; a `>>`
/// that closes templates counts as `>`.
spec fn follows(prev: Option<TokenKind>, toks: Seq<Token>, i: int) -> bool {
    let b = crate::scan::back(toks, i - 1, KindSet::Layout);
    match prev {
        Some(k) => crate::scan::is_at(toks, b, k) || (k == TokenKind::Gt && crate::scan::is_at(
            toks,
            b,
            TokenKind::GtGt,
        )),
        None => b < 0,
    }
}

proof fn lemma_back_over_layout(toks: Seq<Token>, i: int, j: int)
    requires
        0 <= i <= j <= toks.len(),
        j == crate::scan::skip(toks, i, KindSet::Layout),
    ensures
        crate::scan::back(toks, j - 1, KindSet::Layout) == crate::scan::back(
            toks,
            i - 1,
            KindSet::Layout,
        ),
    decreases j - i,
{
    if i < j {
        lemma_back_over_layout(toks, i + 1, j);
    }
}

proof fn lemma_back_over_trivia(toks: Seq<Token>, i: int)
    requires
        -1 <= i < toks.len(),
        ({
            let b = crate::scan::back(toks, i, KindSet::Layout);
            b < 0 || !KindSet::Trivia.has(toks[b].kind)
        }),
    ensures
        crate::scan::back(toks, i, KindSet::Trivia) == crate::scan::back(
            toks,
            i,
            KindSet::Layout,
        ),
    decreases i + 1,
{
    if i >= 0 && KindSet::Layout.has(toks[i].kind) {
        lemma_back_over_trivia(toks, i - 1);
    }
}

/// Only a `{` that may open an initializer is taken for one.
proof fn lemma_initializer(s: State, env: Input, p: int)
    requires
        1 <= p <= env.toks.len(),
        crate::scan::is_at(env.toks, p - 1, TokenKind::LBrace),
        follows(s.marks.prev, env.toks, p - 1),
        s.brace_ctx(env, p) == BraceCtx::Other,
    ensures
        may_open_initializer(env.toks, p),
{
    reveal(State::brace_ctx);
    let b = crate::scan::back(env.toks, p - 2, KindSet::Layout);
    lemma_back_leaves(env.toks, p - 2);
    if b < 0 || !KindSet::Trivia.has(env.toks[b].kind) {
        lemma_back_over_trivia(env.toks, p - 2);
    }
}

proof fn lemma_back_leaves(toks: Seq<Token>, i: int)
    requires
        -1 <= i < toks.len(),
    ensures
        ({
            let b = crate::scan::back(toks, i, KindSet::Layout);
            -1 <= b <= i && !crate::scan::any_at(toks, b, KindSet::Layout)
        }),
    decreases i + 1,
{
    if i >= 0 {
        lemma_back_leaves(toks, i - 1);
    }
}

proof fn lemma_prev_trivia(s: State, env: Input, text: Seq<char>, p: int)
    ensures
        s.on_preproc(env, text).marks.prev == Some(TokenKind::PreprocLine),
        s.on_line_comment(env, text).marks.prev == Some(TokenKind::CommentLine),
        s.on_block_comment(env, text, p).marks.prev == Some(TokenKind::CommentBlock),
{
}

proof fn lemma_prev_punctuation(s: State, env: Input, p: int, line: u32)
    ensures
        s.on_rbrace(env, p, line).marks.prev == Some(TokenKind::RBrace),
        s.on_semi(env, p, line).marks.prev == Some(TokenKind::Semi),
        s.on_comma(env, p, line).marks.prev == Some(TokenKind::Comma),
        s.on_lparen(env, p).marks.prev == Some(TokenKind::LParen),
        s.on_rparen(env).marks.prev == Some(TokenKind::RParen),
        s.on_lbracket(env).marks.prev == Some(TokenKind::LBracket),
        s.on_rbracket(env).marks.prev == Some(TokenKind::RBracket),
        s.on_colon(env, p).marks.prev == Some(TokenKind::Colon),
{
}

proof fn lemma_prev_word(s: State, env: Input, k: TokenKind, text: Seq<char>)
    ensures
        s.on_switch(env, k, text).marks.prev == Some(k),
        s.on_case(env, k, text).marks.prev == Some(k),
        s.on_access(env, k, text).marks.prev == Some(k),
        s.on_type_kw(env, k, text).marks.prev == Some(k),
        s.on_declarator(env, k, text).marks.prev == Some(k),
        s.on_sign(env, k, text).marks.prev == Some(k),
        s.on_assign(env, k, text).marks.prev == Some(k),
        s.on_goto_label(env, k, text).marks.prev == Some(k),
        s.on_other(env, k, text).marks.prev == Some(k),
{
}

proof fn lemma_prev_operand(s: State, env: Input, t: Token, p: int)
    ensures
        ({
            let prev = s.step_operand(env, t, p).marks.prev;
            prev == Some(t.kind) || (prev == Some(TokenKind::Gt) && t.kind == TokenKind::GtGt)
        }),
{
    lemma_prev_word(s, env, t.kind, t.lexeme@);
    reveal(State::step_operand);
}

proof fn lemma_prev_brace(s: State, env: Input, p: int, line: u32)
    ensures
        ({
            let (next, q) = s.on_lbrace(env, p, line);
            ||| q == p && next.marks.prev == Some(TokenKind::LBrace)
            ||| crate::scan::is_at(env.toks, q - 1, TokenKind::RBrace) && next.marks.prev == Some(
                TokenKind::RBrace,
            )
        }),
{
    reveal(State::close_empty);
    reveal(State::open_body);
}

/// Each step records the kind of the last token that it takes.
proof fn lemma_step_prev(s: State, env: Input, t: Token, p: int)
    requires
        1 <= p <= env.toks.len(),
        t == env.toks[p - 1],
        !KindSet::Layout.has(t.kind),
    ensures
        ({
            let (next, q) = s.step(env, t, p);
            p <= q ==> follows(next.marks.prev, env.toks, q)
        }),
{
    reveal(State::step);
    let k = t.kind;
    match k {
        TokenKind::PreprocLine
        | TokenKind::CommentLine
        | TokenKind::CommentBlock => lemma_prev_trivia(s, env, t.lexeme@, p),
        TokenKind::LBrace => lemma_prev_brace(s, env, p, t.span.line),
        TokenKind::RBrace
        | TokenKind::Semi
        | TokenKind::Comma
        | TokenKind::LParen
        | TokenKind::RParen
        | TokenKind::LBracket
        | TokenKind::RBracket
        | TokenKind::Colon => lemma_prev_punctuation(s, env, p, t.span.line),
        TokenKind::KwSwitch
        | TokenKind::KwCase
        | TokenKind::KwDefault
        | TokenKind::KwPublic
        | TokenKind::KwPrivate
        | TokenKind::KwProtected
        | TokenKind::KwClass
        | TokenKind::KwStruct
        | TokenKind::KwUnion
        | TokenKind::KwEnum => lemma_prev_word(s, env, k, t.lexeme@),
        _ => lemma_prev_operand(s, env, t, p),
    }
}

proof fn lemma_run_ends(s: State, env: Input, i: int, end: int)
    requires
        crate::keep::well_formed(env.toks),
        0 <= i <= end < env.toks.len(),
        env.toks[end].kind == TokenKind::Eof,
        !encloses_end(env.toks),
        env.config.newlines.final_newline,
        s.sound(),
        follows(s.marks.prev, env.toks, i),
    ensures
        ends_line(s.run(env, i).page.out),
    decreases env.toks.len() - i,
{
    let at = crate::scan::skip(env.toks, i, KindSet::Layout);
    lemma_skip_stops(env.toks, i, end);
    lemma_skip_leaves(env.toks, i);
    lemma_back_over_layout(env.toks, i, at);
    let a = s.pass_layout(env.toks, i, at);
    let t = env.toks[at];
    let d = a.track_decls(env, t.kind, at + 1);
    reveal(State::track_decls);
    assert(d.page == s.page);
    assert(d.marks == s.marks);
    if t.kind == TokenKind::Eof {
        assert(crate::text::repeat(env.eol.text(), 1).last() == '\n');
    } else {
        let (next, q) = d.step(env, t, at + 1);
        d.lemma_step(env, t, at + 1);
        lemma_step_stops(d, env, t, at + 1, end);
        lemma_step_prev(d, env, t, at + 1);
        lemma_run_ends(next, env, q, end);
    }
}

proof fn lemma_skip_stops(toks: Seq<Token>, i: int, end: int)
    requires
        0 <= i <= end < toks.len(),
        toks[end].kind == TokenKind::Eof,
    ensures
        i <= crate::scan::skip(toks, i, KindSet::Layout) <= end,
    decreases end - i,
{
    if crate::scan::any_at(toks, i, KindSet::Layout) {
        lemma_skip_stops(toks, i + 1, end);
    }
}

proof fn lemma_skip_leaves(toks: Seq<Token>, i: int)
    ensures
        !crate::scan::any_at(toks, crate::scan::skip(toks, i, KindSet::Layout), KindSet::Layout),
    decreases toks.len() - i,
{
    if crate::scan::any_at(toks, i, KindSet::Layout) {
        lemma_skip_leaves(toks, i + 1);
    }
}

proof fn lemma_step_stops(s: State, env: Input, t: Token, p: int, end: int)
    requires
        1 <= p <= end < env.toks.len(),
        t == env.toks[p - 1],
        env.toks[end].kind == TokenKind::Eof,
        !encloses_end(env.toks),
        follows(s.marks.prev, env.toks, p - 1),
    ensures
        p <= s.step(env, t, p).1 <= end,
{
    reveal(State::step);
    if t.kind == TokenKind::LBrace {
        crate::scan::lemma_skip(env.toks, p, KindSet::FlatInit);
        lemma_skip_stops(env.toks, p, end);
        let small = crate::scan::small_init_end(env.toks, p);
        if s.brace_ctx(env, p) == BraceCtx::Other && small is Some {
            lemma_initializer(s, env, p);
            assert(env.toks[end].kind == TokenKind::Eof);
            assert(!(end < small->0));
        }
    }
}

proof fn lemma_replace_ends(s: Seq<char>, from: Seq<char>, to: Seq<char>, i: int)
    requires
        0 <= i < s.len(),
        s.last() == '\n',
        from.len() > 0,
        to.len() > 0,
        to.last() == '\n',
    ensures
        crate::text::replace_from(s, from, to, i).len() > 0,
        crate::text::replace_from(s, from, to, i).last() == '\n',
    decreases s.len() - i,
{
    let j = if crate::text::matches_at(s, i, from) {
        i + from.len()
    } else {
        i + 1
    };
    if j < s.len() {
        lemma_replace_ends(s, from, to, j);
    } else {
        assert(crate::text::replace_from(s, from, to, j) =~= Seq::<char>::empty());
    }
}

proof fn lemma_unify_ends(s: Seq<char>, eol: Eol)
    requires
        ends_line(s),
    ensures
        ends_line(crate::trivia::unify(s, eol)),
{
    if s.len() > 0 {
        let a = crate::text::replace(s, seq!['\r', '\n'], seq!['\n']);
        let b = crate::text::replace(a, seq!['\r'], seq!['\n']);
        lemma_replace_ends(s, seq!['\r', '\n'], seq!['\n'], 0);
        lemma_replace_ends(a, seq!['\r'], seq!['\n'], 0);
        lemma_replace_ends(b, seq!['\n'], eol.text(), 0);
    }
}

/// The separator ends the text.
spec fn sep_ends(s: Seq<char>, sep: Seq<char>) -> bool {
    crate::text::matches_at(s, s.len() - sep.len(), sep)
}

proof fn lemma_split_ends(s: Seq<char>, eol: Eol, start: int, i: int)
    requires
        0 <= start <= i <= s.len() - eol.text().len(),
        sep_ends(s, eol.text()),
    ensures
        ({
            let lines = crate::text::split_from(s, eol.text(), start, i);
            lines.len() >= 2 && lines.last().len() == 0
        }),
    decreases s.len() - i,
{
    let sep = eol.text();
    let end = s.len() - sep.len();
    if crate::text::matches_at(s, i, sep) {
        let j = i + sep.len();
        if i < end {
            assert(j <= end) by {
                if j > end {
                    assert(s.subrange(i, i + 2)[1] == s[i + 1]);
                    assert(s.subrange(end, end + 2)[0] == s[end]);
                }
            }
            lemma_split_ends(s, eol, j, j);
        } else {
            assert(crate::text::split_from(s, sep, j, j) =~= seq![s.skip(j)]);
        }
    } else {
        lemma_split_ends(s, eol, start, i + 1);
    }
}

proof fn lemma_sep_ends(s: Seq<char>, eol: Eol)
    requires
        s.len() > 0,
        s.last() == '\n',
        eol == Eol::CrLf ==> all_crlf(s),
    ensures
        sep_ends(s, eol.text()),
{
    let sep = eol.text();
    match eol {
        Eol::Lf => {
            assert(s.subrange(s.len() - 1, s.len() as int) =~= sep);
        },
        Eol::CrLf => {
            assert(s[s.len() - 1] == '\n');
            assert(s.subrange(s.len() - 2, s.len() as int) =~= sep);
        },
    }
}

proof fn lemma_align_ends(rule: Rule, text: Seq<char>, eol: Eol)
    requires
        ends_line(text),
        eol == Eol::CrLf ==> all_crlf(text),
    ensures
        ends_line(rule.align(text, eol)),
{
    let sep = eol.text();
    let lines = crate::text::split(text, sep);
    let out = rule.align_from(lines, 0);
    crate::laws::alignment::law_alignment_keeps_lines(rule, lines);
    if text.len() == 0 {
        assert(text.skip(0) =~= text);
        assert(lines =~= seq![text]);
        crate::laws::alignment::lemma_start(
            rule.marker,
            text,
            crate::align::entry_of(lines, 0),
        );
        assert(out[0] == text);
    } else {
        lemma_sep_ends(text, eol);
        lemma_split_ends(text, eol, 0, 0);
        let k = lines.len() - 1;
        crate::laws::alignment::lemma_start(
            rule.marker,
            lines[k],
            crate::align::entry_of(lines, k),
        );
        assert(out[k] == lines[k]);
        assert(crate::text::join(out, sep) =~= crate::text::join(out.drop_last(), sep) + sep);
    }
}

/// With `final_newline` the formatted source is empty or ends with a line end,
/// unless an injected `}` closes an initializer that the source leaves open at
/// its end.
pub proof fn law_final_newline(src: Seq<char>, toks: Seq<Token>, config: Config, eol: Eol)
    requires
        crate::lexer::all_stand_for(toks, src, crate::lexer::pieces(src)),
        config.newlines.final_newline,
        !encloses_end(crate::formatter::prepared(toks, config)),
    ensures
        ends_line(crate::formatter::format_text(toks, config, eol)),
{
    let prepared = crate::formatter::prepared(toks, config);
    crate::laws::whole::lemma_prepared(src, toks, config);
    let env = Input { toks: prepared, config, eol };
    let end = crate::laws::whole::lemma_has_end(src, toks, config);
    lemma_run_ends(crate::layout::initial_state(), env, 0, end);
    let out = crate::layout::initial_state().run(env, 0).page.out;
    lemma_unify_ends(out, eol);
    lemma_unify_crlf(out);
    let s = config.spacing;
    let a = crate::machine::layout_text(prepared, config, eol);
    let b = crate::formatter::with_comments_aligned(a, config, eol);
    let c = crate::formatter::with_equals_aligned(b, config, eol);
    let comments = crate::align::comment_rule(
        if s.align_right_cmt_gap < 1 {
            1
        } else {
            s.align_right_cmt_gap
        },
        s.align_right_cmt_style == crate::config::AlignCmtStyle::All,
        s.align_on_tabstop,
        config.indent.width as usize,
        s.align_right_cmt_span,
    );
    let equals = crate::align::equals_rule(s.align_on_tabstop, config.indent.width as usize);
    if eol == Eol::CrLf {
        lemma_align_crlf(comments, a);
        lemma_align_crlf(equals, b);
    }
    lemma_align_ends(comments, a, eol);
    lemma_align_ends(equals, b, eol);
    lemma_align_ends(crate::align::doxygen_rule(), c, eol);
}

} // verus!
