//! The layout machine keeps the content of its tokens: it adds, drops and
//! moves white space, and nothing else.

use crate::config::{Config, Eol};
use crate::layout::{AssignView, BraceCtx, Input, PageView, State};
use crate::text::Class;
use crate::token::{KindSet, Token, TokenKind};
use crate::trivia::Conditional;
use vstd::prelude::*;

verus! {

// ── Tokens ───────────────────────────────────────────────────────────────────

/// The text of a symbol that is always written the same.
pub open spec fn fixed_text(k: TokenKind) -> Option<Seq<char>> {
    match k {
        TokenKind::LBrace => Some(seq!['{']),
        TokenKind::RBrace => Some(seq!['}']),
        TokenKind::LParen => Some(seq!['(']),
        TokenKind::RParen => Some(seq![')']),
        TokenKind::LBracket => Some(seq!['[']),
        TokenKind::RBracket => Some(seq![']']),
        TokenKind::Semi => Some(seq![';']),
        TokenKind::Comma => Some(seq![',']),
        TokenKind::Colon => Some(seq![':']),
        TokenKind::Lt => Some(seq!['<']),
        TokenKind::Gt => Some(seq!['>']),
        TokenKind::GtGt => Some(seq!['>', '>']),
        _ => None,
    }
}

/// The token's text suits its kind: layout is white space, the end of the
/// source is empty and a fixed symbol is that symbol.
pub open spec fn suits(t: Token) -> bool {
    &&& KindSet::Layout.has(t.kind) ==> crate::content::all_white(t.lexeme@)
    &&& t.kind == TokenKind::Eof ==> t.lexeme@.len() == 0
    &&& match fixed_text(t.kind) {
        Some(text) => t.lexeme@ == text,
        None => true,
    }
}

/// The text of every token suits its kind.
pub open spec fn well_formed(toks: Seq<Token>) -> bool {
    forall|i: int| 0 <= i < toks.len() ==> suits(#[trigger] toks[i])
}

/// The texts of the tokens from `i` up to `j`, one behind the other.
pub open spec fn texts(toks: Seq<Token>, i: int, j: int) -> Seq<char>
    decreases j - i,
{
    if i >= j {
        Seq::empty()
    } else {
        toks[i].lexeme@ + texts(toks, i + 1, j)
    }
}

/// The content of the tokens from `i` up to `j`.
pub open spec fn ink_of(toks: Seq<Token>, i: int, j: int) -> Seq<char> {
    crate::content::solid(texts(toks, i, j))
}

pub proof fn lemma_texts_split(toks: Seq<Token>, i: int, m: int, j: int)
    requires
        i <= m <= j,
    ensures
        texts(toks, i, j) == texts(toks, i, m) + texts(toks, m, j),
        ink_of(toks, i, j) == ink_of(toks, i, m) + ink_of(toks, m, j),
    decreases m - i,
{
    if i == m {
        assert(Seq::<char>::empty() + texts(toks, m, j) =~= texts(toks, m, j));
    } else {
        lemma_texts_split(toks, i + 1, m, j);
        assert(toks[i].lexeme@ + (texts(toks, i + 1, m) + texts(toks, m, j)) =~= (toks[i].lexeme@
            + texts(toks, i + 1, m)) + texts(toks, m, j));
    }
    crate::content::lemma_solid_add(texts(toks, i, m), texts(toks, m, j));
}

pub proof fn lemma_ink_one(toks: Seq<Token>, i: int)
    ensures
        texts(toks, i, i + 1) == toks[i].lexeme@,
        ink_of(toks, i, i + 1) == crate::content::solid(toks[i].lexeme@),
{
    reveal_with_fuel(texts, 2);
    assert(toks[i].lexeme@ + Seq::<char>::empty() =~= toks[i].lexeme@);
}

/// What stands behind layout is none.
pub proof fn lemma_behind_layout(toks: Seq<Token>, i: int)
    requires
        0 <= i,
    ensures
        ({
            let j = crate::scan::skip(toks, i, KindSet::Layout);
            0 <= j < toks.len() ==> !KindSet::Layout.has(toks[j].kind)
        }),
    decreases toks.len() - i,
{
    if crate::scan::any_at(toks, i, KindSet::Layout) {
        lemma_behind_layout(toks, i + 1);
    }
}

/// Layout has no content.
pub proof fn lemma_ink_layout(toks: Seq<Token>, i: int)
    requires
        well_formed(toks),
        0 <= i,
    ensures
        ink_of(toks, i, crate::scan::skip(toks, i, KindSet::Layout)) == Seq::<char>::empty(),
        i <= crate::scan::skip(toks, i, KindSet::Layout),
    decreases toks.len() - i,
{
    let j = crate::scan::skip(toks, i, KindSet::Layout);
    if crate::scan::any_at(toks, i, KindSet::Layout) {
        lemma_ink_layout(toks, i + 1);
        lemma_texts_split(toks, i, i + 1, j);
        lemma_ink_one(toks, i);
        assert(suits(toks[i]));
        crate::content::lemma_solid_white(toks[i].lexeme@);
        assert(Seq::<char>::empty() + Seq::<char>::empty() =~= Seq::<char>::empty());
    }
}

/// The text starts with no white space and holds no carriage return.
pub open spec fn starts_solid(text: Seq<char>) -> bool {
    crate::laws::lines::lacks(text, '\r') && text.len() > 0 && !crate::text::is_white(text[0])
}

/// The token holds no carriage return and no space in front of a line feed, nor
/// does it start with a line feed. Of a block comment, whose lines are trimmed,
/// only that it starts with no white space.
pub open spec fn token_fits(t: Token) -> bool {
    &&& crate::laws::lines::lacks(t.lexeme@, '\r')
    &&& if t.kind == TokenKind::CommentBlock {
        starts_solid(t.lexeme@)
    } else {
        crate::neat::fits(t.lexeme@)
    }
}

/// The token at `i` stands in an initializer that is kept on one line, where
/// comments are not trimmed.
pub open spec fn in_small_init(toks: Seq<Token>, i: int) -> bool {
    exists|p: int|
        crate::scan::is_at(toks, p - 1, TokenKind::LBrace) && match #[trigger] crate::scan::small_init_end(
            toks,
            p,
        ) {
            Some(end) => p <= i < end,
            None => false,
        }
}

/// The token at `i` fits; in an initializer that is kept on one line, a comment
/// does too.
pub open spec fn fits_at(toks: Seq<Token>, i: int) -> bool {
    &&& token_fits(toks[i])
    &&& toks[i].kind == TokenKind::CommentBlock && in_small_init(toks, i) ==> crate::neat::fits(
        toks[i].lexeme@,
    )
}

/// All tokens but layout fit.
pub open spec fn all_fit(toks: Seq<Token>) -> bool {
    forall|i: int|
        0 <= i < toks.len() && !KindSet::Layout.has(toks[i].kind) ==> #[trigger] fits_at(toks, i)
}

/// All items fit.
pub open spec fn items_fit(items: Seq<Token>) -> bool {
    forall|i: int| 0 <= i < items.len() ==> crate::neat::fits((#[trigger] items[i]).lexeme@)
}

/// The items of an initializer that is kept on one line fit.
proof fn lemma_content_fits(toks: Seq<Token>, p: int, i: int, end: int)
    requires
        all_fit(toks),
        crate::scan::is_at(toks, p - 1, TokenKind::LBrace),
        crate::scan::small_init_end(toks, p) == Some(end),
        0 <= p <= i,
        end <= toks.len(),
    ensures
        items_fit(crate::scan::content(toks, i, end)),
    decreases end - i,
{
    if i < end {
        lemma_content_fits(toks, p, i + 1, end);
        let rest = crate::scan::content(toks, i + 1, end);
        let all = crate::scan::content(toks, i, end);
        assert forall|k: int| 0 <= k < all.len() implies crate::neat::fits(
            (#[trigger] all[k]).lexeme@,
        ) by {
            if KindSet::Layout.has(toks[i].kind) {
                assert(all[k] == rest[k]);
            } else if k > 0 {
                assert(all[k] == rest[k - 1]);
            } else {
                assert(all[k] == toks[i]);
                assert(in_small_init(toks, i)) by {
                    assert(crate::scan::small_init_end(toks, p) is Some);
                }
                assert(fits_at(toks, i));
            }
        }
    }
}

// ── Page ─────────────────────────────────────────────────────────────────────

impl PageView {
    /// The content of what was written.
    pub open spec fn ink(self) -> Seq<char> {
        crate::content::solid(self.out)
    }

    /// A line that counts as empty follows a line end, or nothing.
    pub open spec fn sound(self) -> bool {
        self.at_line_start ==> self.out.len() == 0 || self.out.last() == '\n'
    }

    /// No line ends in a space.
    pub open spec fn neat(self) -> bool {
        crate::neat::neat(self.out)
    }

    pub proof fn lemma_write(self, t: Seq<char>)
        ensures
            self.write(t).ink() == self.ink() + crate::content::solid(t),
            self.sound() ==> self.write(t).sound(),
            self.neat() && crate::neat::fits(t) ==> self.write(t).neat(),
    {
        crate::content::lemma_solid_add(self.out, t);
        if self.neat() && crate::neat::fits(t) {
            crate::neat::lemma_fits_add(self.out, t);
        }
        if t.len() == 0 {
            assert(self.ink() + crate::content::solid(t) =~= self.ink());
        }
    }

    pub proof fn lemma_end_lines(self, eol: Eol, n: nat)
        ensures
            self.end_lines(eol, n).ink() == self.ink(),
            self.sound() ==> self.end_lines(eol, n).sound(),
            self.neat() ==> self.end_lines(eol, n).neat(),
    {
        crate::content::lemma_eol_white(eol);
        crate::content::lemma_repeat_white(eol.text(), n);
        crate::content::lemma_solid_trim_end(self.out, Class::Space);
        if self.neat() {
            crate::neat::lemma_neat_ends(self.out, eol, n);
        }
        crate::content::lemma_solid_tail(
            crate::text::trim_end(self.out, Class::Space),
            crate::text::repeat(eol.text(), n),
        );
    }

    pub proof fn lemma_space(self)
        ensures
            self.space().ink() == self.ink(),
            self.sound() ==> self.space().sound(),
            self.neat() ==> self.space().neat(),
    {
        crate::content::lemma_solid_tail(self.out, seq![' ']);
        assert(self.out.push(' ') =~= self.out + seq![' ']);
        if self.neat() {
            crate::neat::lemma_fits_add(self.out, seq![' ']);
        }
    }

    pub proof fn lemma_join_line(self)
        ensures
            self.join_line().ink() == self.ink(),
            self.sound() ==> self.join_line().sound(),
            self.neat() ==> self.join_line().neat(),
    {
        crate::content::lemma_solid_trim_end(self.out, Class::AsciiWhite);
        if self.neat() {
            crate::neat::lemma_neat_trim(self.out, Class::AsciiWhite);
        }
    }

    pub proof fn lemma_lead(self, lead: Seq<char>, started: bool)
        requires
            crate::content::all_white(lead),
            lead.len() > 0 ==> started || !self.at_line_start,
        ensures
            self.lead(lead, started).ink() == self.ink(),
            self.sound() ==> self.lead(lead, started).sound(),
            self.neat() && crate::laws::lines::lacks(lead, '\n') ==> self.lead(lead, started).neat(),
    {
        crate::content::lemma_solid_tail(self.out, lead);
        if self.neat() && crate::laws::lines::lacks(lead, '\n') {
            crate::neat::lemma_fits_add(self.out, lead);
        }
    }
}

// ── State ────────────────────────────────────────────────────────────────────

impl State {
    /// The content of what was written.
    pub open spec fn ink(self) -> Seq<char> {
        self.page.ink()
    }

    /// A line that counts as empty follows a line end, or nothing.
    pub open spec fn sound(self) -> bool {
        self.page.sound()
    }

    /// No line ends in a space.
    pub open spec fn neat(self) -> bool {
        self.page.neat()
    }

    proof fn lemma_align_to_paren(self)
        ensures
            self.align_to_paren().ink() == self.ink(),
            self.sound() ==> self.align_to_paren().sound(),
            self.neat() ==> self.align_to_paren().neat(),
    {
        if self.parens.len() > 0 {
            let top = self.parens.last();
            let eol = top.eol || self.page.tail_is('(');
            let col = if eol {
                top.eol_col
            } else {
                top.col
            };
            crate::content::lemma_spaces_white(col);
            self.page.lemma_lead(crate::text::spaces(col), eol || col > 0);
        }
    }

    proof fn lemma_align_to_assign(self, config: Config, a: AssignView)
        ensures
            self.align_to_assign(config, a).ink() == self.ink(),
            self.sound() ==> self.align_to_assign(config, a).sound(),
            self.neat() ==> self.align_to_assign(config, a).neat(),
    {
        let eol = a.eol || self.page.tail_is('=');
        crate::content::lemma_unit_white(config);
        crate::content::lemma_repeat_white(config.indent_unit(), self.depth.indent + 1);
        crate::content::lemma_spaces_white(a.col);
        crate::neat::lemma_units_lack(config, self.depth.indent + 1);
        let lead = if eol {
            crate::text::repeat(config.indent_unit(), self.depth.indent + 1)
        } else {
            crate::text::spaces(a.col)
        };
        self.page.lemma_lead(lead, eol || a.col > 0);
    }

    pub proof fn lemma_start_line(self, config: Config)
        ensures
            self.start_line(config).ink() == self.ink(),
            self.sound() ==> self.start_line(config).sound(),
            self.neat() ==> self.start_line(config).neat(),
    {
        reveal(State::start_line);
        self.lemma_align_to_paren();
        match self.assign {
            Some(a) => self.lemma_align_to_assign(config, a),
            None => {},
        }
        crate::content::lemma_unit_white(config);
        crate::content::lemma_repeat_white(config.indent_unit(), self.depth.indent);
        crate::neat::lemma_units_lack(config, self.depth.indent);
        self.page.lemma_lead(
            crate::text::repeat(config.indent_unit(), self.depth.indent),
            self.depth.indent > 0,
        );
    }

    pub proof fn lemma_own_line(self, config: Config, eol: Eol)
        ensures
            self.own_line(config, eol).ink() == self.ink(),
            self.sound() ==> self.own_line(config, eol).sound(),
            self.neat() ==> self.own_line(config, eol).neat(),
    {
        reveal(State::own_line);
        self.lemma_start_line(config);
        self.nl(eol).lemma_start_line(config);
        self.page.lemma_end_lines(eol, 1);
    }

    pub proof fn lemma_lead_in(self, config: Config, wanted: bool)
        ensures
            self.lead_in(config, wanted).ink() == self.ink(),
            self.sound() ==> self.lead_in(config, wanted).sound(),
            self.neat() ==> self.lead_in(config, wanted).neat(),
    {
        reveal(State::lead_in);
        self.lemma_start_line(config);
        self.page.lemma_space();
    }

    pub proof fn lemma_flush(self, config: Config, eol: Eol)
        ensures
            self.flush(config, eol).ink() == self.ink(),
            self.sound() ==> self.flush(config, eol).sound(),
            self.neat() ==> self.flush(config, eol).neat(),
    {
        reveal(State::flush);
        self.page.lemma_end_lines(eol, self.owed_lines(config));
    }

    pub proof fn lemma_break_line(self, eol: Eol)
        ensures
            self.break_line(eol).ink() == self.ink(),
            self.sound() ==> self.break_line(eol).sound(),
            self.neat() ==> self.break_line(eol).neat(),
            self.nl(eol).ink() == self.ink(),
            self.sound() ==> self.nl(eol).sound(),
            self.neat() ==> self.nl(eol).neat(),
            self.fresh_line(eol).ink() == self.ink(),
            self.sound() ==> self.fresh_line(eol).sound(),
            self.neat() ==> self.fresh_line(eol).neat(),
    {
        self.page.lemma_end_lines(eol, 1);
    }

    proof fn lemma_post_brace(
        self,
        env: Input,
        ctx: BraceCtx,
        next: Option<TokenKind>,
        p: int,
        line: u32,
    )
        ensures
            self.post_brace(env, ctx, next, p, line).ink() == self.ink(),
            self.sound() ==> self.post_brace(env, ctx, next, p, line).sound(),
            self.neat() ==> self.post_brace(env, ctx, next, p, line).neat(),
    {
        reveal(State::post_brace);
        self.page.lemma_space();
        self.lemma_break_line(env.eol);
    }

    proof fn lemma_track_decls(self, env: Input, k: TokenKind, p: int)
        ensures
            self.track_decls(env, k, p).ink() == self.ink(),
            self.sound() ==> self.track_decls(env, k, p).sound(),
            self.neat() ==> self.track_decls(env, k, p).neat(),
    {
        reveal(State::track_decls);
    }

    proof fn lemma_on_preproc(self, env: Input, text: Seq<char>)
        ensures
            self.on_preproc(env, text).ink() == self.ink() + crate::content::solid(text),
            self.sound() ==> self.on_preproc(env, text).sound(),
            self.neat() && env.eol == Eol::Lf && crate::laws::lines::lacks(text, '\r')
                && crate::neat::fits(text) ==> self.on_preproc(env, text).neat(),
    {
        let c = crate::trivia::conditional(crate::trivia::unify(text, env.eol));
        let line = crate::trivia::preproc_line(text, env.config, env.eol);
        let f = self.flush(env.config, env.eol);
        let g = f.fresh_line(env.eol);
        let h = g.track_group(c);
        let w = h.write_preproc(env.config, c, line);
        self.lemma_flush(env.config, env.eol);
        f.lemma_break_line(env.eol);
        assert(h.ink() == g.ink());
        h.lemma_write_preproc(env.config, c, line);
        crate::content::lemma_solid_preproc_line(text, env.config, env.eol);
        if env.eol == Eol::Lf && crate::laws::lines::lacks(text, '\r') && crate::neat::fits(text) {
            crate::neat::lemma_fits_preproc(text, env.config);
        }
        w.lemma_break_line(env.eol);
    }

    proof fn lemma_write_preproc(self, config: Config, c: Conditional, line: Seq<char>)
        ensures
            self.write_preproc(config, c, line).ink() == self.ink() + crate::content::solid(line),
            self.sound() ==> self.write_preproc(config, c, line).sound(),
            self.neat() && crate::neat::fits(line) ==> self.write_preproc(config, c, line).neat(),
    {
        if config.preprocessor.pp_indent {
            let n = if c == Conditional::Close || c == Conditional::Reopen {
                crate::layout::minus(self.depth.pp_groups, 1)
            } else {
                self.depth.pp_groups
            };
            let lead = crate::text::repeat(config.indent_unit(), n);
            let text = crate::text::trim_start(line, Class::White);
            crate::content::lemma_unit_white(config);
            crate::content::lemma_repeat_white(config.indent_unit(), n);
            crate::content::lemma_solid_white(lead);
            crate::content::lemma_solid_trim_start(line, Class::White);
            crate::neat::lemma_units_lack(config, n);
            if crate::neat::fits(line) {
                crate::neat::lemma_fits_trim_start(line);
            }
            self.page.lemma_write(lead);
            self.page.write(lead).lemma_write(text);
            assert(self.ink() + Seq::<char>::empty() =~= self.ink());
        } else {
            self.page.lemma_write(line);
        }
    }

    proof fn lemma_on_line_comment(self, env: Input, text: Seq<char>)
        ensures
            self.on_line_comment(env, text).ink() == self.ink() + crate::content::solid(text),
            self.sound() ==> self.on_line_comment(env, text).sound(),
            self.neat() && crate::neat::fits(text) ==> self.on_line_comment(env, text).neat(),
    {
        let f = self.flush(env.config, env.eol);
        self.lemma_flush(env.config, env.eol);
        f.page.lemma_join_line();
        let p = if self.merges_comment(env.config) {
            f.join_line()
        } else {
            f
        };
        p.lemma_lead_in(env.config, true);
        let body = crate::text::trim_end(text, Class::Break);
        let l = p.lead_in(env.config, true);
        l.page.lemma_write(body);
        crate::content::lemma_solid_trim_end(text, Class::Break);
        if crate::neat::fits(text) {
            crate::neat::lemma_fits_trim(text, Class::Break);
        }
        l.write(body).lemma_break_line(env.eol);
    }

    proof fn lemma_on_block_comment(self, env: Input, text: Seq<char>, p: int)
        ensures
            self.on_block_comment(env, text, p).ink() == self.ink() + crate::content::solid(text),
            self.sound() ==> self.on_block_comment(env, text, p).sound(),
            self.neat() && env.eol == Eol::Lf && starts_solid(text) ==> self.on_block_comment(
                env,
                text,
                p,
            ).neat(),
    {
        let f = self.flush(env.config, env.eol);
        self.lemma_flush(env.config, env.eol);
        f.lemma_lead_in(env.config, true);
        let l = f.lead_in(env.config, true);
        let body = crate::trivia::block_comment(text, env.config, env.eol);
        l.page.lemma_write(body);
        crate::content::lemma_solid_block_comment(text, env.config, env.eol);
        if env.eol == Eol::Lf && starts_solid(text) {
            crate::neat::lemma_fits_comment(text, env.config);
        }
        l.write(body).lemma_break_line(env.eol);
    }
}

// ── Braces ───────────────────────────────────────────────────────────────────

/// The texts of some tokens, one behind the other.
pub open spec fn all_texts(toks: Seq<Token>) -> Seq<char> {
    texts(toks, 0, toks.len() as int)
}

proof fn lemma_texts_first(toks: Seq<Token>, i: int, j: int)
    requires
        toks.len() > 0,
        0 <= i,
        j <= toks.len() - 1,
    ensures
        texts(toks.drop_first(), i, j) == texts(toks, i + 1, j + 1),
    decreases j - i,
{
    if i < j {
        lemma_texts_first(toks, i + 1, j);
    }
}

/// The tokens besides layout hold all content.
proof fn lemma_content_ink(toks: Seq<Token>, i: int, end: int)
    requires
        well_formed(toks),
        0 <= i <= end <= toks.len(),
    ensures
        crate::content::solid(all_texts(crate::scan::content(toks, i, end))) == ink_of(
            toks,
            i,
            end,
        ),
    decreases end - i,
{
    let items = crate::scan::content(toks, i, end);
    if i < end {
        let rest = crate::scan::content(toks, i + 1, end);
        lemma_content_ink(toks, i + 1, end);
        lemma_texts_split(toks, i, i + 1, end);
        lemma_ink_one(toks, i);
        if KindSet::Layout.has(toks[i].kind) {
            assert(suits(toks[i]));
            crate::content::lemma_solid_white(toks[i].lexeme@);
            assert(Seq::<char>::empty() + ink_of(toks, i + 1, end) =~= ink_of(toks, i + 1, end));
        } else {
            assert(items.drop_first() =~= rest);
            lemma_texts_first(items, 0, rest.len() as int);
            assert(all_texts(items) == toks[i].lexeme@ + all_texts(rest));
            crate::content::lemma_solid_add(toks[i].lexeme@, all_texts(rest));
        }
    }
}

impl PageView {
    proof fn lemma_write_items(self, items: Seq<Token>, prev: TokenKind, unary: bool)
        ensures
            self.write_items(items, prev, unary).ink() == self.ink() + crate::content::solid(
                all_texts(items),
            ),
            self.sound() ==> self.write_items(items, prev, unary).sound(),
            self.neat() && items_fit(items) ==> self.write_items(items, prev, unary).neat(),
        decreases items.len(),
    {
        if items.len() == 0 {
            assert(self.ink() + Seq::<char>::empty() =~= self.ink());
        } else {
            let t = items[0];
            self.lemma_write(seq![' ']);
            crate::content::lemma_solid_white(seq![' ']);
            assert(self.ink() + Seq::<char>::empty() =~= self.ink());
            let spaced = if crate::braces::item_space(prev, t.kind, unary) {
                self.write(seq![' '])
            } else {
                self
            };
            spaced.lemma_write(t.lexeme@);
            let rest = items.drop_first();
            if items_fit(items) {
                assert(crate::neat::fits(items[0].lexeme@));
                assert forall|i: int| 0 <= i < rest.len() implies crate::neat::fits(
                    (#[trigger] rest[i]).lexeme@,
                ) by {
                    assert(rest[i] == items[i + 1]);
                }
            }
            spaced.write(t.lexeme@).lemma_write_items(
                rest,
                t.kind,
                crate::braces::item_is_unary(prev, t.kind),
            );
            lemma_texts_first(items, 0, rest.len() as int);
            assert(all_texts(items) == t.lexeme@ + all_texts(rest));
            crate::content::lemma_solid_add(t.lexeme@, all_texts(rest));
            assert((self.ink() + crate::content::solid(t.lexeme@)) + crate::content::solid(
                all_texts(rest),
            ) =~= self.ink() + (crate::content::solid(t.lexeme@) + crate::content::solid(
                all_texts(rest),
            )));
        }
    }

    proof fn lemma_write_small_init(self, items: Seq<Token>)
        ensures
            self.write_small_init(items).ink() == self.ink() + crate::content::solid(
                all_texts(items),
            ) + crate::content::solid(seq!['}']),
            self.sound() ==> self.write_small_init(items).sound(),
            self.neat() && items_fit(items) ==> self.write_small_init(items).neat(),
    {
        if items.len() == 0 {
            self.lemma_write(seq!['}']);
            assert(self.ink() + Seq::<char>::empty() =~= self.ink());
        } else {
            let a = self.write(seq![' ']);
            self.lemma_write(seq![' ']);
            crate::content::lemma_solid_white(seq![' ']);
            assert(self.ink() + Seq::<char>::empty() =~= self.ink());
            let b = a.write_items(items, TokenKind::LBrace, false);
            a.lemma_write_items(items, TokenKind::LBrace, false);
            b.lemma_write(seq![' ', '}']);
            assert(seq![' ', '}'] =~= seq![' '] + seq!['}']);
            crate::content::lemma_solid_add(seq![' '], seq!['}']);
            assert(Seq::<char>::empty() + crate::content::solid(seq!['}'])
                =~= crate::content::solid(seq!['}']));
        }
    }
}

impl State {
    proof fn lemma_place_brace(self, env: Input, ctx: BraceCtx, p: int)
        ensures
            self.place_brace(env, ctx, p).ink() == self.ink() + crate::content::solid(seq!['{']),
            self.sound() ==> self.place_brace(env, ctx, p).sound(),
            self.neat() ==> self.place_brace(env, ctx, p).neat(),
    {
        reveal(State::place_brace);
        self.page.lemma_space();
        self.page.lemma_join_line();
        self.page.join_line().lemma_space();
        self.lemma_own_line(env.config, env.eol);
        self.page.lemma_write(seq!['{']);
        self.space().page.lemma_write(seq!['{']);
        self.cling().page.lemma_write(seq!['{']);
        self.own_line(env.config, env.eol).page.lemma_write(seq!['{']);
    }

    proof fn lemma_close_empty(self, env: Input, ctx: BraceCtx, p: int, line: u32)
        ensures
            self.close_empty(env, ctx, p, line).ink() == self.ink() + crate::content::solid(
                seq!['}'],
            ),
            self.sound() ==> self.close_empty(env, ctx, p, line).sound(),
            self.neat() ==> self.close_empty(env, ctx, p, line).neat(),
    {
        reveal(State::close_empty);
        let next = crate::scan::kind_at(
            env.toks,
            crate::scan::skip(env.toks, p, KindSet::Layout),
        );
        self.page.lemma_write(seq!['}']);
        self.write(seq!['}']).lemma_post_brace(env, ctx, next, p, line);
    }

    proof fn lemma_open_body(self, env: Input, ctx: BraceCtx, p: int)
        ensures
            self.open_body(env, ctx, p).ink() == self.ink(),
            self.sound() ==> self.open_body(env, ctx, p).sound(),
            self.neat() ==> self.open_body(env, ctx, p).neat(),
    {
        reveal(State::open_body);
        let s = self.enter(env.config, ctx).begin_decls(env.config, ctx).push_brace(
            env,
            ctx,
            p,
        ).settle();
        assert(s.ink() == self.ink());
        s.lemma_break_line(env.eol);
    }

    proof fn lemma_on_lbrace(self, env: Input, p: int, line: u32)
        requires
            well_formed(env.toks),
            1 <= p <= env.toks.len(),
        ensures
            ({
                let (s, q) = self.on_lbrace(env, p, line);
                &&& p <= q <= env.toks.len()
                &&& s.ink() == self.ink() + crate::content::solid(seq!['{']) + ink_of(
                    env.toks,
                    p,
                    q,
                )
                &&& self.sound() ==> s.sound()
                &&& self.neat() && all_fit(env.toks) && crate::scan::is_at(
                    env.toks,
                    p - 1,
                    TokenKind::LBrace,
                ) ==> s.neat()
            }),
    {
        let ctx = self.brace_ctx(env, p);
        let f = self.flush(env.config, env.eol);
        let opened = f.place_brace(env, ctx, p);
        self.lemma_flush(env.config, env.eol);
        f.lemma_place_brace(env, ctx, p);
        let small = crate::scan::small_init_end(env.toks, p);
        let end = crate::scan::skip(env.toks, p, KindSet::Layout);
        if ctx == BraceCtx::Other && small is Some {
            let e = small->0;
            crate::scan::lemma_skip(env.toks, p, KindSet::FlatInit);
            lemma_content_ink(env.toks, p, e);
            if all_fit(env.toks) && crate::scan::is_at(env.toks, p - 1, TokenKind::LBrace) {
                lemma_content_fits(env.toks, p, p, e);
            }
            opened.page.lemma_write_small_init(crate::scan::content(env.toks, p, e));
            lemma_texts_split(env.toks, p, e, e + 1);
            lemma_ink_one(env.toks, e);
            assert(suits(env.toks[e]));
            assert(opened.ink() + ink_of(env.toks, p, e) + crate::content::solid(seq!['}'])
                =~= opened.ink() + ink_of(env.toks, p, e + 1));
        } else if env.config.braces.collapse_empty_body && crate::scan::is_at(
            env.toks,
            end,
            TokenKind::RBrace,
        ) {
            lemma_ink_layout(env.toks, p);
            lemma_texts_split(env.toks, p, end, end + 1);
            lemma_ink_one(env.toks, end);
            assert(suits(env.toks[end]));
            opened.lemma_close_empty(env, ctx, end + 1, line);
            assert(Seq::<char>::empty() + crate::content::solid(seq!['}'])
                =~= crate::content::solid(seq!['}']));
        } else {
            opened.lemma_open_body(env, ctx, p);
            assert(opened.ink() + Seq::<char>::empty() =~= opened.ink());
        }
    }

    proof fn lemma_on_rbrace(self, env: Input, p: int, line: u32)
        ensures
            self.on_rbrace(env, p, line).ink() == self.ink() + crate::content::solid(seq!['}']),
            self.sound() ==> self.on_rbrace(env, p, line).sound(),
            self.neat() ==> self.on_rbrace(env, p, line).neat(),
    {
        let next = crate::scan::kind_at(
            env.toks,
            crate::scan::skip(env.toks, p, KindSet::Layout),
        );
        let a = self.dedent(env.config);
        let b = a.flush(env.config, env.eol);
        let c = b.own_line(env.config, env.eol);
        a.lemma_flush(env.config, env.eol);
        b.lemma_own_line(env.config, env.eol);
        c.page.lemma_write(seq!['}']);
        let d = c.write(seq!['}']).close_body();
        d.lemma_post_brace(env, self.inner_ctx(), next, p, line);
    }

    // ── Punctuation ──────────────────────────────────────────────────────────

    proof fn lemma_on_semi(self, env: Input, p: int, line: u32)
        ensures
            self.on_semi(env, p, line).ink() == self.ink() + crate::content::solid(seq![';']),
            self.sound() ==> self.on_semi(env, p, line).sound(),
            self.neat() ==> self.on_semi(env, p, line).neat(),
    {
        self.lemma_flush(env.config, env.eol);
        let f = self.flush(env.config, env.eol);
        f.page.lemma_write(seq![';']);
        let s = State {
            marks: crate::layout::Marks { pending_type: false, pending_linkage: false, ..f.marks },
            ..f
        }.write(seq![';']);
        State { assign: None, ..s }.lemma_break_line(env.eol);
    }

    proof fn lemma_on_comma(self, env: Input, p: int, line: u32)
        ensures
            self.on_comma(env, p, line).ink() == self.ink() + crate::content::solid(seq![',']),
            self.sound() ==> self.on_comma(env, p, line).sound(),
            self.neat() ==> self.on_comma(env, p, line).neat(),
    {
        self.lemma_flush(env.config, env.eol);
        let f = self.flush(env.config, env.eol);
        f.lemma_lead_in(env.config, false);
        let l = f.lead_in(env.config, false);
        l.page.lemma_write(seq![',']);
        let w = l.write(seq![',']);
        w.lemma_break_line(env.eol);
        State { assign: None, ..w }.lemma_break_line(env.eol);
    }

    proof fn lemma_on_lparen(self, env: Input, p: int)
        ensures
            self.on_lparen(env, p).ink() == self.ink() + crate::content::solid(seq!['(']),
            self.sound() ==> self.on_lparen(env, p).sound(),
            self.neat() ==> self.on_lparen(env, p).neat(),
    {
        self.lemma_flush(env.config, env.eol);
        let f = self.flush(env.config, env.eol);
        f.lemma_lead_in(env.config, f.spaces_paren(env, p));
        f.lead_in(env.config, f.spaces_paren(env, p)).page.lemma_write(seq!['(']);
    }

    proof fn lemma_on_rparen(self, env: Input)
        ensures
            self.on_rparen(env).ink() == self.ink() + crate::content::solid(seq![')']),
            self.sound() ==> self.on_rparen(env).sound(),
            self.neat() ==> self.on_rparen(env).neat(),
    {
        self.lemma_flush(env.config, env.eol);
        let f = self.flush(env.config, env.eol);
        f.lemma_align_to_paren();
        f.page.lemma_space();
        f.page.lemma_write(seq![')']);
        f.space().page.lemma_write(seq![')']);
        f.align_to_paren().page.lemma_write(seq![')']);
    }

    proof fn lemma_on_brackets(self, env: Input)
        ensures
            self.on_lbracket(env).ink() == self.ink() + crate::content::solid(seq!['[']),
            self.sound() ==> self.on_lbracket(env).sound(),
            self.neat() ==> self.on_lbracket(env).neat(),
            self.on_rbracket(env).ink() == self.ink() + crate::content::solid(seq![']']),
            self.sound() ==> self.on_rbracket(env).sound(),
            self.neat() ==> self.on_rbracket(env).neat(),
    {
        self.lemma_flush(env.config, env.eol);
        let f = self.flush(env.config, env.eol);
        f.page.lemma_write(seq!['[']);
        f.page.lemma_write(seq![']']);
        f.page.lemma_space();
        f.space().page.lemma_write(seq![']']);
    }

    proof fn lemma_on_colon(self, env: Input, p: int)
        ensures
            self.on_colon(env, p).ink() == self.ink() + crate::content::solid(seq![':']),
            self.sound() ==> self.on_colon(env, p).sound(),
            self.neat() ==> self.on_colon(env, p).neat(),
    {
        self.lemma_flush(env.config, env.eol);
        let f = self.flush(env.config, env.eol);
        f.page.lemma_space();
        let b = f.before_colon(env, p);
        assert(b.ink() == f.ink());
        b.page.lemma_write(seq![':']);
        let s = b.write(seq![':']);
        s.page.lemma_end_lines(env.eol, 1);
        assert(s.after_colon(env).ink() == s.ink());
    }

    // ── Words and operators ──────────────────────────────────────────────────

    proof fn lemma_write_spaced(self, env: Input, k: TokenKind, text: Seq<char>)
        ensures
            self.write_spaced(env, k, text).ink() == self.ink() + crate::content::solid(text),
            self.sound() ==> self.write_spaced(env, k, text).sound(),
            self.neat() && crate::neat::fits(text) ==> self.write_spaced(env, k, text).neat(),
    {
        reveal(State::write_spaced);
        self.lemma_flush(env.config, env.eol);
        let f = self.flush(env.config, env.eol);
        f.lemma_lead_in(env.config, f.needs_space(env.config, k));
        f.lead_in(env.config, f.needs_space(env.config, k)).page.lemma_write(text);
    }

    proof fn lemma_on_case(self, env: Input, k: TokenKind, text: Seq<char>)
        ensures
            self.on_case(env, k, text).ink() == self.ink() + crate::content::solid(text),
            self.sound() ==> self.on_case(env, k, text).sound(),
            self.neat() && crate::neat::fits(text) ==> self.on_case(env, k, text).neat(),
    {
        reveal(State::start_case_line);
        reveal(State::start_line_at);
        self.lemma_flush(env.config, env.eol);
        let f = self.flush(env.config, env.eol);
        f.page.lemma_space();
        f.lemma_start_line(env.config);
        let d = crate::layout::DepthView {
            indent: crate::layout::minus(f.depth.indent, 1),
            ..f.depth
        };
        State { depth: d, ..f }.lemma_start_line(env.config);
        State {
            depth: d,
            cases: f.cases.update(f.cases.len() - 1, false),
            ..f
        }.lemma_start_line(env.config);
        let led = if f.page.at_line_start {
            f.start_case_line(env.config)
        } else if f.needs_space(env.config, k) {
            f.space()
        } else {
            f
        };
        assert(led.ink() == f.ink());
        led.page.lemma_write(text);
    }

    proof fn lemma_on_access(self, env: Input, k: TokenKind, text: Seq<char>)
        ensures
            self.on_access(env, k, text).ink() == self.ink() + crate::content::solid(text),
            self.sound() ==> self.on_access(env, k, text).sound(),
            self.neat() && crate::neat::fits(text) ==> self.on_access(env, k, text).neat(),
    {
        reveal(State::start_line_at);
        self.lemma_flush(env.config, env.eol);
        let f = self.flush(env.config, env.eol);
        let n = crate::layout::minus(f.depth.indent, 1);
        State {
            depth: crate::layout::DepthView { indent: n, ..f.depth },
            ..f
        }.lemma_start_line(env.config);
        f.page.lemma_space();
        f.page.lemma_write(text);
        f.space().page.lemma_write(text);
        f.start_line_at(env.config, n).page.lemma_write(text);
    }

    proof fn lemma_on_goto_label(self, env: Input, k: TokenKind, text: Seq<char>)
        ensures
            self.on_goto_label(env, k, text).ink() == self.ink() + crate::content::solid(text),
            self.sound() ==> self.on_goto_label(env, k, text).sound(),
            self.neat() && crate::neat::fits(text) ==> self.on_goto_label(env, k, text).neat(),
    {
        self.lemma_flush(env.config, env.eol);
        self.flush(env.config, env.eol).page.lemma_write(text);
    }

    proof fn lemma_on_templates(self, env: Input, text: Seq<char>, n: nat)
        ensures
            self.on_template_open(env).ink() == self.ink() + crate::content::solid(seq!['<']),
            self.sound() ==> self.on_template_open(env).sound(),
            self.neat() ==> self.on_template_open(env).neat(),
            self.on_template_close(env, text, n).ink() == self.ink() + crate::content::solid(text),
            self.sound() ==> self.on_template_close(env, text, n).sound(),
            self.neat() && crate::neat::fits(text) ==> self.on_template_close(env, text, n).neat(),
    {
        self.lemma_flush(env.config, env.eol);
        let f = self.flush(env.config, env.eol);
        f.lemma_lead_in(env.config, false);
        let l = f.lead_in(env.config, false);
        l.page.lemma_write(seq!['<']);
        l.page.write(seq!['<']).lemma_space();
        let wanted = env.config.spacing.space_inside_angle_brackets;
        f.lemma_lead_in(env.config, wanted);
        f.lead_in(env.config, wanted).page.lemma_write(text);
    }

    proof fn lemma_on_declarator(self, env: Input, k: TokenKind, text: Seq<char>)
        ensures
            self.on_declarator(env, k, text).ink() == self.ink() + crate::content::solid(text),
            self.sound() ==> self.on_declarator(env, k, text).sound(),
            self.neat() && crate::neat::fits(text) ==> self.on_declarator(env, k, text).neat(),
    {
        self.lemma_flush(env.config, env.eol);
        let f = self.flush(env.config, env.eol);
        let align = env.config.spacing.pointer_align;
        let spaced = match align {
            crate::config::PointerAlign::Middle => f.needs_space(env.config, k),
            crate::config::PointerAlign::Type => false,
            crate::config::PointerAlign::Name => f.marks.prev != Some(TokenKind::Star)
                && f.marks.prev != Some(TokenKind::Amp),
        };
        f.lemma_lead_in(env.config, spaced);
        f.lead_in(env.config, spaced).page.lemma_write(text);
    }

    proof fn lemma_on_sign(self, env: Input, k: TokenKind, text: Seq<char>)
        ensures
            self.on_sign(env, k, text).ink() == self.ink() + crate::content::solid(text),
            self.sound() ==> self.on_sign(env, k, text).sound(),
            self.neat() && crate::neat::fits(text) ==> self.on_sign(env, k, text).neat(),
    {
        self.lemma_flush(env.config, env.eol);
        let f = self.flush(env.config, env.eol);
        f.lemma_lead_in(env.config, f.needs_space(env.config, k));
        f.lead_in(env.config, f.needs_space(env.config, k)).page.lemma_write(text);
    }

    // ── Steps ────────────────────────────────────────────────────────────────

    proof fn lemma_step_operand(self, env: Input, t: Token, p: int)
        requires
            suits(t),
        ensures
            self.step_operand(env, t, p).ink() == self.ink() + crate::content::solid(t.lexeme@),
            self.sound() ==> self.step_operand(env, t, p).sound(),
            self.neat() && crate::neat::fits(t.lexeme@) ==> self.step_operand(env, t, p).neat(),
    {
        reveal(State::step_operand);
        let k = t.kind;
        let text = t.lexeme@;
        self.lemma_on_templates(env, seq!['>'], 1);
        self.lemma_on_templates(env, seq!['>', '>'], 2);
        self.lemma_on_declarator(env, k, text);
        self.lemma_on_sign(env, k, text);
        self.lemma_write_spaced(env, k, text);
        self.lemma_on_goto_label(env, k, text);
    }

    /// Each step writes the content of the tokens that it takes.
    pub proof fn lemma_step(self, env: Input, t: Token, p: int)
        requires
            well_formed(env.toks),
            1 <= p <= env.toks.len(),
            t == env.toks[p - 1],
            t.kind != TokenKind::Eof,
        ensures
            ({
                let (s, q) = self.step(env, t, p);
                &&& p <= q <= env.toks.len()
                &&& s.ink() == self.ink() + ink_of(env.toks, p - 1, q)
                &&& self.sound() ==> s.sound()
                &&& self.neat() && env.eol == Eol::Lf && all_fit(env.toks)
                    && !KindSet::Layout.has(t.kind) ==> s.neat()
            }),
    {
        reveal(State::step);
        let k = t.kind;
        let text = t.lexeme@;
        let (s, q) = self.step(env, t, p);
        assert(suits(env.toks[p - 1]));
        assert(all_fit(env.toks) && !KindSet::Layout.has(k) ==> fits_at(env.toks, p - 1));
        lemma_ink_one(env.toks, p - 1);
        match k {
            TokenKind::PreprocLine => self.lemma_on_preproc(env, text),
            TokenKind::CommentLine => self.lemma_on_line_comment(env, text),
            TokenKind::CommentBlock => self.lemma_on_block_comment(env, text, p),
            TokenKind::LBrace => {
                self.lemma_on_lbrace(env, p, t.span.line);
                lemma_texts_split(env.toks, p - 1, p, q);
                assert(self.ink() + crate::content::solid(seq!['{']) + ink_of(env.toks, p, q)
                    =~= self.ink() + ink_of(env.toks, p - 1, q));
            },
            TokenKind::RBrace => self.lemma_on_rbrace(env, p, t.span.line),
            TokenKind::Semi => self.lemma_on_semi(env, p, t.span.line),
            TokenKind::Comma => self.lemma_on_comma(env, p, t.span.line),
            TokenKind::LParen => self.lemma_on_lparen(env, p),
            TokenKind::RParen => self.lemma_on_rparen(env),
            TokenKind::LBracket | TokenKind::RBracket => self.lemma_on_brackets(env),
            TokenKind::Colon => self.lemma_on_colon(env, p),
            TokenKind::KwCase | TokenKind::KwDefault => self.lemma_on_case(env, k, text),
            TokenKind::KwPublic
            | TokenKind::KwPrivate
            | TokenKind::KwProtected => self.lemma_on_access(env, k, text),
            TokenKind::KwSwitch
            | TokenKind::KwClass
            | TokenKind::KwStruct
            | TokenKind::KwUnion
            | TokenKind::KwEnum => self.lemma_write_spaced(env, k, text),
            _ => self.lemma_step_operand(env, t, p),
        }
    }

    /// The machine writes the content of the tokens from `i` up to `k`, where
    /// it stops: at an end of the source, or behind the last token.
    pub proof fn lemma_run(self, env: Input, i: int) -> (k: int)
        requires
            well_formed(env.toks),
            0 <= i <= env.toks.len(),
        ensures
            i <= k <= env.toks.len(),
            k < env.toks.len() ==> env.toks[k].kind == TokenKind::Eof,
            self.run(env, i).ink() == self.ink() + ink_of(env.toks, i, k),
            self.neat() && env.eol == Eol::Lf && all_fit(env.toks) ==> self.run(env, i).neat(),
        decreases env.toks.len() - i,
    {
        let n = env.toks.len() as int;
        let at = crate::scan::skip(env.toks, i, KindSet::Layout);
        crate::scan::lemma_skip(env.toks, i, KindSet::Layout);
        lemma_ink_layout(env.toks, i);
        let s = self.pass_layout(env.toks, i, at);
        assert(self.ink() + Seq::<char>::empty() =~= self.ink());
        if at >= n {
            at
        } else {
            let t = env.toks[at];
            lemma_behind_layout(env.toks, i);
            let d = s.track_decls(env, t.kind, at + 1);
            s.lemma_track_decls(env, t.kind, at + 1);
            if t.kind == TokenKind::Eof {
                d.lemma_break_line(env.eol);
                at
            } else {
                let (next, q) = d.step(env, t, at + 1);
                d.lemma_step(env, t, at + 1);
                let k = next.lemma_run(env, q);
                lemma_texts_split(env.toks, at, q, k);
                lemma_texts_split(env.toks, i, at, k);
                assert((self.ink() + ink_of(env.toks, at, q)) + ink_of(env.toks, q, k)
                    =~= self.ink() + ink_of(env.toks, at, k));
                assert(Seq::<char>::empty() + ink_of(env.toks, at, k) =~= ink_of(
                    env.toks,
                    at,
                    k,
                ));
                k
            }
        }
    }
}

/// In the LF style no line of the layout ends in a space, if none of a token
/// does.
pub proof fn lemma_layout_neat(toks: Seq<Token>, config: Config)
    requires
        well_formed(toks),
        all_fit(toks),
    ensures
        crate::neat::neat(crate::machine::layout_text(toks, config, Eol::Lf)),
{
    let env = Input { toks, config, eol: Eol::Lf };
    let s = crate::layout::initial_state();
    crate::neat::lemma_neat_plain(s.page.out);
    let k = s.lemma_run(env, 0);
}

/// The layout of a token list holds the content of its tokens up to `k`: to an
/// end of the source, or all of them.
pub proof fn lemma_layout_keeps(toks: Seq<Token>, config: Config, eol: Eol) -> (k: int)
    requires
        well_formed(toks),
    ensures
        0 <= k <= toks.len(),
        k < toks.len() ==> toks[k].kind == TokenKind::Eof,
        crate::content::solid(crate::machine::layout_text(toks, config, eol)) == ink_of(
            toks,
            0,
            k,
        ),
{
    let env = Input { toks, config, eol };
    let s = crate::layout::initial_state();
    let k = s.lemma_run(env, 0);
    assert(s.ink() + ink_of(toks, 0, k) =~= ink_of(toks, 0, k));
    crate::content::lemma_solid_unify(s.run(env, 0).page.out, eol);
    k
}

} // verus!
