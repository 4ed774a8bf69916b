//! The rules for spaces between tokens on one line.

use crate::config::{Config, SpacingConfig};
use crate::layout::{Layout, State};
use crate::token::{KindSet, TokenKind};
use vstd::prelude::*;

verus! {

impl State {
    /// A space stands before a `next` that closes or punctuates.
    pub open spec fn space_before_closer(
        self,
        c: SpacingConfig,
        prev: TokenKind,
        next: TokenKind,
    ) -> bool {
        match next {
            TokenKind::RParen => c.space_inside_parens.wants_space(self.src_space),
            TokenKind::RBracket => c.space_inside_brackets.wants_space(self.src_space),
            TokenKind::DotDotDot => prev == TokenKind::Comma && c.space_after_comma,
            _ => false,
        }
    }

    /// A space stands between `prev` and `(`.
    pub open spec fn space_before_paren(self, c: SpacingConfig, prev: TokenKind) -> bool {
        if self.marks.after_overload {
            c.space_before_call_paren
        } else if KindSet::ControlKw.has(prev) {
            c.space_before_keyword_paren
        } else if prev == TokenKind::Ident || prev == TokenKind::Keyword
            || self.marks.after_template {
            c.space_before_call_paren
        } else if prev == TokenKind::RParen {
            self.marks.after_cast && c.space_after_cast.wants_space(self.src_space)
        } else {
            true
        }
    }

    /// A space stands between `prev` and `next`.
    pub open spec fn space_between(self, c: SpacingConfig, prev: TokenKind, next: TokenKind) -> bool {
        let cast = prev == TokenKind::RParen && self.marks.after_cast;
        if prev == TokenKind::Lt && self.depth.templates > 0 {
            c.space_inside_angle_brackets
        } else if KindSet::Closer.has(next) {
            self.space_before_closer(c, prev, next)
        } else if (next == TokenKind::PlusPlus || next == TokenKind::MinusMinus)
            && KindSet::EndsExpr.has(prev) && !cast {
            // behind its operand
            false
        } else if prev == TokenKind::LParen {
            c.space_inside_parens.wants_space(self.src_space)
        } else if prev == TokenKind::LBracket {
            c.space_inside_brackets.wants_space(self.src_space)
        } else if prev == TokenKind::Tilde || prev == TokenKind::Bang {
            false
        } else if KindSet::Access.has(prev) || KindSet::Access.has(next) {
            false
        } else if (prev == TokenKind::PlusPlus || prev == TokenKind::MinusMinus)
            && !KindSet::BinaryOp.has(next) {
            false
        } else if next == TokenKind::LParen {
            self.space_before_paren(c, prev)
        } else if next == TokenKind::LBracket {
            false
        } else if prev == TokenKind::Semi && self.parens.len() > 0 {
            true
        } else if prev == TokenKind::Comma {
            c.space_after_comma
        } else if cast && (next == TokenKind::Star || next == TokenKind::Amp) {
            c.space_after_cast.wants_space(self.src_space)
        } else if KindSet::BinaryOp.has(next) {
            c.space_around_binary_ops && (KindSet::EndsExpr.has(prev) || KindSet::BinaryOp.has(prev)
                || KindSet::AnyKw.has(prev))
        } else if KindSet::BinaryOp.has(prev) {
            c.space_around_binary_ops
        } else if next == TokenKind::Colon {
            self.depth.ternaries > 0
        } else if prev == TokenKind::Colon || KindSet::AnyKw.has(prev) || KindSet::AnyKw.has(next) {
            true
        } else if cast {
            c.space_after_cast.wants_space(self.src_space)
        } else {
            true
        }
    }

    /// A space stands before `next`. None stands at the start of the output,
    /// nor between `operator` and the symbol that it overloads.
    pub open spec fn needs_space(self, config: Config, next: TokenKind) -> bool {
        match self.marks.prev {
            Some(prev) => (!self.marks.after_operator || next == TokenKind::KwNew || next
                == TokenKind::KwDelete) && self.space_between(config.spacing, prev, next),
            None => false,
        }
    }
}

impl Layout {
    fn space_before_closer(&self, c: &SpacingConfig, prev: TokenKind, next: TokenKind) -> (r: bool)
        ensures
            r == self@.space_before_closer(*c, prev, next),
    {
        match next {
            TokenKind::RParen => c.space_inside_parens.wants(self.src_space),
            TokenKind::RBracket => c.space_inside_brackets.wants(self.src_space),
            TokenKind::DotDotDot => prev == TokenKind::Comma && c.space_after_comma,
            _ => false,
        }
    }

    fn space_before_paren(&self, c: &SpacingConfig, prev: TokenKind) -> (r: bool)
        ensures
            r == self@.space_before_paren(*c, prev),
    {
        if self.marks.after_overload {
            c.space_before_call_paren
        } else if KindSet::ControlKw.test(prev) {
            c.space_before_keyword_paren
        } else if prev == TokenKind::Ident || prev == TokenKind::Keyword
            || self.marks.after_template {
            c.space_before_call_paren
        } else if prev == TokenKind::RParen {
            self.marks.after_cast && c.space_after_cast.wants(self.src_space)
        } else {
            true
        }
    }

    fn space_between(&self, c: &SpacingConfig, prev: TokenKind, next: TokenKind) -> (r: bool)
        ensures
            r == self@.space_between(*c, prev, next),
    {
        let cast = prev == TokenKind::RParen && self.marks.after_cast;
        if prev == TokenKind::Lt && self.depth.templates > 0 {
            c.space_inside_angle_brackets
        } else if KindSet::Closer.test(next) {
            self.space_before_closer(c, prev, next)
        } else if (next == TokenKind::PlusPlus || next == TokenKind::MinusMinus)
            && KindSet::EndsExpr.test(prev) && !cast {
            // behind its operand
            false
        } else if prev == TokenKind::LParen {
            c.space_inside_parens.wants(self.src_space)
        } else if prev == TokenKind::LBracket {
            c.space_inside_brackets.wants(self.src_space)
        } else if prev == TokenKind::Tilde || prev == TokenKind::Bang {
            false
        } else if KindSet::Access.test(prev) || KindSet::Access.test(next) {
            false
        } else if (prev == TokenKind::PlusPlus || prev == TokenKind::MinusMinus)
            && !KindSet::BinaryOp.test(next) {
            false
        } else if next == TokenKind::LParen {
            self.space_before_paren(c, prev)
        } else if next == TokenKind::LBracket {
            false
        } else if prev == TokenKind::Semi && self.parens.len() > 0 {
            true
        } else if prev == TokenKind::Comma {
            c.space_after_comma
        } else if cast && (next == TokenKind::Star || next == TokenKind::Amp) {
            c.space_after_cast.wants(self.src_space)
        } else if KindSet::BinaryOp.test(next) {
            c.space_around_binary_ops && (KindSet::EndsExpr.test(prev) || KindSet::BinaryOp.test(
                prev,
            ) || KindSet::AnyKw.test(prev))
        } else if KindSet::BinaryOp.test(prev) {
            c.space_around_binary_ops
        } else if next == TokenKind::Colon {
            self.depth.ternaries > 0
        } else if prev == TokenKind::Colon || KindSet::AnyKw.test(prev) || KindSet::AnyKw.test(
            next,
        ) {
            true
        } else if cast {
            c.space_after_cast.wants(self.src_space)
        } else {
            true
        }
    }

    /// Whether a space is emitted before `next`.
    pub(crate) fn needs_space(&self, config: &Config, next: TokenKind) -> (r: bool)
        ensures
            r == self@.needs_space(*config, next),
    {
        if self.marks.after_operator && next != TokenKind::KwNew && next != TokenKind::KwDelete {
            return false;
        }
        match self.marks.prev {
            Some(prev) => self.space_between(&config.spacing, prev, next),
            None => false,
        }
    }
}

} // verus!
