//! Tokens and the classes of token kinds that the passes tell apart.

use vstd::prelude::*;

verus! {

/// Where a token stands in the source. A token that the source does not hold
/// has an all-zero span; source lines are counted from one.
#[derive(Debug, Clone, Copy, PartialEq, Eq, Structural)]
pub struct Span {
    pub start_byte: usize,
    pub end_byte: usize,
    pub line: u32,
    pub col: u32,
}

#[derive(Debug, Clone, Copy, PartialEq, Eq, Structural)]
pub enum TokenKind {
    // Layout and pass-through tokens
    Whitespace,
    Newline,
    CommentLine,
    CommentBlock,
    PreprocLine,
    Eof,
    Unknown,
    // Names and literals
    Ident,
    LitInt,
    LitFloat,
    LitStr,
    LitChar,
    // Brackets and punctuation
    LBrace,
    RBrace,
    LParen,
    RParen,
    LBracket,
    RBracket,
    Semi,
    Comma,
    Colon,
    ColonColon,
    Question,
    Dot,
    DotStar,
    DotDotDot,
    Arrow,
    ArrowStar,
    Tilde,
    Bang,
    // Operators
    Plus,
    Minus,
    Star,
    Slash,
    Percent,
    Amp,
    Pipe,
    Caret,
    LtLt,
    GtGt,
    Lt,
    Gt,
    LtEq,
    GtEq,
    EqEq,
    BangEq,
    AmpAmp,
    PipePipe,
    Eq,
    PlusEq,
    MinusEq,
    StarEq,
    SlashEq,
    PercentEq,
    AmpEq,
    PipeEq,
    CaretEq,
    LtLtEq,
    GtGtEq,
    PlusPlus,
    MinusMinus,
    // Keywords
    KwIf,
    KwElse,
    KwFor,
    KwWhile,
    KwDo,
    KwSwitch,
    KwCase,
    KwDefault,
    KwReturn,
    KwBreak,
    KwContinue,
    KwGoto,
    KwThrow,
    KwTry,
    KwCatch,
    KwNamespace,
    KwStruct,
    KwClass,
    KwUnion,
    KwEnum,
    KwTypename,
    KwTypedef,
    KwTemplate,
    KwUsing,
    KwPublic,
    KwPrivate,
    KwProtected,
    KwNew,
    KwDelete,
    /// Any other reserved word: built-in types, qualifiers, storage classes,
    /// `sizeof`, `operator`, …
    Keyword,
}

/// A token: its kind, its text and its place in the source.
#[derive(Debug, Clone, Copy)]
pub struct Token<'src> {
    pub kind: TokenKind,
    pub lexeme: &'src str,
    pub span: Span,
}

/// A set of token kinds that a pass treats alike.
#[derive(Debug, Clone, Copy, PartialEq, Eq, Structural)]
pub enum KindSet {
    /// Blanks within a line.
    Blank,
    /// Blanks and line ends.
    Layout,
    /// Layout and comments.
    LayoutOrComment,
    /// Layout, comments and preprocessor lines.
    Trivia,
    /// Layout and pointer or reference operators.
    LayoutOrStar,
    /// Layout and words that can open a declaration.
    LayoutOrDecl,
    /// Layout, `::` and `~`: the joints of a qualified name.
    LayoutOrScope,
    /// What can stand between a leading name and the name it declares.
    Declarator,
    /// Everything but braces and line ends: the inside of a flat initializer.
    FlatInit,
    /// A comment or a preprocessor line.
    CommentOrPreproc,
    /// A comment.
    Comment,
    /// An operator that takes operands on both sides.
    BinaryOp,
    /// An assignment operator.
    Assign,
    /// A keyword whose head stands in parentheses.
    ControlKw,
    /// A token that can end an expression.
    EndsExpr,
    /// A reserved word.
    AnyKw,
    /// A word that can open a declaration.
    DeclStart,
    /// `class`, `struct`, `union` or `enum`.
    TypeKw,
    /// A token that introduces a type, so that a `*` behind it declares.
    PtrIntro,
    /// A token before `name *` that makes the `*` a multiplication.
    ExprLead,
    /// A token before `(name *` that makes the `*` a multiplication.
    GroupLead,
    /// A token before `name(` that makes it a call.
    CallLead,
    /// A token behind which a statement begins.
    StmtLead,
    /// An opening bracket of any kind.
    Opening,
    /// A closing bracket of any kind.
    Closing,
    /// What can stand between a control keyword and the `(` of its head.
    HeadWord,
    /// Everything but `?`, `;` and braces.
    WithinChoice,
    /// Member access and scope resolution.
    Access,
    /// What a template argument list can hold besides angle brackets.
    TemplateArg,
    /// A symbol that `operator` can be followed by, besides binary operators.
    OverloadSymbol,
    /// What can follow the name in a declaration.
    DeclEnd,
    /// What can stand before a statement that begins with a macro call.
    StmtBoundary,
    /// A keyword whose parenthesised head is followed by a block.
    BlockHead,
    /// A token that is never preceded by an ordinary space.
    Closer,
}

impl KindSet {
    /// Whether the set holds the kind.
    pub open spec fn has(self, k: TokenKind) -> bool {
        match self {
            KindSet::Blank => matches!(k, TokenKind::Whitespace),
            KindSet::Layout => matches!(k, TokenKind::Whitespace | TokenKind::Newline),
            KindSet::LayoutOrComment => matches!(
                k,
                TokenKind::Whitespace | TokenKind::Newline | TokenKind::CommentBlock
                    | TokenKind::CommentLine
            ),
            KindSet::Trivia => matches!(
                k,
                TokenKind::Whitespace | TokenKind::Newline | TokenKind::CommentBlock
                    | TokenKind::CommentLine | TokenKind::PreprocLine
            ),
            KindSet::LayoutOrStar => matches!(
                k,
                TokenKind::Whitespace | TokenKind::Newline | TokenKind::Star | TokenKind::Amp
            ),
            KindSet::LayoutOrDecl => matches!(
                k,
                TokenKind::Whitespace | TokenKind::Newline | TokenKind::Keyword
                    | TokenKind::KwStruct | TokenKind::KwClass | TokenKind::KwUnion
                    | TokenKind::KwEnum | TokenKind::KwTypename | TokenKind::KwTypedef
            ),
            KindSet::LayoutOrScope => matches!(
                k,
                TokenKind::Whitespace | TokenKind::Newline | TokenKind::ColonColon
                    | TokenKind::Tilde
            ),
            KindSet::Declarator => matches!(
                k,
                TokenKind::Whitespace | TokenKind::Star | TokenKind::Amp | TokenKind::Keyword
                    | TokenKind::KwStruct | TokenKind::KwClass | TokenKind::KwUnion
                    | TokenKind::KwEnum | TokenKind::KwTypename
            ),
            KindSet::FlatInit => !matches!(
                k,
                TokenKind::LBrace | TokenKind::RBrace | TokenKind::Newline
            ),
            KindSet::CommentOrPreproc => matches!(
                k,
                TokenKind::CommentBlock | TokenKind::CommentLine | TokenKind::PreprocLine
            ),
            KindSet::Comment => matches!(k, TokenKind::CommentBlock | TokenKind::CommentLine),
            KindSet::BinaryOp => matches!(
                k,
                TokenKind::Plus | TokenKind::Minus | TokenKind::Star | TokenKind::Slash
                    | TokenKind::Percent | TokenKind::Amp | TokenKind::Pipe | TokenKind::Caret
                    | TokenKind::LtLt | TokenKind::GtGt | TokenKind::Lt | TokenKind::Gt
                    | TokenKind::LtEq | TokenKind::GtEq | TokenKind::EqEq | TokenKind::BangEq
                    | TokenKind::AmpAmp | TokenKind::PipePipe | TokenKind::Question
                    | TokenKind::Eq | TokenKind::PlusEq | TokenKind::MinusEq
                    | TokenKind::StarEq | TokenKind::SlashEq | TokenKind::PercentEq
                    | TokenKind::AmpEq | TokenKind::PipeEq | TokenKind::CaretEq
                    | TokenKind::LtLtEq | TokenKind::GtGtEq
            ),
            KindSet::Assign => matches!(
                k,
                TokenKind::Eq | TokenKind::PlusEq | TokenKind::MinusEq | TokenKind::StarEq
                    | TokenKind::SlashEq | TokenKind::PercentEq | TokenKind::AmpEq
                    | TokenKind::PipeEq | TokenKind::CaretEq | TokenKind::LtLtEq
                    | TokenKind::GtGtEq
            ),
            KindSet::ControlKw => matches!(
                k,
                TokenKind::KwIf | TokenKind::KwFor | TokenKind::KwWhile | TokenKind::KwSwitch
                    | TokenKind::KwCatch
            ),
            KindSet::EndsExpr => matches!(
                k,
                TokenKind::Ident | TokenKind::LitInt | TokenKind::LitFloat | TokenKind::LitStr
                    | TokenKind::LitChar | TokenKind::RParen | TokenKind::RBracket
                    | TokenKind::RBrace | TokenKind::PlusPlus | TokenKind::MinusMinus
                    | TokenKind::CommentBlock
            ),
            KindSet::AnyKw => matches!(
                k,
                TokenKind::KwIf | TokenKind::KwElse | TokenKind::KwFor | TokenKind::KwWhile
                    | TokenKind::KwDo | TokenKind::KwSwitch | TokenKind::KwCase
                    | TokenKind::KwDefault | TokenKind::KwReturn | TokenKind::KwBreak
                    | TokenKind::KwContinue | TokenKind::KwGoto | TokenKind::KwThrow
                    | TokenKind::KwTry | TokenKind::KwCatch | TokenKind::KwNamespace
                    | TokenKind::KwStruct | TokenKind::KwClass | TokenKind::KwUnion
                    | TokenKind::KwEnum | TokenKind::KwTypename | TokenKind::KwTypedef
                    | TokenKind::KwTemplate | TokenKind::KwUsing | TokenKind::KwPublic
                    | TokenKind::KwPrivate | TokenKind::KwProtected | TokenKind::KwNew
                    | TokenKind::KwDelete | TokenKind::Keyword
            ),
            KindSet::DeclStart => matches!(
                k,
                TokenKind::Keyword | TokenKind::KwStruct | TokenKind::KwClass
                    | TokenKind::KwUnion | TokenKind::KwEnum | TokenKind::KwTypename
                    | TokenKind::KwTypedef
            ),
            KindSet::TypeKw => matches!(
                k,
                TokenKind::KwStruct | TokenKind::KwClass | TokenKind::KwUnion
                    | TokenKind::KwEnum
            ),
            KindSet::PtrIntro => matches!(
                k,
                TokenKind::Keyword | TokenKind::KwStruct | TokenKind::KwClass
                    | TokenKind::KwUnion | TokenKind::KwEnum | TokenKind::KwTypename
                    | TokenKind::Star | TokenKind::Amp | TokenKind::Gt
            ),
            KindSet::ExprLead => matches!(
                k,
                TokenKind::Eq | TokenKind::Plus | TokenKind::Minus | TokenKind::Slash
                    | TokenKind::Percent | TokenKind::Pipe | TokenKind::Caret
                    | TokenKind::LtLt | TokenKind::GtGt | TokenKind::EqEq | TokenKind::BangEq
                    | TokenKind::Lt | TokenKind::LtEq | TokenKind::GtEq | TokenKind::AmpAmp
                    | TokenKind::PipePipe | TokenKind::PlusEq | TokenKind::MinusEq
                    | TokenKind::StarEq | TokenKind::SlashEq | TokenKind::PercentEq
                    | TokenKind::AmpEq | TokenKind::PipeEq | TokenKind::CaretEq
                    | TokenKind::LtLtEq | TokenKind::GtGtEq | TokenKind::Question
                    | TokenKind::Arrow | TokenKind::Dot | TokenKind::ArrowStar
                    | TokenKind::DotStar | TokenKind::KwReturn | TokenKind::KwCase
                    | TokenKind::KwThrow
            ),
            KindSet::GroupLead => matches!(
                k,
                TokenKind::Eq | TokenKind::Plus | TokenKind::Minus | TokenKind::Slash
                    | TokenKind::Percent | TokenKind::Pipe | TokenKind::Caret
                    | TokenKind::LtLt | TokenKind::GtGt | TokenKind::EqEq | TokenKind::BangEq
                    | TokenKind::Lt | TokenKind::LtEq | TokenKind::GtEq | TokenKind::AmpAmp
                    | TokenKind::PipePipe | TokenKind::PlusEq | TokenKind::MinusEq
                    | TokenKind::StarEq | TokenKind::SlashEq | TokenKind::PercentEq
                    | TokenKind::AmpEq | TokenKind::PipeEq | TokenKind::CaretEq
                    | TokenKind::LtLtEq | TokenKind::GtGtEq | TokenKind::Comma
                    | TokenKind::LParen | TokenKind::Bang | TokenKind::Tilde | TokenKind::KwIf
                    | TokenKind::KwWhile | TokenKind::KwFor | TokenKind::KwSwitch
                    | TokenKind::KwReturn | TokenKind::KwCase | TokenKind::KwThrow
            ),
            KindSet::CallLead => matches!(
                k,
                TokenKind::Eq | TokenKind::Plus | TokenKind::Minus | TokenKind::Slash
                    | TokenKind::Percent | TokenKind::Pipe | TokenKind::Caret
                    | TokenKind::LtLt | TokenKind::GtGt | TokenKind::EqEq | TokenKind::BangEq
                    | TokenKind::Lt | TokenKind::LtEq | TokenKind::GtEq | TokenKind::AmpAmp
                    | TokenKind::PipePipe | TokenKind::PlusEq | TokenKind::MinusEq
                    | TokenKind::StarEq | TokenKind::SlashEq | TokenKind::PercentEq
                    | TokenKind::AmpEq | TokenKind::PipeEq | TokenKind::CaretEq
                    | TokenKind::LtLtEq | TokenKind::GtGtEq | TokenKind::Question
                    | TokenKind::Arrow | TokenKind::Dot | TokenKind::ArrowStar
                    | TokenKind::DotStar | TokenKind::KwReturn | TokenKind::KwCase
                    | TokenKind::KwThrow
                    | TokenKind::Bang | TokenKind::Tilde | TokenKind::PlusPlus
                    | TokenKind::MinusMinus | TokenKind::KwNew | TokenKind::KwDelete
                    | TokenKind::KwIf
            ),
            KindSet::StmtLead => matches!(
                k,
                TokenKind::Semi | TokenKind::LBrace | TokenKind::RBrace | TokenKind::RParen
                    | TokenKind::Colon | TokenKind::PreprocLine | TokenKind::KwElse
                    | TokenKind::KwDo
            ),
            KindSet::Opening => matches!(
                k,
                TokenKind::LParen | TokenKind::LBracket | TokenKind::LBrace
            ),
            KindSet::Closing => matches!(
                k,
                TokenKind::RParen | TokenKind::RBracket | TokenKind::RBrace
            ),
            KindSet::HeadWord => matches!(
                k,
                TokenKind::Whitespace | TokenKind::Newline | TokenKind::CommentBlock
                    | TokenKind::CommentLine | TokenKind::Keyword | TokenKind::Bang
                    | TokenKind::Ident
            ),
            KindSet::WithinChoice => !matches!(
                k,
                TokenKind::Question | TokenKind::Semi | TokenKind::LBrace | TokenKind::RBrace
            ),
            KindSet::Access => matches!(
                k,
                TokenKind::Dot | TokenKind::Arrow | TokenKind::DotStar | TokenKind::ArrowStar
                    | TokenKind::ColonColon
            ),
            KindSet::TemplateArg => matches!(
                k,
                TokenKind::Ident | TokenKind::Keyword | TokenKind::KwStruct
                    | TokenKind::KwClass | TokenKind::KwUnion | TokenKind::KwEnum
                    | TokenKind::KwTemplate | TokenKind::KwTypename | TokenKind::KwUsing
                    | TokenKind::ColonColon | TokenKind::Star | TokenKind::Amp
                    | TokenKind::Comma | TokenKind::LitInt | TokenKind::LitFloat
                    | TokenKind::DotDotDot
            ),
            KindSet::OverloadSymbol => matches!(
                k,
                TokenKind::PlusPlus | TokenKind::MinusMinus | TokenKind::Bang
                    | TokenKind::Tilde | TokenKind::LParen | TokenKind::LBracket
            ),
            KindSet::DeclEnd => matches!(
                k,
                TokenKind::Semi | TokenKind::Comma | TokenKind::RParen | TokenKind::Eq
                    | TokenKind::LBracket | TokenKind::LBrace | TokenKind::LParen
            ),
            KindSet::StmtBoundary => matches!(
                k,
                TokenKind::Semi | TokenKind::LBrace | TokenKind::RBrace
                    | TokenKind::PreprocLine
            ),
            KindSet::BlockHead => matches!(
                k,
                TokenKind::KwIf | TokenKind::KwWhile | TokenKind::KwFor | TokenKind::KwSwitch
            ),
            KindSet::Closer => matches!(
                k,
                TokenKind::Semi | TokenKind::Comma | TokenKind::RParen | TokenKind::RBracket
                    | TokenKind::RBrace | TokenKind::DotDotDot
            ),
        }
    }

    pub(crate) fn test(self, k: TokenKind) -> (r: bool)
        ensures
            r == self.has(k),
    {
        match self {
            KindSet::Blank => matches!(k, TokenKind::Whitespace),
            KindSet::Layout => matches!(k, TokenKind::Whitespace | TokenKind::Newline),
            KindSet::LayoutOrComment => matches!(
                k,
                TokenKind::Whitespace | TokenKind::Newline | TokenKind::CommentBlock
                    | TokenKind::CommentLine
            ),
            KindSet::Trivia => matches!(
                k,
                TokenKind::Whitespace | TokenKind::Newline | TokenKind::CommentBlock
                    | TokenKind::CommentLine | TokenKind::PreprocLine
            ),
            KindSet::LayoutOrStar => matches!(
                k,
                TokenKind::Whitespace | TokenKind::Newline | TokenKind::Star | TokenKind::Amp
            ),
            KindSet::LayoutOrDecl => matches!(
                k,
                TokenKind::Whitespace | TokenKind::Newline | TokenKind::Keyword
                    | TokenKind::KwStruct | TokenKind::KwClass | TokenKind::KwUnion
                    | TokenKind::KwEnum | TokenKind::KwTypename | TokenKind::KwTypedef
            ),
            KindSet::LayoutOrScope => matches!(
                k,
                TokenKind::Whitespace | TokenKind::Newline | TokenKind::ColonColon
                    | TokenKind::Tilde
            ),
            KindSet::Declarator => matches!(
                k,
                TokenKind::Whitespace | TokenKind::Star | TokenKind::Amp | TokenKind::Keyword
                    | TokenKind::KwStruct | TokenKind::KwClass | TokenKind::KwUnion
                    | TokenKind::KwEnum | TokenKind::KwTypename
            ),
            KindSet::FlatInit => !matches!(
                k,
                TokenKind::LBrace | TokenKind::RBrace | TokenKind::Newline
            ),
            KindSet::CommentOrPreproc => matches!(
                k,
                TokenKind::CommentBlock | TokenKind::CommentLine | TokenKind::PreprocLine
            ),
            KindSet::Comment => matches!(k, TokenKind::CommentBlock | TokenKind::CommentLine),
            KindSet::BinaryOp => matches!(
                k,
                TokenKind::Plus | TokenKind::Minus | TokenKind::Star | TokenKind::Slash
                    | TokenKind::Percent | TokenKind::Amp | TokenKind::Pipe | TokenKind::Caret
                    | TokenKind::LtLt | TokenKind::GtGt | TokenKind::Lt | TokenKind::Gt
                    | TokenKind::LtEq | TokenKind::GtEq | TokenKind::EqEq | TokenKind::BangEq
                    | TokenKind::AmpAmp | TokenKind::PipePipe | TokenKind::Question
                    | TokenKind::Eq | TokenKind::PlusEq | TokenKind::MinusEq
                    | TokenKind::StarEq | TokenKind::SlashEq | TokenKind::PercentEq
                    | TokenKind::AmpEq | TokenKind::PipeEq | TokenKind::CaretEq
                    | TokenKind::LtLtEq | TokenKind::GtGtEq
            ),
            KindSet::Assign => matches!(
                k,
                TokenKind::Eq | TokenKind::PlusEq | TokenKind::MinusEq | TokenKind::StarEq
                    | TokenKind::SlashEq | TokenKind::PercentEq | TokenKind::AmpEq
                    | TokenKind::PipeEq | TokenKind::CaretEq | TokenKind::LtLtEq
                    | TokenKind::GtGtEq
            ),
            KindSet::ControlKw => matches!(
                k,
                TokenKind::KwIf | TokenKind::KwFor | TokenKind::KwWhile | TokenKind::KwSwitch
                    | TokenKind::KwCatch
            ),
            KindSet::EndsExpr => matches!(
                k,
                TokenKind::Ident | TokenKind::LitInt | TokenKind::LitFloat | TokenKind::LitStr
                    | TokenKind::LitChar | TokenKind::RParen | TokenKind::RBracket
                    | TokenKind::RBrace | TokenKind::PlusPlus | TokenKind::MinusMinus
                    | TokenKind::CommentBlock
            ),
            KindSet::AnyKw => matches!(
                k,
                TokenKind::KwIf | TokenKind::KwElse | TokenKind::KwFor | TokenKind::KwWhile
                    | TokenKind::KwDo | TokenKind::KwSwitch | TokenKind::KwCase
                    | TokenKind::KwDefault | TokenKind::KwReturn | TokenKind::KwBreak
                    | TokenKind::KwContinue | TokenKind::KwGoto | TokenKind::KwThrow
                    | TokenKind::KwTry | TokenKind::KwCatch | TokenKind::KwNamespace
                    | TokenKind::KwStruct | TokenKind::KwClass | TokenKind::KwUnion
                    | TokenKind::KwEnum | TokenKind::KwTypename | TokenKind::KwTypedef
                    | TokenKind::KwTemplate | TokenKind::KwUsing | TokenKind::KwPublic
                    | TokenKind::KwPrivate | TokenKind::KwProtected | TokenKind::KwNew
                    | TokenKind::KwDelete | TokenKind::Keyword
            ),
            KindSet::DeclStart => matches!(
                k,
                TokenKind::Keyword | TokenKind::KwStruct | TokenKind::KwClass
                    | TokenKind::KwUnion | TokenKind::KwEnum | TokenKind::KwTypename
                    | TokenKind::KwTypedef
            ),
            KindSet::TypeKw => matches!(
                k,
                TokenKind::KwStruct | TokenKind::KwClass | TokenKind::KwUnion
                    | TokenKind::KwEnum
            ),
            KindSet::PtrIntro => matches!(
                k,
                TokenKind::Keyword | TokenKind::KwStruct | TokenKind::KwClass
                    | TokenKind::KwUnion | TokenKind::KwEnum | TokenKind::KwTypename
                    | TokenKind::Star | TokenKind::Amp | TokenKind::Gt
            ),
            KindSet::ExprLead => matches!(
                k,
                TokenKind::Eq | TokenKind::Plus | TokenKind::Minus | TokenKind::Slash
                    | TokenKind::Percent | TokenKind::Pipe | TokenKind::Caret
                    | TokenKind::LtLt | TokenKind::GtGt | TokenKind::EqEq | TokenKind::BangEq
                    | TokenKind::Lt | TokenKind::LtEq | TokenKind::GtEq | TokenKind::AmpAmp
                    | TokenKind::PipePipe | TokenKind::PlusEq | TokenKind::MinusEq
                    | TokenKind::StarEq | TokenKind::SlashEq | TokenKind::PercentEq
                    | TokenKind::AmpEq | TokenKind::PipeEq | TokenKind::CaretEq
                    | TokenKind::LtLtEq | TokenKind::GtGtEq | TokenKind::Question
                    | TokenKind::Arrow | TokenKind::Dot | TokenKind::ArrowStar
                    | TokenKind::DotStar | TokenKind::KwReturn | TokenKind::KwCase
                    | TokenKind::KwThrow
            ),
            KindSet::GroupLead => matches!(
                k,
                TokenKind::Eq | TokenKind::Plus | TokenKind::Minus | TokenKind::Slash
                    | TokenKind::Percent | TokenKind::Pipe | TokenKind::Caret
                    | TokenKind::LtLt | TokenKind::GtGt | TokenKind::EqEq | TokenKind::BangEq
                    | TokenKind::Lt | TokenKind::LtEq | TokenKind::GtEq | TokenKind::AmpAmp
                    | TokenKind::PipePipe | TokenKind::PlusEq | TokenKind::MinusEq
                    | TokenKind::StarEq | TokenKind::SlashEq | TokenKind::PercentEq
                    | TokenKind::AmpEq | TokenKind::PipeEq | TokenKind::CaretEq
                    | TokenKind::LtLtEq | TokenKind::GtGtEq | TokenKind::Comma
                    | TokenKind::LParen | TokenKind::Bang | TokenKind::Tilde | TokenKind::KwIf
                    | TokenKind::KwWhile | TokenKind::KwFor | TokenKind::KwSwitch
                    | TokenKind::KwReturn | TokenKind::KwCase | TokenKind::KwThrow
            ),
            KindSet::CallLead => matches!(
                k,
                TokenKind::Eq | TokenKind::Plus | TokenKind::Minus | TokenKind::Slash
                    | TokenKind::Percent | TokenKind::Pipe | TokenKind::Caret
                    | TokenKind::LtLt | TokenKind::GtGt | TokenKind::EqEq | TokenKind::BangEq
                    | TokenKind::Lt | TokenKind::LtEq | TokenKind::GtEq | TokenKind::AmpAmp
                    | TokenKind::PipePipe | TokenKind::PlusEq | TokenKind::MinusEq
                    | TokenKind::StarEq | TokenKind::SlashEq | TokenKind::PercentEq
                    | TokenKind::AmpEq | TokenKind::PipeEq | TokenKind::CaretEq
                    | TokenKind::LtLtEq | TokenKind::GtGtEq | TokenKind::Question
                    | TokenKind::Arrow | TokenKind::Dot | TokenKind::ArrowStar
                    | TokenKind::DotStar | TokenKind::KwReturn | TokenKind::KwCase
                    | TokenKind::KwThrow
                    | TokenKind::Bang | TokenKind::Tilde | TokenKind::PlusPlus
                    | TokenKind::MinusMinus | TokenKind::KwNew | TokenKind::KwDelete
                    | TokenKind::KwIf
            ),
            KindSet::StmtLead => matches!(
                k,
                TokenKind::Semi | TokenKind::LBrace | TokenKind::RBrace | TokenKind::RParen
                    | TokenKind::Colon | TokenKind::PreprocLine | TokenKind::KwElse
                    | TokenKind::KwDo
            ),
            KindSet::Opening => matches!(
                k,
                TokenKind::LParen | TokenKind::LBracket | TokenKind::LBrace
            ),
            KindSet::Closing => matches!(
                k,
                TokenKind::RParen | TokenKind::RBracket | TokenKind::RBrace
            ),
            KindSet::HeadWord => matches!(
                k,
                TokenKind::Whitespace | TokenKind::Newline | TokenKind::CommentBlock
                    | TokenKind::CommentLine | TokenKind::Keyword | TokenKind::Bang
                    | TokenKind::Ident
            ),
            KindSet::WithinChoice => !matches!(
                k,
                TokenKind::Question | TokenKind::Semi | TokenKind::LBrace | TokenKind::RBrace
            ),
            KindSet::Access => matches!(
                k,
                TokenKind::Dot | TokenKind::Arrow | TokenKind::DotStar | TokenKind::ArrowStar
                    | TokenKind::ColonColon
            ),
            KindSet::TemplateArg => matches!(
                k,
                TokenKind::Ident | TokenKind::Keyword | TokenKind::KwStruct
                    | TokenKind::KwClass | TokenKind::KwUnion | TokenKind::KwEnum
                    | TokenKind::KwTemplate | TokenKind::KwTypename | TokenKind::KwUsing
                    | TokenKind::ColonColon | TokenKind::Star | TokenKind::Amp
                    | TokenKind::Comma | TokenKind::LitInt | TokenKind::LitFloat
                    | TokenKind::DotDotDot
            ),
            KindSet::OverloadSymbol => matches!(
                k,
                TokenKind::PlusPlus | TokenKind::MinusMinus | TokenKind::Bang
                    | TokenKind::Tilde | TokenKind::LParen | TokenKind::LBracket
            ),
            KindSet::DeclEnd => matches!(
                k,
                TokenKind::Semi | TokenKind::Comma | TokenKind::RParen | TokenKind::Eq
                    | TokenKind::LBracket | TokenKind::LBrace | TokenKind::LParen
            ),
            KindSet::StmtBoundary => matches!(
                k,
                TokenKind::Semi | TokenKind::LBrace | TokenKind::RBrace
                    | TokenKind::PreprocLine
            ),
            KindSet::BlockHead => matches!(
                k,
                TokenKind::KwIf | TokenKind::KwWhile | TokenKind::KwFor | TokenKind::KwSwitch
            ),
            KindSet::Closer => matches!(
                k,
                TokenKind::Semi | TokenKind::Comma | TokenKind::RParen | TokenKind::RBracket
                    | TokenKind::RBrace | TokenKind::DotDotDot
            ),
        }
    }
}

} // verus!
