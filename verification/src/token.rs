//! Lexical tokens and their source regions.

use vstd::prelude::*;

use crate::ast::{BinOp, Lit, UnOp};
use crate::interner::Symbol;
use crate::region::Region;

verus! {

/// A lexical token together with the region of text it was read from.
#[derive(Debug, Clone, Copy, PartialEq, Eq, Structural)]
pub struct Token {
    pub kind: TokenKind,
    pub region: Region,
}

/// The kinds of lexical tokens.
#[derive(Debug, Clone, Copy, PartialEq, Eq, Structural)]
pub enum TokenKind {
    // key / reserved words
    Func,
    Extern,
    Var,
    If,
    Else,
    While,
    Ret,
    Impt,
    Expt,
    Ident(Symbol),
    Literal(Lit),
    /// `(`
    OpenParen,
    /// `)`
    CloseParen,
    /// `{`
    OpenBrace,
    /// `}`
    CloseBrace,
    /// `,`
    Comma,
    /// `:`
    Colon,
    /// `;`
    Semicolon,
    /// `+`
    Plus,
    /// `-`
    Minus,
    /// `/`
    Slash,
    /// `*`
    Star,
    /// `=`
    Equal,
    /// `==`
    DoubleEqual,
    /// `%`
    Percent,
    /// `>`
    Gt,
    /// `>=`
    Ge,
    /// `<`
    Lt,
    /// `<=`
    Le,
    /// `.`
    Dot,
    /// `&`
    Ampersand,
    /// `&&`
    DoubleAmpersand,
    /// `|`
    Bar,
    /// `||`
    DoubleBar,
    /// `!`
    Bang,
    /// `!=`
    BangEqual,
    Eof,
}

/// The binary operator a token stands for, if any.
pub open spec fn spec_to_bin_op(kind: TokenKind) -> Option<BinOp> {
    match kind {
        TokenKind::Plus => Some(BinOp::Add),
        TokenKind::Minus => Some(BinOp::Sub),
        TokenKind::Slash => Some(BinOp::Div),
        TokenKind::Star => Some(BinOp::Mul),
        TokenKind::BangEqual => Some(BinOp::Ne),
        TokenKind::DoubleEqual => Some(BinOp::Eq),
        TokenKind::Percent => Some(BinOp::Mod),
        TokenKind::Gt => Some(BinOp::Gt),
        TokenKind::Ge => Some(BinOp::Ge),
        TokenKind::Lt => Some(BinOp::Lt),
        TokenKind::Le => Some(BinOp::Le),
        TokenKind::DoubleAmpersand => Some(BinOp::And),
        TokenKind::DoubleBar => Some(BinOp::Or),
        _ => None,
    }
}

/// The unary operator a token stands for, if any.
pub open spec fn spec_to_unary_op(kind: TokenKind) -> Option<UnOp> {
    match kind {
        TokenKind::Bang => Some(UnOp::Not),
        TokenKind::Minus => Some(UnOp::Neg),
        _ => None,
    }
}

impl Token {
    pub fn new(kind: TokenKind, region: Region) -> (r: Token)
        ensures
            r == (Token { kind, region }),
    {
        Token { kind, region }
    }

    /// Convert a lexical token to its corresponding binary operator.
    pub fn to_bin_op(&self) -> (r: Option<BinOp>)
        ensures
            r == spec_to_bin_op(self.kind),
    {
        match self.kind {
            TokenKind::Plus => Some(BinOp::Add),
            TokenKind::Minus => Some(BinOp::Sub),
            TokenKind::Slash => Some(BinOp::Div),
            TokenKind::Star => Some(BinOp::Mul),
            TokenKind::BangEqual => Some(BinOp::Ne),
            TokenKind::DoubleEqual => Some(BinOp::Eq),
            TokenKind::Percent => Some(BinOp::Mod),
            TokenKind::Gt => Some(BinOp::Gt),
            TokenKind::Ge => Some(BinOp::Ge),
            TokenKind::Lt => Some(BinOp::Lt),
            TokenKind::Le => Some(BinOp::Le),
            TokenKind::DoubleAmpersand => Some(BinOp::And),
            TokenKind::DoubleBar => Some(BinOp::Or),
            _ => None,
        }
    }

    /// Convert a lexical token to its corresponding unary operator.
    pub fn to_unary_op(&self) -> (r: Option<UnOp>)
        ensures
            r == spec_to_unary_op(self.kind),
    {
        match self.kind {
            TokenKind::Bang => Some(UnOp::Not),
            TokenKind::Minus => Some(UnOp::Neg),
            _ => None,
        }
    }

    /// The union of this token's region with the given expression's.
    pub fn to(&self, end: &crate::ast::Expr) -> (r: Region)
        requires
            self.region.wf(),
            end.region.wf(),
        ensures
            r == self.region.spec_to(end.region),
            r.wf(),
    {
        self.region.to(end.region)
    }
}

} // verus!
