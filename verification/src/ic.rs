//! Three-address intermediate code: a linear IR where each instruction
//! computes at most one operation, with at most two source operands
//! and one destination.

use vstd::prelude::*;

use crate::ast::BinOp;
use crate::interner::{Interner, Symbol};

verus! {

/// One three-address instruction.
#[derive(Debug, Clone, Copy, PartialEq, Eq, Structural)]
pub enum Instruction {
    /// ex. `_L0:`
    Label(Symbol),
    /// ex. `_t0 := 4`
    Assign(Symbol, Expr),
    /// ex. `goto _L1`
    Goto(Symbol),
    /// if-zero: ex. `ifz _t0 goto _L0`
    Ifz(Primary, Symbol),
    /// ex. `arg x`
    Arg(Primary),
    /// ex. `ret x`
    Ret(Option<Primary>),
}

impl Instruction {
    /// Returns `true` if the instruction is [`Instruction::Ifz`].
    pub fn is_ifz(&self) -> (r: bool)
        ensures
            r == (self is Ifz),
    {
        matches!(self, Instruction::Ifz(..))
    }

    /// Returns `true` if the instruction is [`Instruction::Label`].
    pub fn is_label(&self) -> (r: bool)
        ensures
            r == (self is Label),
    {
        matches!(self, Instruction::Label(..))
    }
}

/// An atomic operand: a constant or a variable.
#[derive(Debug, Clone, Copy, Hash, PartialEq, Eq, Structural)]
pub enum Primary {
    Const(ConstKind),
    Var(Symbol),
}

/// A constant operand.
#[derive(Debug, Clone, Copy, Hash, PartialEq, Eq, Structural)]
pub enum ConstKind {
    Int(i64),
    Str(Symbol),
}

/// The right-hand side of an assignment.
#[derive(Debug, Clone, Copy, Hash, PartialEq, Eq, Structural)]
pub enum Expr {
    Call(Symbol),
    Binary(BinOp, Primary, Primary),
    Primary(Primary),
}

/// A jump target's name.
#[derive(Debug, Clone, Copy, PartialEq, Eq, Structural)]
pub struct Label(pub Symbol);

impl Label {
    pub fn new(name: Symbol) -> (r: Label)
        ensures
            r == Label(name),
    {
        Label(name)
    }

    /// Intern a label's text and wrap its handle.
    pub fn from_str(s: &str, interner: &mut Interner) -> (r: Label)
        requires
            old(interner)@.len() < u32::MAX,
        ensures
            final(interner).intern_post(*old(interner), s@, r.0),
    {
        Label(interner.intern(s))
    }
}

} // verus!
