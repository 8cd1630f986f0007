//! The code generator: lowers a scope-checked module into a flat,
//! ordered list of three-address instructions, assigning monotonically
//! increasing temporaries `_t{n}` and labels `_L{n}`, and finishes
//! with the local common-subexpression pass.

use vstd::prelude::*;

use crate::ast::{view_block, view_expr, view_expr_list, view_stmt, Expr, ExprKindV, ExprV, Lit, Stmt, StmtKindV, StmtV};
use crate::ast::{ExprKind, StmtKind};
use crate::ic;
use crate::ic::Instruction;
use crate::interner::{Interner, Symbol};
use crate::lexer::spec_intern;
use crate::text::spec_dec;

verus! {

/// The name of temporary variable number `n`: `_t{n}`.
pub open spec fn tmp_var_name(n: int) -> Seq<char> {
    seq!['_', 't'] + spec_dec(n)
}

/// The name of temporary label number `n`: `_L{n}`.
pub open spec fn tmp_label_name(n: int) -> Seq<char> {
    seq!['_', 'L'] + spec_dec(n)
}

/// The code generator's state as lowering progresses: the instructions
/// emitted so far, the two counters, and the interner contents.
pub struct GenState {
    pub instrs: Seq<Instruction>,
    pub tmp: int,
    pub lbl: int,
    pub names: Seq<Seq<char>>,
}

/// A fresh temporary-variable name, interned.
pub open spec fn fresh_var(st: GenState) -> (GenState, Symbol) {
    let (names2, s) = spec_intern(st.names, tmp_var_name(st.tmp));
    (
        GenState { instrs: st.instrs, tmp: st.tmp + 1, lbl: st.lbl, names: names2 },
        Symbol(s as u32),
    )
}

/// A fresh temporary-label name, interned.
pub open spec fn fresh_label(st: GenState) -> (GenState, Symbol) {
    let (names2, s) = spec_intern(st.names, tmp_label_name(st.lbl));
    (
        GenState { instrs: st.instrs, tmp: st.tmp, lbl: st.lbl + 1, names: names2 },
        Symbol(s as u32),
    )
}

/// Appending one instruction.
pub open spec fn emit(st: GenState, i: Instruction) -> GenState {
    GenState { instrs: st.instrs.push(i), tmp: st.tmp, lbl: st.lbl, names: st.names }
}

/// Whether an expression can be lowered, in a context that needs its
/// value (`need_value`) or not. Unary operators are not lowerable, and
/// a conditional produces no value.
pub open spec fn expr_ok(e: ExprV, need_value: bool) -> bool
    decreases e,
{
    match e.kind {
        ExprKindV::Lit(_) => true,
        ExprKindV::Variable(_) => true,
        ExprKindV::Unary(_, _) => false,
        ExprKindV::Binary(_, l, r) => expr_ok(*l, true) && expr_ok(*r, true),
        ExprKindV::Call(_, args) => expr_list_ok(args),
        ExprKindV::Cond(c, t, els) => !need_value && expr_ok(*c, true) && block_ok(t) && match els {
            Some(b) => block_ok(b),
            None => true,
        },
        ExprKindV::Assign(_, v) => expr_ok(*v, true),
    }
}

pub open spec fn expr_list_ok(args: Seq<ExprV>) -> bool
    decreases args,
{
    if args.len() == 0 {
        true
    } else {
        expr_ok(args[0], true) && expr_list_ok(args.subrange(1, args.len() as int))
    }
}

pub open spec fn stmt_ok(s: StmtV) -> bool
    decreases s,
{
    match s.kind {
        StmtKindV::Expr(e) => expr_ok(*e, false),
        StmtKindV::Ret(e) => expr_ok(*e, false),
        StmtKindV::Var(_, init) => expr_ok(*init, true),
        StmtKindV::Block(stmts) => block_ok(stmts),
        StmtKindV::Func(_, body) => block_ok(body),
        StmtKindV::Extern(_) => true,
        StmtKindV::Impt(_) => true,
    }
}

pub open spec fn block_ok(stmts: Seq<StmtV>) -> bool
    decreases stmts,
{
    if stmts.len() == 0 {
        true
    } else {
        stmt_ok(stmts[0]) && block_ok(stmts.subrange(1, stmts.len() as int))
    }
}

/// A bound on how many names lowering an expression may intern: twice
/// its node count.
pub open spec fn size_expr(e: ExprV) -> int
    decreases e,
{
    match e.kind {
        ExprKindV::Lit(_) => 1,
        ExprKindV::Variable(_) => 1,
        ExprKindV::Unary(_, inner) => 1 + size_expr(*inner),
        ExprKindV::Binary(_, l, r) => 1 + size_expr(*l) + size_expr(*r),
        ExprKindV::Call(_, args) => 1 + size_expr_list(args),
        ExprKindV::Cond(c, t, els) => 1 + size_expr(*c) + size_block(t) + match els {
            Some(b) => size_block(b),
            None => 0int,
        },
        ExprKindV::Assign(_, v) => 1 + size_expr(*v),
    }
}

pub open spec fn size_expr_list(args: Seq<ExprV>) -> int
    decreases args,
{
    if args.len() == 0 {
        0
    } else {
        size_expr(args[0]) + size_expr_list(args.subrange(1, args.len() as int))
    }
}

pub open spec fn size_stmt(s: StmtV) -> int
    decreases s,
{
    match s.kind {
        StmtKindV::Expr(e) => 1 + size_expr(*e),
        StmtKindV::Ret(e) => 1 + size_expr(*e),
        StmtKindV::Var(_, init) => 1 + size_expr(*init),
        StmtKindV::Block(stmts) => 1 + size_block(stmts),
        StmtKindV::Func(_, body) => 1 + size_block(body),
        StmtKindV::Extern(_) => 1,
        StmtKindV::Impt(_) => 1,
    }
}

pub open spec fn size_block(stmts: Seq<StmtV>) -> int
    decreases stmts,
{
    if stmts.len() == 0 {
        0
    } else {
        size_stmt(stmts[0]) + size_block(stmts.subrange(1, stmts.len() as int))
    }
}

/// Lowering an expression: the state afterwards and the name of the
/// temporary holding its value, or none for the statement-shaped
/// forms. Unary expressions are not lowerable and leave the state
/// unchanged; `expr_ok` rules them out.
pub open spec fn cg_expr(e: ExprV, st: GenState) -> (GenState, Option<Symbol>)
    decreases e, 1int,
{
    match e.kind {
        ExprKindV::Lit(lit) => {
            let (st1, t) = fresh_var(st);
            let c = match lit {
                Lit::Int(k) => ic::ConstKind::Int(k),
                Lit::Str(s) => ic::ConstKind::Str(s),
                Lit::Char(ch) => ic::ConstKind::Int((ch as u32) as i64),
            };
            (
                emit(st1, Instruction::Assign(t, ic::Expr::Primary(ic::Primary::Const(c)))),
                Some(t),
            )
        },
        ExprKindV::Variable(v) => {
            // copy through a temporary, so the optimizer can address
            // every value uniformly
            let (st1, t) = fresh_var(st);
            (
                emit(st1, Instruction::Assign(t, ic::Expr::Primary(ic::Primary::Var(v)))),
                Some(t),
            )
        },
        ExprKindV::Unary(_, _) => (st, None),
        ExprKindV::Binary(op, l, r) => {
            let (st1, r1) = cg_expr(*l, st);
            let (st2, r2) = cg_expr(*r, st1);
            match (r1, r2) {
                (Some(t1), Some(t2)) => {
                    let (st3, t) = fresh_var(st2);
                    (
                        emit(
                            st3,
                            Instruction::Assign(
                                t,
                                ic::Expr::Binary(op, ic::Primary::Var(t1), ic::Primary::Var(t2)),
                            ),
                        ),
                        Some(t),
                    )
                },
                _ => (st2, None),
            }
        },
        ExprKindV::Call(fn_name, args) => {
            let st1 = cg_args(args, st);
            let (st2, t) = fresh_var(st1);
            (emit(st2, Instruction::Assign(t, ic::Expr::Call(fn_name))), Some(t))
        },
        ExprKindV::Cond(c, then_block, else_block) => {
            let (st1, rc) = cg_expr(*c, st);
            match rc {
                None => (st1, None),
                Some(t) => {
                    let (st2, else_label) = fresh_label(st1);
                    let (st3, end_label) = fresh_label(st2);
                    let st4 = emit(st3, Instruction::Ifz(ic::Primary::Var(t), else_label));
                    let st5 = cg_block(then_block, st4);
                    let st6 = if else_block is Some {
                        emit(st5, Instruction::Goto(end_label))
                    } else {
                        st5
                    };
                    let st7 = emit(st6, Instruction::Label(else_label));
                    let st8 = match else_block {
                        Some(els) => emit(cg_block(els, st7), Instruction::Label(end_label)),
                        None => st7,
                    };
                    (st8, None)
                },
            }
        },
        ExprKindV::Assign(var_name, value) => {
            let (st1, rv) = cg_expr(*value, st);
            match rv {
                None => (st1, None),
                Some(t) => (
                    emit(
                        st1,
                        Instruction::Assign(var_name, ic::Expr::Primary(ic::Primary::Var(t))),
                    ),
                    Some(var_name),
                ),
            }
        },
    }
}

/// Lowering a call's arguments: each to a temporary, followed by its
/// `Arg` instruction, in left-to-right order.
pub open spec fn cg_args(args: Seq<ExprV>, st: GenState) -> GenState
    decreases args, 0int,
{
    if args.len() == 0 {
        st
    } else {
        let (st1, r) = cg_expr(args[0], st);
        let st2 = match r {
            Some(t) => emit(st1, Instruction::Arg(ic::Primary::Var(t))),
            None => st1,
        };
        cg_args(args.subrange(1, args.len() as int), st2)
    }
}

/// Lowering one statement.
pub open spec fn cg_stmt(s: StmtV, st: GenState) -> GenState
    decreases s, 1int,
{
    match s.kind {
        StmtKindV::Expr(e) => cg_expr(*e, st).0,
        StmtKindV::Ret(e) => {
            let (st1, r) = cg_expr(*e, st);
            let v = match r {
                Some(t) => Some(ic::Primary::Var(t)),
                None => None,
            };
            emit(st1, Instruction::Ret(v))
        },
        StmtKindV::Var(name, init) => {
            let (st1, r) = cg_expr(*init, st);
            match r {
                Some(t) => emit(
                    st1,
                    Instruction::Assign(name, ic::Expr::Primary(ic::Primary::Var(t))),
                ),
                None => st1,
            }
        },
        StmtKindV::Block(stmts) => cg_block(stmts, st),
        StmtKindV::Func(proto, body) => cg_block(body, emit(st, Instruction::Label(proto.name))),
        StmtKindV::Extern(_) => st,
        StmtKindV::Impt(_) => st,
    }
}

/// Lowering the statements of a block or module, in order.
pub open spec fn cg_block(stmts: Seq<StmtV>, st: GenState) -> GenState
    decreases stmts, 0int,
{
    if stmts.len() == 0 {
        st
    } else {
        cg_block(stmts.subrange(1, stmts.len() as int), cg_stmt(stmts[0], st))
    }
}

/// Lowering sizes are nonnegative (and single nodes at least one).
pub proof fn lemma_size_expr_pos(e: ExprV)
    ensures
        size_expr(e) >= 1,
    decreases e, 1int,
{
    match e.kind {
        ExprKindV::Unary(_, inner) => lemma_size_expr_pos(*inner),
        ExprKindV::Binary(_, l, r) => {
            lemma_size_expr_pos(*l);
            lemma_size_expr_pos(*r);
        },
        ExprKindV::Call(_, args) => lemma_size_expr_list_nonneg(args),
        ExprKindV::Cond(c, t, els) => {
            lemma_size_expr_pos(*c);
            lemma_size_block_nonneg(t);
            match els {
                Some(b) => lemma_size_block_nonneg(b),
                None => {},
            }
        },
        ExprKindV::Assign(_, v) => lemma_size_expr_pos(*v),
        _ => {},
    }
}

pub proof fn lemma_size_expr_list_nonneg(args: Seq<ExprV>)
    ensures
        size_expr_list(args) >= 0,
    decreases args, 0int,
{
    if args.len() > 0 {
        lemma_size_expr_pos(args[0]);
        lemma_size_expr_list_nonneg(args.subrange(1, args.len() as int));
    }
}

pub proof fn lemma_size_stmt_pos(s: StmtV)
    ensures
        size_stmt(s) >= 1,
    decreases s, 1int,
{
    match s.kind {
        StmtKindV::Expr(e) => lemma_size_expr_pos(*e),
        StmtKindV::Ret(e) => lemma_size_expr_pos(*e),
        StmtKindV::Var(_, init) => lemma_size_expr_pos(*init),
        StmtKindV::Block(stmts) => lemma_size_block_nonneg(stmts),
        StmtKindV::Func(_, b) => lemma_size_block_nonneg(b),
        _ => {},
    }
}

pub proof fn lemma_size_block_nonneg(stmts: Seq<StmtV>)
    ensures
        size_block(stmts) >= 0,
    decreases stmts, 0int,
{
    if stmts.len() > 0 {
        lemma_size_stmt_pos(stmts[0]);
        lemma_size_block_nonneg(stmts.subrange(1, stmts.len() as int));
    }
}

/// Lowering a value-producing expression always yields a temporary.
pub proof fn lemma_cg_yields_value(e: ExprV, st: GenState)
    requires
        expr_ok(e, true),
    ensures
        cg_expr(e, st).1 is Some,
    decreases e,
{
    match e.kind {
        ExprKindV::Binary(_, l, r) => {
            lemma_cg_yields_value(*l, st);
            lemma_cg_yields_value(*r, cg_expr(*l, st).0);
        },
        ExprKindV::Assign(_, value) => {
            lemma_cg_yields_value(*value, st);
        },
        _ => {},
    }
}

/// The code generator: the instruction buffer and the two counters of
/// temporaries handed out so far.
pub struct CodeGenerator {
    pub instructions: Vec<Instruction>,
    /// the number of temporary variables the code generator has created
    pub tmp_var: usize,
    /// the number of temporary labels the code generator has created
    pub tmp_label: usize,
}

/// The generator's state, paired with the interner contents it works
/// against.
pub open spec fn gen_state(cg: CodeGenerator, names: Seq<Seq<char>>) -> GenState {
    GenState {
        instrs: cg.instructions@,
        tmp: cg.tmp_var as int,
        lbl: cg.tmp_label as int,
        names,
    }
}

impl CodeGenerator {
    pub fn new() -> (r: CodeGenerator)
        ensures
            r.instructions@ == Seq::<Instruction>::empty(),
            r.tmp_var == 0,
            r.tmp_label == 0,
    {
        let r = CodeGenerator { instructions: Vec::new(), tmp_var: 0, tmp_label: 0 };
        proof {
            assert(r.instructions@ =~= Seq::<Instruction>::empty());
        }
        r
    }

    /// A fresh `_t{n}` temporary, interned.
    fn new_tmp_var(&mut self, interner: &mut Interner) -> (t: Symbol)
        requires
            old(interner)@.len() < u32::MAX,
            old(self).tmp_var < usize::MAX,
        ensures
            ({
                let (st, sym) = fresh_var(gen_state(*old(self), old(interner)@));
                gen_state(*final(self), final(interner)@) == st && t == sym
            }),
            final(interner)@.len() <= old(interner)@.len() + 1,
            final(self).instructions == old(self).instructions,
    {
        let mut name = String::from_str("_t");
        name.append(crate::text::dec_u64(self.tmp_var as u64).as_str());
        proof {
            reveal_strlit("_t");
            assert(name@ =~= tmp_var_name(self.tmp_var as int));
            crate::interner::lemma_find_interned(interner@, name@);
        }
        let t = interner.intern(name.as_str());
        self.tmp_var = self.tmp_var + 1;
        t
    }

    /// A fresh `_L{n}` label, interned.
    fn new_tmp_label(&mut self, interner: &mut Interner) -> (t: Symbol)
        requires
            old(interner)@.len() < u32::MAX,
            old(self).tmp_label < usize::MAX,
        ensures
            ({
                let (st, sym) = fresh_label(gen_state(*old(self), old(interner)@));
                gen_state(*final(self), final(interner)@) == st && t == sym
            }),
            final(interner)@.len() <= old(interner)@.len() + 1,
            final(self).instructions == old(self).instructions,
    {
        let mut name = String::from_str("_L");
        name.append(crate::text::dec_u64(self.tmp_label as u64).as_str());
        proof {
            reveal_strlit("_L");
            assert(name@ =~= tmp_label_name(self.tmp_label as int));
            crate::interner::lemma_find_interned(interner@, name@);
        }
        let t = interner.intern(name.as_str());
        self.tmp_label = self.tmp_label + 1;
        t
    }

    fn push_instruction(&mut self, i: Instruction)
        ensures
            final(self).instructions@ == old(self).instructions@.push(i),
            final(self).tmp_var == old(self).tmp_var,
            final(self).tmp_label == old(self).tmp_label,
    {
        self.instructions.push(i);
    }

    fn emit_assign_const_int(&mut self, name: Symbol, init: i64)
        ensures
            final(self).instructions@ == old(self).instructions@.push(
                Instruction::Assign(
                    name,
                    ic::Expr::Primary(ic::Primary::Const(ic::ConstKind::Int(init))),
                ),
            ),
            final(self).tmp_var == old(self).tmp_var,
            final(self).tmp_label == old(self).tmp_label,
    {
        self.emit_assign(name, ic::Expr::Primary(ic::Primary::Const(ic::ConstKind::Int(init))));
    }

    fn emit_assign_const_str(&mut self, name: Symbol, init: Symbol)
        ensures
            final(self).instructions@ == old(self).instructions@.push(
                Instruction::Assign(
                    name,
                    ic::Expr::Primary(ic::Primary::Const(ic::ConstKind::Str(init))),
                ),
            ),
            final(self).tmp_var == old(self).tmp_var,
            final(self).tmp_label == old(self).tmp_label,
    {
        self.emit_assign(name, ic::Expr::Primary(ic::Primary::Const(ic::ConstKind::Str(init))));
    }

    fn emit_assign_var(&mut self, name: Symbol, init: Symbol)
        ensures
            final(self).instructions@ == old(self).instructions@.push(
                Instruction::Assign(name, ic::Expr::Primary(ic::Primary::Var(init))),
            ),
            final(self).tmp_var == old(self).tmp_var,
            final(self).tmp_label == old(self).tmp_label,
    {
        self.emit_assign(name, ic::Expr::Primary(ic::Primary::Var(init)));
    }

    fn emit_assign(&mut self, name: Symbol, init: ic::Expr)
        ensures
            final(self).instructions@ == old(self).instructions@.push(
                Instruction::Assign(name, init),
            ),
            final(self).tmp_var == old(self).tmp_var,
            final(self).tmp_label == old(self).tmp_label,
    {
        self.push_instruction(Instruction::Assign(name, init));
    }

    fn emit_assign_call(&mut self, name: Symbol, func: Symbol)
        ensures
            final(self).instructions@ == old(self).instructions@.push(
                Instruction::Assign(name, ic::Expr::Call(func)),
            ),
            final(self).tmp_var == old(self).tmp_var,
            final(self).tmp_label == old(self).tmp_label,
    {
        self.push_instruction(Instruction::Assign(name, ic::Expr::Call(func)));
    }

    fn emit_assign_binary(&mut self, name: Symbol, op: crate::ast::BinOp, lhs: Symbol, rhs: Symbol)
        ensures
            final(self).instructions@ == old(self).instructions@.push(
                Instruction::Assign(
                    name,
                    ic::Expr::Binary(op, ic::Primary::Var(lhs), ic::Primary::Var(rhs)),
                ),
            ),
            final(self).tmp_var == old(self).tmp_var,
            final(self).tmp_label == old(self).tmp_label,
    {
        self.push_instruction(
            Instruction::Assign(
                name,
                ic::Expr::Binary(op, ic::Primary::Var(lhs), ic::Primary::Var(rhs)),
            ),
        );
    }

    fn emit_arg(&mut self, name: Symbol)
        ensures
            final(self).instructions@ == old(self).instructions@.push(
                Instruction::Arg(ic::Primary::Var(name)),
            ),
            final(self).tmp_var == old(self).tmp_var,
            final(self).tmp_label == old(self).tmp_label,
    {
        self.push_instruction(Instruction::Arg(ic::Primary::Var(name)));
    }

    fn emit_ifz(&mut self, condition: Symbol, label: Symbol)
        ensures
            final(self).instructions@ == old(self).instructions@.push(
                Instruction::Ifz(ic::Primary::Var(condition), label),
            ),
            final(self).tmp_var == old(self).tmp_var,
            final(self).tmp_label == old(self).tmp_label,
    {
        self.push_instruction(Instruction::Ifz(ic::Primary::Var(condition), label));
    }

    fn emit_label(&mut self, label: Symbol)
        ensures
            final(self).instructions@ == old(self).instructions@.push(
                Instruction::Label(label),
            ),
            final(self).tmp_var == old(self).tmp_var,
            final(self).tmp_label == old(self).tmp_label,
    {
        self.push_instruction(Instruction::Label(label));
    }

    fn emit_ret(&mut self, value: Option<Symbol>)
        ensures
            final(self).instructions@ == old(self).instructions@.push(
                Instruction::Ret(
                    match value {
                        Some(t) => Some(ic::Primary::Var(t)),
                        None => None,
                    },
                ),
            ),
            final(self).tmp_var == old(self).tmp_var,
            final(self).tmp_label == old(self).tmp_label,
    {
        match value {
            Some(t) => self.push_instruction(Instruction::Ret(Some(ic::Primary::Var(t)))),
            None => self.push_instruction(Instruction::Ret(None)),
        }
    }

    fn emit_goto(&mut self, label: Symbol)
        ensures
            final(self).instructions@ == old(self).instructions@.push(
                Instruction::Goto(label),
            ),
            final(self).tmp_var == old(self).tmp_var,
            final(self).tmp_label == old(self).tmp_label,
    {
        self.push_instruction(Instruction::Goto(label));
    }

    /// Lower one expression, returning the temporary holding its value
    /// (none for the statement-shaped forms).
    fn gen_expr(&mut self, e: &Expr, interner: &mut Interner) -> (r: Option<Symbol>)
        requires
            expr_ok(view_expr(*e), false),
            old(interner)@.len() + 2 * size_expr(view_expr(*e)) <= u32::MAX,
            old(self).tmp_var + size_expr(view_expr(*e)) <= usize::MAX,
            old(self).tmp_label + 2 * size_expr(view_expr(*e)) <= usize::MAX,
        ensures
            ({
                let (st, rr) = cg_expr(view_expr(*e), gen_state(*old(self), old(interner)@));
                gen_state(*final(self), final(interner)@) == st && r == rr
            }),
            final(interner)@.len() <= old(interner)@.len() + 2 * size_expr(view_expr(*e)),
            old(self).tmp_var <= final(self).tmp_var <= old(self).tmp_var + size_expr(
                view_expr(*e),
            ),
            old(self).tmp_label <= final(self).tmp_label <= old(self).tmp_label + 2 * size_expr(
                view_expr(*e),
            ),
            old(interner)@.len() <= final(interner)@.len(),
        decreases *e, 1int,
    {
        proof {
            lemma_size_expr_pos(view_expr(*e));
        }
        match &e.kind {
            ExprKind::Lit(lit) => {
                let lit = *lit;
                let t = self.new_tmp_var(interner);
                match lit {
                    Lit::Int(k) => self.emit_assign_const_int(t, k),
                    Lit::Str(sym) => self.emit_assign_const_str(t, sym),
                    Lit::Char(c) => self.emit_assign_const_int(t, (c as u32) as i64),
                }
                Some(t)
            },
            ExprKind::Variable(v) => {
                let v = *v;
                let t = self.new_tmp_var(interner);
                self.emit_assign_var(t, v);
                Some(t)
            },
            ExprKind::Unary(_, _) => {
                proof {
                    assert(false);
                }
                None
            },
            ExprKind::Binary(op, l, r) => {
                let op = *op;
                proof {
                    lemma_size_expr_pos(view_expr(**l));
                    lemma_size_expr_pos(view_expr(**r));
                    lemma_expr_ok_value(view_expr(**l));
                    lemma_expr_ok_value(view_expr(**r));
                    lemma_cg_yields_value(
                        view_expr(**l),
                        gen_state(*self, interner@),
                    );
                }
                let t1 = match self.gen_expr(l, interner) {
                    Some(t) => t,
                    None => {
                        proof {
                            assert(false);
                        }
                        return None;
                    },
                };
                proof {
                    lemma_cg_yields_value(
                        view_expr(**r),
                        gen_state(*self, interner@),
                    );
                }
                let t2 = match self.gen_expr(r, interner) {
                    Some(t) => t,
                    None => {
                        proof {
                            assert(false);
                        }
                        return None;
                    },
                };
                let t = self.new_tmp_var(interner);
                self.emit_assign_binary(t, op, t1, t2);
                Some(t)
            },
            ExprKind::Call(fn_name, args) => {
                let fn_name = *fn_name;
                proof {
                    crate::ast::lemma_view_expr_list_index(args@);
                    lemma_size_expr_list_nonneg(view_expr_list(args@));
                }
                self.gen_args(args, interner);
                let t = self.new_tmp_var(interner);
                self.emit_assign_call(t, fn_name);
                Some(t)
            },
            ExprKind::Cond(condition, then_block, else_block) => {
                proof {
                    lemma_size_expr_pos(view_expr(**condition));
                    lemma_size_block_nonneg(view_block(then_block@));
                    match else_block {
                        Some(b) => lemma_size_block_nonneg(view_block(b@)),
                        None => {},
                    }
                    lemma_expr_ok_value(view_expr(**condition));
                    lemma_cg_yields_value(
                        view_expr(**condition),
                        gen_state(*self, interner@),
                    );
                }
                let t = match self.gen_expr(condition, interner) {
                    Some(t) => t,
                    None => {
                        proof {
                            assert(false);
                        }
                        return None;
                    },
                };
                let else_label = self.new_tmp_label(interner);
                let end_label = self.new_tmp_label(interner);
                self.emit_ifz(t, else_label);
                self.gen_block(then_block, interner);
                if else_block.is_some() {
                    self.emit_goto(end_label);
                }
                self.emit_label(else_label);
                match else_block {
                    Some(els) => {
                        self.gen_block(els, interner);
                        self.emit_label(end_label);
                    },
                    None => {},
                }
                None
            },
            ExprKind::Assign(var_name, value) => {
                let var_name = *var_name;
                proof {
                    lemma_expr_ok_value(view_expr(**value));
                    lemma_cg_yields_value(
                        view_expr(**value),
                        gen_state(*self, interner@),
                    );
                }
                let t = match self.gen_expr(value, interner) {
                    Some(t) => t,
                    None => {
                        proof {
                            assert(false);
                        }
                        return None;
                    },
                };
                self.emit_assign_var(var_name, t);
                Some(var_name)
            },
        }
    }

    /// Lower each argument of a call: the value, then its `Arg`, in
    /// left-to-right order.
    fn gen_args(&mut self, args: &Vec<Box<Expr>>, interner: &mut Interner)
        requires
            expr_list_ok(view_expr_list(args@)),
            old(interner)@.len() + 2 * size_expr_list(view_expr_list(args@)) <= u32::MAX,
            old(self).tmp_var + size_expr_list(view_expr_list(args@)) <= usize::MAX,
            old(self).tmp_label + 2 * size_expr_list(view_expr_list(args@)) <= usize::MAX,
        ensures
            gen_state(*final(self), final(interner)@) == cg_args(
                view_expr_list(args@),
                gen_state(*old(self), old(interner)@),
            ),
            final(interner)@.len() <= old(interner)@.len() + 2 * size_expr_list(
                view_expr_list(args@),
            ),
            old(self).tmp_var <= final(self).tmp_var <= old(self).tmp_var + size_expr_list(
                view_expr_list(args@),
            ),
            old(self).tmp_label <= final(self).tmp_label <= old(self).tmp_label + 2
                * size_expr_list(view_expr_list(args@)),
            old(interner)@.len() <= final(interner)@.len(),
        decreases args@, 0int,
    {
        proof {
            crate::ast::lemma_view_expr_list_index(args@);
            lemma_size_expr_list_nonneg(view_expr_list(args@));
        }
        let ghost v = view_expr_list(args@);
        let ghost st0 = gen_state(*old(self), old(interner)@);
        let n = args.len();
        let mut i: usize = 0;
        proof {
            assert(v.skip(0) =~= v);
        }
        while i < n
            invariant
                i <= n,
                n == args@.len(),
                v == view_expr_list(args@),
                v.len() == n,
                forall|k: int| 0 <= k < n ==> v[k] == view_expr(*args@[k]),
                expr_list_ok(v.skip(i as int)),
                st0 == gen_state(*old(self), old(interner)@),
                cg_args(v, st0) == cg_args(v.skip(i as int), gen_state(*self, interner@)),
                interner@.len() + 2 * size_expr_list(v.skip(i as int)) <= u32::MAX,
                self.tmp_var + size_expr_list(v.skip(i as int)) <= usize::MAX,
                self.tmp_label + 2 * size_expr_list(v.skip(i as int)) <= usize::MAX,
                old(interner)@.len() <= interner@.len() <= old(interner)@.len() + 2 * (
                size_expr_list(v) - size_expr_list(v.skip(i as int))),
                old(self).tmp_var <= self.tmp_var <= old(self).tmp_var + (size_expr_list(v)
                    - size_expr_list(v.skip(i as int))),
                old(self).tmp_label <= self.tmp_label <= old(self).tmp_label + 2 * (
                size_expr_list(v) - size_expr_list(v.skip(i as int))),
            decreases n - i,
        {
            proof {
                assert(v.skip(i as int)[0] == v[i as int]);
                assert(v.skip(i as int).subrange(1, v.skip(i as int).len() as int) =~= v.skip(
                    i + 1,
                ));
                lemma_size_expr_pos(v[i as int]);
                lemma_size_expr_list_nonneg(v.skip(i + 1));
                lemma_expr_ok_value(v[i as int]);
                lemma_cg_yields_value(v[i as int], gen_state(*self, interner@));
            }
            let t = match self.gen_expr(&args[i], interner) {
                Some(t) => t,
                None => {
                    proof {
                        assert(false);
                    }
                    return ;
                },
            };
            self.emit_arg(t);
            i = i + 1;
        }
        proof {
            assert(v.skip(n as int) =~= Seq::<ExprV>::empty());
        }
    }

    /// Lower one statement.
    fn gen_stmt(&mut self, stmt: &Stmt, interner: &mut Interner)
        requires
            stmt_ok(view_stmt(*stmt)),
            old(interner)@.len() + 2 * size_stmt(view_stmt(*stmt)) <= u32::MAX,
            old(self).tmp_var + size_stmt(view_stmt(*stmt)) <= usize::MAX,
            old(self).tmp_label + 2 * size_stmt(view_stmt(*stmt)) <= usize::MAX,
        ensures
            gen_state(*final(self), final(interner)@) == cg_stmt(
                view_stmt(*stmt),
                gen_state(*old(self), old(interner)@),
            ),
            final(interner)@.len() <= old(interner)@.len() + 2 * size_stmt(view_stmt(*stmt)),
            old(self).tmp_var <= final(self).tmp_var <= old(self).tmp_var + size_stmt(
                view_stmt(*stmt),
            ),
            old(self).tmp_label <= final(self).tmp_label <= old(self).tmp_label + 2 * size_stmt(
                view_stmt(*stmt),
            ),
            old(interner)@.len() <= final(interner)@.len(),
        decreases *stmt, 1int,
    {
        proof {
            lemma_size_stmt_pos(view_stmt(*stmt));
        }
        match &stmt.kind {
            StmtKind::Expr(e) => {
                proof {
                    lemma_size_expr_pos(view_expr(**e));
                }
                self.gen_expr(e, interner);
            },
            StmtKind::Ret(value) => {
                proof {
                    lemma_size_expr_pos(view_expr(**value));
                }
                let t = self.gen_expr(value, interner);
                self.emit_ret(t);
            },
            StmtKind::Var(name, init) => {
                let name = *name;
                proof {
                    lemma_size_expr_pos(view_expr(**init));
                    lemma_expr_ok_value(view_expr(**init));
                    lemma_cg_yields_value(
                        view_expr(**init),
                        gen_state(*self, interner@),
                    );
                }
                let t = match self.gen_expr(init, interner) {
                    Some(t) => t,
                    None => {
                        proof {
                            assert(false);
                        }
                        return ;
                    },
                };
                self.emit_assign_var(name, t);
            },
            StmtKind::Block(stmts) => {
                proof {
                    lemma_size_block_nonneg(view_block(stmts@));
                }
                self.gen_block(stmts, interner);
            },
            StmtKind::Func(proto, body) => {
                proof {
                    lemma_size_block_nonneg(view_block(body@));
                }
                self.emit_label(proto.name);
                self.gen_block(body, interner);
            },
            StmtKind::Extern(_) => {},
            StmtKind::Impt(_) => {},
        }
    }

    /// Lower the statements of a block or module, in order.
    fn gen_block(&mut self, stmts: &Vec<Box<Stmt>>, interner: &mut Interner)
        requires
            block_ok(view_block(stmts@)),
            old(interner)@.len() + 2 * size_block(view_block(stmts@)) <= u32::MAX,
            old(self).tmp_var + size_block(view_block(stmts@)) <= usize::MAX,
            old(self).tmp_label + 2 * size_block(view_block(stmts@)) <= usize::MAX,
        ensures
            gen_state(*final(self), final(interner)@) == cg_block(
                view_block(stmts@),
                gen_state(*old(self), old(interner)@),
            ),
            final(interner)@.len() <= old(interner)@.len() + 2 * size_block(view_block(stmts@)),
            old(self).tmp_var <= final(self).tmp_var <= old(self).tmp_var + size_block(
                view_block(stmts@),
            ),
            old(self).tmp_label <= final(self).tmp_label <= old(self).tmp_label + 2 * size_block(
                view_block(stmts@),
            ),
            old(interner)@.len() <= final(interner)@.len(),
        decreases stmts@, 0int,
    {
        proof {
            crate::ast::lemma_view_block_index(stmts@);
            lemma_size_block_nonneg(view_block(stmts@));
        }
        let ghost v = view_block(stmts@);
        let ghost st0 = gen_state(*old(self), old(interner)@);
        let n = stmts.len();
        let mut i: usize = 0;
        proof {
            assert(v.skip(0) =~= v);
        }
        while i < n
            invariant
                i <= n,
                n == stmts@.len(),
                v == view_block(stmts@),
                v.len() == n,
                forall|k: int| 0 <= k < n ==> v[k] == view_stmt(*stmts@[k]),
                block_ok(v.skip(i as int)),
                st0 == gen_state(*old(self), old(interner)@),
                cg_block(v, st0) == cg_block(v.skip(i as int), gen_state(*self, interner@)),
                interner@.len() + 2 * size_block(v.skip(i as int)) <= u32::MAX,
                self.tmp_var + size_block(v.skip(i as int)) <= usize::MAX,
                self.tmp_label + 2 * size_block(v.skip(i as int)) <= usize::MAX,
                old(interner)@.len() <= interner@.len() <= old(interner)@.len() + 2 * (size_block(
                    v,
                ) - size_block(v.skip(i as int))),
                old(self).tmp_var <= self.tmp_var <= old(self).tmp_var + (size_block(v)
                    - size_block(v.skip(i as int))),
                old(self).tmp_label <= self.tmp_label <= old(self).tmp_label + 2 * (size_block(v)
                    - size_block(v.skip(i as int))),
            decreases n - i,
        {
            proof {
                assert(v.skip(i as int)[0] == v[i as int]);
                assert(v.skip(i as int).subrange(1, v.skip(i as int).len() as int) =~= v.skip(
                    i + 1,
                ));
                lemma_size_stmt_pos(v[i as int]);
                lemma_size_block_nonneg(v.skip(i + 1));
            }
            self.gen_stmt(&stmts[i], interner);
            i = i + 1;
        }
        proof {
            assert(v.skip(n as int) =~= Seq::<StmtV>::empty());
        }
    }
}

impl CodeGenerator {
    /// Lower a whole module and then run the local
    /// common-subexpression pass over the result.
    pub fn gen(&mut self, module: &Vec<Box<Stmt>>, interner: &mut Interner)
        requires
            block_ok(view_block(module@)),
            old(interner)@.len() + 2 * size_block(view_block(module@)) <= u32::MAX,
            old(self).tmp_var + size_block(view_block(module@)) <= usize::MAX,
            old(self).tmp_label + 2 * size_block(view_block(module@)) <= usize::MAX,
        ensures
            ({
                let st = cg_block(
                    view_block(module@),
                    gen_state(*old(self), old(interner)@),
                );
                &&& final(self).instructions@ == crate::optimize::cse_from(
                    st.instrs,
                    Seq::empty(),
                )
                &&& final(interner)@ == st.names
                &&& final(self).tmp_var == st.tmp
                &&& final(self).tmp_label == st.lbl
            }),
    {
        self.gen_block(module, interner);
        self.optimize_mut();
    }

    /// The pass's result, leaving the buffer unchanged.
    pub fn optimize(&self) -> (r: Vec<Instruction>)
        ensures
            r@ == crate::optimize::cse_from(self.instructions@, Seq::empty()),
    {
        crate::optimize::optimize_instructions(&self.instructions)
    }

    /// Run the pass in place.
    pub fn optimize_mut(&mut self)
        ensures
            final(self).instructions@ == crate::optimize::cse_from(
                old(self).instructions@,
                Seq::empty(),
            ),
            final(self).tmp_var == old(self).tmp_var,
            final(self).tmp_label == old(self).tmp_label,
    {
        let optimized = crate::optimize::optimize_instructions(&self.instructions);
        self.instructions = optimized;
    }

    /// The instruction buffer rendered as text, one line per
    /// instruction; `None` when a symbol is no handle into the
    /// interner, which lowering against that interner never produces.
    pub fn intermediate_code(&self, interner: &Interner) -> (r: Option<String>)
        ensures
            match r {
                Some(text) => crate::render::instrs_bounded(
                    self.instructions@,
                    interner@.len() as int,
                ) && text@ == crate::render::spec_render(interner@, self.instructions@, 0),
                None => !crate::render::instrs_bounded(
                    self.instructions@,
                    interner@.len() as int,
                ),
            },
    {
        if crate::render::instructions_bounded(&self.instructions, interner) {
            Some(crate::render::render_instructions(&self.instructions, interner))
        } else {
            None
        }
    }

    /// The instruction buffer with the local pass applied, rendered as
    /// text.
    pub fn optimized_intermediate_code(&self, interner: &Interner) -> (r: Option<String>)
        ensures
            ({
                let optimized = crate::optimize::cse_from(self.instructions@, Seq::empty());
                match r {
                    Some(text) => crate::render::instrs_bounded(
                        optimized,
                        interner@.len() as int,
                    ) && text@ == crate::render::spec_render(interner@, optimized, 0),
                    None => !crate::render::instrs_bounded(optimized, interner@.len() as int),
                }
            }),
    {
        let optimized = self.optimize();
        if crate::render::instructions_bounded(&optimized, interner) {
            Some(crate::render::render_instructions(&optimized, interner))
        } else {
            None
        }
    }
}

/// Whether every statement of a module can be lowered: no unary
/// operators, and no conditional where a value is needed. Lowering has
/// no instructions for these, so `gen` excludes them.
pub fn module_gen_supported(module: &Vec<Box<Stmt>>) -> (r: bool)
    ensures
        r == block_ok(view_block(module@)),
    decreases module@, 0int,
{
    proof {
        crate::ast::lemma_view_block_index(module@);
    }
    let ghost v = view_block(module@);
    let n = module.len();
    let mut i: usize = 0;
    proof {
        assert(v.skip(0) =~= v);
    }
    while i < n
        invariant
            i <= n,
            n == module@.len(),
            v == view_block(module@),
            v.len() == n,
            forall|k: int| 0 <= k < n ==> v[k] == view_stmt(*module@[k]),
            block_ok(v) == block_ok(v.skip(i as int)),
        decreases n - i,
    {
        proof {
            assert(v.skip(i as int)[0] == v[i as int]);
            assert(v.skip(i as int).subrange(1, v.skip(i as int).len() as int) =~= v.skip(i + 1));
        }
        if !stmt_gen_supported(&module[i]) {
            return false;
        }
        i = i + 1;
    }
    proof {
        assert(v.skip(n as int) =~= Seq::<StmtV>::empty());
    }
    true
}

fn stmt_gen_supported(stmt: &Stmt) -> (r: bool)
    ensures
        r == stmt_ok(view_stmt(*stmt)),
    decreases *stmt, 1int,
{
    match &stmt.kind {
        StmtKind::Expr(e) => expr_gen_supported(e, false),
        StmtKind::Ret(e) => expr_gen_supported(e, false),
        StmtKind::Var(_, init) => expr_gen_supported(init, true),
        StmtKind::Block(stmts) => module_gen_supported(stmts),
        StmtKind::Func(_, body) => module_gen_supported(body),
        StmtKind::Extern(_) => true,
        StmtKind::Impt(_) => true,
    }
}

fn expr_gen_supported(e: &Expr, need_value: bool) -> (r: bool)
    ensures
        r == expr_ok(view_expr(*e), need_value),
    decreases *e, 1int,
{
    match &e.kind {
        ExprKind::Lit(_) => true,
        ExprKind::Variable(_) => true,
        ExprKind::Unary(_, _) => false,
        ExprKind::Binary(_, l, r) => expr_gen_supported(l, true) && expr_gen_supported(r, true),
        ExprKind::Call(_, args) => args_gen_supported(args),
        ExprKind::Cond(c, t, els) => {
            if need_value {
                false
            } else if !expr_gen_supported(c, true) {
                false
            } else if !module_gen_supported(t) {
                false
            } else {
                match els {
                    Some(b) => module_gen_supported(b),
                    None => true,
                }
            }
        },
        ExprKind::Assign(_, v) => expr_gen_supported(v, true),
    }
}

fn args_gen_supported(args: &Vec<Box<Expr>>) -> (r: bool)
    ensures
        r == expr_list_ok(view_expr_list(args@)),
    decreases args@, 0int,
{
    proof {
        crate::ast::lemma_view_expr_list_index(args@);
    }
    let ghost v = view_expr_list(args@);
    let n = args.len();
    let mut i: usize = 0;
    proof {
        assert(v.skip(0) =~= v);
    }
    while i < n
        invariant
            i <= n,
            n == args@.len(),
            v == view_expr_list(args@),
            v.len() == n,
            forall|k: int| 0 <= k < n ==> v[k] == view_expr(*args@[k]),
            expr_list_ok(v) == expr_list_ok(v.skip(i as int)),
        decreases n - i,
    {
        proof {
            assert(v.skip(i as int)[0] == v[i as int]);
            assert(v.skip(i as int).subrange(1, v.skip(i as int).len() as int) =~= v.skip(i + 1));
        }
        if !expr_gen_supported(&args[i], true) {
            return false;
        }
        i = i + 1;
    }
    proof {
        assert(v.skip(n as int) =~= Seq::<ExprV>::empty());
    }
    true
}

/// A value context only strengthens lowerability.
pub proof fn lemma_expr_ok_value(e: ExprV)
    requires
        expr_ok(e, true),
    ensures
        expr_ok(e, false),
{
}

} // verus!
