//! Rendering three-address code as text: one line per instruction,
//! labels un-indented and suffixed with `:`, every other instruction
//! indented. This textual form is what a compiler run writes out.

use vstd::prelude::*;

use crate::ast::BinOp;
use crate::ic;
use crate::ic::Instruction;
use crate::interner::Interner;
use crate::text::spec_dec_signed;

verus! {

/// The text of a binary operator.
pub open spec fn spec_op_text(op: BinOp) -> Seq<char> {
    match op {
        BinOp::Mul => "*"@,
        BinOp::Div => "/"@,
        BinOp::Mod => "%"@,
        BinOp::Add => "+"@,
        BinOp::Sub => "-"@,
        BinOp::Ge => ">="@,
        BinOp::Gt => ">"@,
        BinOp::Lt => "<"@,
        BinOp::Le => "<="@,
        BinOp::Eq => "=="@,
        BinOp::Ne => "!="@,
        BinOp::And => "&&"@,
        BinOp::Or => "||"@,
    }
}

/// The text of a primary: a variable's name, a decimal integer, or a
/// quoted string.
pub open spec fn spec_primary_text(names: Seq<Seq<char>>, p: ic::Primary) -> Seq<char> {
    match p {
        ic::Primary::Var(s) => names[s.0 as int],
        ic::Primary::Const(ic::ConstKind::Int(v)) => spec_dec_signed(v as int),
        ic::Primary::Const(ic::ConstKind::Str(s)) => seq!['"'] + names[s.0 as int] + seq!['"'],
    }
}

/// The text of an assignment's right-hand side.
pub open spec fn spec_ir_expr_text(names: Seq<Seq<char>>, e: ic::Expr) -> Seq<char> {
    match e {
        ic::Expr::Binary(op, l, r) => spec_primary_text(names, l) + " "@ + spec_op_text(op)
            + " "@ + spec_primary_text(names, r),
        ic::Expr::Primary(p) => spec_primary_text(names, p),
        ic::Expr::Call(f) => "call "@ + names[f.0 as int],
    }
}

/// The text of one instruction, without indentation.
pub open spec fn spec_instr_text(names: Seq<Seq<char>>, i: Instruction) -> Seq<char> {
    match i {
        Instruction::Label(l) => names[l.0 as int] + ":"@,
        Instruction::Assign(d, e) => names[d.0 as int] + " := "@ + spec_ir_expr_text(names, e),
        Instruction::Goto(l) => "goto "@ + names[l.0 as int],
        Instruction::Ifz(v, l) => "ifz "@ + spec_primary_text(names, v) + " goto "@
            + names[l.0 as int],
        Instruction::Arg(p) => "arg "@ + spec_primary_text(names, p),
        Instruction::Ret(Some(v)) => "ret "@ + spec_primary_text(names, v),
        Instruction::Ret(None) => "ret"@,
    }
}

/// The rendered program from instruction `i` on: one line per
/// instruction, labels un-indented, everything else indented.
pub open spec fn spec_render(names: Seq<Seq<char>>, instrs: Seq<Instruction>, i: int) -> Seq<char>
    decreases instrs.len() - i,
{
    if !(0 <= i < instrs.len()) {
        Seq::empty()
    } else {
        let line = if instrs[i] is Label {
            spec_instr_text(names, instrs[i]) + "\n"@
        } else {
            "    "@ + spec_instr_text(names, instrs[i]) + "\n"@
        };
        line + spec_render(names, instrs, i + 1)
    }
}

/// Every symbol of a primary is a handle into the interner.
pub open spec fn primary_bounded(p: ic::Primary, n: int) -> bool {
    match p {
        ic::Primary::Var(s) => s.0 < n,
        ic::Primary::Const(ic::ConstKind::Int(_)) => true,
        ic::Primary::Const(ic::ConstKind::Str(s)) => s.0 < n,
    }
}

/// Every symbol of an instruction is a handle into the interner.
pub open spec fn instr_bounded(i: Instruction, n: int) -> bool {
    match i {
        Instruction::Label(l) => l.0 < n,
        Instruction::Assign(d, e) => d.0 < n && match e {
            ic::Expr::Binary(_, l, r) => primary_bounded(l, n) && primary_bounded(r, n),
            ic::Expr::Primary(p) => primary_bounded(p, n),
            ic::Expr::Call(f) => f.0 < n,
        },
        Instruction::Goto(l) => l.0 < n,
        Instruction::Ifz(v, l) => primary_bounded(v, n) && l.0 < n,
        Instruction::Arg(p) => primary_bounded(p, n),
        Instruction::Ret(Some(v)) => primary_bounded(v, n),
        Instruction::Ret(None) => true,
    }
}

pub open spec fn instrs_bounded(instrs: Seq<Instruction>, n: int) -> bool {
    forall|i: int| 0 <= i < instrs.len() ==> instr_bounded(instrs[i], n)
}

/// Check that every symbol in the buffer is a handle into the
/// interner, as rendering requires.
pub fn instructions_bounded(instrs: &Vec<Instruction>, interner: &Interner) -> (r: bool)
    ensures
        r == instrs_bounded(instrs@, interner@.len() as int),
{
    let ghost n = interner@.len() as int;
    let count: usize = interner.len();
    let m = instrs.len();
    let mut i: usize = 0;
    while i < m
        invariant
            i <= m,
            m == instrs@.len(),
            n == interner@.len(),
            count == n,
            forall|k: int| 0 <= k < i ==> instr_bounded(instrs@[k], n),
        decreases m - i,
    {
        if !instruction_bounded(&instrs[i], count) {
            return false;
        }
        i = i + 1;
    }
    true
}

fn primary_bounded_exec(p: &ic::Primary, count: usize) -> (r: bool)
    ensures
        r == primary_bounded(*p, count as int),
{
    match p {
        ic::Primary::Var(s) => (s.0 as usize) < count,
        ic::Primary::Const(ic::ConstKind::Int(_)) => true,
        ic::Primary::Const(ic::ConstKind::Str(s)) => (s.0 as usize) < count,
    }
}

fn instruction_bounded(i: &Instruction, count: usize) -> (r: bool)
    ensures
        r == instr_bounded(*i, count as int),
{
    match i {
        Instruction::Label(l) => (l.0 as usize) < count,
        Instruction::Assign(d, e) => (d.0 as usize) < count && match e {
            ic::Expr::Binary(_, l, r) => primary_bounded_exec(l, count) && primary_bounded_exec(
                r,
                count,
            ),
            ic::Expr::Primary(p) => primary_bounded_exec(p, count),
            ic::Expr::Call(f) => (f.0 as usize) < count,
        },
        Instruction::Goto(l) => (l.0 as usize) < count,
        Instruction::Ifz(v, l) => primary_bounded_exec(v, count) && (l.0 as usize) < count,
        Instruction::Arg(p) => primary_bounded_exec(p, count),
        Instruction::Ret(Some(v)) => primary_bounded_exec(v, count),
        Instruction::Ret(None) => true,
    }
}

fn op_text(op: BinOp) -> (r: &'static str)
    ensures
        r@ == spec_op_text(op),
{
    match op {
        BinOp::Mul => "*",
        BinOp::Div => "/",
        BinOp::Mod => "%",
        BinOp::Add => "+",
        BinOp::Sub => "-",
        BinOp::Ge => ">=",
        BinOp::Gt => ">",
        BinOp::Lt => "<",
        BinOp::Le => "<=",
        BinOp::Eq => "==",
        BinOp::Ne => "!=",
        BinOp::And => "&&",
        BinOp::Or => "||",
    }
}

fn push_primary(out: &mut String, p: ic::Primary, interner: &Interner)
    requires
        primary_bounded(p, interner@.len() as int),
    ensures
        final(out)@ == old(out)@ + spec_primary_text(interner@, p),
{
    match p {
        ic::Primary::Var(s) => {
            out.append(interner.get(s).as_str());
        },
        ic::Primary::Const(ic::ConstKind::Int(v)) => {
            out.append(crate::text::dec_i64(v).as_str());
        },
        ic::Primary::Const(ic::ConstKind::Str(s)) => {
            out.append("\"");
            out.append(interner.get(s).as_str());
            out.append("\"");
            proof {
                reveal_strlit("\"");
                assert(out@ =~= old(out)@ + spec_primary_text(interner@, p));
            }
        },
    }
}

/// Render the instruction list as one line per instruction: `Label`
/// lines un-indented and suffixed with `:`, all other instructions
/// indented.
pub fn render_instructions(instrs: &Vec<Instruction>, interner: &Interner) -> (r: String)
    requires
        instrs_bounded(instrs@, interner@.len() as int),
    ensures
        r@ == spec_render(interner@, instrs@, 0),
{
    let mut out = String::new();
    let n = instrs.len();
    let mut i: usize = 0;
    while i < n
        invariant
            i <= n,
            n == instrs@.len(),
            instrs_bounded(instrs@, interner@.len() as int),
            spec_render(interner@, instrs@, 0) =~= out@ + spec_render(
                interner@,
                instrs@,
                i as int,
            ),
        decreases n - i,
    {
        let ghost pre = out@;
        let ins = instrs[i];
        if !ins.is_label() {
            out.append("    ");
        }
        match ins {
            Instruction::Label(l) => {
                out.append(interner.get(l).as_str());
                out.append(":");
            },
            Instruction::Assign(d, e) => {
                out.append(interner.get(d).as_str());
                out.append(" := ");
                match e {
                    ic::Expr::Binary(op, l, r) => {
                        push_primary(&mut out, l, interner);
                        out.append(" ");
                        out.append(op_text(op));
                        out.append(" ");
                        push_primary(&mut out, r, interner);
                    },
                    ic::Expr::Primary(p) => {
                        push_primary(&mut out, p, interner);
                    },
                    ic::Expr::Call(f) => {
                        out.append("call ");
                        out.append(interner.get(f).as_str());
                    },
                }
            },
            Instruction::Goto(l) => {
                out.append("goto ");
                out.append(interner.get(l).as_str());
            },
            Instruction::Ifz(v, l) => {
                out.append("ifz ");
                push_primary(&mut out, v, interner);
                out.append(" goto ");
                out.append(interner.get(l).as_str());
            },
            Instruction::Arg(p) => {
                out.append("arg ");
                push_primary(&mut out, p, interner);
            },
            Instruction::Ret(v) => {
                match v {
                    Some(p) => {
                        out.append("ret ");
                        push_primary(&mut out, p, interner);
                    },
                    None => {
                        out.append("ret");
                    },
                }
            },
        }
        out.append("\n");
        proof {
            let line = if instrs@[i as int] is Label {
                spec_instr_text(interner@, instrs@[i as int]) + "\n"@
            } else {
                "    "@ + spec_instr_text(interner@, instrs@[i as int]) + "\n"@
            };
            assert(out@ =~= pre + line);
            assert(spec_render(interner@, instrs@, 0) =~= out@ + spec_render(
                interner@,
                instrs@,
                i + 1,
            ));
        }
        i = i + 1;
    }
    out
}

} // verus!
