//! Local common-subexpression elimination: within each basic block —
//! delimited by `Label` and `Ifz` instructions — a recomputation of an
//! already-computed binary operation or call is rewritten to reference
//! the first instruction that computed it.

use vstd::prelude::*;

use crate::ic;
use crate::ic::Instruction;
use crate::interner::Symbol;

verus! {

/// A block boundary: labels are jump targets and `ifz` is a
/// conditional exit, so each starts or ends a basic block.
pub open spec fn is_boundary(i: Instruction) -> bool {
    i is Ifz || i is Label
}

/// The right-hand sides the pass eliminates: real computations. A
/// plain copy is left alone, which keeps the pass idempotent.
pub open spec fn cse_candidate(e: ic::Expr) -> bool {
    e is Binary || e is Call
}

/// Whether an instruction assigns the computation `e` to something.
pub open spec fn is_producer(i: Instruction, e: ic::Expr) -> bool {
    match i {
        Instruction::Assign(_, e2) => e2 == e,
        _ => false,
    }
}

/// The destination of the first recorded computation equal to `e`.
pub open spec fn find_avail(avail: Seq<(ic::Expr, Symbol)>, e: ic::Expr) -> Option<Symbol>
    decreases avail.len(),
{
    if avail.len() == 0 {
        None
    } else if avail[0].0 == e {
        Some(avail[0].1)
    } else {
        find_avail(avail.skip(1), e)
    }
}

pub proof fn lemma_find_avail_push(avail: Seq<(ic::Expr, Symbol)>, p: (ic::Expr, Symbol), e:
    ic::Expr)
    ensures
        find_avail(avail.push(p), e) == match find_avail(avail, e) {
            Some(d) => Some(d),
            None => if p.0 == e {
                Some(p.1)
            } else {
                None
            },
        },
    decreases avail.len(),
{
    if avail.len() > 0 {
        assert(avail.push(p)[0] == avail[0]);
        assert(avail.push(p).skip(1) =~= avail.skip(1).push(p));
        lemma_find_avail_push(avail.skip(1), p, e);
        assert(find_avail(avail.push(p).skip(1), e) == find_avail(avail.skip(1).push(p), e));
    } else {
        assert(avail.push(p)[0] == p);
        assert(avail.push(p).skip(1) =~= Seq::<(ic::Expr, Symbol)>::empty());
        assert(find_avail(avail.push(p).skip(1), e) is None);
    }
}

/// One instruction through the pass: an `Assign` of an already-seen
/// computation is rewritten to copy the first producer's destination;
/// an `Assign` of a new computation records it; everything else passes
/// through.
pub open spec fn cse_step(i: Instruction, avail: Seq<(ic::Expr, Symbol)>) -> (
    Instruction,
    Seq<(ic::Expr, Symbol)>,
) {
    match i {
        Instruction::Assign(d, e) => if cse_candidate(e) {
            match find_avail(avail, e) {
                Some(p) => (
                    Instruction::Assign(d, ic::Expr::Primary(ic::Primary::Var(p))),
                    avail,
                ),
                None => (i, avail.push((e, d))),
            }
        } else {
            (i, avail)
        },
        _ => (i, avail),
    }
}

/// The whole pass from a given set of available computations: the map
/// is reset at each block boundary, so the optimization is strictly
/// local to straight-line code.
pub open spec fn cse_from(b: Seq<Instruction>, avail: Seq<(ic::Expr, Symbol)>) -> Seq<Instruction>
    decreases b.len(),
{
    if b.len() == 0 {
        Seq::empty()
    } else {
        let (i2, av2) = cse_step(b[0], avail);
        let av3 = if is_boundary(b[0]) {
            Seq::<(ic::Expr, Symbol)>::empty()
        } else {
            av2
        };
        seq![i2] + cse_from(b.subrange(1, b.len() as int), av3)
    }
}

/// One basic block through the pass: no boundaries inside, so no
/// resets.
pub open spec fn cse_block(b: Seq<Instruction>, avail: Seq<(ic::Expr, Symbol)>) -> Seq<
    Instruction,
>
    decreases b.len(),
{
    if b.len() == 0 {
        Seq::empty()
    } else {
        let (i2, av2) = cse_step(b[0], avail);
        seq![i2] + cse_block(b.subrange(1, b.len() as int), av2)
    }
}

/// The destination already holding `e`, if an earlier instruction in
/// the block computed it.
fn find_available(avail: &Vec<(ic::Expr, Symbol)>, e: ic::Expr) -> (r: Option<Symbol>)
    ensures
        r == find_avail(avail@, e),
{
    let n = avail.len();
    let mut i: usize = 0;
    proof {
        assert(avail@.skip(0) =~= avail@);
    }
    while i < n
        invariant
            i <= n,
            n == avail@.len(),
            find_avail(avail@, e) == find_avail(avail@.skip(i as int), e),
        decreases n - i,
    {
        proof {
            assert(avail@.skip(i as int)[0] == avail@[i as int]);
            assert(avail@.skip(i as int).skip(1) =~= avail@.skip(i + 1));
        }
        if avail[i].0 == e {
            return Some(avail[i].1);
        }
        i = i + 1;
    }
    proof {
        assert(avail@.skip(n as int) =~= Seq::<(ic::Expr, Symbol)>::empty());
    }
    None
}

/// Eliminate common subexpressions within one basic block.
pub fn elim_common_subexprs(block: &Vec<Instruction>) -> (r: Vec<Instruction>)
    ensures
        r@ == cse_block(block@, Seq::empty()),
{
    let ghost b = block@;
    let mut avail: Vec<(ic::Expr, Symbol)> = Vec::new();
    let mut out: Vec<Instruction> = Vec::new();
    let n = block.len();
    let mut i: usize = 0;
    proof {
        assert(avail@ =~= Seq::<(ic::Expr, Symbol)>::empty());
        assert(b.skip(0) =~= b);
    }
    while i < n
        invariant
            i <= n,
            n == b.len(),
            b == block@,
            cse_block(b, Seq::empty()) =~= out@ + cse_block(b.skip(i as int), avail@),
        decreases n - i,
    {
        proof {
            assert(b.skip(i as int)[0] == b[i as int]);
            assert(b.skip(i as int).subrange(1, b.skip(i as int).len() as int) =~= b.skip(i + 1));
        }
        let ins = block[i];
        let ghost out_pre = out@;
        match ins {
            Instruction::Assign(d, e) => {
                if matches!(e, ic::Expr::Binary(..)) || matches!(e, ic::Expr::Call(..)) {
                    match find_available(&avail, e) {
                        Some(p) => {
                            out.push(
                                Instruction::Assign(d, ic::Expr::Primary(ic::Primary::Var(p))),
                            );
                        },
                        None => {
                            avail.push((e, d));
                            out.push(ins);
                        },
                    }
                } else {
                    out.push(ins);
                }
            },
            _ => {
                out.push(ins);
            },
        }
        proof {
            assert(out@ =~= out_pre + seq![out@[out@.len() - 1]]);
            assert((out_pre + seq![out@[out@.len() - 1]]) + cse_block(b.skip(i + 1), avail@)
                =~= out_pre + (seq![out@[out@.len() - 1]] + cse_block(b.skip(i + 1), avail@)));
        }
        i = i + 1;
    }
    proof {
        assert(b.skip(n as int) =~= Seq::<Instruction>::empty());
        assert(cse_block(b, Seq::empty()) =~= out@);
    }
    out
}

/// Run the pass over a whole instruction list, block by block.
pub fn optimize_instructions(instrs: &Vec<Instruction>) -> (r: Vec<Instruction>)
    ensures
        r@ == cse_from(instrs@, Seq::empty()),
{
    let ghost b = instrs@;
    let mut avail: Vec<(ic::Expr, Symbol)> = Vec::new();
    let mut out: Vec<Instruction> = Vec::new();
    let n = instrs.len();
    let mut i: usize = 0;
    proof {
        assert(avail@ =~= Seq::<(ic::Expr, Symbol)>::empty());
        assert(b.skip(0) =~= b);
    }
    while i < n
        invariant
            i <= n,
            n == b.len(),
            b == instrs@,
            cse_from(b, Seq::empty()) =~= out@ + cse_from(b.skip(i as int), avail@),
        decreases n - i,
    {
        proof {
            assert(b.skip(i as int)[0] == b[i as int]);
            assert(b.skip(i as int).subrange(1, b.skip(i as int).len() as int) =~= b.skip(i + 1));
        }
        let ins = instrs[i];
        let ghost out_pre = out@;
        match ins {
            Instruction::Assign(d, e) => {
                if matches!(e, ic::Expr::Binary(..)) || matches!(e, ic::Expr::Call(..)) {
                    match find_available(&avail, e) {
                        Some(p) => {
                            out.push(
                                Instruction::Assign(d, ic::Expr::Primary(ic::Primary::Var(p))),
                            );
                        },
                        None => {
                            avail.push((e, d));
                            out.push(ins);
                        },
                    }
                } else {
                    out.push(ins);
                }
            },
            _ => {
                out.push(ins);
            },
        }
        if ins.is_ifz() || ins.is_label() {
            avail = Vec::new();
            proof {
                assert(avail@ =~= Seq::<(ic::Expr, Symbol)>::empty());
            }
        }
        proof {
            assert(out@ =~= out_pre + seq![out@[out@.len() - 1]]);
            assert((out_pre + seq![out@[out@.len() - 1]]) + cse_from(b.skip(i + 1), avail@)
                =~= out_pre + (seq![out@[out@.len() - 1]] + cse_from(b.skip(i + 1), avail@)));
        }
        i = i + 1;
    }
    proof {
        assert(b.skip(n as int) =~= Seq::<Instruction>::empty());
        assert(cse_from(b, Seq::empty()) =~= out@);
    }
    out
}

/// The pass is idempotent: re-running it on already-optimized output
/// changes nothing, whatever computations were available going in.
pub proof fn lemma_cse_idempotent_from(b: Seq<Instruction>, avail: Seq<(ic::Expr, Symbol)>)
    ensures
        cse_from(cse_from(b, avail), avail) == cse_from(b, avail),
    decreases b.len(),
{
    if b.len() > 0 {
        let (i2, av2) = cse_step(b[0], avail);
        let av3 = if is_boundary(b[0]) {
            Seq::<(ic::Expr, Symbol)>::empty()
        } else {
            av2
        };
        let rest = b.subrange(1, b.len() as int);
        lemma_cse_idempotent_from(rest, av3);
        let out = cse_from(b, avail);
        assert(out == seq![i2] + cse_from(rest, av3));
        assert(out[0] == i2);
        assert(out.subrange(1, out.len() as int) =~= cse_from(rest, av3));
        assert(cse_step(i2, avail).0 == i2);
        assert(cse_step(i2, avail).1 == cse_step(b[0], avail).1);
        assert(is_boundary(i2) == is_boundary(b[0]));
        assert(cse_from(out, avail) =~= seq![i2] + cse_from(cse_from(rest, av3), av3));
    }
}

/// Applying the optimizer twice yields the same instruction list as
/// applying it once.
pub proof fn lemma_cse_idempotent(b: Seq<Instruction>)
    ensures
        cse_from(cse_from(b, Seq::empty()), Seq::empty()) == cse_from(b, Seq::empty()),
{
    lemma_cse_idempotent_from(b, Seq::empty());
}

/// The available computations as processing reaches position `j`,
/// starting empty.
pub open spec fn avail_at(b: Seq<Instruction>, j: int) -> Seq<(ic::Expr, Symbol)>
    decreases j,
{
    if j <= 0 {
        Seq::empty()
    } else if is_boundary(b[j - 1]) {
        Seq::empty()
    } else {
        cse_step(b[j - 1], avail_at(b, j - 1)).1
    }
}

pub proof fn lemma_cse_from_len(b: Seq<Instruction>, avail: Seq<(ic::Expr, Symbol)>)
    ensures
        cse_from(b, avail).len() == b.len(),
    decreases b.len(),
{
    if b.len() > 0 {
        let (i2, av2) = cse_step(b[0], avail);
        let av3 = if is_boundary(b[0]) {
            Seq::<(ic::Expr, Symbol)>::empty()
        } else {
            av2
        };
        lemma_cse_from_len(b.subrange(1, b.len() as int), av3);
    }
}

/// Each output instruction is its input put through one step against
/// the computations available at its position.
pub proof fn lemma_cse_index(b: Seq<Instruction>, k: int, j: int)
    requires
        0 <= k <= j < b.len(),
    ensures
        cse_from(b.skip(k), avail_at(b, k)).len() == b.len() - k,
        cse_from(b.skip(k), avail_at(b, k))[j - k] == cse_step(b[j], avail_at(b, j)).0,
    decreases j - k,
{
    lemma_cse_from_len(b.skip(k), avail_at(b, k));
    let bk = b.skip(k);
    assert(bk[0] == b[k]);
    assert(bk.subrange(1, bk.len() as int) =~= b.skip(k + 1));
    if k < j {
        lemma_cse_index(b, k + 1, j);
    }
}

/// Two identical computations in one straight-line run are merged: the
/// later assignment is rewritten to copy the destination of the first
/// producer.
pub proof fn lemma_cse_merges(b: Seq<Instruction>, i: int, j: int, di: Symbol, dj: Symbol, e:
    ic::Expr)
    requires
        0 <= i < j < b.len(),
        b[i] == Instruction::Assign(di, e),
        b[j] == Instruction::Assign(dj, e),
        cse_candidate(e),
        forall|k: int| 0 <= k < j ==> !is_boundary(b[k]),
        forall|k: int| 0 <= k < i ==> !is_producer(b[k], e),
    ensures
        cse_from(b, Seq::empty()).len() == b.len(),
        cse_from(b, Seq::empty())[j] == Instruction::Assign(
            dj,
            ic::Expr::Primary(ic::Primary::Var(di)),
        ),
{
    lemma_cse_from_len(b, Seq::empty());
    lemma_avail_none_upto(b, e, i);
    assert(avail_at(b, i + 1) == avail_at(b, i).push((e, di)));
    lemma_find_avail_push(avail_at(b, i), (e, di), e);
    lemma_avail_some_from(b, e, di, i + 1, j);
    lemma_cse_index(b, 0, j);
    assert(b.skip(0) =~= b);
}

/// Up to the first producer, the computation is unavailable (no
/// boundaries in between).
proof fn lemma_avail_none_upto(b: Seq<Instruction>, e: ic::Expr, i: int)
    requires
        0 <= i < b.len(),
        forall|k: int| 0 <= k < i ==> !is_boundary(b[k]),
        forall|k: int| 0 <= k < i ==> !is_producer(b[k], e),
    ensures
        find_avail(avail_at(b, i), e) is None,
    decreases i,
{
    if i == 0 {
    } else {
        lemma_avail_none_upto(b, e, i - 1);
        match b[i - 1] {
            Instruction::Assign(d, e2) => {
                if cse_candidate(e2) && find_avail(avail_at(b, i - 1), e2) is None {
                    lemma_find_avail_push(avail_at(b, i - 1), (e2, d), e);
                }
            },
            _ => {},
        }
    }
}

/// Once a producer's destination is recorded, it stays the first match
/// through the rest of the straight-line run.
proof fn lemma_avail_some_from(b: Seq<Instruction>, e: ic::Expr, di: Symbol, from: int, j: int)
    requires
        0 < from <= j < b.len(),
        find_avail(avail_at(b, from), e) == Some(di),
        forall|k: int| 0 <= k < j ==> !is_boundary(b[k]),
    ensures
        find_avail(avail_at(b, j), e) == Some(di),
    decreases j - from,
{
    if from < j {
        match b[from] {
            Instruction::Assign(d, e2) => {
                if cse_candidate(e2) && find_avail(avail_at(b, from), e2) is None {
                    lemma_find_avail_push(avail_at(b, from), (e2, d), e);
                }
            },
            _ => {},
        }
        lemma_avail_some_from(b, e, di, from + 1, j);
    }
}

/// Two identical computations separated by a block boundary are not
/// merged: with a boundary at `m` and no producer of the computation
/// after it, the later assignment passes through unchanged, whatever
/// stood before the boundary.
pub proof fn lemma_cse_blocked(b: Seq<Instruction>, m: int, j: int, dj: Symbol, e: ic::Expr)
    requires
        0 <= m < j < b.len(),
        is_boundary(b[m]),
        b[j] == Instruction::Assign(dj, e),
        forall|k: int| m < k < j ==> !is_producer(b[k], e),
        forall|k: int| m < k < j ==> !is_boundary(b[k]),
    ensures
        cse_from(b, Seq::empty()).len() == b.len(),
        cse_from(b, Seq::empty())[j] == b[j],
{
    lemma_cse_from_len(b, Seq::empty());
    lemma_avail_none_between(b, e, m, j);
    lemma_cse_index(b, 0, j);
    assert(b.skip(0) =~= b);
}

proof fn lemma_avail_none_between(b: Seq<Instruction>, e: ic::Expr, m: int, j: int)
    requires
        0 <= m < j < b.len(),
        is_boundary(b[m]),
        forall|k: int| m < k < j ==> !is_producer(b[k], e),
        forall|k: int| m < k < j ==> !is_boundary(b[k]),
    ensures
        find_avail(avail_at(b, j), e) is None,
    decreases j - m,
{
    if j == m + 1 {
        assert(avail_at(b, j) =~= Seq::<(ic::Expr, Symbol)>::empty());
    } else {
        lemma_avail_none_between(b, e, m, j - 1);
        match b[j - 1] {
            Instruction::Assign(d, e2) => {
                if cse_candidate(e2) && find_avail(avail_at(b, j - 1), e2) is None {
                    lemma_find_avail_push(avail_at(b, j - 1), (e2, d), e);
                }
            },
            _ => {},
        }
    }
}

} // verus!
