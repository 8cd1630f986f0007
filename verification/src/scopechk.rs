//! The scope checker: walks a module depth-first, keeping a stack of
//! lexical scopes, and reports every reference to an undeclared name,
//! every redeclaration within one scope, and every variable referenced
//! in its own initializer. The diagnostics are advisory: checking
//! continues past them and does not gate code generation.

use vstd::prelude::*;

use crate::ast::{view_block, view_expr, view_expr_list, view_stmt, Expr, ExprKindV, ExprV, FuncProto, Param, Stmt, StmtKindV, StmtV};
use crate::ast::{ExprKind, StmtKind};
use crate::interner::Symbol;

verus! {

/// One name bound in a scope, with its is-initialized flag.
#[derive(Debug, Clone, Copy, PartialEq, Eq, Structural)]
pub struct Binding {
    pub name: Symbol,
    pub init: bool,
}

/// The kinds of scope diagnostics.
#[derive(Debug, Clone, Copy, PartialEq, Eq, Structural)]
pub enum ScopeErrorKind {
    /// The name is declared twice within the same scope.
    AlreadyExists,
    /// The name is not declared in any enclosing scope.
    NotDefined,
    /// A variable is referenced in its own initializer.
    SelfReference,
}

/// A scope diagnostic: what went wrong, and with which name.
#[derive(Debug, Clone, Copy, PartialEq, Eq, Structural)]
pub struct ScopeError {
    pub kind: ScopeErrorKind,
    pub name: Symbol,
}

/// The index of the binding of `name` in one scope, or -1.
pub open spec fn find_binding(scope: Seq<Binding>, name: Symbol) -> int
    decreases scope.len(),
{
    if scope.len() == 0 {
        -1
    } else if scope[0].name == name {
        0
    } else {
        let rest = find_binding(scope.skip(1), name);
        if rest == -1 {
            -1
        } else {
            rest + 1
        }
    }
}

pub proof fn lemma_find_binding(scope: Seq<Binding>, name: Symbol)
    ensures
        find_binding(scope, name) == -1 ==> forall|j: int|
            0 <= j < scope.len() ==> scope[j].name != name,
        find_binding(scope, name) != -1 ==> {
            let k = find_binding(scope, name);
            &&& 0 <= k < scope.len()
            &&& scope[k].name == name
            &&& forall|j: int| 0 <= j < k ==> scope[j].name != name
        },
    decreases scope.len(),
{
    if scope.len() > 0 && scope[0].name != name {
        lemma_find_binding(scope.skip(1), name);
        assert(forall|j: int| 1 <= j < scope.len() ==> scope[j] == scope.skip(1)[j - 1]);
    }
}

/// Whether any scope on the stack binds `name`.
pub open spec fn in_any_scope(sc: Seq<Seq<Binding>>, name: Symbol) -> bool {
    exists|i: int| 0 <= i < sc.len() && find_binding(sc[i], name) >= 0
}

/// Declaring a name: an error when the current (innermost) scope
/// already binds it, otherwise bound uninitialized.
pub open spec fn spec_declare(sc: Seq<Seq<Binding>>, name: Symbol) -> (
    Seq<Seq<Binding>>,
    Seq<ScopeError>,
) {
    if sc.len() == 0 {
        (sc, Seq::empty())
    } else {
        let cur = sc.last();
        if find_binding(cur, name) >= 0 {
            (sc, seq![ScopeError { kind: ScopeErrorKind::AlreadyExists, name }])
        } else {
            (
                sc.update(sc.len() - 1, cur.push(Binding { name, init: false })),
                Seq::empty(),
            )
        }
    }
}

/// Defining a name: its flag in the current scope flips to
/// initialized; an unbound name is bound initialized.
pub open spec fn spec_define(sc: Seq<Seq<Binding>>, name: Symbol) -> Seq<Seq<Binding>> {
    if sc.len() == 0 {
        sc
    } else {
        let cur = sc.last();
        let k = find_binding(cur, name);
        if k >= 0 {
            sc.update(sc.len() - 1, cur.update(k, Binding { name, init: true }))
        } else {
            sc.update(sc.len() - 1, cur.push(Binding { name, init: true }))
        }
    }
}

/// Looking a name up, innermost scope first: a diagnostic when no
/// scope binds it.
pub open spec fn spec_check_local(sc: Seq<Seq<Binding>>, name: Symbol) -> Seq<ScopeError> {
    if in_any_scope(sc, name) {
        Seq::empty()
    } else {
        seq![ScopeError { kind: ScopeErrorKind::NotDefined, name }]
    }
}

/// Checking a variable reference: referenced-in-own-initializer when
/// the current scope binds it uninitialized, and then the lookup.
pub open spec fn spec_check_variable(sc: Seq<Seq<Binding>>, name: Symbol) -> Seq<ScopeError> {
    let self_ref: Seq<ScopeError> = if sc.len() > 0 && {
        let k = find_binding(sc.last(), name);
        k >= 0 && !sc.last()[k].init
    } {
        seq![ScopeError { kind: ScopeErrorKind::SelfReference, name }]
    } else {
        Seq::empty()
    };
    self_ref + spec_check_local(sc, name)
}

/// Checking an expression: the scope stack afterwards and the
/// diagnostics produced, in order.
pub open spec fn sc_expr(e: ExprV, sc: Seq<Seq<Binding>>) -> (Seq<Seq<Binding>>, Seq<ScopeError>)
    decreases e,
{
    match e.kind {
        ExprKindV::Lit(_) => (sc, Seq::empty()),
        ExprKindV::Variable(name) => (sc, spec_check_variable(sc, name)),
        ExprKindV::Unary(_, rhs) => sc_expr(*rhs, sc),
        ExprKindV::Binary(_, lhs, rhs) => {
            let (sc1, e1) = sc_expr(*lhs, sc);
            let (sc2, e2) = sc_expr(*rhs, sc1);
            (sc2, e1 + e2)
        },
        ExprKindV::Call(fn_name, args) => {
            let e0 = spec_check_local(sc, fn_name);
            let (sc1, e1) = sc_expr_list(args, sc);
            (sc1, e0 + e1)
        },
        ExprKindV::Cond(cond, then_block, else_block) => {
            let (sc1, e1) = sc_expr(*cond, sc);
            let (sc2, e2) = sc_stmts(then_block, sc1);
            match else_block {
                Some(els) => {
                    let (sc3, e3) = sc_stmts(els, sc2);
                    (sc3, e1 + e2 + e3)
                },
                None => (sc2, e1 + e2),
            }
        },
        ExprKindV::Assign(name, value) => {
            let (sc1, e1) = sc_expr(*value, sc);
            (sc1, e1 + spec_check_local(sc1, name))
        },
    }
}

/// Checking each expression of a list, in order.
pub open spec fn sc_expr_list(args: Seq<ExprV>, sc: Seq<Seq<Binding>>) -> (
    Seq<Seq<Binding>>,
    Seq<ScopeError>,
)
    decreases args,
{
    if args.len() == 0 {
        (sc, Seq::empty())
    } else {
        let (sc1, e1) = sc_expr(args[0], sc);
        let (sc2, e2) = sc_expr_list(args.subrange(1, args.len() as int), sc1);
        (sc2, e1 + e2)
    }
}

/// Checking one statement.
pub open spec fn sc_stmt(st: StmtV, sc: Seq<Seq<Binding>>) -> (Seq<Seq<Binding>>, Seq<ScopeError>)
    decreases st,
{
    match st.kind {
        StmtKindV::Expr(e) => sc_expr(*e, sc),
        StmtKindV::Ret(e) => sc_expr(*e, sc),
        StmtKindV::Var(name, init) => {
            // declare before checking the initializer, define after, so
            // a reference to the name inside the initializer is caught
            let (sc1, e1) = spec_declare(sc, name);
            let (sc2, e2) = sc_expr(*init, sc1);
            (spec_define(sc2, name), e1 + e2)
        },
        StmtKindV::Block(stmts) => {
            let (sc1, e1) = sc_stmts(stmts, sc.push(Seq::empty()));
            (pop_scope(sc1), e1)
        },
        StmtKindV::Func(proto, body) => {
            // the name is declared in the enclosing scope, visible to
            // siblings and recursive calls
            let (sc1, e1) = spec_declare(sc, proto.name);
            let sc2 = spec_define(sc1, proto.name);
            let (sc3, ep) = sc_params(proto.params, sc2.push(Seq::empty()));
            let (sc4, e2) = sc_stmts(body, sc3);
            (pop_scope(sc4), e1 + (ep + e2))
        },
        StmtKindV::Extern(proto) => {
            // extern declares the name; the linker finds the function
            let (sc1, e1) = spec_declare(sc, proto.name);
            (spec_define(sc1, proto.name), e1)
        },
        StmtKindV::Impt(_) => (sc, Seq::empty()),
    }
}

/// Checking each statement of a block or module, in order.
pub open spec fn sc_stmts(stmts: Seq<StmtV>, sc: Seq<Seq<Binding>>) -> (
    Seq<Seq<Binding>>,
    Seq<ScopeError>,
)
    decreases stmts,
{
    if stmts.len() == 0 {
        (sc, Seq::empty())
    } else {
        let (sc1, e1) = sc_stmt(stmts[0], sc);
        let (sc2, e2) = sc_stmts(stmts.subrange(1, stmts.len() as int), sc1);
        (sc2, e1 + e2)
    }
}

/// Binding each parameter as already defined: parameters have no
/// initializer-order hazard, though a repeated parameter name is still
/// a redeclaration.
pub open spec fn sc_params(params: Seq<Param>, sc: Seq<Seq<Binding>>) -> (
    Seq<Seq<Binding>>,
    Seq<ScopeError>,
)
    decreases params,
{
    if params.len() == 0 {
        (sc, Seq::empty())
    } else {
        let (sc1, e1) = spec_declare(sc, params[0].name);
        let sc2 = spec_define(sc1, params[0].name);
        let (sc3, e2) = sc_params(params.subrange(1, params.len() as int), sc2);
        (sc3, e1 + e2)
    }
}

/// The stack with its innermost scope removed; the global scope at the
/// base is never removed.
pub open spec fn pop_scope(sc: Seq<Seq<Binding>>) -> Seq<Seq<Binding>> {
    if sc.len() == 0 {
        sc
    } else {
        sc.drop_last()
    }
}

/// The scope checker: a stack of scopes, innermost last, with the
/// global scope at the base, and the diagnostics reported so far.
pub struct ScopeChecker {
    pub scopes: Vec<Vec<Binding>>,
    pub errors: Vec<ScopeError>,
}

impl ScopeChecker {
    pub open spec fn stack(self) -> Seq<Seq<Binding>> {
        self.scopes@.map_values(|s: Vec<Binding>| s@)
    }

    pub open spec fn wf(self) -> bool {
        self.scopes@.len() >= 1
    }

    /// A fresh checker: one empty global scope, no diagnostics.
    pub fn new() -> (r: ScopeChecker)
        ensures
            r.wf(),
            r.stack() =~= seq![Seq::<Binding>::empty()],
            r.errors@ == Seq::<ScopeError>::empty(),
    {
        let mut scopes: Vec<Vec<Binding>> = Vec::new();
        scopes.push(Vec::new());
        let r = ScopeChecker { scopes, errors: Vec::new() };
        proof {
            assert(r.errors@ =~= Seq::<ScopeError>::empty());
        }
        r
    }

    fn start_scope(&mut self)
        requires
            old(self).wf(),
        ensures
            final(self).wf(),
            final(self).stack() =~= old(self).stack().push(Seq::<Binding>::empty()),
            final(self).errors == old(self).errors,
    {
        self.scopes.push(Vec::new());
    }

    fn end_scope(&mut self)
        requires
            old(self).wf(),
            old(self).scopes@.len() >= 2,
        ensures
            final(self).wf(),
            final(self).stack() =~= pop_scope(old(self).stack()),
            final(self).errors == old(self).errors,
    {
        self.scopes.pop();
    }

    /// The index of `name` in the current (innermost) scope, or the
    /// scope's length when it is unbound.
    fn find_current(&self, name: Symbol) -> (r: usize)
        requires
            self.wf(),
        ensures
            ({
                let cur = self.stack().last();
                let k = find_binding(cur, name);
                if k >= 0 {
                    r == k
                } else {
                    r == cur.len()
                }
            }),
    {
        let cur = &self.scopes[self.scopes.len() - 1];
        proof {
            assert(self.stack().last() == cur@);
        }
        find_in_scope(cur, name)
    }

    fn declare(&mut self, name: Symbol)
        requires
            old(self).wf(),
        ensures
            final(self).wf(),
            ({
                let (sc, errs) = spec_declare(old(self).stack(), name);
                final(self).stack() =~= sc && final(self).errors@ == old(self).errors@ + errs
            }),
    {
        proof {
            lemma_find_binding(self.stack().last(), name);
        }
        let k = self.find_current(name);
        let mut cur = match self.scopes.pop() {
            Some(c) => c,
            None => {
                return ;
            },
        };
        if k < cur.len() {
            self.scopes.push(cur);
            self.errors.push(ScopeError { kind: ScopeErrorKind::AlreadyExists, name });
            proof {
                assert(self.stack() =~~= old(self).stack());
                assert(self.errors@ =~= old(self).errors@ + seq![
                    ScopeError { kind: ScopeErrorKind::AlreadyExists, name },
                ]);
            }
        } else {
            cur.push(Binding { name, init: false });
            let ghost curv = cur@;
            self.scopes.push(cur);
            proof {
                assert(self.scopes@[self.scopes@.len() - 1]@ == curv);
                let pre = old(self).stack();
                let post = self.stack();
                let want = spec_declare(old(self).stack(), name).0;
                assert(pre.last() == old(self).scopes@[old(self).scopes@.len() - 1]@);
                assert(post.len() == want.len());
                assert forall|i: int| 0 <= i < post.len() implies post[i] == want[i] by {
                    assert(post[i] == self.scopes@[i]@);
                    if i < post.len() - 1 {
                        assert(self.scopes@[i] == old(self).scopes@[i]);
                        assert(want[i] == pre[i]);
                        assert(pre[i] == old(self).scopes@[i]@);
                    } else {
                        assert(i == self.scopes@.len() - 1);
                        assert(post[i] == curv);
                        assert(curv =~= pre.last().push(Binding { name, init: false }));
                        assert(want[i] == pre.last().push(Binding { name, init: false }));
                    }
                    assert(post[i] =~= want[i]);
                }
                assert(post =~= want);
                assert(self.errors@ =~= old(self).errors@ + Seq::<ScopeError>::empty());
            }
        }
    }

    fn define(&mut self, name: Symbol)
        requires
            old(self).wf(),
        ensures
            final(self).wf(),
            final(self).stack() =~= spec_define(old(self).stack(), name),
            final(self).errors == old(self).errors,
    {
        proof {
            lemma_find_binding(self.stack().last(), name);
        }
        let k = self.find_current(name);
        let mut cur = match self.scopes.pop() {
            Some(c) => c,
            None => {
                return ;
            },
        };
        if k < cur.len() {
            cur.set(k, Binding { name, init: true });
            self.scopes.push(cur);
            proof {
                let pre = old(self).stack();
                let post = self.stack();
                let want = spec_define(old(self).stack(), name);
                assert(pre.last() == old(self).scopes@[old(self).scopes@.len() - 1]@);
                assert(post.len() == want.len());
                assert forall|i: int| 0 <= i < post.len() implies post[i] == want[i] by {
                    assert(post[i] == self.scopes@[i]@);
                    if i < post.len() - 1 {
                        assert(self.scopes@[i] == old(self).scopes@[i]);
                        assert(want[i] == pre[i]);
                        assert(pre[i] == old(self).scopes@[i]@);
                    } else {
                        assert(self.scopes@[i]@ =~= pre.last().update(
                            find_binding(pre.last(), name),
                            Binding { name, init: true },
                        ));
                    }
                    assert(post[i] =~= want[i]);
                }
                assert(post =~= want);
            }
        } else {
            cur.push(Binding { name, init: true });
            self.scopes.push(cur);
            proof {
                let pre = old(self).stack();
                let post = self.stack();
                let want = spec_define(old(self).stack(), name);
                assert(pre.last() == old(self).scopes@[old(self).scopes@.len() - 1]@);
                assert(post.len() == want.len());
                assert forall|i: int| 0 <= i < post.len() implies post[i] == want[i] by {
                    assert(post[i] == self.scopes@[i]@);
                    if i < post.len() - 1 {
                        assert(self.scopes@[i] == old(self).scopes@[i]);
                        assert(want[i] == pre[i]);
                        assert(pre[i] == old(self).scopes@[i]@);
                    } else {
                        assert(self.scopes@[i]@ =~= pre.last().push(
                            Binding { name, init: true },
                        ));
                    }
                    assert(post[i] =~= want[i]);
                }
                assert(post =~= want);
            }
        }
    }

    /// Scan every scope, innermost first, and report a name no scope
    /// binds.
    fn check_local(&mut self, name: Symbol)
        requires
            old(self).wf(),
        ensures
            final(self).wf(),
            final(self).scopes == old(self).scopes,
            final(self).errors@ == old(self).errors@ + spec_check_local(old(self).stack(), name),
    {
        let n = self.scopes.len();
        let mut i: usize = n;
        while i > 0
            invariant
                i <= n,
                self.wf(),
                *self == *old(self),
                n == self.scopes@.len(),
                forall|j: int| i <= j < n ==> find_binding(self.stack()[j], name) < 0,
            decreases i,
        {
            i = i - 1;
            let cur = &self.scopes[i];
            proof {
                assert(self.stack()[i as int] == cur@);
                lemma_find_binding(cur@, name);
            }
            let k = find_in_scope(cur, name);
            if k < cur.len() {
                proof {
                    assert(find_binding(self.stack()[i as int], name) >= 0);
                    assert(in_any_scope(self.stack(), name));
                    assert(self.errors@ =~= old(self).errors@ + Seq::<ScopeError>::empty());
                }
                return ;
            }
        }
        proof {
            assert(forall|j: int| 0 <= j < n ==> find_binding(self.stack()[j], name) < 0);
            assert(!in_any_scope(self.stack(), name));
        }
        self.errors.push(ScopeError { kind: ScopeErrorKind::NotDefined, name });
        proof {
            assert(self.errors@ =~= old(self).errors@ + seq![
                ScopeError { kind: ScopeErrorKind::NotDefined, name },
            ]);
        }
    }
}

impl ScopeChecker {
    /// Check a whole module or the statements of one block, in order.
    pub fn check(&mut self, module: &Vec<Box<Stmt>>)
        requires
            old(self).wf(),
        ensures
            final(self).wf(),
            final(self).scopes@.len() == old(self).scopes@.len(),
            ({
                let (sc, errs) = sc_stmts(view_block(module@), old(self).stack());
                final(self).stack() == sc && final(self).errors@ == old(self).errors@ + errs
            }),
        decreases module@, 0int,
    {
        proof {
            crate::ast::lemma_view_block_index(module@);
        }
        let ghost v = view_block(module@);
        let ghost sc0 = self.stack();
        let ghost e0 = self.errors@;
        let n = module.len();
        let mut i: usize = 0;
        proof {
            assert(v.skip(0) =~= v);
            assert(e0 + Seq::<ScopeError>::empty() =~= e0);
        }
        while i < n
            invariant
                i <= n,
                self.wf(),
                n == module@.len(),
                v == view_block(module@),
                v.len() == n,
                forall|k: int| 0 <= k < n ==> v[k] == view_stmt(*module@[k]),
                self.scopes@.len() == old(self).scopes@.len(),
                sc0 == old(self).stack(),
                e0 == old(self).errors@,
                sc_stmts(v, sc0).0 == sc_stmts(v.skip(i as int), self.stack()).0,
                sc_stmts(v, sc0).1 =~= (self.errors@.skip(e0.len() as int)) + sc_stmts(
                    v.skip(i as int),
                    self.stack(),
                ).1,
                self.errors@.take(e0.len() as int) == e0,
                e0.len() <= self.errors@.len(),
            decreases n - i,
        {
            let ghost pre_stack = self.stack();
            let ghost pre_errors = self.errors@;
            self.check_stmt(&module[i]);
            proof {
                assert(v.skip(i as int)[0] == v[i as int]);
                assert(v.skip(i as int).subrange(1, v.skip(i as int).len() as int) =~= v.skip(
                    i + 1,
                ));
                let (sc1, er1) = sc_stmt(v[i as int], pre_stack);
                let rest = sc_stmts(v.skip(i + 1), self.stack());
                assert(self.errors@.skip(e0.len() as int) =~= pre_errors.skip(e0.len() as int)
                    + er1);
                assert((pre_errors.skip(e0.len() as int) + er1) + rest.1 =~= pre_errors.skip(
                    e0.len() as int,
                ) + (er1 + rest.1));
                assert(self.errors@.take(e0.len() as int) =~= e0);
            }
            i = i + 1;
        }
        proof {
            assert(v.skip(n as int) =~= Seq::<StmtV>::empty());
            assert(self.errors@ =~= e0 + self.errors@.skip(e0.len() as int));
        }
    }

    /// Check one expression.
    pub fn check_expr(&mut self, expr: &Expr)
        requires
            old(self).wf(),
        ensures
            final(self).wf(),
            final(self).scopes@.len() == old(self).scopes@.len(),
            ({
                let (sc, errs) = sc_expr(view_expr(*expr), old(self).stack());
                final(self).stack() == sc && final(self).errors@ == old(self).errors@ + errs
            }),
        decreases *expr, 1int,
    {
        let ghost e0 = self.errors@;
        match &expr.kind {
            ExprKind::Lit(_) => {
                proof {
                    assert(self.errors@ =~= e0 + Seq::<ScopeError>::empty());
                }
            },
            ExprKind::Variable(name) => {
                let name = *name;
                // a variable named in its own initializer is still
                // uninitialized in the current scope
                proof {
                    lemma_find_binding(self.stack().last(), name);
                }
                let k = self.find_current(name);
                let last = self.scopes.len() - 1;
                let cur_len = self.scopes[last].len();
                if k < cur_len {
                    let initialized = self.scopes[last][k].init;
                    if !initialized {
                        self.errors.push(
                            ScopeError { kind: ScopeErrorKind::SelfReference, name },
                        );
                    }
                }
                self.check_local(name);
                proof {
                    assert(self.errors@ =~= e0 + spec_check_variable(old(self).stack(), name));
                }
            },
            ExprKind::Unary(_, rhs) => {
                self.check_expr(rhs);
            },
            ExprKind::Binary(_, lhs, rhs) => {
                self.check_expr(lhs);
                self.check_expr(rhs);
                proof {
                    let (sc1, er1) = sc_expr(view_expr(**lhs), old(self).stack());
                    let (sc2, er2) = sc_expr(view_expr(**rhs), sc1);
                    assert(self.errors@ =~= e0 + (er1 + er2));
                }
            },
            ExprKind::Call(fn_name, args) => {
                let fn_name = *fn_name;
                self.check_local(fn_name);
                self.check_args(args);
                proof {
                    let er0 = spec_check_local(old(self).stack(), fn_name);
                    let (sc1, er1) = sc_expr_list(
                        view_expr_list(args@),
                        old(self).stack(),
                    );
                    assert(self.errors@ =~= e0 + (er0 + er1));
                }
            },
            ExprKind::Cond(condition, then_block, else_block) => {
                self.check_expr(condition);
                self.check(then_block);
                match else_block {
                    Some(els) => {
                        self.check(els);
                        proof {
                            let (sc1, er1) = sc_expr(view_expr(**condition), old(self).stack());
                            let (sc2, er2) = sc_stmts(view_block(then_block@), sc1);
                            let (sc3, er3) = sc_stmts(view_block(els@), sc2);
                            assert(self.errors@ =~= e0 + (er1 + er2 + er3));
                        }
                    },
                    None => {
                        proof {
                            let (sc1, er1) = sc_expr(view_expr(**condition), old(self).stack());
                            let (sc2, er2) = sc_stmts(view_block(then_block@), sc1);
                            assert(self.errors@ =~= e0 + (er1 + er2));
                        }
                    },
                }
            },
            ExprKind::Assign(name, value) => {
                let name = *name;
                self.check_expr(value);
                self.check_local(name);
                proof {
                    let (sc1, er1) = sc_expr(view_expr(**value), old(self).stack());
                    assert(self.errors@ =~= e0 + (er1 + spec_check_local(sc1, name)));
                }
            },
        }
    }

    /// Check each argument of a call, in order.
    fn check_args(&mut self, args: &Vec<Box<Expr>>)
        requires
            old(self).wf(),
        ensures
            final(self).wf(),
            final(self).scopes@.len() == old(self).scopes@.len(),
            ({
                let (sc, errs) = sc_expr_list(view_expr_list(args@), old(self).stack());
                final(self).stack() == sc && final(self).errors@ == old(self).errors@ + errs
            }),
        decreases args@, 0int,
    {
        proof {
            crate::ast::lemma_view_expr_list_index(args@);
        }
        let ghost v = view_expr_list(args@);
        let ghost e0 = self.errors@;
        let n = args.len();
        let mut i: usize = 0;
        proof {
            assert(v.skip(0) =~= v);
            assert(e0 + Seq::<ScopeError>::empty() =~= e0);
        }
        while i < n
            invariant
                i <= n,
                self.wf(),
                n == args@.len(),
                v == view_expr_list(args@),
                v.len() == n,
                forall|k: int| 0 <= k < n ==> v[k] == view_expr(*args@[k]),
                self.scopes@.len() == old(self).scopes@.len(),
                e0 == old(self).errors@,
                sc_expr_list(v, old(self).stack()).0 == sc_expr_list(
                    v.skip(i as int),
                    self.stack(),
                ).0,
                sc_expr_list(v, old(self).stack()).1 =~= (self.errors@.skip(e0.len() as int))
                    + sc_expr_list(v.skip(i as int), self.stack()).1,
                self.errors@.take(e0.len() as int) == e0,
                e0.len() <= self.errors@.len(),
            decreases n - i,
        {
            let ghost pre_stack = self.stack();
            let ghost pre_errors = self.errors@;
            self.check_expr(&args[i]);
            proof {
                assert(v.skip(i as int)[0] == v[i as int]);
                assert(v.skip(i as int).subrange(1, v.skip(i as int).len() as int) =~= v.skip(
                    i + 1,
                ));
                let (sc1, er1) = sc_expr(v[i as int], pre_stack);
                let rest = sc_expr_list(v.skip(i + 1), self.stack());
                assert(self.errors@.skip(e0.len() as int) =~= pre_errors.skip(e0.len() as int)
                    + er1);
                assert((pre_errors.skip(e0.len() as int) + er1) + rest.1 =~= pre_errors.skip(
                    e0.len() as int,
                ) + (er1 + rest.1));
                assert(self.errors@.take(e0.len() as int) =~= e0);
            }
            i = i + 1;
        }
        proof {
            assert(v.skip(n as int) =~= Seq::<ExprV>::empty());
            assert(self.errors@ =~= e0 + self.errors@.skip(e0.len() as int));
        }
    }

    /// Check one statement.
    fn check_stmt(&mut self, stmt: &Stmt)
        requires
            old(self).wf(),
        ensures
            final(self).wf(),
            final(self).scopes@.len() == old(self).scopes@.len(),
            ({
                let (sc, errs) = sc_stmt(view_stmt(*stmt), old(self).stack());
                final(self).stack() == sc && final(self).errors@ == old(self).errors@ + errs
            }),
        decreases *stmt, 1int,
    {
        let ghost e0 = self.errors@;
        match &stmt.kind {
            StmtKind::Expr(e) => {
                self.check_expr(e);
            },
            StmtKind::Ret(value) => {
                self.check_expr(value);
            },
            StmtKind::Var(name, init) => {
                let name = *name;
                // declare before checking the initializer, define after
                self.declare(name);
                self.check_expr(init);
                self.define(name);
                proof {
                    let (sc1, er1) = spec_declare(old(self).stack(), name);
                    let (sc2, er2) = sc_expr(view_expr(**init), sc1);
                    assert(self.errors@ =~= e0 + (er1 + er2));
                }
            },
            StmtKind::Block(stmts) => {
                self.start_scope();
                self.check(stmts);
                self.end_scope();
                proof {
                    assert(self.errors@ =~= e0 + (self.errors@.skip(e0.len() as int)));
                    let (sc1, er1) = sc_stmts(
                        view_block(stmts@),
                        old(self).stack().push(Seq::empty()),
                    );
                    assert(self.errors@ =~= e0 + er1);
                }
            },
            StmtKind::Func(proto, body) => {
                let proto_name = proto.name;
                self.declare(proto_name);
                self.define(proto_name);
                self.check_function(proto, body);
                proof {
                    let (sc1, er1) = spec_declare(old(self).stack(), proto_name);
                    let sc2 = spec_define(sc1, proto_name);
                    let (sc3, ep) = sc_params(proto.params@, sc2.push(Seq::empty()));
                    let (sc4, er2) = sc_stmts(view_block(body@), sc3);
                    assert(self.errors@ =~= e0 + (er1 + (ep + er2)));
                }
            },
            StmtKind::Extern(proto) => {
                // extern declares the name; the linker finds the function
                let proto_name = proto.name;
                self.declare(proto_name);
                self.define(proto_name);
                proof {
                    let (sc1, er1) = spec_declare(old(self).stack(), proto_name);
                    assert(self.errors@ =~= e0 + er1);
                }
            },
            StmtKind::Impt(_) => {
                proof {
                    assert(self.errors@ =~= e0 + Seq::<ScopeError>::empty());
                }
            },
        }
    }

    /// Check a function: a fresh scope holding the parameters, already
    /// defined, and then the body in that same scope.
    fn check_function(&mut self, proto: &FuncProto, body: &Vec<Box<Stmt>>)
        requires
            old(self).wf(),
        ensures
            final(self).wf(),
            final(self).scopes@.len() == old(self).scopes@.len(),
            ({
                let (sc3, ep) = sc_params(proto.params@, old(self).stack().push(Seq::empty()));
                let (sc4, errs) = sc_stmts(view_block(body@), sc3);
                final(self).stack() == pop_scope(sc4) && final(self).errors@ == old(
                    self,
                ).errors@ + (ep + errs)
            }),
        decreases body@, 1int,
    {
        let ghost e0 = self.errors@;
        self.start_scope();
        self.declare_params(&proto.params);
        self.check(body);
        self.end_scope();
        proof {
            let (sc3, ep) = sc_params(proto.params@, old(self).stack().push(Seq::empty()));
            let (sc4, errs) = sc_stmts(view_block(body@), sc3);
            assert(self.errors@ =~= e0 + (ep + errs));
        }
    }

    /// Bind each parameter in the current scope, already defined.
    fn declare_params(&mut self, params: &Vec<Param>)
        requires
            old(self).wf(),
        ensures
            final(self).wf(),
            final(self).scopes@.len() == old(self).scopes@.len(),
            ({
                let (sc, errs) = sc_params(params@, old(self).stack());
                final(self).stack() == sc && final(self).errors@ == old(self).errors@ + errs
            }),
    {
        let ghost e0 = self.errors@;
        let n = params.len();
        let mut i: usize = 0;
        proof {
            assert(params@.skip(0) =~= params@);
            assert(e0 + Seq::<ScopeError>::empty() =~= e0);
        }
        while i < n
            invariant
                i <= n,
                self.wf(),
                n == params@.len(),
                self.scopes@.len() == old(self).scopes@.len(),
                e0 == old(self).errors@,
                sc_params(params@, old(self).stack()).0 == sc_params(
                    params@.skip(i as int),
                    self.stack(),
                ).0,
                sc_params(params@, old(self).stack()).1 =~= (self.errors@.skip(
                    e0.len() as int,
                )) + sc_params(params@.skip(i as int), self.stack()).1,
                self.errors@.take(e0.len() as int) == e0,
                e0.len() <= self.errors@.len(),
            decreases n - i,
        {
            let p = params[i];
            let ghost pre_stack = self.stack();
            let ghost pre_errors = self.errors@;
            self.declare(p.name);
            self.define(p.name);
            proof {
                assert(params@.skip(i as int)[0] == params@[i as int]);
                assert(params@.skip(i as int).subrange(
                    1,
                    params@.skip(i as int).len() as int,
                ) =~= params@.skip(i + 1));
                let (sc1, er1) = spec_declare(pre_stack, p.name);
                let rest = sc_params(params@.skip(i + 1), self.stack());
                assert(self.errors@.skip(e0.len() as int) =~= pre_errors.skip(e0.len() as int)
                    + er1);
                assert((pre_errors.skip(e0.len() as int) + er1) + rest.1 =~= pre_errors.skip(
                    e0.len() as int,
                ) + (er1 + rest.1));
                assert(self.errors@.take(e0.len() as int) =~= e0);
            }
            i = i + 1;
        }
        proof {
            assert(params@.skip(n as int) =~= Seq::<Param>::empty());
            assert(self.errors@ =~= e0 + self.errors@.skip(e0.len() as int));
        }
    }
}

/// The index of `name` in one scope, or the scope's length when it is
/// unbound.
fn find_in_scope(scope: &Vec<Binding>, name: Symbol) -> (r: usize)
    ensures
        ({
            let k = find_binding(scope@, name);
            if k >= 0 {
                r == k
            } else {
                r == scope@.len()
            }
        }),
{
    let n = scope.len();
    let mut i: usize = 0;
    while i < n
        invariant
            i <= n,
            n == scope@.len(),
            forall|j: int| 0 <= j < i ==> scope@[j].name != name,
        decreases n - i,
    {
        if scope[i].name == name {
            proof {
                lemma_find_binding(scope@, name);
            }
            return i;
        }
        i = i + 1;
    }
    proof {
        lemma_find_binding(scope@, name);
    }
    n
}

} // verus!} // verus!
