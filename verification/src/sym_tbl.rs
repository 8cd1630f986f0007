//! A chained symbol table: names bound in one lexical environment,
//! with an optional enclosing environment consulted when a lookup
//! misses.

use vstd::prelude::*;

use std::rc::Rc;

use crate::ast::{FuncProto, Type};
use crate::interner::Symbol;

verus! {

/// What a name stands for.
pub enum SymbolType {
    /// A variable, with its type when one is known.
    Var(Option<Type>),
    /// A function, with its prototype.
    Func(FuncProto),
    /// An imported module.
    Impt,
}

impl SymbolType {
    /// The variable's type, when the symbol is a variable.
    pub fn as_var(&self) -> (r: Option<&Type>)
        ensures
            match self {
                SymbolType::Var(Some(t)) => r == Some(t),
                _ => r is None,
            },
    {
        if let SymbolType::Var(v) = self {
            v.as_ref()
        } else {
            None
        }
    }

    /// Returns `true` if the symbol is [`SymbolType::Var`].
    pub fn is_var(&self) -> (r: bool)
        ensures
            r == (self is Var),
    {
        matches!(self, SymbolType::Var(..))
    }
}

/// The latest binding of `name` among `values`, newest last.
pub open spec fn find_sym(values: Seq<(Symbol, SymbolType)>, name: Symbol) -> Option<SymbolType>
    decreases values.len(),
{
    if values.len() == 0 {
        None
    } else if values.last().0 == name {
        Some(values.last().1)
    } else {
        find_sym(values.drop_last(), name)
    }
}

/// One lexical environment, chained to the enclosing one.
pub struct SymbolTable {
    pub enclosing: Option<Rc<SymbolTable>>,
    pub values: Vec<(Symbol, SymbolType)>,
}

/// What a lookup returns: the latest binding here, or whatever the
/// enclosing environment has.
pub open spec fn spec_lookup(t: SymbolTable, name: Symbol) -> Option<SymbolType>
    decreases t,
{
    match find_sym(t.values@, name) {
        Some(s) => Some(s),
        None => match t.enclosing {
            Some(enc) => spec_lookup(*enc, name),
            None => None,
        },
    }
}

impl SymbolTable {
    pub fn new() -> (r: SymbolTable)
        ensures
            r.enclosing is None,
            r.values@ == Seq::<(Symbol, SymbolType)>::empty(),
    {
        let r = SymbolTable { enclosing: None, values: Vec::new() };
        proof {
            assert(r.values@ =~= Seq::<(Symbol, SymbolType)>::empty());
        }
        r
    }

    /// A fresh environment inside `enclosing`.
    pub fn with_enclosing(enclosing: &Rc<SymbolTable>) -> (r: SymbolTable)
        ensures
            r.enclosing == Some(*enclosing),
            r.values@ == Seq::<(Symbol, SymbolType)>::empty(),
    {
        let r = SymbolTable { enclosing: Some(Rc::clone(enclosing)), values: Vec::new() };
        proof {
            assert(r.values@ =~= Seq::<(Symbol, SymbolType)>::empty());
        }
        r
    }

    /// Bind `name`, shadowing any earlier binding in this environment.
    pub fn define(&mut self, name: Symbol, sym: SymbolType)
        ensures
            final(self).values@ == old(self).values@.push((name, sym)),
            final(self).enclosing == old(self).enclosing,
    {
        self.values.push((name, sym));
    }

    /// The latest binding of `name` here, or in the enclosing
    /// environments.
    pub fn lookup(&self, name: Symbol) -> (r: Option<&SymbolType>)
        ensures
            match r {
                Some(s) => spec_lookup(*self, name) == Some(*s),
                None => spec_lookup(*self, name) is None,
            },
        decreases *self,
    {
        // check this environment first, newest binding first
        let n = self.values.len();
        let mut i: usize = n;
        proof {
            assert(self.values@.take(n as int) =~= self.values@);
        }
        while i > 0
            invariant
                i <= n,
                n == self.values@.len(),
                find_sym(self.values@, name) == find_sym(self.values@.take(i as int), name),
            decreases i,
        {
            i = i - 1;
            proof {
                assert(self.values@.take(i + 1).last() == self.values@[i as int]);
                assert(self.values@.take(i + 1).drop_last() =~= self.values@.take(i as int));
            }
            if self.values[i].0 == name {
                return Some(&self.values[i].1);
            }
        }
        proof {
            assert(self.values@.take(0) =~= Seq::<(Symbol, SymbolType)>::empty());
        }
        // then the enclosing environments
        match &self.enclosing {
            Some(enc) => enc.lookup(name),
            None => None,
        }
    }
}

} // verus!
