//! Abstract syntax tree: expressions, statements, types and function
//! prototypes, each carrying the source region it was parsed from.

use vstd::prelude::*;

use crate::interner::Symbol;
use crate::region::Region;

verus! {

/// A literal value.
#[derive(Debug, Clone, Copy, PartialEq, Eq, Structural)]
pub enum Lit {
    Int(i64),
    Str(Symbol),
    Char(char),
}

/// An identifier together with the region it was read from.
#[derive(Debug, Clone, Copy, PartialEq, Eq, Structural)]
pub struct Ident {
    pub name: Symbol,
    pub region: Region,
}

impl Ident {
    pub fn new(name: Symbol, region: Region) -> (r: Ident)
        ensures
            r == (Ident { name, region }),
    {
        Ident { name, region }
    }
}

/// Binary operators, ordered from highest to lowest precedence.
#[derive(Hash, Debug, PartialEq, Eq, Clone, Copy, Structural)]
pub enum BinOp {
    /// The `*` operator (multiplication)
    Mul,
    /// The `/` operator (division)
    Div,
    /// The `%` operator (modulus)
    Mod,
    /// The `+` operator (addition)
    Add,
    /// The `-` operator (subtraction)
    Sub,
    /// The `>=` operator (greater than or equal to)
    Ge,
    /// The `>` operator (greater than)
    Gt,
    /// The `<` operator (less than)
    Lt,
    /// The `<=` operator (less than or equal to)
    Le,
    /// The `==` operator (equality)
    Eq,
    /// The `!=` operator (not equal to)
    Ne,
    /// The `&&` operator (logical and)
    And,
    /// The `||` operator (logical or)
    Or,
}

impl BinOp {
    /// The operator's precedence: multiplicative 40, additive 20,
    /// relational 10, equality 2, logical 1.
    pub open spec fn spec_prec(self) -> u32 {
        match self {
            BinOp::Mul | BinOp::Div | BinOp::Mod => 40u32,
            BinOp::Add | BinOp::Sub => 20u32,
            BinOp::Gt | BinOp::Ge | BinOp::Lt | BinOp::Le => 10u32,
            BinOp::Eq | BinOp::Ne => 2u32,
            BinOp::And | BinOp::Or => 1u32,
        }
    }

    pub fn get_prec(&self) -> (r: u32)
        ensures
            r == self.spec_prec(),
    {
        match *self {
            BinOp::Mul => 40,
            BinOp::Div => 40,
            BinOp::Mod => 40,
            BinOp::Add => 20,
            BinOp::Sub => 20,
            BinOp::Gt => 10,
            BinOp::Ge => 10,
            BinOp::Lt => 10,
            BinOp::Le => 10,
            BinOp::Eq => 2,
            BinOp::Ne => 2,
            BinOp::And => 1,
            BinOp::Or => 1,
        }
    }
}

/// Unary operators.
#[derive(Debug, PartialEq, Eq, Clone, Copy, Structural)]
pub enum UnOp {
    Not,
    Neg,
}

/// Width in bits of an integer type: 8, 16, 32 or 64.
#[derive(Debug, Clone, Copy, PartialEq, Eq, Structural)]
pub struct IntSize(pub u8);

impl IntSize {
    /// Construct an integer size. Any width outside {8, 16, 32, 64} is
    /// a fatal construction error and is excluded here.
    pub fn new(size: u8) -> (r: IntSize)
        requires
            size == 8 || size == 16 || size == 32 || size == 64,
        ensures
            r == IntSize(size),
    {
        IntSize(size)
    }
}

/// A source-level type.
#[derive(Debug, PartialEq, Eq, Clone, Copy, Structural)]
pub enum Type {
    /// Integer types, such as `u8`, `s16`, `u32` or `s64`.
    Int { signed: bool, size: IntSize },
    /// Boolean type (true and false).
    Bool,
    /// `void` (nothing/empty).
    Void,
    /// Any other, named type.
    Name(Symbol),
}

impl Type {
    /// True for every type but the named ones: void, integers, booleans.
    pub fn is_primitive(&self) -> (r: bool)
        ensures
            r == !(self is Name),
    {
        !matches!(self, Type::Name(_))
    }
}

/// An expression's payload.
pub enum ExprKind {
    Lit(Lit),
    Variable(Symbol),
    Unary(UnOp, Box<Expr>),
    Binary(BinOp, Box<Expr>, Box<Expr>),
    Call(Symbol, Vec<Box<Expr>>),
    Cond(Box<Expr>, Block, Option<Block>),
    Assign(Symbol, Box<Expr>),
}

/// An expression together with the source region it spans.
pub struct Expr {
    pub kind: ExprKind,
    pub region: Region,
}

/// An ordered sequence of owned statements.
pub type Block = Vec<Box<Stmt>>;

/// A module: the top-level ordered sequence of statements.
pub type Module = Vec<Box<Stmt>>;

/// A statement's payload.
pub enum StmtKind {
    /// An expression statement.
    Expr(Box<Expr>),
    /// `ret` with the returned value.
    Ret(Box<Expr>),
    /// `var` with the declared name and its initializer.
    Var(Symbol, Box<Expr>),
    /// A brace-delimited block.
    Block(Vec<Box<Stmt>>),
    /// A function declaration: prototype and body.
    Func(FuncProto, Block),
    /// An `extern` function declaration.
    Extern(FuncProto),
    /// An `@impt` declaration naming an imported module path.
    Impt(Symbol),
}

/// A statement together with the source region it spans.
pub struct Stmt {
    pub kind: StmtKind,
    pub region: Region,
}

impl Stmt {
    pub fn new(kind: StmtKind, region: Region) -> (r: Box<Stmt>)
        ensures
            *r == (Stmt { kind, region }),
    {
        Box::new(Stmt { kind, region })
    }
}

/// A function prototype: the function's name, parameters, return type
/// and source region.
pub struct FuncProto {
    pub name: Symbol,
    pub params: Vec<Param>,
    pub ret: Type,
    pub region: Region,
}

/// A single parameter of a function prototype.
#[derive(Debug, PartialEq, Eq, Clone, Copy, Structural)]
pub struct Param {
    pub name: Symbol,
    pub ty: Type,
}

/// The mathematical shape of an expression: as `ExprKind`, with
/// sequences for the argument and statement lists.
pub enum ExprKindV {
    Lit(Lit),
    Variable(Symbol),
    Unary(UnOp, Box<ExprV>),
    Binary(BinOp, Box<ExprV>, Box<ExprV>),
    Call(Symbol, Seq<ExprV>),
    Cond(Box<ExprV>, Seq<StmtV>, Option<Seq<StmtV>>),
    Assign(Symbol, Box<ExprV>),
}

/// The mathematical shape of an expression with its region.
pub struct ExprV {
    pub kind: ExprKindV,
    pub region: Region,
}

/// The mathematical shape of a statement's payload.
pub enum StmtKindV {
    Expr(Box<ExprV>),
    Ret(Box<ExprV>),
    Var(Symbol, Box<ExprV>),
    Block(Seq<StmtV>),
    Func(FuncProtoV, Seq<StmtV>),
    Extern(FuncProtoV),
    Impt(Symbol),
}

/// The mathematical shape of a statement with its region.
pub struct StmtV {
    pub kind: StmtKindV,
    pub region: Region,
}

/// The mathematical shape of a function prototype.
pub struct FuncProtoV {
    pub name: Symbol,
    pub params: Seq<Param>,
    pub ret: Type,
    pub region: Region,
}

/// The mathematical shape of an expression.
pub open spec fn view_expr(e: Expr) -> ExprV
    decreases e,
{
    ExprV {
        kind: match e.kind {
            ExprKind::Lit(lit) => ExprKindV::Lit(lit),
            ExprKind::Variable(name) => ExprKindV::Variable(name),
            ExprKind::Unary(op, inner) => ExprKindV::Unary(op, Box::new(view_expr(*inner))),
            ExprKind::Binary(op, l, r) => ExprKindV::Binary(
                op,
                Box::new(view_expr(*l)),
                Box::new(view_expr(*r)),
            ),
            ExprKind::Call(name, args) => ExprKindV::Call(name, view_expr_list(args@)),
            ExprKind::Cond(c, t, els) => ExprKindV::Cond(
                Box::new(view_expr(*c)),
                view_block(t@),
                match els {
                    Some(blk) => Some(view_block(blk@)),
                    None => None,
                },
            ),
            ExprKind::Assign(name, inner) => ExprKindV::Assign(
                name,
                Box::new(view_expr(*inner)),
            ),
        },
        region: e.region,
    }
}

/// The mathematical shapes of a list of expressions, in order.
pub open spec fn view_expr_list(args: Seq<Box<Expr>>) -> Seq<ExprV>
    decreases args,
{
    if args.len() == 0 {
        Seq::empty()
    } else {
        seq![view_expr(*args[0])] + view_expr_list(args.subrange(1, args.len() as int))
    }
}

/// The mathematical shape of a statement.
pub open spec fn view_stmt(s: Stmt) -> StmtV
    decreases s,
{
    StmtV {
        kind: match s.kind {
            StmtKind::Expr(e) => StmtKindV::Expr(Box::new(view_expr(*e))),
            StmtKind::Ret(e) => StmtKindV::Ret(Box::new(view_expr(*e))),
            StmtKind::Var(name, e) => StmtKindV::Var(name, Box::new(view_expr(*e))),
            StmtKind::Block(stmts) => StmtKindV::Block(view_block(stmts@)),
            StmtKind::Func(proto, body) => StmtKindV::Func(view_proto(proto), view_block(body@)),
            StmtKind::Extern(proto) => StmtKindV::Extern(view_proto(proto)),
            StmtKind::Impt(name) => StmtKindV::Impt(name),
        },
        region: s.region,
    }
}

/// The mathematical shape of a block: its statements, in order.
pub open spec fn view_block(b: Seq<Box<Stmt>>) -> Seq<StmtV>
    decreases b,
{
    if b.len() == 0 {
        Seq::empty()
    } else {
        seq![view_stmt(*b[0])] + view_block(b.subrange(1, b.len() as int))
    }
}

/// The mathematical shape of a function prototype.
pub open spec fn view_proto(p: FuncProto) -> FuncProtoV {
    FuncProtoV { name: p.name, params: p.params@, ret: p.ret, region: p.region }
}

/// A block's view has one entry per statement, in order.
pub proof fn lemma_view_block_index(b: Seq<Box<Stmt>>)
    ensures
        view_block(b).len() == b.len(),
        forall|i: int| 0 <= i < b.len() ==> view_block(b)[i] == view_stmt(*b[i]),
    decreases b,
{
    if b.len() > 0 {
        lemma_view_block_index(b.subrange(1, b.len() as int));
        assert(forall|i: int|
            1 <= i < b.len() ==> view_block(b)[i] == view_block(b.subrange(1, b.len() as int))[i
                - 1]);
        assert(forall|i: int| 1 <= i < b.len() ==> b.subrange(1, b.len() as int)[i - 1] == b[i]);
    }
}

/// An argument list's view has one entry per expression, in order.
pub proof fn lemma_view_expr_list_index(args: Seq<Box<Expr>>)
    ensures
        view_expr_list(args).len() == args.len(),
        forall|i: int| 0 <= i < args.len() ==> view_expr_list(args)[i] == view_expr(*args[i]),
    decreases args,
{
    if args.len() > 0 {
        lemma_view_expr_list_index(args.subrange(1, args.len() as int));
        assert(forall|i: int|
            1 <= i < args.len() ==> view_expr_list(args)[i] == view_expr_list(
                args.subrange(1, args.len() as int),
            )[i - 1]);
        assert(forall|i: int|
            1 <= i < args.len() ==> args.subrange(1, args.len() as int)[i - 1] == args[i]);
    }
}

/// Views distribute over pushing a statement onto a block.
pub proof fn lemma_view_block_push(b: Seq<Box<Stmt>>, s: Box<Stmt>)
    ensures
        view_block(b.push(s)) == view_block(b).push(view_stmt(*s)),
    decreases b,
{
    if b.len() == 0 {
        let b2 = b.push(s);
        assert(b2[0] == s);
        assert(b2.subrange(1, 1) =~= Seq::<Box<Stmt>>::empty());
        assert(view_block(b2.subrange(1, 1)) =~= Seq::<StmtV>::empty());
        assert(view_block(b2) =~= view_block(b).push(view_stmt(*s)));
    } else {
        assert(b.push(s).subrange(1, b.len() as int + 1) =~= b.subrange(1, b.len() as int).push(s));
        lemma_view_block_push(b.subrange(1, b.len() as int), s);
        assert(view_block(b.push(s)) =~= view_block(b).push(view_stmt(*s)));
    }
}

/// Views distribute over pushing an expression onto an argument list.
pub proof fn lemma_view_expr_list_push(args: Seq<Box<Expr>>, e: Box<Expr>)
    ensures
        view_expr_list(args.push(e)) == view_expr_list(args).push(view_expr(*e)),
    decreases args,
{
    if args.len() == 0 {
        let a2 = args.push(e);
        assert(a2[0] == e);
        assert(a2.subrange(1, 1) =~= Seq::<Box<Expr>>::empty());
        assert(view_expr_list(a2.subrange(1, 1)) =~= Seq::<ExprV>::empty());
        assert(view_expr_list(a2) =~= view_expr_list(args).push(view_expr(*e)));
    } else {
        assert(args.push(e).subrange(1, args.len() as int + 1) =~= args.subrange(
            1,
            args.len() as int,
        ).push(e));
        lemma_view_expr_list_push(args.subrange(1, args.len() as int), e);
        assert(view_expr_list(args.push(e)) =~= view_expr_list(args).push(view_expr(*e)));
    }
}

impl Expr {
    pub fn new(kind: ExprKind, region: Region) -> (r: Box<Expr>)
        ensures
            *r == (Expr { kind, region }),
    {
        Box::new(Expr { kind, region })
    }

    /// Turn a literal token into a literal expression; `None` for any
    /// other token.
    pub fn from_lit(token: crate::token::Token) -> (r: Option<Box<Expr>>)
        ensures
            r == match token.kind {
                crate::token::TokenKind::Literal(lit) => Some(
                    Box::new(Expr { kind: ExprKind::Lit(lit), region: token.region }),
                ),
                _ => None::<Box<Expr>>,
            },
    {
        match token.kind {
            crate::token::TokenKind::Literal(lit) => Some(
                Expr::new(ExprKind::Lit(lit), token.region),
            ),
            _ => None,
        }
    }

    /// Returns `true` if the expression is a conditional.
    pub fn is_cond(&self) -> (r: bool)
        ensures
            r == (self.kind is Cond),
    {
        matches!(self.kind, ExprKind::Cond(..))
    }

    /// The union of this expression's region with `end`.
    pub fn to(&self, end: Region) -> (r: Region)
        requires
            self.region.wf(),
            end.wf(),
        ensures
            r == self.region.spec_to(end),
            r.wf(),
    {
        self.region.to(end)
    }
}

} // verus!
