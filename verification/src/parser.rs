//! The parser: a top-down recursive-descent parser that walks the
//! grammar from the module level down to primary expressions. It is
//! proved to return, on every token sequence, exactly what the
//! functions in [`crate::grammar`] describe.

use vstd::prelude::*;

use crate::ast::{view_block, view_expr, view_expr_list, view_proto, view_stmt, Expr, FuncProto, Param, Stmt};
use crate::ast::{BinOp, ExprKind, Lit, StmtKind, Type, UnOp};
use crate::grammar::{clamp_level, eat_at, level_op, prev_tok, spec_expect, spec_expect_ident, spec_sync, spec_sync_loop, tok_at};
use crate::grammar::{spec_assignment, spec_bin_expr, spec_bin_rest, spec_block, spec_call, spec_call_args, spec_conditional, spec_declaration, spec_expr_stmt, spec_expression, spec_extern_decl, spec_func_decl, spec_impt, spec_param_list, spec_parse, spec_primary, spec_proto, spec_ret_stmt, spec_statement, spec_type_annotation, spec_type_of, spec_unary, spec_var_decl};
use crate::grammar::ParseError;
use crate::interner::Symbol;
use crate::region::Region;
use crate::source::Source;
use crate::token::{Token, TokenKind};

verus! {

/// Well-formed token sequences, as the lexer produces them: at least
/// the end-of-input marker, which appears exactly once, at the end,
/// and every region well formed.
pub open spec fn wf_tokens(t: Seq<Token>) -> bool {
    &&& t.len() >= 1
    &&& t[t.len() - 1].kind == TokenKind::Eof
    &&& forall|i: int| 0 <= i < t.len() - 1 ==> t[i].kind != TokenKind::Eof
    &&& forall|i: int| 0 <= i < t.len() ==> t[i].region.wf()
}

/// Check that a token sequence is well formed: nonempty, with the
/// end-of-input marker exactly at the end, and every region well
/// formed. `Parser::parse` requires this of its input.
pub fn tokens_wf(tokens: &Vec<Token>) -> (r: bool)
    ensures
        r == wf_tokens(tokens@),
{
    let n = tokens.len();
    if n == 0 {
        return false;
    }
    if !matches!(tokens[n - 1].kind, TokenKind::Eof) {
        return false;
    }
    let mut i: usize = 0;
    while i < n
        invariant
            i <= n,
            n == tokens@.len(),
            tokens@[n - 1].kind == TokenKind::Eof,
            forall|j: int| 0 <= j < i && j < n - 1 ==> tokens@[j].kind != TokenKind::Eof,
            forall|j: int| 0 <= j < i ==> tokens@[j].region.wf(),
        decreases n - i,
    {
        if i < n - 1 && matches!(tokens[i].kind, TokenKind::Eof) {
            return false;
        }
        let region = tokens[i].region;
        if region.length > usize::MAX - region.start {
            return false;
        }
        i = i + 1;
    }
    true
}

/// How a parse result relates to its mathematical shape.
pub open spec fn expr_matches(r: Result<Box<Expr>, ParseError>, s: Result<
    crate::ast::ExprV,
    ParseError,
>) -> bool {
    &&& (r is Ok <==> s is Ok)
    &&& (r matches Ok(e) ==> s == Ok::<crate::ast::ExprV, ParseError>(view_expr(*e)))
    &&& (r matches Err(e) ==> s == Err::<crate::ast::ExprV, ParseError>(e))
}

pub open spec fn stmt_matches(r: Result<Box<Stmt>, ParseError>, s: Result<
    crate::ast::StmtV,
    ParseError,
>) -> bool {
    &&& (r is Ok <==> s is Ok)
    &&& (r matches Ok(st) ==> s == Ok::<crate::ast::StmtV, ParseError>(view_stmt(*st)))
    &&& (r matches Err(e) ==> s == Err::<crate::ast::StmtV, ParseError>(e))
}

/// The mathematical shape of a sequence of parse attempts.
pub open spec fn view_results(rs: Seq<Result<Box<Stmt>, ParseError>>) -> Seq<Result<
    crate::ast::StmtV,
    ParseError,
>> {
    rs.map_values(
        |r: Result<Box<Stmt>, ParseError>|
            match r {
                Ok(b) => Ok(view_stmt(*b)),
                Err(e) => Err(e),
            },
    )
}

/// A top-down recursive-descent parser over a token sequence, with
/// one-token lookahead.
pub struct Parser {
    pub source: Source,
    pub tokens: Vec<Token>,
    pub current: usize,
}

impl Parser {
    pub open spec fn wf(self) -> bool {
        &&& wf_tokens(self.tokens@)
        &&& self.current < self.tokens@.len()
    }

    pub open spec fn toks(self) -> Seq<Token> {
        self.tokens@
    }

    pub open spec fn pos(self) -> int {
        self.current as int
    }

    /// The parts of the parser a parsing step never changes.
    pub open spec fn frame(self, pre: Parser) -> bool {
        &&& self.tokens == pre.tokens
        &&& self.source == pre.source
    }

    pub fn new(tokens: Vec<Token>, source: &Source) -> (r: Parser)
        ensures
            r.tokens == tokens,
            r.current == 0,
            r.source.contents@ == source.contents@,
            r.source.name@ == source.name@,
    {
        Parser {
            source: Source {
                contents: source.contents.clone(),
                name: source.name.clone(),
            },
            tokens,
            current: 0,
        }
    }

    /// Get the current un-eaten token.
    fn peek(&self) -> (r: Token)
        requires
            self.wf(),
        ensures
            r == tok_at(self.toks(), self.pos()),
    {
        self.tokens[self.current]
    }

    /// Look ahead `n` tokens.
    fn look_ahead(&self, n: usize) -> (r: Token)
        requires
            self.wf(),
            self.pos() + n < self.toks().len(),
        ensures
            r == tok_at(self.toks(), self.pos() + n),
    {
        let n_toks = self.tokens.len();
        proof {
            assert(self.pos() + n < n_toks);
        }
        self.tokens[self.current + n]
    }

    /// Return the current token and advance to the next one; at the
    /// end of input the position stays put.
    fn eat(&mut self) -> (r: Token)
        requires
            old(self).wf(),
        ensures
            final(self).frame(*old(self)),
            final(self).wf(),
            r == tok_at(old(self).toks(), old(self).pos()),
            final(self).pos() == eat_at(old(self).toks(), old(self).pos()),
    {
        let n_toks = self.tokens.len();
        proof {
            assert(self.pos() < n_toks);
        }
        if self.is_eof() {
            self.peek()
        } else {
            self.current = self.current + 1;
            self.previous()
        }
    }

    /// Get the previous token.
    fn previous(&self) -> (r: Token)
        requires
            self.wf(),
            self.pos() >= 1,
        ensures
            r == prev_tok(self.toks(), self.pos()),
    {
        self.tokens[self.current - 1]
    }

    /// Whether the next token has the given kind; end of input never
    /// matches anything but `Eof`.
    fn check(&self, kind: TokenKind) -> (r: bool)
        requires
            self.wf(),
        ensures
            r == (tok_at(self.toks(), self.pos()).kind == kind),
    {
        self.peek().kind == kind
    }

    fn is_eof(&self) -> (r: bool)
        requires
            self.wf(),
        ensures
            r == (tok_at(self.toks(), self.pos()).kind == TokenKind::Eof),
    {
        self.check(TokenKind::Eof)
    }

    /// If the next token is of the given kind, eat it and return true.
    fn matches(&mut self, kind: TokenKind) -> (r: bool)
        requires
            old(self).wf(),
        ensures
            final(self).frame(*old(self)),
            final(self).wf(),
            r == (tok_at(old(self).toks(), old(self).pos()).kind == kind),
            final(self).pos() == if r {
                eat_at(old(self).toks(), old(self).pos())
            } else {
                old(self).pos()
            },
    {
        if self.check(kind) {
            self.eat();
            true
        } else {
            false
        }
    }

    /// Eat the next token when it has the given kind; report `message`
    /// at it otherwise.
    fn expect(&mut self, kind: TokenKind, message: &'static str) -> (r: Result<Token, ParseError>)
        requires
            old(self).wf(),
        ensures
            final(self).frame(*old(self)),
            final(self).wf(),
            old(self).pos() <= final(self).pos(),
            ({
                let (rs, p) = spec_expect(old(self).toks(), old(self).pos(), kind, message);
                r == rs && final(self).pos() == p
            }),
            r is Ok && kind != TokenKind::Eof ==> old(self).pos() < final(self).pos(),
    {
        if self.check(kind) {
            Ok(self.eat())
        } else {
            Err(ParseError { message, region: self.peek().region })
        }
    }

    /// Eat the next token when it is an identifier; report `message`
    /// at it otherwise.
    fn expect_ident(&mut self, message: &'static str) -> (r: Result<Symbol, ParseError>)
        requires
            old(self).wf(),
        ensures
            final(self).frame(*old(self)),
            final(self).wf(),
            old(self).pos() <= final(self).pos(),
            ({
                let (rs, p) = spec_expect_ident(old(self).toks(), old(self).pos(), message);
                r == rs && final(self).pos() == p
            }),
            r is Ok ==> old(self).pos() < final(self).pos(),
    {
        match self.peek().kind {
            TokenKind::Ident(name) => {
                self.eat();
                Ok(name)
            },
            _ => Err(ParseError { message, region: self.peek().region }),
        }
    }

    /// The region from `start` through the last eaten token.
    fn region_since(&self, start: Token) -> (r: Region)
        requires
            self.wf(),
            self.pos() >= 1,
            start.region.wf(),
        ensures
            r == start.region.spec_to(prev_tok(self.toks(), self.pos()).region),
            r.wf(),
    {
        start.region.to(self.previous().region)
    }

    /// The region from `start` through `end`.
    fn region_from(&self, start: Token, end: Token) -> (r: Region)
        requires
            start.region.wf(),
            end.region.wf(),
        ensures
            r == start.region.spec_to(end.region),
            r.wf(),
    {
        start.region.to(end.region)
    }

    /// Render a syntax-error message against this parser's source.
    pub fn generate_error_message(&self, base_message: &'static str) -> (r: String)
        requires
            self.wf(),
            tok_at(self.toks(), self.pos()).region.spec_end() <= self.source.contents@.len(),
            self.source.contents@.len() < usize::MAX,
        ensures
            r@ == crate::spec_error_message(
                base_message@,
                self.source.name@,
                self.source.contents@,
                tok_at(self.toks(), self.pos()).region,
            ),
    {
        crate::generate_error_message(base_message, &self.source, self.peek().region)
    }

    /// Synchronize after a syntax error: discard tokens until just
    /// past a semicolon or just before a declaration-starting keyword,
    /// always advancing past at least one token when any are left.
    fn sync(&mut self)
        requires
            old(self).wf(),
        ensures
            final(self).frame(*old(self)),
            final(self).wf(),
            final(self).pos() == spec_sync(old(self).toks(), old(self).pos()),
            old(self).pos() <= final(self).pos(),
            tok_at(old(self).toks(), old(self).pos()).kind != TokenKind::Eof ==> old(self).pos()
                < final(self).pos(),
    {
        self.eat();
        while !self.is_eof()
            invariant
                self.wf(),
                self.frame(*old(self)),
                self.pos() >= eat_at(old(self).toks(), old(self).pos()),
                spec_sync_loop(self.toks(), self.pos()) == spec_sync(
                    old(self).toks(),
                    old(self).pos(),
                ),
            decreases self.toks().len() - self.pos(),
        {
            if self.previous().kind == TokenKind::Semicolon {
                return;
            }
            match self.peek().kind {
                TokenKind::Extern | TokenKind::Func | TokenKind::Var | TokenKind::If
                    | TokenKind::Ret => {
                    return;
                },
                _ => {
                    self.eat();
                },
            }
        }
    }

    /// expression -> assignment
    fn expression(&mut self) -> (r: Result<Box<Expr>, ParseError>)
        requires
            old(self).wf(),
        ensures
            final(self).frame(*old(self)),
            final(self).wf(),
            old(self).pos() <= final(self).pos(),
            r is Ok ==> old(self).pos() < final(self).pos(),
            r matches Ok(e) ==> e.region.wf(),
            ({
                let (rs, p) = spec_expression(old(self).toks(), old(self).pos());
                expr_matches(r, rs) && final(self).pos() == p
            }),
        decreases self.tokens@.len() - self.current, 60int,
    {
        self.assignment()
    }

    /// assignment -> conditional ( '=' assignment )?
    fn assignment(&mut self) -> (r: Result<Box<Expr>, ParseError>)
        requires
            old(self).wf(),
        ensures
            final(self).frame(*old(self)),
            final(self).wf(),
            old(self).pos() <= final(self).pos(),
            r is Ok ==> old(self).pos() < final(self).pos(),
            r matches Ok(e) ==> e.region.wf(),
            ({
                let (rs, p) = spec_assignment(old(self).toks(), old(self).pos());
                expr_matches(r, rs) && final(self).pos() == p
            }),
        decreases self.tokens@.len() - self.current, 55int,
    {
        let lhs = match self.conditional() {
            Ok(e) => e,
            Err(e) => {
                return Err(e);
            },
        };
        if self.matches(TokenKind::Equal) {
            let value = match self.assignment() {
                Ok(e) => e,
                Err(e) => {
                    return Err(e);
                },
            };
            let lhs_region = lhs.region;
            match &lhs.kind {
                ExprKind::Variable(name) => {
                    let name = *name;
                    let region = lhs_region.to(value.region);
                    Ok(Expr::new(ExprKind::Assign(name, value), region))
                },
                _ => Err(
                    ParseError { message: "invalid assignment target", region: value.region },
                ),
            }
        } else {
            Ok(lhs)
        }
    }

    /// conditional -> 'if' or_expr block ('else' block)? | or_expr
    fn conditional(&mut self) -> (r: Result<Box<Expr>, ParseError>)
        requires
            old(self).wf(),
        ensures
            final(self).frame(*old(self)),
            final(self).wf(),
            old(self).pos() <= final(self).pos(),
            r is Ok ==> old(self).pos() < final(self).pos(),
            r matches Ok(e) ==> e.region.wf(),
            ({
                let (rs, p) = spec_conditional(old(self).toks(), old(self).pos());
                expr_matches(r, rs) && final(self).pos() == p
            }),
        decreases self.tokens@.len() - self.current, 50int,
    {
        if self.check(TokenKind::If) {
            let if_tok = self.eat();
            let condition = match self.bin_expr(0) {
                Ok(e) => e,
                Err(e) => {
                    return Err(e);
                },
            };
            match self.expect(TokenKind::OpenBrace, "expected '{' after if condition") {
                Ok(_) => {},
                Err(e) => {
                    return Err(e);
                },
            }
            let then_branch = match self.block() {
                Ok(b) => b,
                Err(e) => {
                    return Err(e);
                },
            };
            if self.matches(TokenKind::Else) {
                match self.expect(TokenKind::OpenBrace, "expected '{' after else condition") {
                    Ok(_) => {},
                    Err(e) => {
                        return Err(e);
                    },
                }
                let else_branch = match self.block() {
                    Ok(b) => b,
                    Err(e) => {
                        return Err(e);
                    },
                };
                let region = self.region_since(if_tok);
                Ok(
                    Expr::new(
                        ExprKind::Cond(condition, then_branch, Some(else_branch)),
                        region,
                    ),
                )
            } else {
                let region = self.region_since(if_tok);
                Ok(Expr::new(ExprKind::Cond(condition, then_branch, None), region))
            }
        } else {
            self.bin_expr(0)
        }
    }

    /// The binary operator of this level at the next token, if any.
    fn op_at_level(&self, level: usize) -> (r: Option<BinOp>)
        requires
            self.wf(),
        ensures
            r == level_op(level as int, tok_at(self.toks(), self.pos()).kind),
    {
        let kind = self.peek().kind;
        if level == 0 {
            if kind == TokenKind::DoubleBar {
                Some(BinOp::Or)
            } else {
                None
            }
        } else if level == 1 {
            if kind == TokenKind::DoubleAmpersand {
                Some(BinOp::And)
            } else {
                None
            }
        } else if level == 2 {
            if kind == TokenKind::BangEqual || kind == TokenKind::DoubleEqual {
                self.peek().to_bin_op()
            } else {
                None
            }
        } else if level == 3 {
            if kind == TokenKind::Gt || kind == TokenKind::Ge || kind == TokenKind::Lt || kind
                == TokenKind::Le {
                self.peek().to_bin_op()
            } else {
                None
            }
        } else if level == 4 {
            if kind == TokenKind::Minus || kind == TokenKind::Plus {
                self.peek().to_bin_op()
            } else {
                None
            }
        } else if level == 5 {
            if kind == TokenKind::Slash || kind == TokenKind::Star || kind == TokenKind::Percent {
                self.peek().to_bin_op()
            } else {
                None
            }
        } else {
            None
        }
    }

    /// One level of left-associative binary operators; level 6 is a
    /// unary expression.
    fn bin_expr(&mut self, level: usize) -> (r: Result<Box<Expr>, ParseError>)
        requires
            old(self).wf(),
        ensures
            final(self).frame(*old(self)),
            final(self).wf(),
            old(self).pos() <= final(self).pos(),
            r is Ok ==> old(self).pos() < final(self).pos(),
            r matches Ok(e) ==> e.region.wf(),
            ({
                let (rs, p) = spec_bin_expr(old(self).toks(), old(self).pos(), level as int);
                expr_matches(r, rs) && final(self).pos() == p
            }),
        decreases self.tokens@.len() - self.current, 48 - 2 * clamp_level(level as int),
    {
        if level >= 6 {
            self.unary()
        } else {
            let lhs = match self.bin_expr(level + 1) {
                Ok(e) => e,
                Err(e) => {
                    return Err(e);
                },
            };
            let start = lhs.region;
            self.bin_rest(level, lhs, start)
        }
    }

    /// The `( op next-level )*` tail of one binary-operator level: a
    /// sequence of same-precedence operators builds a left-leaning
    /// chain, each node's region spanning from the leftmost operand's
    /// start to the current right operand's end.
    fn bin_rest(&mut self, level: usize, lhs: Box<Expr>, start: Region) -> (r: Result<
        Box<Expr>,
        ParseError,
    >)
        requires
            old(self).wf(),
            lhs.region.wf(),
            start.wf(),
        ensures
            final(self).frame(*old(self)),
            final(self).wf(),
            old(self).pos() <= final(self).pos(),
            r matches Ok(e) ==> e.region.wf(),
            ({
                let (rs, p) = spec_bin_rest(
                    old(self).toks(),
                    old(self).pos(),
                    level as int,
                    view_expr(*lhs),
                    start,
                );
                expr_matches(r, rs) && final(self).pos() == p
            }),
        decreases self.tokens@.len() - self.current, 47 - 2 * clamp_level(level as int),
    {
        if level >= 6 {
            return Ok(lhs);
        }
        match self.op_at_level(level) {
            None => Ok(lhs),
            Some(op) => {
                self.eat();
                let rhs = match self.bin_expr(level + 1) {
                    Ok(e) => e,
                    Err(e) => {
                        return Err(e);
                    },
                };
                let region = start.to(rhs.region);
                let node = Expr::new(ExprKind::Binary(op, lhs, rhs), region);
                self.bin_rest(level, node, start)
            },
        }
    }

    /// unary -> ('!' | '-') unary | call
    fn unary(&mut self) -> (r: Result<Box<Expr>, ParseError>)
        requires
            old(self).wf(),
        ensures
            final(self).frame(*old(self)),
            final(self).wf(),
            old(self).pos() <= final(self).pos(),
            r is Ok ==> old(self).pos() < final(self).pos(),
            r matches Ok(e) ==> e.region.wf(),
            ({
                let (rs, p) = spec_unary(old(self).toks(), old(self).pos());
                expr_matches(r, rs) && final(self).pos() == p
            }),
        decreases self.tokens@.len() - self.current, 33int,
    {
        let kind = self.peek().kind;
        if kind == TokenKind::Bang || kind == TokenKind::Minus {
            let op_tok = self.eat();
            let op = if kind == TokenKind::Bang {
                UnOp::Not
            } else {
                UnOp::Neg
            };
            let rhs = match self.unary() {
                Ok(e) => e,
                Err(e) => {
                    return Err(e);
                },
            };
            let region = op_tok.region.to(rhs.region);
            Ok(Expr::new(ExprKind::Unary(op, rhs), region))
        } else {
            self.call()
        }
    }

    /// call -> IDENT '(' args? ')' | primary
    fn call(&mut self) -> (r: Result<Box<Expr>, ParseError>)
        requires
            old(self).wf(),
        ensures
            final(self).frame(*old(self)),
            final(self).wf(),
            old(self).pos() <= final(self).pos(),
            r is Ok ==> old(self).pos() < final(self).pos(),
            r matches Ok(e) ==> e.region.wf(),
            ({
                let (rs, p) = spec_call(old(self).toks(), old(self).pos());
                expr_matches(r, rs) && final(self).pos() == p
            }),
        decreases self.tokens@.len() - self.current, 30int,
    {
        let pk = self.peek();
        match pk.kind {
            TokenKind::Ident(name) => {
                proof {
                    assert(self.pos() < self.toks().len() - 1);
                }
                if self.look_ahead(1).kind == TokenKind::OpenParen {
                    let fn_tok = self.eat();
                    self.eat();
                    let args: Vec<Box<Expr>> = if self.check(TokenKind::CloseParen) {
                        Vec::new()
                    } else {
                        match self.call_args() {
                            Ok(a) => a,
                            Err(e) => {
                                return Err(e);
                            },
                        }
                    };
                    proof {
                        assert(view_expr_list(Seq::<Box<Expr>>::empty()) =~= Seq::<
                            crate::ast::ExprV,
                        >::empty());
                    }
                    match self.expect(
                        TokenKind::CloseParen,
                        "expected ')' after argument list",
                    ) {
                        Ok(close_paren) => {
                            let region = self.region_from(fn_tok, close_paren);
                            Ok(Expr::new(ExprKind::Call(name, args), region))
                        },
                        Err(e) => Err(e),
                    }
                } else {
                    self.primary()
                }
            },
            _ => self.primary(),
        }
    }

    /// A comma-separated, non-empty argument list.
    fn call_args(&mut self) -> (r: Result<Vec<Box<Expr>>, ParseError>)
        requires
            old(self).wf(),
        ensures
            final(self).frame(*old(self)),
            final(self).wf(),
            old(self).pos() <= final(self).pos(),
            r is Ok ==> old(self).pos() < final(self).pos(),
            ({
                let (rs, p) = spec_call_args(old(self).toks(), old(self).pos());
                &&& (r is Ok <==> rs is Ok)
                &&& (r matches Ok(v) ==> rs == Ok::<Seq<crate::ast::ExprV>, ParseError>(
                    view_expr_list(v@),
                ))
                &&& (r matches Err(e) ==> rs == Err::<Seq<crate::ast::ExprV>, ParseError>(e))
                &&& final(self).pos() == p
            }),
        decreases self.tokens@.len() - self.current, 62int,
    {
        let ghost t = self.toks();
        let ghost c0 = self.pos();
        let mut args: Vec<Box<Expr>> = Vec::new();
        loop
            invariant
                self.wf(),
                self.frame(*old(self)),
                t == self.toks(),
                c0 == old(self).pos(),
                c0 <= self.pos(),
                args@.len() > 0 ==> c0 < self.pos(),
                0 <= self.pos() < t.len(),
                ({
                    let full = spec_call_args(t, c0);
                    let rest = spec_call_args(t, self.pos());
                    &&& (rest.0 matches Ok(rr) ==> full.0 == Ok::<
                        Seq<crate::ast::ExprV>,
                        ParseError,
                    >(view_expr_list(args@) + rr) && full.1 == rest.1)
                    &&& (rest.0 matches Err(e) ==> full.0 == Err::<
                        Seq<crate::ast::ExprV>,
                        ParseError,
                    >(e) && full.1 == rest.1)
                }),
            decreases t.len() - self.pos(),
        {
            let ghost pre = *self;
            let ghost args_pre = args@;
            let arg = match self.expression() {
                Ok(e) => e,
                Err(e) => {
                    return Err(e);
                },
            };
            args.push(arg);
            proof {
                crate::ast::lemma_view_expr_list_push(args_pre, args@[args@.len() - 1]);
                assert(view_expr_list(args@) =~= view_expr_list(args_pre) + seq![
                    view_expr(*args@[args@.len() - 1]),
                ]);
            }
            if !self.matches(TokenKind::Comma) {
                return Ok(args);
            }
            proof {
                let ve = view_expr(*args@[args@.len() - 1]);
                let rest_new = spec_call_args(t, self.pos());
                if rest_new.0 is Ok {
                    assert(view_expr_list(args_pre) + (seq![ve] + rest_new.0->Ok_0)
                        =~= view_expr_list(args@) + rest_new.0->Ok_0);
                }
            }
        }
    }

    /// primary -> IDENT | LITERAL | '(' expression ')'
    fn primary(&mut self) -> (r: Result<Box<Expr>, ParseError>)
        requires
            old(self).wf(),
        ensures
            final(self).frame(*old(self)),
            final(self).wf(),
            old(self).pos() <= final(self).pos(),
            r is Ok ==> old(self).pos() < final(self).pos(),
            r matches Ok(e) ==> e.region.wf(),
            ({
                let (rs, p) = spec_primary(old(self).toks(), old(self).pos());
                expr_matches(r, rs) && final(self).pos() == p
            }),
        decreases self.tokens@.len() - self.current, 20int,
    {
        match self.peek().kind {
            TokenKind::Ident(name) => {
                let tok = self.eat();
                Ok(Expr::new(ExprKind::Variable(name), tok.region))
            },
            TokenKind::Literal(lit) => {
                let tok = self.eat();
                Ok(Expr::new(ExprKind::Lit(lit), tok.region))
            },
            TokenKind::OpenParen => {
                self.eat();
                let expr = self.expression();
                match self.expect(TokenKind::CloseParen, "expected ')' to close expression") {
                    Ok(_) => expr,
                    Err(e) => Err(e),
                }
            },
            _ => Err(
                ParseError { message: "expected an expression", region: self.peek().region },
            ),
        }
    }

    /// block -> declaration* '}'  — the opening brace has been eaten.
    pub fn block(&mut self) -> (r: Result<Vec<Box<Stmt>>, ParseError>)
        requires
            old(self).wf(),
        ensures
            final(self).frame(*old(self)),
            final(self).wf(),
            old(self).pos() <= final(self).pos(),
            r is Ok ==> old(self).pos() < final(self).pos(),
            ({
                let (rs, p) = spec_block(old(self).toks(), old(self).pos());
                &&& (r is Ok <==> rs is Ok)
                &&& (r matches Ok(v) ==> rs == Ok::<Seq<crate::ast::StmtV>, ParseError>(
                    view_block(v@),
                ))
                &&& (r matches Err(e) ==> rs == Err::<Seq<crate::ast::StmtV>, ParseError>(e))
                &&& final(self).pos() == p
            }),
        decreases self.tokens@.len() - self.current, 95int,
    {
        let ghost t = self.toks();
        let ghost c0 = self.pos();
        let mut stmts: Vec<Box<Stmt>> = Vec::new();
        loop
            invariant
                self.wf(),
                self.frame(*old(self)),
                t == self.toks(),
                c0 == old(self).pos(),
                c0 <= self.pos(),
                0 <= self.pos() < t.len(),
                ({
                    let full = spec_block(t, c0);
                    let rest = spec_block(t, self.pos());
                    &&& (rest.0 matches Ok(rr) ==> full.0 == Ok::<
                        Seq<crate::ast::StmtV>,
                        ParseError,
                    >(view_block(stmts@) + rr) && full.1 == rest.1)
                    &&& (rest.0 matches Err(e) ==> full.0 == Err::<
                        Seq<crate::ast::StmtV>,
                        ParseError,
                    >(e) && full.1 == rest.1)
                }),
            decreases t.len() - self.pos(),
        {
            if self.check(TokenKind::CloseBrace) || self.is_eof() {
                match self.expect(TokenKind::CloseBrace, "expected '}' to close block") {
                    Ok(_) => {
                        proof {
                            assert(view_block(stmts@) + Seq::<crate::ast::StmtV>::empty()
                                =~= view_block(stmts@));
                        }
                        return Ok(stmts);
                    },
                    Err(e) => {
                        return Err(e);
                    },
                }
            }
            let ghost stmts_pre = stmts@;
            let st = match self.declaration() {
                Ok(st) => st,
                Err(e) => {
                    return Err(e);
                },
            };
            stmts.push(st);
            proof {
                crate::ast::lemma_view_block_push(stmts_pre, stmts@[stmts@.len() - 1]);
                assert(view_block(stmts@) =~= view_block(stmts_pre) + seq![
                    view_stmt(*stmts@[stmts@.len() - 1]),
                ]);
                let vs = view_stmt(*stmts@[stmts@.len() - 1]);
                let rest_new = spec_block(t, self.pos());
                if rest_new.0 is Ok {
                    assert(view_block(stmts_pre) + (seq![vs] + rest_new.0->Ok_0)
                        =~= view_block(stmts@) + rest_new.0->Ok_0);
                }
            }
        }
    }

    /// declaration -> extern_decl | func_decl | var_decl | import |
    /// statement; on a parse error the parser synchronizes, so the
    /// next declaration can be attempted.
    fn declaration(&mut self) -> (r: Result<Box<Stmt>, ParseError>)
        requires
            old(self).wf(),
        ensures
            final(self).frame(*old(self)),
            final(self).wf(),
            old(self).pos() <= final(self).pos(),
            tok_at(old(self).toks(), old(self).pos()).kind != TokenKind::Eof ==> old(self).pos()
                < final(self).pos(),
            ({
                let (rs, p) = spec_declaration(old(self).toks(), old(self).pos());
                stmt_matches(r, rs) && final(self).pos() == p
            }),
        decreases self.tokens@.len() - self.current, 90int,
    {
        let decl = match self.peek().kind {
            TokenKind::Extern => self.extern_decl(),
            TokenKind::Func => self.func_decl(),
            TokenKind::Var => self.var_decl(),
            TokenKind::Impt => self.impt(),
            _ => self.statement(),
        };
        if decl.is_err() {
            self.sync();
        }
        decl
    }

    /// extern_decl -> 'extern' 'func' proto ';'
    fn extern_decl(&mut self) -> (r: Result<Box<Stmt>, ParseError>)
        requires
            old(self).wf(),
        ensures
            final(self).frame(*old(self)),
            final(self).wf(),
            old(self).pos() <= final(self).pos(),
            r is Ok ==> old(self).pos() < final(self).pos(),
            ({
                let (rs, p) = spec_extern_decl(old(self).toks(), old(self).pos());
                stmt_matches(r, rs) && final(self).pos() == p
            }),
        decreases self.tokens@.len() - self.current, 80int,
    {
        let extern_kw = self.eat();
        match self.expect(TokenKind::Func, "expected 'func'") {
            Ok(_) => {},
            Err(e) => {
                return Err(e);
            },
        }
        let proto = match self.proto() {
            Ok(p) => p,
            Err(e) => {
                return Err(e);
            },
        };
        match self.expect(TokenKind::Semicolon, "expected ';' after function prototype") {
            Ok(semicolon) => {
                let region = self.region_from(extern_kw, semicolon);
                Ok(Stmt::new(StmtKind::Extern(proto), region))
            },
            Err(e) => Err(e),
        }
    }

    /// func_decl -> 'func' proto '{' block
    fn func_decl(&mut self) -> (r: Result<Box<Stmt>, ParseError>)
        requires
            old(self).wf(),
        ensures
            final(self).frame(*old(self)),
            final(self).wf(),
            old(self).pos() <= final(self).pos(),
            r is Ok ==> old(self).pos() < final(self).pos(),
            ({
                let (rs, p) = spec_func_decl(old(self).toks(), old(self).pos());
                stmt_matches(r, rs) && final(self).pos() == p
            }),
        decreases self.tokens@.len() - self.current, 80int,
    {
        let func_kw = self.eat();
        let proto = match self.proto() {
            Ok(p) => p,
            Err(e) => {
                return Err(e);
            },
        };
        match self.expect(TokenKind::OpenBrace, "expected '{' before function body") {
            Ok(_) => {},
            Err(e) => {
                return Err(e);
            },
        }
        let body = match self.block() {
            Ok(b) => b,
            Err(e) => {
                return Err(e);
            },
        };
        let close_brace = self.previous();
        let region = self.region_from(func_kw, close_brace);
        Ok(Stmt::new(StmtKind::Func(proto, body), region))
    }

    /// var_decl -> 'var' IDENT '=' expression ';'
    fn var_decl(&mut self) -> (r: Result<Box<Stmt>, ParseError>)
        requires
            old(self).wf(),
        ensures
            final(self).frame(*old(self)),
            final(self).wf(),
            old(self).pos() <= final(self).pos(),
            r is Ok ==> old(self).pos() < final(self).pos(),
            ({
                let (rs, p) = spec_var_decl(old(self).toks(), old(self).pos());
                stmt_matches(r, rs) && final(self).pos() == p
            }),
        decreases self.tokens@.len() - self.current, 80int,
    {
        let var_kw = self.eat();
        let name = match self.expect_ident("expected variable name") {
            Ok(n) => n,
            Err(e) => {
                return Err(e);
            },
        };
        match self.expect(TokenKind::Equal, "expected '=' in variable declaration") {
            Ok(_) => {},
            Err(e) => {
                return Err(e);
            },
        }
        let init = match self.expression() {
            Ok(e) => e,
            Err(e) => {
                return Err(e);
            },
        };
        match self.expect(TokenKind::Semicolon, "expected ';' at end of variable declaration") {
            Ok(semicolon) => {
                let region = self.region_from(var_kw, semicolon);
                Ok(Stmt::new(StmtKind::Var(name, init), region))
            },
            Err(e) => Err(e),
        }
    }

    /// import -> '@impt' STRING
    fn impt(&mut self) -> (r: Result<Box<Stmt>, ParseError>)
        requires
            old(self).wf(),
        ensures
            final(self).frame(*old(self)),
            final(self).wf(),
            old(self).pos() <= final(self).pos(),
            r is Ok ==> old(self).pos() < final(self).pos(),
            ({
                let (rs, p) = spec_impt(old(self).toks(), old(self).pos());
                stmt_matches(r, rs) && final(self).pos() == p
            }),
        decreases self.tokens@.len() - self.current, 75int,
    {
        let impt_kw = self.eat();
        match self.peek().kind {
            TokenKind::Literal(Lit::Str(path)) => {
                let path_lit = self.eat();
                let region = self.region_from(impt_kw, path_lit);
                Ok(Stmt::new(StmtKind::Impt(path), region))
            },
            _ => Err(
                ParseError {
                    message: "expected path after 'impt' statement",
                    region: self.peek().region,
                },
            ),
        }
    }

    /// statement -> ret_stmt | block | import | expr_stmt
    fn statement(&mut self) -> (r: Result<Box<Stmt>, ParseError>)
        requires
            old(self).wf(),
        ensures
            final(self).frame(*old(self)),
            final(self).wf(),
            old(self).pos() <= final(self).pos(),
            r is Ok ==> old(self).pos() < final(self).pos(),
            ({
                let (rs, p) = spec_statement(old(self).toks(), old(self).pos());
                stmt_matches(r, rs) && final(self).pos() == p
            }),
        decreases self.tokens@.len() - self.current, 80int,
    {
        match self.peek().kind {
            TokenKind::Ret => self.ret_stmt(),
            TokenKind::OpenBrace => {
                let open_brace = self.eat();
                match self.block() {
                    Ok(stmts) => {
                        // the block's region runs from the '{' to the '}'
                        let region = self.region_since(open_brace);
                        Ok(Stmt::new(StmtKind::Block(stmts), region))
                    },
                    Err(e) => Err(e),
                }
            },
            TokenKind::Impt => self.impt(),
            _ => self.expr_stmt(),
        }
    }

    /// ret_stmt -> 'ret' expression ';'
    fn ret_stmt(&mut self) -> (r: Result<Box<Stmt>, ParseError>)
        requires
            old(self).wf(),
        ensures
            final(self).frame(*old(self)),
            final(self).wf(),
            old(self).pos() <= final(self).pos(),
            r is Ok ==> old(self).pos() < final(self).pos(),
            ({
                let (rs, p) = spec_ret_stmt(old(self).toks(), old(self).pos());
                stmt_matches(r, rs) && final(self).pos() == p
            }),
        decreases self.tokens@.len() - self.current, 70int,
    {
        let ret_kw = self.eat();
        let value = match self.expression() {
            Ok(e) => e,
            Err(e) => {
                return Err(e);
            },
        };
        match self.expect(TokenKind::Semicolon, "expected ';' at end of return statement") {
            Ok(semicolon) => {
                let region = self.region_from(ret_kw, semicolon);
                Ok(Stmt::new(StmtKind::Ret(value), region))
            },
            Err(e) => Err(e),
        }
    }

    /// expr_stmt -> expression ';'?  — a conditional used directly as
    /// a statement is self-delimited by braces and needs no trailing
    /// semicolon; every other expression statement does.
    fn expr_stmt(&mut self) -> (r: Result<Box<Stmt>, ParseError>)
        requires
            old(self).wf(),
        ensures
            final(self).frame(*old(self)),
            final(self).wf(),
            old(self).pos() <= final(self).pos(),
            r is Ok ==> old(self).pos() < final(self).pos(),
            ({
                let (rs, p) = spec_expr_stmt(old(self).toks(), old(self).pos());
                stmt_matches(r, rs) && final(self).pos() == p
            }),
        decreases self.tokens@.len() - self.current, 70int,
    {
        let expr_start = self.peek();
        let expr = match self.expression() {
            Ok(e) => e,
            Err(e) => {
                return Err(e);
            },
        };
        if !expr.is_cond() {
            match self.expect(TokenKind::Semicolon, "expected semicolon after expression") {
                Ok(_) => {},
                Err(e) => {
                    return Err(e);
                },
            }
        }
        let region = self.region_since(expr_start);
        Ok(Stmt::new(StmtKind::Expr(expr), region))
    }

    /// A function prototype:
    /// `name '(' (name ':' type (',' name ':' type)*)? ')' (':' type)?`,
    /// an absent return type defaulting to void.
    fn proto(&mut self) -> (r: Result<FuncProto, ParseError>)
        requires
            old(self).wf(),
        ensures
            final(self).frame(*old(self)),
            final(self).wf(),
            old(self).pos() <= final(self).pos(),
            ({
                let (rs, p) = spec_proto(old(self).toks(), old(self).pos());
                &&& (r is Ok <==> rs is Ok)
                &&& (r matches Ok(pr) ==> rs == Ok::<crate::ast::FuncProtoV, ParseError>(
                    view_proto(pr),
                ))
                &&& (r matches Err(e) ==> rs == Err::<crate::ast::FuncProtoV, ParseError>(e))
                &&& final(self).pos() == p
            }),
        decreases self.tokens@.len() - self.current, 76int,
    {
        let proto_start = self.peek();
        let name = match self.expect_ident("expected function name") {
            Ok(n) => n,
            Err(e) => {
                return Err(e);
            },
        };
        match self.expect(TokenKind::OpenParen, "expected '(' after function name") {
            Ok(_) => {},
            Err(e) => {
                return Err(e);
            },
        }
        let params: Vec<Param> = if self.check(TokenKind::CloseParen) {
            let empty_params: Vec<Param> = Vec::new();
            proof {
                assert(empty_params@ =~= Seq::<Param>::empty());
            }
            empty_params
        } else {
            match self.param_list() {
                Ok(ps) => ps,
                Err(e) => {
                    return Err(e);
                },
            }
        };
        let close_paren = match self.expect(
            TokenKind::CloseParen,
            "expected ')' after parameter list",
        ) {
            Ok(tok) => tok,
            Err(e) => {
                return Err(e);
            },
        };
        let ret = if self.matches(TokenKind::Colon) {
            match self.type_annotation() {
                Ok(ty) => ty,
                Err(e) => {
                    return Err(e);
                },
            }
        } else {
            Type::Void
        };
        let region = self.region_from(proto_start, close_paren);
        Ok(FuncProto { name, params, ret, region })
    }

    /// A comma-separated, non-empty parameter list: `name ':' type`.
    fn param_list(&mut self) -> (r: Result<Vec<Param>, ParseError>)
        requires
            old(self).wf(),
        ensures
            final(self).frame(*old(self)),
            final(self).wf(),
            old(self).pos() <= final(self).pos(),
            ({
                let (rs, p) = spec_param_list(old(self).toks(), old(self).pos());
                &&& (r is Ok <==> rs is Ok)
                &&& (r matches Ok(ps) ==> rs == Ok::<Seq<Param>, ParseError>(ps@))
                &&& (r matches Err(e) ==> rs == Err::<Seq<Param>, ParseError>(e))
                &&& final(self).pos() == p
            }),
        decreases self.tokens@.len() - self.current, 74int,
    {
        let ghost t = self.toks();
        let ghost c0 = self.pos();
        let mut params: Vec<Param> = Vec::new();
        loop
            invariant
                self.wf(),
                self.frame(*old(self)),
                t == self.toks(),
                c0 == old(self).pos(),
                c0 <= self.pos(),
                0 <= self.pos() < t.len(),
                ({
                    let full = spec_param_list(t, c0);
                    let rest = spec_param_list(t, self.pos());
                    &&& (rest.0 matches Ok(rr) ==> full.0 == Ok::<Seq<Param>, ParseError>(
                        params@ + rr,
                    ) && full.1 == rest.1)
                    &&& (rest.0 matches Err(e) ==> full.0 == Err::<Seq<Param>, ParseError>(e)
                        && full.1 == rest.1)
                }),
            decreases t.len() - self.pos(),
        {
            let ghost params_pre = params@;
            let name = match self.expect_ident("expected parameter list") {
                Ok(n) => n,
                Err(e) => {
                    return Err(e);
                },
            };
            match self.expect(TokenKind::Colon, "expected type annotation after parameter name") {
                Ok(_) => {},
                Err(e) => {
                    return Err(e);
                },
            }
            let ty = match self.type_annotation() {
                Ok(ty) => ty,
                Err(e) => {
                    return Err(e);
                },
            };
            params.push(Param { name, ty });
            proof {
                assert(params@ =~= params_pre + seq![params@[params@.len() - 1]]);
            }
            if !self.matches(TokenKind::Comma) {
                return Ok(params);
            }
            proof {
                let rest_new = spec_param_list(t, self.pos());
                if rest_new.0 is Ok {
                    assert(params_pre + (seq![params@[params@.len() - 1]] + rest_new.0->Ok_0)
                        =~= params@ + rest_new.0->Ok_0);
                }
            }
        }
    }

    /// type_annotation -> IDENT, mapped to the type the name denotes.
    fn type_annotation(&mut self) -> (r: Result<Type, ParseError>)
        requires
            old(self).wf(),
        ensures
            final(self).frame(*old(self)),
            final(self).wf(),
            old(self).pos() <= final(self).pos(),
            ({
                let (rs, p) = spec_type_annotation(old(self).toks(), old(self).pos());
                r == rs && final(self).pos() == p
            }),
    {
        let name = match self.expect_ident("expected a type name") {
            Ok(n) => n,
            Err(e) => {
                return Err(e);
            },
        };
        Ok(type_of_name(name))
    }

    /// The whole module: one parse attempt per top-level declaration,
    /// continuing past errors via synchronization.
    pub fn parse(&mut self) -> (r: Vec<Result<Box<Stmt>, ParseError>>)
        requires
            old(self).wf(),
        ensures
            final(self).frame(*old(self)),
            final(self).wf(),
            old(self).pos() <= final(self).pos(),
            view_results(r@) == spec_parse(old(self).toks(), old(self).pos()),
            tok_at(final(self).toks(), final(self).pos()).kind == TokenKind::Eof,
    {
        let ghost t = self.toks();
        let ghost c0 = self.pos();
        let mut decls: Vec<Result<Box<Stmt>, ParseError>> = Vec::new();
        proof {
            assert(view_results(Seq::<Result<Box<Stmt>, ParseError>>::empty()) =~= Seq::<
                Result<crate::ast::StmtV, ParseError>,
            >::empty());
        }
        while !self.is_eof()
            invariant
                self.wf(),
                self.frame(*old(self)),
                t == self.toks(),
                c0 == old(self).pos(),
                c0 <= self.pos(),
                0 <= self.pos() < t.len(),
                spec_parse(t, c0) =~= view_results(decls@) + spec_parse(t, self.pos()),
            decreases t.len() - self.pos(),
        {
            let ghost decls_pre = decls@;
            let d = self.declaration();
            let ghost dv = match d {
                Ok(ref b) => Ok::<crate::ast::StmtV, ParseError>(view_stmt(*(*b))),
                Err(ref e) => Err::<crate::ast::StmtV, ParseError>(*e),
            };
            decls.push(d);
            proof {
                assert(view_results(decls@) =~= view_results(decls_pre).push(dv));
                assert(spec_parse(t, c0) =~= view_results(decls@) + spec_parse(
                    t,
                    self.pos(),
                ));
            }
        }
        proof {
            assert(spec_parse(t, self.pos()) =~= Seq::<
                Result<crate::ast::StmtV, ParseError>,
            >::empty());
            assert(spec_parse(t, c0) =~= view_results(decls@));
        }
        decls
    }
}

/// The type a type name denotes: `bool`, one of the sized integer
/// types, or a named type.
pub fn type_of_name(name: Symbol) -> (r: Type)
    ensures
        r == spec_type_of(name),
{
    if name.0 == crate::interner::SYM_BOOL {
        Type::Bool
    } else if name.0 >= crate::interner::SYM_UINT8 && name.0 < crate::interner::SYM_UINT8 + 4 {
        Type::Int {
            signed: false,
            size: int_size_at(name.0 - crate::interner::SYM_UINT8),
        }
    } else if name.0 >= crate::interner::SYM_INT8 && name.0 < crate::interner::SYM_INT8 + 4 {
        Type::Int {
            signed: true,
            size: int_size_at(name.0 - crate::interner::SYM_INT8),
        }
    } else if name.0 >= crate::interner::SYM_U8 && name.0 < crate::interner::SYM_U8 + 4 {
        Type::Int {
            signed: false,
            size: int_size_at(name.0 - crate::interner::SYM_U8),
        }
    } else if name.0 >= crate::interner::SYM_S8 && name.0 < crate::interner::SYM_S8 + 4 {
        Type::Int {
            signed: true,
            size: int_size_at(name.0 - crate::interner::SYM_S8),
        }
    } else {
        Type::Name(name)
    }
}

fn int_size_at(off: u32) -> (r: crate::ast::IntSize)
    requires
        off < 4,
    ensures
        r == crate::grammar::spec_int_size_at(off as int),
{
    if off == 0 {
        crate::ast::IntSize::new(8)
    } else if off == 1 {
        crate::ast::IntSize::new(16)
    } else if off == 2 {
        crate::ast::IntSize::new(32)
    } else {
        crate::ast::IntSize::new(64)
    }
}

} // verus!
