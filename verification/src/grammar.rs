//! The grammar in function form: what the parser returns on every
//! token sequence, stated over the mathematical shapes of the AST.
//!
//! Each function takes the token sequence and the offset of the next
//! un-eaten token, and returns the parse result together with the
//! offset after it. The executable parser is proved to return exactly
//! these values.

use vstd::prelude::*;

use crate::ast::{BinOp, ExprKindV, ExprV, FuncProtoV, IntSize, Param, StmtKindV, StmtV, Type, UnOp};
use crate::interner::Symbol;
use crate::interner::{SYM_BOOL, SYM_INT8, SYM_S8, SYM_U8, SYM_UINT8};
use crate::region::Region;
use crate::token::{spec_to_bin_op, Token, TokenKind};

verus! {

/// A syntax error: the message and the region it refers to.
#[derive(Debug)]
pub struct ParseError {
    pub message: &'static str,
    pub region: Region,
}

/// The token at offset `c`; out of range reads as end-of-input.
pub open spec fn tok_at(t: Seq<Token>, c: int) -> Token {
    if 0 <= c < t.len() {
        t[c]
    } else {
        Token { kind: TokenKind::Eof, region: Region { start: 0, length: 0 } }
    }
}

/// The token just before offset `c`.
pub open spec fn prev_tok(t: Seq<Token>, c: int) -> Token {
    tok_at(t, c - 1)
}

/// The offset after eating the token at `c`: eating the end-of-input
/// marker does not advance.
pub open spec fn eat_at(t: Seq<Token>, c: int) -> int {
    if tok_at(t, c).kind == TokenKind::Eof {
        c
    } else {
        c + 1
    }
}

/// `p` forced into the range `lo ..= hi`. The parser's positions stay
/// in range on their own; the clamp only shapes the recursion.
pub open spec fn within(lo: int, p: int, hi: int) -> int {
    if p < lo {
        lo
    } else if p > hi {
        hi
    } else {
        p
    }
}

/// Expecting a fixed token kind: the token when it is next, the given
/// error at the offending token otherwise.
pub open spec fn spec_expect(t: Seq<Token>, c: int, kind: TokenKind, message: &'static str) -> (
    Result<Token, ParseError>,
    int,
) {
    if tok_at(t, c).kind == kind {
        (Ok(tok_at(t, c)), eat_at(t, c))
    } else {
        (Err(ParseError { message, region: tok_at(t, c).region }), c)
    }
}

/// Expecting any identifier.
pub open spec fn spec_expect_ident(t: Seq<Token>, c: int, message: &'static str) -> (
    Result<Symbol, ParseError>,
    int,
) {
    match tok_at(t, c).kind {
        TokenKind::Ident(name) => (Ok(name), eat_at(t, c)),
        _ => (Err(ParseError { message, region: tok_at(t, c).region }), c),
    }
}

/// A precedence level forced into range, for termination measures.
pub open spec fn clamp_level(level: int) -> int {
    if level < 0 {
        0
    } else if level > 6 {
        6
    } else {
        level
    }
}

/// The binary operator parsed at precedence level `level`, if the
/// token kind belongs to that level. Levels from lowest precedence:
/// logical or, logical and, equality, comparison, additive,
/// multiplicative.
pub open spec fn level_op(level: int, kind: TokenKind) -> Option<BinOp> {
    if level == 0 && kind == TokenKind::DoubleBar {
        Some(BinOp::Or)
    } else if level == 1 && kind == TokenKind::DoubleAmpersand {
        Some(BinOp::And)
    } else if level == 2 && (kind == TokenKind::BangEqual || kind == TokenKind::DoubleEqual) {
        spec_to_bin_op(kind)
    } else if level == 3 && (kind == TokenKind::Gt || kind == TokenKind::Ge || kind
        == TokenKind::Lt || kind == TokenKind::Le) {
        spec_to_bin_op(kind)
    } else if level == 4 && (kind == TokenKind::Minus || kind == TokenKind::Plus) {
        spec_to_bin_op(kind)
    } else if level == 5 && (kind == TokenKind::Slash || kind == TokenKind::Star || kind
        == TokenKind::Percent) {
        spec_to_bin_op(kind)
    } else {
        None
    }
}

/// expression -> assignment
pub open spec fn spec_expression(t: Seq<Token>, c: int) -> (Result<ExprV, ParseError>, int)
    decreases t.len() - c, 60int,
    when 0 <= c < t.len()
{
    spec_assignment(t, c)
}

/// assignment -> conditional ( '=' assignment )?  — right-associative;
/// the left side must be a bare variable, found out after the right
/// side is parsed.
pub open spec fn spec_assignment(t: Seq<Token>, c: int) -> (Result<ExprV, ParseError>, int)
    decreases t.len() - c, 55int,
    when 0 <= c < t.len()
{
    let (r1, p1) = spec_conditional(t, c);
    match r1 {
        Err(e) => (Err(e), p1),
        Ok(lhs) => if tok_at(t, p1).kind == TokenKind::Equal {
            let p2 = eat_at(t, p1);
            let (r2, p3) = spec_assignment(t, within(c + 1, p2, t.len() as int));
            match r2 {
                Err(e) => (Err(e), p3),
                Ok(value) => match lhs.kind {
                    ExprKindV::Variable(name) => (
                        Ok(
                            ExprV {
                                kind: ExprKindV::Assign(name, Box::new(value)),
                                region: lhs.region.spec_to(value.region),
                            },
                        ),
                        p3,
                    ),
                    _ => (
                        Err(
                            ParseError {
                                message: "invalid assignment target",
                                region: value.region,
                            },
                        ),
                        p3,
                    ),
                },
            }
        } else {
            (Ok(lhs), p1)
        },
    }
}

/// conditional -> 'if' or_expr block ('else' block)? | or_expr
pub open spec fn spec_conditional(t: Seq<Token>, c: int) -> (Result<ExprV, ParseError>, int)
    decreases t.len() - c, 50int,
    when 0 <= c < t.len()
{
    if tok_at(t, c).kind == TokenKind::If {
        let if_tok = tok_at(t, c);
        let p1 = eat_at(t, c);
        let (r1, p2) = spec_bin_expr(t, p1, 0);
        match r1 {
            Err(e) => (Err(e), p2),
            Ok(cond) => {
                let (r2, p3) = spec_expect(
                    t,
                    p2,
                    TokenKind::OpenBrace,
                    "expected '{' after if condition",
                );
                match r2 {
                    Err(e) => (Err(e), p3),
                    Ok(_) => {
                        let (r3, p4) = spec_block(t, within(c + 1, p3, t.len() as int));
                        match r3 {
                            Err(e) => (Err(e), p4),
                            Ok(then_branch) => if tok_at(t, p4).kind == TokenKind::Else {
                                let p5 = eat_at(t, p4);
                                let (r4, p6) = spec_expect(
                                    t,
                                    p5,
                                    TokenKind::OpenBrace,
                                    "expected '{' after else condition",
                                );
                                match r4 {
                                    Err(e) => (Err(e), p6),
                                    Ok(_) => {
                                        let (r5, p7) = spec_block(
                                            t,
                                            within(c + 1, p6, t.len() as int),
                                        );
                                        match r5 {
                                            Err(e) => (Err(e), p7),
                                            Ok(else_branch) => (
                                                Ok(
                                                    ExprV {
                                                        kind: ExprKindV::Cond(
                                                            Box::new(cond),
                                                            then_branch,
                                                            Some(else_branch),
                                                        ),
                                                        region: if_tok.region.spec_to(
                                                            prev_tok(t, p7).region,
                                                        ),
                                                    },
                                                ),
                                                p7,
                                            ),
                                        }
                                    },
                                }
                            } else {
                                (
                                    Ok(
                                        ExprV {
                                            kind: ExprKindV::Cond(
                                                Box::new(cond),
                                                then_branch,
                                                None,
                                            ),
                                            region: if_tok.region.spec_to(prev_tok(t, p4).region),
                                        },
                                    ),
                                    p4,
                                )
                            },
                        }
                    },
                }
            },
        }
    } else {
        spec_bin_expr(t, c, 0)
    }
}

/// One level of left-associative binary operators; level 6 and beyond
/// is a unary expression.
pub open spec fn spec_bin_expr(t: Seq<Token>, c: int, level: int) -> (
    Result<ExprV, ParseError>,
    int,
)
    decreases t.len() - c, 48 - 2 * clamp_level(level),
    when 0 <= c < t.len()
{
    if level < 0 || level >= 6 {
        spec_unary(t, c)
    } else {
        let (r1, p1) = spec_bin_expr(t, c, level + 1);
        match r1 {
            Err(e) => (Err(e), p1),
            Ok(lhs) => spec_bin_rest(
                t,
                within(c, p1, t.len() as int),
                level,
                lhs,
                lhs.region,
            ),
        }
    }
}

/// The `( op next-level )*` tail of one binary-operator level: each
/// step builds one `Binary` node whose region runs from the start of
/// the leftmost operand to the end of the newest one.
pub open spec fn spec_bin_rest(t: Seq<Token>, c: int, level: int, lhs: ExprV, start: Region) -> (
    Result<ExprV, ParseError>,
    int,
)
    decreases t.len() - c, 47 - 2 * clamp_level(level),
    when 0 <= c < t.len()
{
    if level < 0 || level >= 6 {
        (Ok(lhs), c)
    } else {
        match level_op(level, tok_at(t, c).kind) {
            None => (Ok(lhs), c),
            Some(op) => {
                let p1 = eat_at(t, c);
                let (r2, p2) = spec_bin_expr(t, p1, level + 1);
                match r2 {
                    Err(e) => (Err(e), p2),
                    Ok(rhs) => {
                        let node = ExprV {
                            kind: ExprKindV::Binary(op, Box::new(lhs), Box::new(rhs)),
                            region: start.spec_to(rhs.region),
                        };
                        spec_bin_rest(t, within(c + 1, p2, t.len() as int), level, node, start)
                    },
                }
            },
        }
    }
}

/// unary -> ('!' | '-') unary | call
pub open spec fn spec_unary(t: Seq<Token>, c: int) -> (Result<ExprV, ParseError>, int)
    decreases t.len() - c, 33int,
    when 0 <= c < t.len()
{
    let kind = tok_at(t, c).kind;
    if kind == TokenKind::Bang || kind == TokenKind::Minus {
        let op_tok = tok_at(t, c);
        let op = if kind == TokenKind::Bang {
            UnOp::Not
        } else {
            UnOp::Neg
        };
        let p1 = eat_at(t, c);
        let (r, p2) = spec_unary(t, within(c + 1, p1, t.len() as int));
        match r {
            Err(e) => (Err(e), p2),
            Ok(rhs) => (
                Ok(
                    ExprV {
                        kind: ExprKindV::Unary(op, Box::new(rhs)),
                        region: op_tok.region.spec_to(rhs.region),
                    },
                ),
                p2,
            ),
        }
    } else {
        spec_call(t, c)
    }
}

/// call -> IDENT '(' args? ')' | primary
pub open spec fn spec_call(t: Seq<Token>, c: int) -> (Result<ExprV, ParseError>, int)
    decreases t.len() - c, 30int,
    when 0 <= c < t.len()
{
    match tok_at(t, c).kind {
        TokenKind::Ident(name) => if tok_at(t, c + 1).kind == TokenKind::OpenParen {
            let fn_tok = tok_at(t, c);
            let p1 = c + 2;
            let (ra, p2) = if tok_at(t, p1).kind == TokenKind::CloseParen {
                (Ok(Seq::<ExprV>::empty()), p1)
            } else {
                spec_call_args(t, within(c + 1, p1, t.len() as int))
            };
            match ra {
                Err(e) => (Err(e), p2),
                Ok(args) => {
                    let (rc, p3) = spec_expect(
                        t,
                        p2,
                        TokenKind::CloseParen,
                        "expected ')' after argument list",
                    );
                    match rc {
                        Err(e) => (Err(e), p3),
                        Ok(close_paren) => (
                            Ok(
                                ExprV {
                                    kind: ExprKindV::Call(name, args),
                                    region: fn_tok.region.spec_to(close_paren.region),
                                },
                            ),
                            p3,
                        ),
                    }
                },
            }
        } else {
            spec_primary(t, c)
        },
        _ => spec_primary(t, c),
    }
}

/// A comma-separated, non-empty argument list.
pub open spec fn spec_call_args(t: Seq<Token>, c: int) -> (Result<Seq<ExprV>, ParseError>, int)
    decreases t.len() - c, 62int,
    when 0 <= c < t.len()
{
    let (r1, p1) = spec_expression(t, c);
    match r1 {
        Err(e) => (Err(e), p1),
        Ok(arg) => if tok_at(t, p1).kind == TokenKind::Comma {
            let p2 = eat_at(t, p1);
            let (r2, p3) = spec_call_args(t, within(c + 1, p2, t.len() as int));
            match r2 {
                Err(e) => (Err(e), p3),
                Ok(rest) => (Ok(seq![arg] + rest), p3),
            }
        } else {
            (Ok(seq![arg]), p1)
        },
    }
}

/// primary -> IDENT | LITERAL | '(' expression ')'
pub open spec fn spec_primary(t: Seq<Token>, c: int) -> (Result<ExprV, ParseError>, int)
    decreases t.len() - c, 20int,
    when 0 <= c < t.len()
{
    match tok_at(t, c).kind {
        TokenKind::Ident(name) => (
            Ok(ExprV { kind: ExprKindV::Variable(name), region: tok_at(t, c).region }),
            eat_at(t, c),
        ),
        TokenKind::Literal(lit) => (
            Ok(ExprV { kind: ExprKindV::Lit(lit), region: tok_at(t, c).region }),
            eat_at(t, c),
        ),
        TokenKind::OpenParen => {
            let p1 = eat_at(t, c);
            let (r, p2) = spec_expression(t, within(c + 1, p1, t.len() as int));
            let (rc, p3) = spec_expect(
                t,
                p2,
                TokenKind::CloseParen,
                "expected ')' to close expression",
            );
            match rc {
                Err(e) => (Err(e), p3),
                Ok(_) => (r, p3),
            }
        },
        _ => (
            Err(ParseError { message: "expected an expression", region: tok_at(t, c).region }),
            c,
        ),
    }
}

/// Discard tokens until a statement boundary: just past a semicolon,
/// or just before a declaration-starting keyword; always past at least
/// one token when any are left.
pub open spec fn spec_sync(t: Seq<Token>, c: int) -> int {
    spec_sync_loop(t, eat_at(t, c))
}

pub open spec fn spec_sync_loop(t: Seq<Token>, c: int) -> int
    decreases t.len() - c,
{
    let kind = tok_at(t, c).kind;
    if kind == TokenKind::Eof {
        c
    } else if prev_tok(t, c).kind == TokenKind::Semicolon {
        c
    } else if kind == TokenKind::Extern || kind == TokenKind::Func || kind == TokenKind::Var
        || kind == TokenKind::If || kind == TokenKind::Ret {
        c
    } else {
        spec_sync_loop(t, c + 1)
    }
}

/// type_annotation -> IDENT, where the primitive type names denote the
/// boolean and sized-integer types and any other name is a named type.
pub open spec fn spec_type_annotation(t: Seq<Token>, c: int) -> (Result<Type, ParseError>, int) {
    let (r, p1) = spec_expect_ident(t, c, "expected a type name");
    match r {
        Err(e) => (Err(e), p1),
        Ok(name) => (Ok(spec_type_of(name)), p1),
    }
}

/// The integer width at offset `off` in a family of sized integer
/// type names: 8, 16, 32, 64.
pub open spec fn spec_int_size_at(off: int) -> IntSize {
    if off == 0 {
        IntSize(8)
    } else if off == 1 {
        IntSize(16)
    } else if off == 2 {
        IntSize(32)
    } else {
        IntSize(64)
    }
}

/// The type a type name denotes.
pub open spec fn spec_type_of(name: Symbol) -> Type {
    if name.0 == SYM_BOOL {
        Type::Bool
    } else if SYM_UINT8 <= name.0 < SYM_UINT8 + 4 {
        Type::Int { signed: false, size: spec_int_size_at(name.0 - SYM_UINT8) }
    } else if SYM_INT8 <= name.0 < SYM_INT8 + 4 {
        Type::Int { signed: true, size: spec_int_size_at(name.0 - SYM_INT8) }
    } else if SYM_U8 <= name.0 < SYM_U8 + 4 {
        Type::Int { signed: false, size: spec_int_size_at(name.0 - SYM_U8) }
    } else if SYM_S8 <= name.0 < SYM_S8 + 4 {
        Type::Int { signed: true, size: spec_int_size_at(name.0 - SYM_S8) }
    } else {
        Type::Name(name)
    }
}

/// A function prototype:
/// `name '(' (name ':' type (',' name ':' type)*)? ')' (':' type)?`,
/// an absent return type defaulting to void.
pub open spec fn spec_proto(t: Seq<Token>, c: int) -> (Result<FuncProtoV, ParseError>, int)
    decreases t.len() - c, 75int,
    when 0 <= c < t.len()
{
    let proto_start = tok_at(t, c);
    let (rn, p1) = spec_expect_ident(t, c, "expected function name");
    match rn {
        Err(e) => (Err(e), p1),
        Ok(name) => {
            let (ro, p2) = spec_expect(
                t,
                p1,
                TokenKind::OpenParen,
                "expected '(' after function name",
            );
            match ro {
                Err(e) => (Err(e), p2),
                Ok(_) => {
                    let (rp, p3) = if tok_at(t, p2).kind == TokenKind::CloseParen {
                        (Ok(Seq::<Param>::empty()), p2)
                    } else {
                        spec_param_list(t, within(c + 1, p2, t.len() as int))
                    };
                    match rp {
                        Err(e) => (Err(e), p3),
                        Ok(params) => {
                            let (rc, p4) = spec_expect(
                                t,
                                p3,
                                TokenKind::CloseParen,
                                "expected ')' after parameter list",
                            );
                            match rc {
                                Err(e) => (Err(e), p4),
                                Ok(close_paren) => {
                                    let (rt, p5) = if tok_at(t, p4).kind == TokenKind::Colon {
                                        spec_type_annotation(t, eat_at(t, p4))
                                    } else {
                                        (Ok(Type::Void), p4)
                                    };
                                    match rt {
                                        Err(e) => (Err(e), p5),
                                        Ok(ret) => (
                                            Ok(
                                                FuncProtoV {
                                                    name,
                                                    params,
                                                    ret,
                                                    region: proto_start.region.spec_to(
                                                        close_paren.region,
                                                    ),
                                                },
                                            ),
                                            p5,
                                        ),
                                    }
                                },
                            }
                        },
                    }
                },
            }
        },
    }
}

/// A comma-separated, non-empty parameter list: `name ':' type`.
pub open spec fn spec_param_list(t: Seq<Token>, c: int) -> (Result<Seq<Param>, ParseError>, int)
    decreases t.len() - c, 74int,
    when 0 <= c < t.len()
{
    let (rn, p1) = spec_expect_ident(t, c, "expected parameter list");
    match rn {
        Err(e) => (Err(e), p1),
        Ok(name) => {
            let (rc, p2) = spec_expect(
                t,
                p1,
                TokenKind::Colon,
                "expected type annotation after parameter name",
            );
            match rc {
                Err(e) => (Err(e), p2),
                Ok(_) => {
                    let (rt, p3) = spec_type_annotation(t, p2);
                    match rt {
                        Err(e) => (Err(e), p3),
                        Ok(ty) => if tok_at(t, p3).kind == TokenKind::Comma {
                            let p4 = eat_at(t, p3);
                            let (rr, p5) = spec_param_list(t, within(c + 1, p4, t.len() as int));
                            match rr {
                                Err(e) => (Err(e), p5),
                                Ok(rest) => (Ok(seq![Param { name, ty }] + rest), p5),
                            }
                        } else {
                            (Ok(seq![Param { name, ty }]), p3)
                        },
                    }
                },
            }
        },
    }
}

/// block -> declaration* '}'  — the opening brace has been eaten.
pub open spec fn spec_block(t: Seq<Token>, c: int) -> (Result<Seq<StmtV>, ParseError>, int)
    decreases t.len() - c, 95int,
    when 0 <= c < t.len()
{
    let kind = tok_at(t, c).kind;
    if kind == TokenKind::CloseBrace || kind == TokenKind::Eof {
        let (rc, p1) = spec_expect(t, c, TokenKind::CloseBrace, "expected '}' to close block");
        match rc {
            Err(e) => (Err(e), p1),
            Ok(_) => (Ok(Seq::<StmtV>::empty()), p1),
        }
    } else {
        let (r, p) = spec_declaration(t, c);
        match r {
            Err(e) => (Err(e), p),
            Ok(st) => {
                let (rr, p2) = spec_block(t, within(c + 1, p, t.len() as int));
                match rr {
                    Err(e) => (Err(e), p2),
                    Ok(rest) => (Ok(seq![st] + rest), p2),
                }
            },
        }
    }
}

/// declaration -> extern_decl | func_decl | var_decl | import |
/// statement; on an error the parser synchronizes to the next
/// statement boundary and reports the error.
pub open spec fn spec_declaration(t: Seq<Token>, c: int) -> (Result<StmtV, ParseError>, int)
    decreases t.len() - c, 90int,
    when 0 <= c < t.len()
{
    let (r, p) = match tok_at(t, c).kind {
        TokenKind::Extern => spec_extern_decl(t, c),
        TokenKind::Func => spec_func_decl(t, c),
        TokenKind::Var => spec_var_decl(t, c),
        TokenKind::Impt => spec_impt(t, c),
        _ => spec_statement(t, c),
    };
    match r {
        Err(e) => (Err(e), spec_sync(t, within(c, p, t.len() as int))),
        Ok(st) => (Ok(st), p),
    }
}

/// extern_decl -> 'extern' 'func' proto ';'
pub open spec fn spec_extern_decl(t: Seq<Token>, c: int) -> (Result<StmtV, ParseError>, int)
    decreases t.len() - c, 80int,
    when 0 <= c < t.len()
{
    let extern_kw = tok_at(t, c);
    let p1 = eat_at(t, c);
    let (rf, p2) = spec_expect(t, p1, TokenKind::Func, "expected 'func'");
    match rf {
        Err(e) => (Err(e), p2),
        Ok(_) => {
            let (rp, p3) = spec_proto(t, within(c, p2, t.len() as int));
            match rp {
                Err(e) => (Err(e), p3),
                Ok(proto) => {
                    let (rs, p4) = spec_expect(
                        t,
                        p3,
                        TokenKind::Semicolon,
                        "expected ';' after function prototype",
                    );
                    match rs {
                        Err(e) => (Err(e), p4),
                        Ok(semicolon) => (
                            Ok(
                                StmtV {
                                    kind: StmtKindV::Extern(proto),
                                    region: extern_kw.region.spec_to(semicolon.region),
                                },
                            ),
                            p4,
                        ),
                    }
                },
            }
        },
    }
}

/// func_decl -> 'func' proto '{' block
pub open spec fn spec_func_decl(t: Seq<Token>, c: int) -> (Result<StmtV, ParseError>, int)
    decreases t.len() - c, 80int,
    when 0 <= c < t.len()
{
    let func_kw = tok_at(t, c);
    let p1 = eat_at(t, c);
    let (rp, p2) = spec_proto(t, within(c, p1, t.len() as int));
    match rp {
        Err(e) => (Err(e), p2),
        Ok(proto) => {
            let (ro, p3) = spec_expect(
                t,
                p2,
                TokenKind::OpenBrace,
                "expected '{' before function body",
            );
            match ro {
                Err(e) => (Err(e), p3),
                Ok(_) => {
                    let (rb, p4) = spec_block(t, within(c + 1, p3, t.len() as int));
                    match rb {
                        Err(e) => (Err(e), p4),
                        Ok(body) => (
                            Ok(
                                StmtV {
                                    kind: StmtKindV::Func(proto, body),
                                    region: func_kw.region.spec_to(prev_tok(t, p4).region),
                                },
                            ),
                            p4,
                        ),
                    }
                },
            }
        },
    }
}

/// var_decl -> 'var' IDENT '=' expression ';'
pub open spec fn spec_var_decl(t: Seq<Token>, c: int) -> (Result<StmtV, ParseError>, int)
    decreases t.len() - c, 80int,
    when 0 <= c < t.len()
{
    let var_kw = tok_at(t, c);
    let p1 = eat_at(t, c);
    let (rn, p2) = spec_expect_ident(t, p1, "expected variable name");
    match rn {
        Err(e) => (Err(e), p2),
        Ok(name) => {
            let (re, p3) = spec_expect(
                t,
                p2,
                TokenKind::Equal,
                "expected '=' in variable declaration",
            );
            match re {
                Err(e) => (Err(e), p3),
                Ok(_) => {
                    let (ri, p4) = spec_expression(t, within(c, p3, t.len() as int));
                    match ri {
                        Err(e) => (Err(e), p4),
                        Ok(init) => {
                            let (rs, p5) = spec_expect(
                                t,
                                p4,
                                TokenKind::Semicolon,
                                "expected ';' at end of variable declaration",
                            );
                            match rs {
                                Err(e) => (Err(e), p5),
                                Ok(semicolon) => (
                                    Ok(
                                        StmtV {
                                            kind: StmtKindV::Var(name, Box::new(init)),
                                            region: var_kw.region.spec_to(semicolon.region),
                                        },
                                    ),
                                    p5,
                                ),
                            }
                        },
                    }
                },
            }
        },
    }
}

/// import -> '@impt' STRING
pub open spec fn spec_impt(t: Seq<Token>, c: int) -> (Result<StmtV, ParseError>, int) {
    let impt_kw = tok_at(t, c);
    let p1 = eat_at(t, c);
    match tok_at(t, p1).kind {
        TokenKind::Literal(crate::ast::Lit::Str(path)) => {
            let path_lit = tok_at(t, p1);
            (
                Ok(
                    StmtV {
                        kind: StmtKindV::Impt(path),
                        region: impt_kw.region.spec_to(path_lit.region),
                    },
                ),
                eat_at(t, p1),
            )
        },
        _ => (
            Err(
                ParseError {
                    message: "expected path after 'impt' statement",
                    region: tok_at(t, p1).region,
                },
            ),
            p1,
        ),
    }
}

/// statement -> ret_stmt | block | import | expr_stmt
pub open spec fn spec_statement(t: Seq<Token>, c: int) -> (Result<StmtV, ParseError>, int)
    decreases t.len() - c, 80int,
    when 0 <= c < t.len()
{
    match tok_at(t, c).kind {
        TokenKind::Ret => spec_ret_stmt(t, c),
        TokenKind::OpenBrace => {
            let open_brace = tok_at(t, c);
            let p1 = eat_at(t, c);
            let (r, p2) = spec_block(t, within(c + 1, p1, t.len() as int));
            match r {
                Err(e) => (Err(e), p2),
                Ok(stmts) => (
                    Ok(
                        StmtV {
                            kind: StmtKindV::Block(stmts),
                            region: open_brace.region.spec_to(prev_tok(t, p2).region),
                        },
                    ),
                    p2,
                ),
            }
        },
        TokenKind::Impt => spec_impt(t, c),
        _ => spec_expr_stmt(t, c),
    }
}

/// ret_stmt -> 'ret' expression ';'
pub open spec fn spec_ret_stmt(t: Seq<Token>, c: int) -> (Result<StmtV, ParseError>, int)
    decreases t.len() - c, 70int,
    when 0 <= c < t.len()
{
    let ret_kw = tok_at(t, c);
    let p1 = eat_at(t, c);
    let (rv, p2) = spec_expression(t, within(c, p1, t.len() as int));
    match rv {
        Err(e) => (Err(e), p2),
        Ok(value) => {
            let (rs, p3) = spec_expect(
                t,
                p2,
                TokenKind::Semicolon,
                "expected ';' at end of return statement",
            );
            match rs {
                Err(e) => (Err(e), p3),
                Ok(semicolon) => (
                    Ok(
                        StmtV {
                            kind: StmtKindV::Ret(Box::new(value)),
                            region: ret_kw.region.spec_to(semicolon.region),
                        },
                    ),
                    p3,
                ),
            }
        },
    }
}

/// expr_stmt -> expression ';'?  — a conditional used as a statement
/// needs no trailing semicolon; every other expression statement does.
pub open spec fn spec_expr_stmt(t: Seq<Token>, c: int) -> (Result<StmtV, ParseError>, int)
    decreases t.len() - c, 70int,
    when 0 <= c < t.len()
{
    let expr_start = tok_at(t, c);
    let (r, p1) = spec_expression(t, c);
    match r {
        Err(e) => (Err(e), p1),
        Ok(expr) => if !(expr.kind is Cond) {
            let (rs, p2) = spec_expect(
                t,
                p1,
                TokenKind::Semicolon,
                "expected semicolon after expression",
            );
            match rs {
                Err(e) => (Err(e), p2),
                Ok(_) => (
                    Ok(
                        StmtV {
                            kind: StmtKindV::Expr(Box::new(expr)),
                            region: expr_start.region.spec_to(prev_tok(t, p2).region),
                        },
                    ),
                    p2,
                ),
            }
        } else {
            (
                Ok(
                    StmtV {
                        kind: StmtKindV::Expr(Box::new(expr)),
                        region: expr_start.region.spec_to(prev_tok(t, p1).region),
                    },
                ),
                p1,
            )
        },
    }
}

/// The whole module: one parse attempt per top-level declaration,
/// continuing past errors via synchronization.
pub open spec fn spec_parse(t: Seq<Token>, c: int) -> Seq<Result<StmtV, ParseError>>
    decreases t.len() - c, 99int,
{
    if !(0 <= c < t.len()) || tok_at(t, c).kind == TokenKind::Eof {
        Seq::empty()
    } else {
        let (r, p) = spec_declaration(t, c);
        seq![r] + spec_parse(t, within(c + 1, p, t.len() as int))
    }
}

/// The shape of a lone identifier or literal as an expression node.
pub open spec fn atom_expr(tok: Token) -> ExprV {
    match tok.kind {
        TokenKind::Ident(name) => ExprV { kind: ExprKindV::Variable(name), region: tok.region },
        TokenKind::Literal(lit) => ExprV { kind: ExprKindV::Lit(lit), region: tok.region },
        _ => ExprV { kind: ExprKindV::Variable(Symbol(0)), region: tok.region },
    }
}

/// A token kind that a primary expression consists of.
pub open spec fn is_atom_kind(k: TokenKind) -> bool {
    k is Ident || k is Literal
}

/// The precedence level a binary-operator token belongs to.
pub open spec fn level_of(k: TokenKind) -> int {
    if k == TokenKind::DoubleBar {
        0
    } else if k == TokenKind::DoubleAmpersand {
        1
    } else if k == TokenKind::BangEqual || k == TokenKind::DoubleEqual {
        2
    } else if k == TokenKind::Gt || k == TokenKind::Ge || k == TokenKind::Lt || k
        == TokenKind::Le {
        3
    } else if k == TokenKind::Minus || k == TokenKind::Plus {
        4
    } else {
        5
    }
}

/// An identifier or literal followed by nothing a binary level can
/// continue with parses, at every level, as its primary node alone.
proof fn lemma_bin_expr_atom(t: Seq<Token>, c: int, level: int)
    requires
        0 <= c,
        c + 1 < t.len(),
        0 <= level <= 6,
        is_atom_kind(t[c].kind),
        t[c + 1].kind != TokenKind::OpenParen,
        forall|lv: int| level <= lv < 6 ==> #[trigger] level_op(lv, t[c + 1].kind) is None,
    ensures
        spec_bin_expr(t, c, level) == (
            Ok::<ExprV, ParseError>(atom_expr(t[c])),
            c + 1,
        ),
    decreases 6 - level,
{
    if level >= 6 {
        assert(spec_bin_expr(t, c, level) == spec_unary(t, c));
        assert(spec_unary(t, c) == spec_call(t, c));
        if t[c].kind is Ident {
            assert(tok_at(t, c + 1).kind != TokenKind::OpenParen);
        }
        assert(spec_call(t, c) == spec_primary(t, c));
    } else {
        lemma_bin_expr_atom(t, c, level + 1);
        assert(within(c, c + 1, t.len() as int) == c + 1);
        assert(level_op(level, tok_at(t, c + 1).kind) is None);
        assert(spec_bin_rest(t, c + 1, level, atom_expr(t[c]), atom_expr(t[c]).region) == (
            Ok::<ExprV, ParseError>(atom_expr(t[c])),
            c + 1,
        ));
    }
}

/// The binary node `a op b` out of levels `level` and below, when the
/// input is exactly `a op b` followed by end of input.
proof fn lemma_bin_expr_chain(t: Seq<Token>, level: int, op_level: int)
    requires
        t.len() == 4,
        0 <= level <= op_level < 6,
        is_atom_kind(t[0].kind),
        is_atom_kind(t[2].kind),
        spec_to_bin_op(t[1].kind) is Some,
        level_of(t[1].kind) == op_level,
        level_op(op_level, t[1].kind) == spec_to_bin_op(t[1].kind),
        t[3].kind == TokenKind::Eof,
    ensures
        spec_bin_expr(t, 0, level) == (
            Ok::<ExprV, ParseError>(
                ExprV {
                    kind: ExprKindV::Binary(
                        spec_to_bin_op(t[1].kind)->Some_0,
                        Box::new(atom_expr(t[0])),
                        Box::new(atom_expr(t[2])),
                    ),
                    region: t[0].region.spec_to(t[2].region),
                },
            ),
            3int,
        ),
    decreases op_level - level,
{
    let node = ExprV {
        kind: ExprKindV::Binary(
            spec_to_bin_op(t[1].kind)->Some_0,
            Box::new(atom_expr(t[0])),
            Box::new(atom_expr(t[2])),
        ),
        region: t[0].region.spec_to(t[2].region),
    };
    if level == op_level {
        // the operator fires at its own level
        assert(forall|lv: int| op_level < lv < 6 ==> #[trigger] level_op(lv, t[1].kind) is None);
        lemma_bin_expr_atom(t, 0, level + 1);
        assert(within(0, 1, t.len() as int) == 1);
        let a = atom_expr(t[0]);
        assert(level_op(level, tok_at(t, 1).kind) is Some);
        assert(eat_at(t, 1) == 2);
        assert(forall|lv: int| level + 1 <= lv < 6 ==> #[trigger] level_op(lv, t[3].kind) is None);
        lemma_bin_expr_atom(t, 2, level + 1);
        assert(spec_bin_expr(t, 2, level + 1) == (
            Ok::<ExprV, ParseError>(atom_expr(t[2])),
            3int,
        ));
        assert(within(2int, 3int, t.len() as int) == 3);
        assert(level_op(level, tok_at(t, 3).kind) is None);
        assert(spec_bin_rest(t, 3, level, node, a.region) == (
            Ok::<ExprV, ParseError>(node),
            3int,
        ));
        assert(spec_bin_rest(t, 1, level, a, a.region) == (Ok::<ExprV, ParseError>(node), 3int));
    } else {
        lemma_bin_expr_chain(t, level + 1, op_level);
        assert(within(0, 3, t.len() as int) == 3);
        assert(level_op(level, tok_at(t, 3).kind) is None);
        assert(spec_bin_rest(t, 3, level, node, node.region) == (
            Ok::<ExprV, ParseError>(node),
            3int,
        ));
    }
}

/// On every token sequence holding a single binary expression
/// `a op b` — a primary, a binary operator and a primary, then end of
/// input — the parser produces one `Binary` node whose operator is the
/// token's, whose operands are the two primaries, and whose region
/// spans from `a`'s start to `b`'s end.
pub proof fn lemma_parse_single_binary(t: Seq<Token>)
    requires
        t.len() == 4,
        is_atom_kind(t[0].kind),
        spec_to_bin_op(t[1].kind) is Some,
        is_atom_kind(t[2].kind),
        t[3].kind == TokenKind::Eof,
        t[0].region.spec_start() <= t[2].region.spec_start(),
        t[0].region.spec_end() <= t[2].region.spec_end(),
    ensures
        spec_expression(t, 0) == (
            Ok::<ExprV, ParseError>(
                ExprV {
                    kind: ExprKindV::Binary(
                        spec_to_bin_op(t[1].kind)->Some_0,
                        Box::new(atom_expr(t[0])),
                        Box::new(atom_expr(t[2])),
                    ),
                    region: Region {
                        start: t[0].region.start,
                        length: (t[2].region.spec_end() - t[0].region.spec_start()) as usize,
                    },
                },
            ),
            3int,
        ),
{
    let op_level = level_of(t[1].kind);
    assert(level_op(op_level, t[1].kind) == spec_to_bin_op(t[1].kind));
    lemma_bin_expr_chain(t, 0, op_level);
    assert(t[0].kind != TokenKind::If);
    assert(spec_conditional(t, 0) == spec_bin_expr(t, 0, 0));
    assert(tok_at(t, 3).kind != TokenKind::Equal);
    assert(t[0].region.spec_to(t[2].region) == Region {
        start: t[0].region.start,
        length: (t[2].region.spec_end() - t[0].region.spec_start()) as usize,
    });
}

/// Operators of equal precedence parse left-associatively: on every
/// token sequence `a op1 b op2 c` with `op1` and `op2` of the same
/// precedence level, the parser produces
/// `Binary(op2, Binary(op1, a, b), c)`, the regions accumulating from
/// the leftmost operand.
pub proof fn lemma_parse_left_associative(t: Seq<Token>)
    requires
        t.len() == 6,
        is_atom_kind(t[0].kind),
        spec_to_bin_op(t[1].kind) is Some,
        is_atom_kind(t[2].kind),
        spec_to_bin_op(t[3].kind) is Some,
        is_atom_kind(t[4].kind),
        t[5].kind == TokenKind::Eof,
        level_of(t[1].kind) == level_of(t[3].kind),
    ensures
        spec_expression(t, 0) == (
            Ok::<ExprV, ParseError>(
                ExprV {
                    kind: ExprKindV::Binary(
                        spec_to_bin_op(t[3].kind)->Some_0,
                        Box::new(
                            ExprV {
                                kind: ExprKindV::Binary(
                                    spec_to_bin_op(t[1].kind)->Some_0,
                                    Box::new(atom_expr(t[0])),
                                    Box::new(atom_expr(t[2])),
                                ),
                                region: t[0].region.spec_to(t[2].region),
                            },
                        ),
                        Box::new(atom_expr(t[4])),
                    ),
                    region: t[0].region.spec_to(t[4].region),
                },
            ),
            5int,
        ),
{
    let op_level = level_of(t[1].kind);
    assert(level_op(op_level, t[1].kind) == spec_to_bin_op(t[1].kind));
    assert(level_op(op_level, t[3].kind) == spec_to_bin_op(t[3].kind));
    lemma_bin_chain_two(t, 0, op_level);
    assert(t[0].kind != TokenKind::If);
    assert(spec_conditional(t, 0) == spec_bin_expr(t, 0, 0));
    assert(tok_at(t, 5).kind != TokenKind::Equal);
}

/// The two-operator chain out of levels `level` and below.
proof fn lemma_bin_chain_two(t: Seq<Token>, level: int, op_level: int)
    requires
        t.len() == 6,
        0 <= level <= op_level < 6,
        is_atom_kind(t[0].kind),
        is_atom_kind(t[2].kind),
        is_atom_kind(t[4].kind),
        spec_to_bin_op(t[1].kind) is Some,
        spec_to_bin_op(t[3].kind) is Some,
        level_of(t[1].kind) == op_level,
        level_of(t[3].kind) == op_level,
        level_op(op_level, t[1].kind) == spec_to_bin_op(t[1].kind),
        level_op(op_level, t[3].kind) == spec_to_bin_op(t[3].kind),
        t[5].kind == TokenKind::Eof,
    ensures
        spec_bin_expr(t, 0, level) == (
            Ok::<ExprV, ParseError>(
                ExprV {
                    kind: ExprKindV::Binary(
                        spec_to_bin_op(t[3].kind)->Some_0,
                        Box::new(
                            ExprV {
                                kind: ExprKindV::Binary(
                                    spec_to_bin_op(t[1].kind)->Some_0,
                                    Box::new(atom_expr(t[0])),
                                    Box::new(atom_expr(t[2])),
                                ),
                                region: t[0].region.spec_to(t[2].region),
                            },
                        ),
                        Box::new(atom_expr(t[4])),
                    ),
                    region: t[0].region.spec_to(t[4].region),
                },
            ),
            5int,
        ),
    decreases op_level - level,
{
    let inner = ExprV {
        kind: ExprKindV::Binary(
            spec_to_bin_op(t[1].kind)->Some_0,
            Box::new(atom_expr(t[0])),
            Box::new(atom_expr(t[2])),
        ),
        region: t[0].region.spec_to(t[2].region),
    };
    let outer = ExprV {
        kind: ExprKindV::Binary(
            spec_to_bin_op(t[3].kind)->Some_0,
            Box::new(inner),
            Box::new(atom_expr(t[4])),
        ),
        region: t[0].region.spec_to(t[4].region),
    };
    if level == op_level {
        assert(forall|lv: int| op_level < lv < 6 ==> #[trigger] level_op(lv, t[1].kind) is None);
        assert(forall|lv: int| op_level < lv < 6 ==> #[trigger] level_op(lv, t[3].kind) is None);
        assert(forall|lv: int| level + 1 <= lv < 6 ==> #[trigger] level_op(lv, t[5].kind) is None);
        lemma_bin_expr_atom(t, 0, level + 1);
        assert(within(0, 1, t.len() as int) == 1);
        let a = atom_expr(t[0]);
        // first iteration: `op1` fires, building the inner node
        assert(level_op(level, tok_at(t, 1).kind) is Some);
        assert(eat_at(t, 1) == 2);
        lemma_bin_expr_atom(t, 2, level + 1);
        assert(within(2int, 3int, t.len() as int) == 3);
        // second iteration: `op2` fires on the inner node as its left
        // operand, keeping the leftmost start
        assert(level_op(level, tok_at(t, 3).kind) is Some);
        assert(eat_at(t, 3) == 4);
        lemma_bin_expr_atom(t, 4, level + 1);
        assert(within(4int, 5int, t.len() as int) == 5);
        assert(level_op(level, tok_at(t, 5).kind) is None);
        assert(t[0].region.spec_to(atom_expr(t[4]).region) == t[0].region.spec_to(t[4].region));
        assert(spec_bin_rest(t, 5, level, outer, a.region) == (
            Ok::<ExprV, ParseError>(outer),
            5int,
        ));
        assert(spec_bin_rest(t, 3, level, inner, a.region) == (
            Ok::<ExprV, ParseError>(outer),
            5int,
        ));
        assert(spec_bin_rest(t, 1, level, a, a.region) == (Ok::<ExprV, ParseError>(outer), 5int));
    } else {
        lemma_bin_chain_two(t, level + 1, op_level);
        assert(within(0, 5, t.len() as int) == 5);
        assert(level_op(level, tok_at(t, 5).kind) is None);
        assert(spec_bin_rest(t, 5, level, outer, outer.region) == (
            Ok::<ExprV, ParseError>(outer),
            5int,
        ));
    }
}

/// A conditional used as a statement needs no trailing semicolon,
/// while every other expression statement without one is a syntax
/// error.
pub proof fn lemma_conditional_statement_terminator(t: Seq<Token>, c: int)
    requires
        0 <= c < t.len(),
    ensures
        ({
            let (r, p) = spec_expression(t, c);
            r matches Ok(e) ==> {
                &&& (e.kind is Cond ==> spec_expr_stmt(t, c) == (
                    Ok::<StmtV, ParseError>(
                        StmtV {
                            kind: StmtKindV::Expr(Box::new(e)),
                            region: tok_at(t, c).region.spec_to(prev_tok(t, p).region),
                        },
                    ),
                    p,
                ))
                &&& (!(e.kind is Cond) && tok_at(t, p).kind != TokenKind::Semicolon
                    ==> spec_expr_stmt(t, c) == (
                    Err::<StmtV, ParseError>(
                        ParseError {
                            message: "expected semicolon after expression",
                            region: tok_at(t, p).region,
                        },
                    ),
                    p,
                ))
            }
        }),
{
}

/// Chained assignment is right-associative: on every token sequence
/// `a = b = c` — three identifiers joined by `=`, then end of input —
/// the parser produces `Assign(a, Assign(b, Variable(c)))`.
pub proof fn lemma_parse_chained_assignment(t: Seq<Token>)
    requires
        t.len() == 6,
        t[0].kind is Ident,
        t[1].kind == TokenKind::Equal,
        t[2].kind is Ident,
        t[3].kind == TokenKind::Equal,
        t[4].kind is Ident,
        t[5].kind == TokenKind::Eof,
        t[2].region.spec_start() <= t[4].region.spec_start(),
        t[2].region.spec_end() <= t[4].region.spec_end(),
    ensures
        ({
            let inner = ExprV {
                kind: ExprKindV::Assign(
                    t[2].kind->Ident_0,
                    Box::new(atom_expr(t[4])),
                ),
                region: t[2].region.spec_to(t[4].region),
            };
            spec_expression(t, 0) == (
                Ok::<ExprV, ParseError>(
                    ExprV {
                        kind: ExprKindV::Assign(t[0].kind->Ident_0, Box::new(inner)),
                        region: t[0].region.spec_to(inner.region),
                    },
                ),
                5int,
            )
        }),
{
    assert(forall|lv: int| 0 <= lv < 6 ==> #[trigger] level_op(lv, t[1].kind) is None);
    assert(forall|lv: int| 0 <= lv < 6 ==> #[trigger] level_op(lv, t[3].kind) is None);
    assert(forall|lv: int| 0 <= lv < 6 ==> #[trigger] level_op(lv, t[5].kind) is None);
    // the innermost assignment: c alone
    lemma_bin_expr_atom(t, 4, 0);
    assert(t[4].kind != TokenKind::If);
    assert(spec_conditional(t, 4) == spec_bin_expr(t, 4, 0));
    assert(tok_at(t, 5).kind != TokenKind::Equal);
    assert(spec_assignment(t, 4) == (Ok::<ExprV, ParseError>(atom_expr(t[4])), 5int));
    // b = c
    lemma_bin_expr_atom(t, 2, 0);
    assert(t[2].kind != TokenKind::If);
    assert(spec_conditional(t, 2) == spec_bin_expr(t, 2, 0));
    assert(tok_at(t, 3).kind == TokenKind::Equal);
    assert(eat_at(t, 3) == 4);
    assert(within(3int, 4int, t.len() as int) == 4);
    // a = (b = c)
    lemma_bin_expr_atom(t, 0, 0);
    assert(t[0].kind != TokenKind::If);
    assert(spec_conditional(t, 0) == spec_bin_expr(t, 0, 0));
    assert(tok_at(t, 1).kind == TokenKind::Equal);
    assert(eat_at(t, 1) == 2);
    assert(within(1int, 2int, t.len() as int) == 2);
}

} // verus!
