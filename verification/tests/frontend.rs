//! Lexer and parser behaviour on concrete source text.

use kip::ast::{BinOp, ExprKind, IntSize, Lit, StmtKind, Type};
use kip::interner::Interner;
use kip::lexer::Lexer;
use kip::parser::{tokens_wf, Parser};
use kip::source::Source;
use kip::token::TokenKind;

fn lex(input: &str, interner: &mut Interner) -> Vec<kip::token::Token> {
    let source = Source::new(input, "<string literal>");
    let mut lexer = Lexer::new(&source);
    lexer.lex(interner)
}

#[test]
fn strings_and_chars() {
    let mut interner = Interner::with_primitives();
    let tokens = lex("\"foo\" '7'", &mut interner);
    let foo = interner.intern("foo");
    assert_eq!(tokens[0].kind, TokenKind::Literal(Lit::Str(foo)));
    assert_eq!(tokens[1].kind, TokenKind::Literal(Lit::Char('7')));
}

#[test]
fn lexer_identifiers_and_parens() {
    let mut interner = Interner::with_primitives();
    let tokens = lex("func foo()", &mut interner);
    let foo = interner.intern("foo");
    assert_eq!(tokens[0].kind, TokenKind::Func);
    // Should skip whitespace...
    assert_eq!(tokens[1].kind, TokenKind::Ident(foo));
    assert_eq!(tokens[2].kind, TokenKind::OpenParen);
    assert_eq!(tokens[3].kind, TokenKind::CloseParen);
    // Should end with the end-of-input marker and nothing more...
    assert_eq!(tokens[4].kind, TokenKind::Eof);
    assert_eq!(tokens.len(), 5);
}

#[test]
fn comparison() {
    let mut interner = Interner::with_primitives();
    let tokens = lex("9000 == 1", &mut interner);
    assert_eq!(tokens[0].kind, TokenKind::Literal(Lit::Int(9000)));
    assert_eq!(tokens[1].kind, TokenKind::DoubleEqual);
    assert_eq!(tokens[2].kind, TokenKind::Literal(Lit::Int(1)));
}

#[test]
fn lexer_numbers_ops_and_commas() {
    let mut interner = Interner::with_primitives();
    let tokens = lex("42 + 3, 69 * 100, 1000", &mut interner);
    assert_eq!(tokens[0].kind, TokenKind::Literal(Lit::Int(42)));
    assert_eq!(tokens[1].kind, TokenKind::Plus);
    assert_eq!(tokens[2].kind, TokenKind::Literal(Lit::Int(3)));
    assert_eq!(tokens[3].kind, TokenKind::Comma);
    assert_eq!(tokens[4].kind, TokenKind::Literal(Lit::Int(69)));
    assert_eq!(tokens[5].kind, TokenKind::Star);
    assert_eq!(tokens[6].kind, TokenKind::Literal(Lit::Int(100)));
    assert_eq!(tokens[7].kind, TokenKind::Comma);
    assert_eq!(tokens[8].kind, TokenKind::Literal(Lit::Int(1000)));
    assert_eq!(tokens[9].kind, TokenKind::Eof);
}

#[test]
fn lexer_comments() {
    let input = "\
// this is a line comment\n
foo\n
/**\n
 * this is a block comment\n
 */\n
bar
// another line comment\n
baz";
    let mut interner = Interner::with_primitives();
    let tokens = lex(input, &mut interner);
    let foo = interner.intern("foo");
    let bar = interner.intern("bar");
    let baz = interner.intern("baz");
    assert_eq!(tokens[0].kind, TokenKind::Ident(foo));
    assert_eq!(tokens[1].kind, TokenKind::Ident(bar));
    assert_eq!(tokens[2].kind, TokenKind::Ident(baz));
    assert_eq!(tokens[3].kind, TokenKind::Eof);
}

#[test]
fn lexer_token_regions() {
    let mut interner = Interner::with_primitives();
    let tokens = lex("var xy", &mut interner);
    assert_eq!(tokens[0].region.start(), 0);
    assert_eq!(tokens[0].region.end(), 3);
    assert_eq!(tokens[1].region.start(), 4);
    assert_eq!(tokens[1].region.end(), 6);
    assert_eq!(tokens[1].region.len(), 2);
}

#[test]
fn lexer_reports_bad_literals() {
    let source = Source::new("\"abc", "<string literal>");
    let mut interner = Interner::with_primitives();
    let mut lexer = Lexer::new(&source);
    let tokens = lexer.lex(&mut interner);
    assert_eq!(tokens.len(), 1); // just the end-of-input marker
    assert_eq!(lexer.errors.len(), 1);
    assert_eq!(lexer.errors[0].message, "unterminated string literal");

    let source = Source::new("99999999999999999999", "<string literal>");
    let mut lexer = Lexer::new(&source);
    let tokens = lexer.lex(&mut interner);
    assert_eq!(tokens.len(), 1);
    assert_eq!(lexer.errors[0].message, "invalid integer literal");

    let source = Source::new("1.5", "<string literal>");
    let mut lexer = Lexer::new(&source);
    lexer.lex(&mut interner);
    assert_eq!(
        lexer.errors[0].message,
        "floating-point literals are not supported"
    );
}

fn parse(input: &str, interner: &mut Interner) -> Vec<Result<Box<kip::ast::Stmt>, kip::grammar::ParseError>> {
    let source = Source::new(input, "<string literal>");
    let mut lexer = Lexer::new(&source);
    let tokens = lexer.lex(interner);
    assert!(tokens_wf(&tokens));
    let mut parser = Parser::new(tokens, &source);
    parser.parse()
}

#[test]
fn parse_extern() {
    let mut interner = Interner::with_primitives();
    let decls = parse("extern func raise(sig: s32): s32;", &mut interner);
    let raise = interner.intern("raise");
    let sig = interner.intern("sig");
    assert_eq!(decls.len(), 1);
    let stmt = decls[0].as_ref().expect("expected an extern declaration");
    let proto = match &stmt.kind {
        StmtKind::Extern(proto) => proto,
        _ => panic!("expected an extern declaration"),
    };
    assert_eq!(proto.name, raise);
    assert_eq!(proto.params[0].name, sig);
    assert_eq!(proto.params[0].ty, Type::Int { signed: true, size: IntSize(32) });
    assert_eq!(proto.ret, Type::Int { signed: true, size: IntSize(32) });
}

#[test]
fn single_binary_expression_node() {
    // one binary node, operator and region from the operand tokens
    let mut interner = Interner::with_primitives();
    let decls = parse("ab - cd;", &mut interner);
    let ab = interner.intern("ab");
    let cd = interner.intern("cd");
    let stmt = decls[0].as_ref().expect("expected an expression statement");
    let expr = match &stmt.kind {
        StmtKind::Expr(e) => e,
        _ => panic!("expected an expression statement"),
    };
    match &expr.kind {
        ExprKind::Binary(op, lhs, rhs) => {
            assert_eq!(*op, BinOp::Sub);
            assert!(matches!(lhs.kind, ExprKind::Variable(v) if v == ab));
            assert!(matches!(rhs.kind, ExprKind::Variable(v) if v == cd));
            // the node's region spans from `ab`'s start to `cd`'s end
            assert_eq!(lhs.region.start(), 0);
            assert_eq!(expr.region.start(), 0);
            assert_eq!(expr.region.end(), 7);
        },
        _ => panic!("expected a binary expression"),
    }
}

#[test]
fn binary_operators_left_associative() {
    // "a - b - c" parses as Binary(Sub, Binary(Sub, a, b), c)
    let mut interner = Interner::with_primitives();
    let decls = parse("a - b - c;", &mut interner);
    let a = interner.intern("a");
    let b = interner.intern("b");
    let c = interner.intern("c");
    let stmt = decls[0].as_ref().expect("expected an expression statement");
    let expr = match &stmt.kind {
        StmtKind::Expr(e) => e,
        _ => panic!("expected an expression statement"),
    };
    match &expr.kind {
        ExprKind::Binary(op, lhs, rhs) => {
            assert_eq!(*op, BinOp::Sub);
            assert!(matches!(rhs.kind, ExprKind::Variable(v) if v == c));
            match &lhs.kind {
                ExprKind::Binary(inner_op, inner_lhs, inner_rhs) => {
                    assert_eq!(*inner_op, BinOp::Sub);
                    assert!(matches!(inner_lhs.kind, ExprKind::Variable(v) if v == a));
                    assert!(matches!(inner_rhs.kind, ExprKind::Variable(v) if v == b));
                },
                _ => panic!("expected a left-leaning chain"),
            }
        },
        _ => panic!("expected a binary expression"),
    }
}

#[test]
fn multiplication_binds_tighter_than_addition() {
    let mut interner = Interner::with_primitives();
    let decls = parse("a + b * c;", &mut interner);
    let stmt = decls[0].as_ref().expect("expected an expression statement");
    let expr = match &stmt.kind {
        StmtKind::Expr(e) => e,
        _ => panic!("expected an expression statement"),
    };
    match &expr.kind {
        ExprKind::Binary(op, _, rhs) => {
            assert_eq!(*op, BinOp::Add);
            assert!(matches!(&rhs.kind, ExprKind::Binary(BinOp::Mul, _, _)));
        },
        _ => panic!("expected a binary expression"),
    }
}

#[test]
fn assign_expression() {
    // "a = b = c;" parses as Assign("a", Assign("b", Variable("c")))
    let mut interner = Interner::with_primitives();
    let decls = parse("a = b = c;", &mut interner);
    let a = interner.intern("a");
    let b = interner.intern("b");
    let c = interner.intern("c");
    let stmt = decls[0].as_ref().expect("expected an assignment expression");
    let expr = match &stmt.kind {
        StmtKind::Expr(e) => e,
        _ => panic!("expected an expression statement"),
    };
    match &expr.kind {
        ExprKind::Assign(target, value) => {
            assert_eq!(*target, a);
            match &value.kind {
                ExprKind::Assign(inner_target, inner_value) => {
                    assert_eq!(*inner_target, b);
                    assert!(matches!(inner_value.kind, ExprKind::Variable(v) if v == c));
                },
                _ => panic!("expected a nested assignment"),
            }
        },
        _ => panic!("expected an assignment"),
    }
}

#[test]
fn invalid_assignment_target_is_an_error() {
    let mut interner = Interner::with_primitives();
    let decls = parse("1 = a;", &mut interner);
    let err = decls[0].as_ref().err().expect("expected a parse error");
    assert_eq!(err.message, "invalid assignment target");
}

#[test]
fn conditional_statement_needs_no_semicolon() {
    // a conditional as a statement is self-delimited by braces ...
    let mut interner = Interner::with_primitives();
    let decls = parse("if a { b; }", &mut interner);
    assert_eq!(decls.len(), 1);
    let stmt = decls[0].as_ref().expect("expected a conditional statement");
    let expr = match &stmt.kind {
        StmtKind::Expr(e) => e,
        _ => panic!("expected an expression statement"),
    };
    assert!(expr.is_cond());

    // ... while any other expression statement without one is an error
    let decls = parse("a", &mut interner);
    let err = decls[0].as_ref().err().expect("expected a parse error");
    assert_eq!(err.message, "expected semicolon after expression");
}

#[test]
fn conditionals() {
    let input = "\
if x >= 0 {\n\
    positive();\n\
} else {\n\
    negative();\n\
}";
    let mut interner = Interner::with_primitives();
    let decls = parse(input, &mut interner);
    let x = interner.intern("x");
    let positive = interner.intern("positive");
    let negative = interner.intern("negative");
    let stmt = decls[0].as_ref().expect("expected a conditional expression");
    let expr = match &stmt.kind {
        StmtKind::Expr(e) => e,
        _ => panic!("expected an expression statement"),
    };
    match &expr.kind {
        ExprKind::Cond(condition, then_branch, else_branch) => {
            match &condition.kind {
                ExprKind::Binary(op, lhs, rhs) => {
                    assert_eq!(*op, BinOp::Ge);
                    assert!(
                        matches!(lhs.kind, ExprKind::Variable(v) if v == x),
                        "expected variable reference"
                    );
                    assert!(
                        matches!(rhs.kind, ExprKind::Lit(Lit::Int(0))),
                        "expected an integer literal"
                    );
                },
                _ => panic!("expected binary expression"),
            }
            match &then_branch[0].kind {
                StmtKind::Expr(e) => match &e.kind {
                    ExprKind::Call(f, args) => {
                        assert_eq!(*f, positive);
                        assert!(args.is_empty());
                    },
                    _ => panic!("expected call expr"),
                },
                _ => panic!("expected expr in then branch"),
            }
            let else_branch = else_branch.as_ref().unwrap();
            match &else_branch[0].kind {
                StmtKind::Expr(e) => match &e.kind {
                    ExprKind::Call(f, args) => {
                        assert_eq!(*f, negative);
                        assert!(args.is_empty());
                    },
                    _ => panic!("expected call expr"),
                },
                _ => panic!("expected expr in else_block"),
            }
        },
        _ => panic!("expected a conditional expression"),
    }
}

#[test]
fn paren_expressions() {
    let mut interner = Interner::with_primitives();
    let decls = parse("(a + b);", &mut interner);
    let a = interner.intern("a");
    let b = interner.intern("b");
    let stmt = decls[0].as_ref().expect("expected an expression statement");
    let expr = match &stmt.kind {
        StmtKind::Expr(e) => e,
        _ => panic!("expected expr"),
    };
    match &expr.kind {
        ExprKind::Binary(op, lhs, rhs) => {
            assert_eq!(*op, BinOp::Add);
            assert!(matches!(lhs.kind, ExprKind::Variable(v) if v == a), "expected variable");
            assert!(matches!(rhs.kind, ExprKind::Variable(v) if v == b), "expected variable");
        },
        _ => panic!("expected binary expression"),
    }
}

#[test]
fn basic_func_decl() {
    let mut interner = Interner::with_primitives();
    let decls = parse("func main() { }", &mut interner);
    let main_name = interner.intern("main");
    let stmt = decls[0].as_ref().expect("expected func");
    let (proto, block) = match &stmt.kind {
        StmtKind::Func(proto, block) => (proto, block),
        _ => panic!("expected func"),
    };
    assert!(proto.params.is_empty());
    assert_eq!(proto.name, main_name);
    assert_eq!(proto.ret, Type::Void);
    assert!(block.is_empty());
}

#[test]
fn complex_func_decl() {
    let input = "func foo(a: int32, b: uint8): String {\n\
        var sum = a + b;\n\
        ret \"foo\";\n\
    }";
    let mut interner = Interner::with_primitives();
    let decls = parse(input, &mut interner);
    let foo = interner.intern("foo");
    let a = interner.intern("a");
    let b = interner.intern("b");
    let string_ty = interner.intern("String");
    let stmt = decls[0].as_ref().expect("expected func");
    let (proto, block) = match &stmt.kind {
        StmtKind::Func(proto, block) => (proto, block),
        _ => panic!("expected func"),
    };
    assert_eq!(proto.params.len(), 2);
    assert_eq!(proto.params[0].name, a);
    assert_eq!(proto.params[0].ty, Type::Int { signed: true, size: IntSize(32) });
    assert_eq!(proto.params[1].name, b);
    assert_eq!(proto.params[1].ty, Type::Int { signed: false, size: IntSize(8) });
    assert_eq!(proto.name, foo);
    assert_eq!(proto.ret, Type::Name(string_ty));
    assert_eq!(block.len(), 2);
}

#[test]
fn call() {
    let mut interner = Interner::with_primitives();
    let decls = parse("foo(bar, baz);", &mut interner);
    let foo = interner.intern("foo");
    let bar = interner.intern("bar");
    let baz = interner.intern("baz");
    let stmt = decls[0].as_ref().expect("expected a call expression");
    let expr = match &stmt.kind {
        StmtKind::Expr(e) => e,
        _ => panic!("expected an expression statement"),
    };
    match &expr.kind {
        ExprKind::Call(f, args) => {
            assert_eq!(*f, foo);
            assert_eq!(args.len(), 2);
            assert!(matches!(args[0].kind, ExprKind::Variable(v) if v == bar), "expected var");
            assert!(matches!(args[1].kind, ExprKind::Variable(v) if v == baz), "expected var");
        },
        _ => panic!("expected a call expression"),
    }
}

#[test]
fn parse_func_def() {
    let input = "\
        func add(x: s32, y: s32): s32 {\n\
            ret x + y;\n\
        }";
    let mut interner = Interner::with_primitives();
    let decls = parse(input, &mut interner);
    let add = interner.intern("add");
    let x = interner.intern("x");
    let y = interner.intern("y");
    let stmt = decls[0].as_ref().expect("expected func");
    let (proto, body) = match &stmt.kind {
        StmtKind::Func(proto, body) => (proto, body),
        _ => panic!("expected func"),
    };
    assert_eq!(proto.name, add);
    assert_eq!(proto.params[0].name, x);
    assert_eq!(proto.params[0].ty, Type::Int { signed: true, size: IntSize(32) });
    assert_eq!(proto.params[1].name, y);
    assert_eq!(proto.ret, Type::Int { signed: true, size: IntSize(32) });
    let ret_value = match &body[0].kind {
        StmtKind::Ret(value) => value,
        _ => panic!("expected a return statement"),
    };
    match &ret_value.kind {
        ExprKind::Binary(op, lhs, rhs) => {
            assert_eq!(*op, BinOp::Add);
            assert!(
                matches!(lhs.kind, ExprKind::Variable(v) if v == x),
                "expected a variable reference"
            );
            assert!(
                matches!(rhs.kind, ExprKind::Variable(v) if v == y),
                "expected a variable reference"
            );
        },
        _ => panic!("expected binary expression"),
    }
}

#[test]
fn parser_synchronizes_after_errors() {
    let mut interner = Interner::with_primitives();
    let decls = parse("var = 1; var ok = 2;", &mut interner);
    assert_eq!(decls.len(), 2);
    assert!(decls[0].is_err());
    assert!(decls[1].is_ok());
}

#[test]
fn var_decl() {
    let mut interner = Interner::with_primitives();
    let decls = parse("var x = 32;", &mut interner);
    let x = interner.intern("x");
    let stmt = decls[0].as_ref().expect("expected a var decl");
    match &stmt.kind {
        StmtKind::Var(name, init) => {
            assert_eq!(*name, x);
            assert!(matches!(init.kind, ExprKind::Lit(Lit::Int(32))));
        },
        _ => panic!("expected a var decl"),
    }
}
