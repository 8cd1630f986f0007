//! Scope checking, lowering to three-address code, the local
//! optimization pass, and the smaller components.

use kip::ast::BinOp;
use kip::codegen::{module_gen_supported, CodeGenerator};
use kip::ic::{ConstKind, Expr, Instruction, Primary};
use kip::interner::{Interner, Symbol};
use kip::lexer::Lexer;
use kip::optimize::{elim_common_subexprs, optimize_instructions};
use kip::parser::{tokens_wf, Parser};
use kip::logger::ErrorReporter;
use kip::region::Region;
use kip::scopechk::{ScopeChecker, ScopeErrorKind};
use kip::source::Source;
use kip::sym_tbl::{SymbolTable, SymbolType};
use std::rc::Rc;

fn parse_module(input: &str, interner: &mut Interner) -> kip::ast::Module {
    let source = Source::new(input, "<string literal>");
    let mut lexer = Lexer::new(&source);
    let tokens = lexer.lex(interner);
    assert!(lexer.errors.is_empty());
    assert!(tokens_wf(&tokens));
    let mut parser = Parser::new(tokens, &source);
    let mut module = Vec::new();
    for decl in parser.parse() {
        module.push(decl.expect("expected the module to parse"));
    }
    module
}

#[test]
fn self_referential_initializer_is_flagged() {
    // "var x = x;" is referenced before initialization
    let mut interner = Interner::with_primitives();
    let module = parse_module("var x = x;", &mut interner);
    let x = interner.intern("x");
    let mut checker = ScopeChecker::new();
    checker.check(&module);
    assert_eq!(checker.errors.len(), 1);
    assert_eq!(checker.errors[0].kind, ScopeErrorKind::SelfReference);
    assert_eq!(checker.errors[0].name, x);
}

#[test]
fn sibling_redeclaration_is_flagged() {
    // two sibling declarations of one name in the same block
    let mut interner = Interner::with_primitives();
    let module = parse_module("{ var x = 1; var x = 2; }", &mut interner);
    let x = interner.intern("x");
    let mut checker = ScopeChecker::new();
    checker.check(&module);
    assert_eq!(checker.errors.len(), 1);
    assert_eq!(checker.errors[0].kind, ScopeErrorKind::AlreadyExists);
    assert_eq!(checker.errors[0].name, x);
}

#[test]
fn shadowing_in_inner_scope_is_allowed() {
    let mut interner = Interner::with_primitives();
    let module = parse_module("var x = 1; { var x = 2; }", &mut interner);
    let mut checker = ScopeChecker::new();
    checker.check(&module);
    assert_eq!(checker.errors.len(), 0);
}

#[test]
fn undefined_reference_is_flagged() {
    let mut interner = Interner::with_primitives();
    let module = parse_module("var x = y;", &mut interner);
    let y = interner.intern("y");
    let mut checker = ScopeChecker::new();
    checker.check(&module);
    assert_eq!(checker.errors.len(), 1);
    assert_eq!(checker.errors[0].kind, ScopeErrorKind::NotDefined);
    assert_eq!(checker.errors[0].name, y);
}

#[test]
fn function_name_is_visible_to_its_body() {
    let mut interner = Interner::with_primitives();
    let module = parse_module("func f(n: s32) { f(n); }", &mut interner);
    let mut checker = ScopeChecker::new();
    checker.check(&module);
    assert_eq!(checker.errors.len(), 0);
}

#[test]
fn codegen_of_ret_emits_loads_add_and_ret() {
    // "ret a + b;" inside a function: two loads, one add, one ret
    let mut interner = Interner::with_primitives();
    let module = parse_module("func f() { ret a + b; }", &mut interner);
    assert!(module_gen_supported(&module));
    let mut codegen = CodeGenerator::new();
    codegen.gen(&module, &mut interner);
    let f = interner.intern("f");
    let a = interner.intern("a");
    let b = interner.intern("b");
    let t0 = interner.intern("_t0");
    let t1 = interner.intern("_t1");
    let t2 = interner.intern("_t2");
    assert_eq!(
        codegen.instructions,
        vec![
            Instruction::Label(f),
            Instruction::Assign(t0, Expr::Primary(Primary::Var(a))),
            Instruction::Assign(t1, Expr::Primary(Primary::Var(b))),
            Instruction::Assign(t2, Expr::Binary(BinOp::Add, Primary::Var(t0), Primary::Var(t1))),
            Instruction::Ret(Some(Primary::Var(t2))),
        ]
    );
}

#[test]
fn codegen_of_conditional_branches_and_labels() {
    let mut interner = Interner::with_primitives();
    let module = parse_module("func f() { if c { x; } else { y; } }", &mut interner);
    assert!(module_gen_supported(&module));
    let mut codegen = CodeGenerator::new();
    codegen.gen(&module, &mut interner);
    let f = interner.intern("f");
    let c = interner.intern("c");
    let x = interner.intern("x");
    let y = interner.intern("y");
    let t0 = interner.intern("_t0");
    let t1 = interner.intern("_t1");
    let t2 = interner.intern("_t2");
    let else_label = interner.intern("_L0");
    let end_label = interner.intern("_L1");
    assert_eq!(
        codegen.instructions,
        vec![
            Instruction::Label(f),
            Instruction::Assign(t0, Expr::Primary(Primary::Var(c))),
            Instruction::Ifz(Primary::Var(t0), else_label),
            Instruction::Assign(t1, Expr::Primary(Primary::Var(x))),
            Instruction::Goto(end_label),
            Instruction::Label(else_label),
            Instruction::Assign(t2, Expr::Primary(Primary::Var(y))),
            Instruction::Label(end_label),
        ]
    );
}

#[test]
fn codegen_of_call_emits_args_in_order() {
    let mut interner = Interner::with_primitives();
    let module = parse_module("f(1, 2);", &mut interner);
    assert!(module_gen_supported(&module));
    let mut codegen = CodeGenerator::new();
    codegen.gen(&module, &mut interner);
    let f = interner.intern("f");
    let t0 = interner.intern("_t0");
    let t1 = interner.intern("_t1");
    let t2 = interner.intern("_t2");
    assert_eq!(
        codegen.instructions,
        vec![
            Instruction::Assign(t0, Expr::Primary(Primary::Const(ConstKind::Int(1)))),
            Instruction::Arg(Primary::Var(t0)),
            Instruction::Assign(t1, Expr::Primary(Primary::Const(ConstKind::Int(2)))),
            Instruction::Arg(Primary::Var(t1)),
            Instruction::Assign(t2, Expr::Call(f)),
        ]
    );
}

#[test]
fn unary_operators_are_not_lowerable() {
    let mut interner = Interner::with_primitives();
    let module = parse_module("var x = !y;", &mut interner);
    assert!(!module_gen_supported(&module));
}

fn sym(n: u32) -> Symbol {
    Symbol(n)
}

fn add_expr(a: Symbol, b: Symbol) -> Expr {
    Expr::Binary(BinOp::Add, Primary::Var(a), Primary::Var(b))
}

#[test]
fn cse_merges_within_straight_line() {
    // identical computations with no boundary in between are merged
    let (a, b, t0, t1) = (sym(0), sym(1), sym(2), sym(3));
    let instrs = vec![
        Instruction::Assign(t0, add_expr(a, b)),
        Instruction::Assign(t1, add_expr(a, b)),
    ];
    let out = elim_common_subexprs(&instrs);
    assert_eq!(out[0], instrs[0]);
    assert_eq!(out[1], Instruction::Assign(t1, Expr::Primary(Primary::Var(t0))));
}

#[test]
fn cse_does_not_merge_across_labels() {
    // a Label between two identical computations keeps them apart
    let (a, b, t0, t1, lbl) = (sym(0), sym(1), sym(2), sym(3), sym(4));
    let instrs = vec![
        Instruction::Assign(t0, add_expr(a, b)),
        Instruction::Label(lbl),
        Instruction::Assign(t1, add_expr(a, b)),
    ];
    let out = optimize_instructions(&instrs);
    assert_eq!(out, instrs);
}

#[test]
fn cse_does_not_merge_across_ifz() {
    let (a, b, t0, t1, lbl) = (sym(0), sym(1), sym(2), sym(3), sym(4));
    let instrs = vec![
        Instruction::Assign(t0, add_expr(a, b)),
        Instruction::Ifz(Primary::Var(t0), lbl),
        Instruction::Assign(t1, add_expr(a, b)),
    ];
    let out = optimize_instructions(&instrs);
    assert_eq!(out, instrs);
}

#[test]
fn cse_is_idempotent() {
    // applying the optimizer twice yields the same result as once
    let (a, b, t0, t1, u, lbl) = (sym(0), sym(1), sym(2), sym(3), sym(4), sym(5));
    let instrs = vec![
        Instruction::Assign(t0, add_expr(a, b)),
        Instruction::Assign(u, Expr::Primary(Primary::Var(t0))),
        Instruction::Assign(t1, add_expr(a, b)),
        Instruction::Label(lbl),
        Instruction::Assign(t1, add_expr(a, b)),
        Instruction::Ret(None),
    ];
    let once = optimize_instructions(&instrs);
    let twice = optimize_instructions(&once);
    assert_eq!(once, twice);
}

#[test]
fn plain_copies_are_not_rewritten() {
    let (x, t0, t1) = (sym(0), sym(1), sym(2));
    let instrs = vec![
        Instruction::Assign(t0, Expr::Primary(Primary::Var(x))),
        Instruction::Assign(t1, Expr::Primary(Primary::Var(x))),
    ];
    let out = optimize_instructions(&instrs);
    assert_eq!(out, instrs);
}

#[test]
fn rendered_instructions_one_line_each() {
    let mut interner = Interner::with_primitives();
    let module = parse_module("func f() { ret a + b; }", &mut interner);
    let mut codegen = CodeGenerator::new();
    codegen.gen(&module, &mut interner);
    let text = codegen
        .intermediate_code(&interner)
        .expect("every symbol is interned");
    assert_eq!(
        text,
        "f:\n    _t0 := a\n    _t1 := b\n    _t2 := _t0 + _t1\n    ret _t2\n"
    );
}

#[test]
fn rendered_constants_and_calls() {
    let mut interner = Interner::with_primitives();
    let module = parse_module("var x = f(1);", &mut interner);
    let mut codegen = CodeGenerator::new();
    codegen.gen(&module, &mut interner);
    let text = codegen
        .intermediate_code(&interner)
        .expect("every symbol is interned");
    assert_eq!(
        text,
        "    _t0 := 1\n    arg _t0\n    _t1 := call f\n    x := _t1\n"
    );
}

#[test]
fn rendered_negative_and_string_constants() {
    let mut interner = Interner::new();
    let t = interner.intern("_t0");
    let s = interner.intern("hi");
    let instrs = vec![
        Instruction::Assign(t, Expr::Primary(Primary::Const(ConstKind::Int(-45)))),
        Instruction::Arg(Primary::Const(ConstKind::Str(s))),
        Instruction::Ifz(Primary::Var(t), t),
    ];
    let text = kip::render::render_instructions(&instrs, &interner);
    assert_eq!(text, "    _t0 := -45\n    arg \"hi\"\n    ifz _t0 goto _t0\n");
}

#[test]
fn interner_deduplicates() {
    let mut interner = Interner::new();
    let a1 = interner.intern("alpha");
    let b = interner.intern("beta");
    let a2 = interner.intern("alpha");
    assert_eq!(a1, a2);
    assert_ne!(a1, b);
    assert_eq!(interner.get(a1).as_str(), "alpha");
    assert_eq!(interner.len(), 2);
}

#[test]
fn regions_merge_to_their_union() {
    let a = Region::new(2, 5);
    let b = Region::new(7, 11);
    let merged = a.to(b);
    assert_eq!(merged.start(), 2);
    assert_eq!(merged.end(), 11);
    assert_eq!(merged.len(), 9);
    // the union is the same from either side
    let swapped = b.to(a);
    assert_eq!(swapped.start(), 2);
    assert_eq!(swapped.end(), 11);
}

#[test]
fn error_messages_point_at_the_region() {
    let source = Source::new("var x = ;\nret x;", "main.kip");
    let message = kip::generate_error_message("expected an expression", &source, Region::new(8, 9));
    assert_eq!(
        message,
        "expected an expression\nin main.kip, line 1\nvar x = ;\n        ^"
    );
}

#[test]
fn source_lines_and_lookup() {
    let source = Source::new("ab\ncd\n", "<string literal>");
    let lines = source.lines();
    assert_eq!(lines.len(), 2);
    assert_eq!(lines[0].as_str(), "ab");
    assert_eq!(lines[1].as_str(), "cd");
    assert_eq!(source.char_at(3), 'c');
    assert_eq!(source.char_at(100), '\0');
    assert_eq!(source.len(), 6);
    assert_eq!(source.slice(Region::new(3, 5)), "cd");
    let context = source.context_of(Region::new(4, 5));
    assert_eq!(context.line, 2);
    assert_eq!(context.region.start(), 3);
    assert_eq!(context.region.end(), 5);
}

#[test]
fn line_column_counts_from_one() {
    let source = Source::new("ab\ncd", "<string literal>");
    let pos = Region::new(4, 5).line_column(&source);
    assert_eq!(pos.line, 2);
    assert_eq!(pos.column, 2);
}

#[test]
fn precedence_table() {
    assert_eq!(BinOp::Mul.get_prec(), 40);
    assert_eq!(BinOp::Div.get_prec(), 40);
    assert_eq!(BinOp::Mod.get_prec(), 40);
    assert_eq!(BinOp::Add.get_prec(), 20);
    assert_eq!(BinOp::Sub.get_prec(), 20);
    assert_eq!(BinOp::Gt.get_prec(), 10);
    assert_eq!(BinOp::Ge.get_prec(), 10);
    assert_eq!(BinOp::Lt.get_prec(), 10);
    assert_eq!(BinOp::Le.get_prec(), 10);
    assert_eq!(BinOp::Eq.get_prec(), 2);
    assert_eq!(BinOp::Ne.get_prec(), 2);
    assert_eq!(BinOp::And.get_prec(), 1);
    assert_eq!(BinOp::Or.get_prec(), 1);
}

#[test]
fn symbol_table_lookup_through_enclosing() {
    let mut global = SymbolTable::new();
    let x = Symbol(0);
    let y = Symbol(1);
    global.define(x, SymbolType::Var(None));
    let global = Rc::new(global);
    let mut inner = SymbolTable::with_enclosing(&global);
    inner.define(y, SymbolType::Impt);
    assert!(inner.lookup(x).expect("x comes from the enclosing table").is_var());
    assert!(!inner.lookup(y).expect("y is bound here").is_var());
    assert!(inner.lookup(Symbol(7)).is_none());
}

#[test]
fn error_reporter_renders_the_line() {
    let source = Source::new("ab\ncd\n", "main.kip");
    let report = ErrorReporter::new()
        .source(&source)
        .region(Region::new(3, 5))
        .message("something is off")
        .render();
    assert_eq!(report, "Error: something is off\nmain.kip Line 2 | cd");
}
