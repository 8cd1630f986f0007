//! The smaller pieces: type annotations, operator tokens, token-stream
//! well-formedness, and text rendering helpers.

use kip::ast::{BinOp, Expr, ExprKind, IntSize, Lit, Type, UnOp};
use kip::interner::Interner;
use kip::lexer::Lexer;
use kip::parser::{tokens_wf, type_of_name, Parser};
use kip::region::Region;
use kip::source::Source;
use kip::token::{Token, TokenKind};

fn lex(input: &str, interner: &mut Interner) -> Vec<Token> {
    let source = Source::new(input, "<string literal>");
    let mut lexer = Lexer::new(&source);
    lexer.lex(interner)
}

#[test]
fn empty_input_lexes_to_the_end_marker() {
    let mut interner = Interner::with_primitives();
    let tokens = lex("", &mut interner);
    assert_eq!(tokens.len(), 1);
    assert_eq!(tokens[0].kind, TokenKind::Eof);
    assert_eq!(tokens[0].region.start(), 0);
    assert_eq!(tokens[0].region.len(), 0);
}

#[test]
fn operator_tokens() {
    let mut interner = Interner::with_primitives();
    let tokens = lex("> >= < <= = == ! != & && | || + - * / % . : , ;", &mut interner);
    let kinds: Vec<TokenKind> = tokens.iter().map(|t| t.kind).collect();
    assert_eq!(
        kinds,
        vec![
            TokenKind::Gt,
            TokenKind::Ge,
            TokenKind::Lt,
            TokenKind::Le,
            TokenKind::Equal,
            TokenKind::DoubleEqual,
            TokenKind::Bang,
            TokenKind::BangEqual,
            TokenKind::Ampersand,
            TokenKind::DoubleAmpersand,
            TokenKind::Bar,
            TokenKind::DoubleBar,
            TokenKind::Plus,
            TokenKind::Minus,
            TokenKind::Star,
            TokenKind::Slash,
            TokenKind::Percent,
            TokenKind::Dot,
            TokenKind::Colon,
            TokenKind::Comma,
            TokenKind::Semicolon,
            TokenKind::Eof,
        ]
    );
}

#[test]
fn preprocessor_directives() {
    let mut interner = Interner::with_primitives();
    let tokens = lex("@impt @expt", &mut interner);
    assert_eq!(tokens[0].kind, TokenKind::Impt);
    assert_eq!(tokens[1].kind, TokenKind::Expt);

    let source = Source::new("@!", "<string literal>");
    let mut lexer = Lexer::new(&source);
    lexer.lex(&mut interner);
    assert_eq!(lexer.errors[0].message, "expected an identifier after `@`");
}

#[test]
fn unexpected_characters_are_reported() {
    let source = Source::new("#", "<string literal>");
    let mut interner = Interner::with_primitives();
    let mut lexer = Lexer::new(&source);
    let tokens = lexer.lex(&mut interner);
    assert_eq!(tokens.len(), 1);
    assert_eq!(lexer.errors[0].message, "unexpected character");
}

#[test]
fn token_operator_conversions() {
    let region = Region::new(0, 1);
    assert_eq!(Token::new(TokenKind::Plus, region).to_bin_op(), Some(BinOp::Add));
    assert_eq!(Token::new(TokenKind::BangEqual, region).to_bin_op(), Some(BinOp::Ne));
    assert_eq!(Token::new(TokenKind::DoubleBar, region).to_bin_op(), Some(BinOp::Or));
    assert_eq!(Token::new(TokenKind::Comma, region).to_bin_op(), None);
    assert_eq!(Token::new(TokenKind::Bang, region).to_unary_op(), Some(UnOp::Not));
    assert_eq!(Token::new(TokenKind::Minus, region).to_unary_op(), Some(UnOp::Neg));
    assert_eq!(Token::new(TokenKind::Plus, region).to_unary_op(), None);
}

#[test]
fn type_annotations_denote_the_sized_integers() {
    let mut interner = Interner::with_primitives();
    assert_eq!(type_of_name(interner.intern("bool")), Type::Bool);
    assert_eq!(
        type_of_name(interner.intern("uint8")),
        Type::Int { signed: false, size: IntSize(8) },
    );
    assert_eq!(
        type_of_name(interner.intern("uint64")),
        Type::Int { signed: false, size: IntSize(64) },
    );
    assert_eq!(
        type_of_name(interner.intern("int16")),
        Type::Int { signed: true, size: IntSize(16) },
    );
    assert_eq!(
        type_of_name(interner.intern("u32")),
        Type::Int { signed: false, size: IntSize(32) },
    );
    assert_eq!(
        type_of_name(interner.intern("s64")),
        Type::Int { signed: true, size: IntSize(64) },
    );
    let other = interner.intern("Widget");
    assert_eq!(type_of_name(other), Type::Name(other));
    assert!(Type::Bool.is_primitive());
    assert!(!Type::Name(other).is_primitive());
}

#[test]
fn token_streams_must_end_with_the_marker() {
    let region = Region::new(0, 0);
    let eof = Token::new(TokenKind::Eof, region);
    let plus = Token::new(TokenKind::Plus, region);
    assert!(!tokens_wf(&vec![]));
    assert!(!tokens_wf(&vec![plus]));
    assert!(!tokens_wf(&vec![eof, plus]));
    assert!(!tokens_wf(&vec![eof, eof]));
    assert!(tokens_wf(&vec![eof]));
    assert!(tokens_wf(&vec![plus, eof]));
}

#[test]
fn parse_errors_name_the_offending_region() {
    let input = "func (x: s32) { }";
    let source = Source::new(input, "<string literal>");
    let mut interner = Interner::with_primitives();
    let mut lexer = Lexer::new(&source);
    let tokens = lexer.lex(&mut interner);
    assert!(tokens_wf(&tokens));
    let mut parser = Parser::new(tokens, &source);
    let decls = parser.parse();
    let err = decls[0].as_ref().err().expect("expected a parse error");
    assert_eq!(err.message, "expected function name");
    assert_eq!(err.region.start(), 5);
    assert_eq!(err.region.end(), 6);
}

#[test]
fn literal_expressions_from_tokens() {
    let region = Region::new(3, 5);
    let tok = Token::new(TokenKind::Literal(Lit::Int(7)), region);
    let expr = Expr::from_lit(tok).expect("a literal token becomes a literal expression");
    assert!(matches!(expr.kind, ExprKind::Lit(Lit::Int(7))));
    assert_eq!(expr.region.start(), 3);
    assert!(!expr.is_cond());
    assert!(Expr::from_lit(Token::new(TokenKind::Comma, region)).is_none());
}

#[test]
fn decimal_rendering() {
    assert_eq!(kip::text::dec_u64(0), "0");
    assert_eq!(kip::text::dec_u64(907), "907");
    assert_eq!(kip::text::dec_u64(u64::MAX), "18446744073709551615");
    assert_eq!(kip::text::dec_i64(-907), "-907");
    assert_eq!(kip::text::dec_i64(i64::MIN), "-9223372036854775808");
    assert_eq!(kip::text::spaces(3), "   ");
}

#[test]
fn region_conversions() {
    let source = Source::new("hello there", "<string literal>");
    let region = Region::new(6, 11);
    assert_eq!(region.to_str(&source), "there");
    let range = region.to_range();
    assert_eq!(range.start, 6);
    assert_eq!(range.end, 11);
}
