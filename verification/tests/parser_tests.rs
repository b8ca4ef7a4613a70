//! Tests of the token- and expression-level parsers.
use minic::ast::{BinaryOperation, Expr, OperatorKind};
use minic::parser::{
    add_op_parser, expr_parser, mul_parser, num_parser, paren_expr_parser, primary_parser,
    unary_parser, Prod,
};

fn bv(s: &str) -> Vec<u8> {
    s.bytes().collect()
}

fn bin(op: OperatorKind, left: Expr, right: Expr) -> Expr {
    Expr::BinaryOperation(BinaryOperation {
        op,
        left: Box::new(left),
        right: Box::new(right),
    })
}

#[test]
fn op_parser_test() {
    let s = bv("+abc");
    assert_eq!(add_op_parser(&s, 0).unwrap(), (OperatorKind::Add, 1));
    let s = bv("-abc");
    assert_eq!(add_op_parser(&s, 0).unwrap(), (OperatorKind::Substruct, 1));
    let s = bv("/abc");
    assert!(add_op_parser(&s, 0).is_err());
}

#[test]
fn expr_parser_test() {
    let s = bv("334abc");
    assert_eq!(expr_parser(&s, 0).unwrap(), (Expr::Num(334), 3));
    let s = bv("334+264*227");
    assert_eq!(
        expr_parser(&s, 0).unwrap(),
        (
            bin(
                OperatorKind::Add,
                Expr::Num(334),
                bin(OperatorKind::Multiply, Expr::Num(264), Expr::Num(227)),
            ),
            11
        )
    );
}

#[test]
fn unary_parser_test() {
    let s = bv("+334");
    assert_eq!(unary_parser(&s, 0).unwrap(), (Expr::Num(334), 4));
    let s = bv("--334");
    assert!(unary_parser(&s, 0).is_err());
}

#[test]
fn primary_parser_test() {
    let s = bv("334abc");
    assert_eq!(primary_parser(&s, 0).unwrap(), (Expr::Num(334), 3));
    let s = bv("(264)abc");
    assert_eq!(primary_parser(&s, 0).unwrap(), (Expr::Num(264), 5));
    let s = bv("(227");
    assert!(primary_parser(&s, 0).is_err());
    let s = bv("(d f)");
    assert!(primary_parser(&s, 0).is_err());
}

#[test]
fn mul_parser_test() {
    let s = bv("334abc");
    assert_eq!(mul_parser(&s, 0).unwrap(), (Expr::Num(334), 3));
    let s = bv("(334)abc");
    assert_eq!(mul_parser(&s, 0).unwrap(), (Expr::Num(334), 5));
    let s = bv("334*264");
    assert_eq!(
        mul_parser(&s, 0).unwrap(),
        (bin(OperatorKind::Multiply, Expr::Num(334), Expr::Num(264)), 7)
    );
}

#[test]
fn paren_expr_parser_test() {
    let s = bv("(334)abc");
    assert_eq!(paren_expr_parser(&s, 0).unwrap(), (Expr::Num(334), 5));
    let s = bv("(a c)");
    assert!(paren_expr_parser(&s, 0).is_err());
}

#[test]
fn num_parser_test() {
    let s = bv("334abc");
    assert_eq!(num_parser(&s, 0).unwrap(), (334, 3));
    let s = bv("a c");
    assert!(num_parser(&s, 0).is_err());
}

#[test]
fn left_chain_parses_left_leaning() {
    let s = bv("9-5-1;");
    let (e, p) = expr_parser(&s, 0).unwrap();
    assert_eq!(p, 5);
    assert_eq!(
        e,
        bin(
            OperatorKind::Substruct,
            bin(OperatorKind::Substruct, Expr::Num(9), Expr::Num(5)),
            Expr::Num(1),
        )
    );
}

#[test]
fn assignment_is_right_associative() {
    let s = bv("a=b=3");
    let (e, _) = expr_parser(&s, 0).unwrap();
    assert_eq!(
        e,
        bin(
            OperatorKind::Assign,
            Expr::Ident(bv("a")),
            bin(OperatorKind::Assign, Expr::Ident(bv("b")), Expr::Num(3)),
        )
    );
}

#[test]
fn error_position_and_expected_productions() {
    let s = bv("1+;");
    let err = minic::ast::Program::parse(&s).unwrap_err();
    assert_eq!(err.pos, 2);
    assert!(err.expected.contains(&Prod::Primary));
}

#[test]
fn number_is_not_an_assignment_target() {
    let s = bv("1=2;");
    let err = minic::ast::Program::parse(&s).unwrap_err();
    assert!(err.expected.contains(&Prod::AssignTarget));
}

#[test]
fn overflowing_literal_reads_as_identifier() {
    let s = bv("99999999999999999999");
    let (e, p) = primary_parser(&s, 0).unwrap();
    assert_eq!(p, 20);
    assert_eq!(e, Expr::Ident(bv("99999999999999999999")));
}

#[test]
fn whitespace_is_insignificant() {
    let a = minic::ast::Program::parse(&bv("a = 1 ;  a ;")).unwrap();
    let b = minic::ast::Program::parse(&bv("a=1;a;")).unwrap();
    assert_eq!(a, b);
}
