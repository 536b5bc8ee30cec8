use bitcalc::ast::{BinOp, Expr, Prog, UnaryOp};
use bitcalc::binary::as_binary_string;
use bitcalc::decimal::{parse_u16, u16_to_text};
use bitcalc::eval::{binary_result, eval, eval_expr, Context, EvalError};
use bitcalc::lexer::lex;
use bitcalc::parser::parse;

fn run(ctx: &mut Context, text: &str) -> Result<u16, String> {
    let mut tokens = lex(text).map_err(|e| e.to_string())?;
    let prog = parse(&mut tokens).map_err(|e| e.to_string())?;
    eval(ctx, &prog).map_err(|e| e.to_string())
}

fn value(text: &str) -> u16 {
    run(&mut Context::new(), text).unwrap()
}

fn failure(text: &str) -> String {
    run(&mut Context::new(), text).unwrap_err()
}

#[test]
fn precedence() {
    assert_eq!(value("2 + 3 * 4"), 14);
    assert_eq!(value("(2 + 3) * 4"), 20);
}

#[test]
fn associativity() {
    assert_eq!(value("8 - 3 - 2"), 3);
    assert_eq!(value("(8 - 3) - 2"), 3);
    assert_eq!(value("8 - (3 - 2)"), 7);
    assert_eq!(value("64 / 8 / 2"), 4);
    assert_eq!(value("8 - 3 + 2"), 7);
    assert_eq!(value("10 - 1 - 2 - 3"), 4);
    assert_eq!(value("2 * 3 / 4 * 5"), 5);
    assert_eq!(value("1 << 2 >> 1 << 3"), 16);
}

#[test]
fn unary_binds_tighter_than_any_binary() {
    assert_eq!(value("! 1 & 2"), 2);
    assert_eq!(value("! 0"), 65535);
    assert_eq!(value("! 65535 + 1"), 1);
    assert_eq!(value("! ! 5"), 5);
}

#[test]
fn assignment_persists() {
    let mut ctx = Context::new();
    assert_eq!(run(&mut ctx, "let x = 5"), Ok(5));
    assert_eq!(run(&mut ctx, "x + 1"), Ok(6));
    assert_eq!(run(&mut ctx, "let x = x * x"), Ok(25));
    assert_eq!(run(&mut ctx, "x"), Ok(25));
}

#[test]
fn unbound_variable() {
    assert_eq!(failure("y"), "Variable 'y' not found.");
    assert_eq!(failure("1 + total"), "Variable 'total' not found.");
}

#[test]
fn malformed_input() {
    let mut ctx = Context::new();
    assert!(lex("<5").is_err());
    assert_eq!(
        run(&mut ctx, "(1 + 2"),
        Err("mismatched brackets, expected right paren.".to_string())
    );
    assert_eq!(
        run(&mut ctx, "1 2"),
        Err("Extra token 2 found after program Expression(1)".to_string())
    );
}

#[test]
fn every_literal_evaluates_to_itself() {
    let mut ctx = Context::new();
    for n in 0..=u16::MAX {
        assert_eq!(run(&mut ctx, &n.to_string()), Ok(n));
    }
}

#[test]
fn bitwise_operations() {
    assert_eq!(value("6 & 3"), 2);
    assert_eq!(value("6 | 3"), 7);
    assert_eq!(value("6 ^ 3"), 5);
    assert_eq!(value("1 | 2 ^ 3 & 4"), 3);
}

#[test]
fn shifts() {
    assert_eq!(value("1 << 4"), 16);
    assert_eq!(value("256 >> 4"), 16);
    assert_eq!(value("65535 << 1"), 65534);
    assert_eq!(value("65535 << 15"), 32768);
    assert_eq!(value("65535 >> 15"), 1);
    assert_eq!(value("1 << 2 + 1"), 8);
    assert_eq!(failure("1 << 16"), "Shift to the left by 16 bits or more.");
    assert_eq!(failure("1 >> 16"), "Shift to the right by 16 bits or more.");
}

#[test]
fn arithmetic() {
    assert_eq!(value("65534 + 1"), 65535);
    assert_eq!(value("5 - 5"), 0);
    assert_eq!(value("255 * 257"), 65535);
    assert_eq!(value("7 / 2"), 3);
    assert_eq!(value("0 / 9"), 0);
}

#[test]
fn arithmetic_faults_are_errors() {
    assert_eq!(failure("65535 + 1"), "Overflow in addition.");
    assert_eq!(failure("0 - 1"), "Underflow in subtraction.");
    assert_eq!(failure("256 * 256"), "Overflow in multiplication.");
    assert_eq!(failure("1 / 0"), "Division by zero.");
}

#[test]
fn left_operand_fails_first() {
    assert_eq!(failure("(1 / 0) + y"), "Division by zero.");
    assert_eq!(failure("y + (1 / 0)"), "Variable 'y' not found.");
}

#[test]
fn binary_results() {
    assert_eq!(binary_result(BinOp::Plus, 1, 2), Some(3));
    assert_eq!(binary_result(BinOp::Plus, 65535, 1), None);
    assert_eq!(binary_result(BinOp::Minus, 2, 3), None);
    assert_eq!(binary_result(BinOp::Minus, 3, 2), Some(1));
    assert_eq!(binary_result(BinOp::Times, 300, 300), None);
    assert_eq!(binary_result(BinOp::Times, 255, 2), Some(510));
    assert_eq!(binary_result(BinOp::Divide, 9, 0), None);
    assert_eq!(binary_result(BinOp::Divide, 9, 2), Some(4));
    assert_eq!(binary_result(BinOp::BitShLeft, 3, 15), Some(32768));
    assert_eq!(binary_result(BinOp::BitShLeft, 3, 16), None);
    assert_eq!(binary_result(BinOp::BitShRight, 32768, 15), Some(1));
    assert_eq!(binary_result(BinOp::BitShRight, 3, 65535), None);
    assert_eq!(binary_result(BinOp::BitAnd, 12, 10), Some(8));
    assert_eq!(binary_result(BinOp::BitOr, 12, 10), Some(14));
    assert_eq!(binary_result(BinOp::BitXor, 12, 10), Some(6));
}

#[test]
fn context_binds_and_overwrites() {
    let mut ctx = Context::new();
    assert_eq!(ctx.lookup("x").unwrap_err().to_string(), "Variable 'x' not found.");
    ctx.insert("x", 1);
    ctx.insert("y", 2);
    assert_eq!(ctx.lookup("x").unwrap(), 1);
    assert_eq!(ctx.lookup("y").unwrap(), 2);
    ctx.insert("x", 3);
    assert_eq!(ctx.lookup("x").unwrap(), 3);
    assert_eq!(ctx.lookup("y").unwrap(), 2);
}

#[test]
fn expression_leaves_the_context_alone() {
    let mut ctx = Context::new();
    ctx.insert("x", 4);
    assert_eq!(run(&mut ctx, "x + 1"), Ok(5));
    assert_eq!(ctx.lookup("x").unwrap(), 4);
}

#[test]
fn failed_assignment_binds_nothing() {
    let mut ctx = Context::new();
    assert_eq!(run(&mut ctx, "let x = y"), Err("Variable 'y' not found.".to_string()));
    assert!(ctx.lookup("x").is_err());
    ctx.insert("x", 9);
    assert_eq!(run(&mut ctx, "let x = 1 / 0"), Err("Division by zero.".to_string()));
    assert_eq!(ctx.lookup("x").unwrap(), 9);
}

#[test]
fn trees_are_evaluated_directly() {
    let mut ctx = Context::new();
    ctx.insert("n", 10);
    let e = Expr::BinaryOper(
        BinOp::Minus,
        Box::new(Expr::Var("n".to_string())),
        Box::new(Expr::UnaryOper(UnaryOp::BitNeg, Box::new(Expr::Const(65534)))),
    );
    assert_eq!(eval_expr(&mut ctx, &e).unwrap(), 9);
    assert_eq!(eval(&mut ctx, &Prog::Assign("m".to_string(), e)).unwrap(), 9);
    assert_eq!(ctx.lookup("m").unwrap(), 9);
    assert_eq!(eval(&mut ctx, &Prog::Expression(Expr::Const(7))).unwrap(), 7);
}

#[test]
fn eval_error_keeps_its_message() {
    assert_eq!(EvalError::new("some message").to_string(), "some message");
    assert_eq!(EvalError::from_string("other".to_string()).to_string(), "other");
}

#[test]
fn binary_notation_has_sixteen_digits() {
    assert_eq!(as_binary_string(0), "0000000000000000");
    assert_eq!(as_binary_string(5), "0000000000000101");
    assert_eq!(as_binary_string(32768), "1000000000000000");
    assert_eq!(as_binary_string(65535), "1111111111111111");
    assert_eq!(as_binary_string(0x1234), "0001001000110100");
}

#[test]
fn decimal_notation_is_the_shortest() {
    assert_eq!(u16_to_text(0), "0");
    assert_eq!(u16_to_text(9), "9");
    assert_eq!(u16_to_text(10), "10");
    assert_eq!(u16_to_text(123), "123");
    assert_eq!(u16_to_text(65535), "65535");
}

#[test]
fn digits_are_read_as_a_number() {
    let chars = |s: &str| s.chars().collect::<Vec<char>>();
    assert_eq!(parse_u16(&chars("0")), Some(0));
    assert_eq!(parse_u16(&chars("00042")), Some(42));
    assert_eq!(parse_u16(&chars("65535")), Some(65535));
    assert_eq!(parse_u16(&chars("65536")), None);
    assert_eq!(parse_u16(&chars("655350")), None);
    assert_eq!(parse_u16(&chars("")), None);
    assert_eq!(parse_u16(&chars("12a")), None);
    assert_eq!(parse_u16(&chars("+1")), None);
    assert_eq!(parse_u16(&chars("1/")), None);
    assert_eq!(parse_u16(&chars("1:")), None);
}

#[test]
fn decimal_notation_is_read_back() {
    for n in [0u16, 1, 9, 10, 99, 100, 4096, 65535] {
        let text: Vec<char> = u16_to_text(n).chars().collect();
        assert_eq!(parse_u16(&text), Some(n));
    }
}
