use bitcalc::ast::{BinOp, Expr, Prog, UnaryOp};
use bitcalc::lexer::{lex, Keyword, Operator, Token};
use bitcalc::parser::{parse, ParseError};
use bitcalc::reorder::{priority, shunting_yard};

fn reordered(text: &str) -> Vec<Token> {
    shunting_yard(&lex(text).unwrap()).unwrap()
}

fn reorder_message(text: &str) -> String {
    match shunting_yard(&lex(text).unwrap()) {
        Ok(tokens) => panic!("{:?} was reordered to {:?}", text, tokens),
        Err(e) => e.to_string(),
    }
}

fn parsed(text: &str) -> Prog {
    parse(&mut lex(text).unwrap()).unwrap()
}

fn parse_message(text: &str) -> String {
    match parse(&mut lex(text).unwrap()) {
        Ok(prog) => panic!("{:?} was parsed as {:?}", text, prog),
        Err(e) => e.to_string(),
    }
}

fn num(n: u16) -> Box<Expr> {
    Box::new(Expr::Const(n))
}

fn op(o: Operator) -> Token {
    Token::Oper(o)
}

#[test]
fn ranks_are_those_of_the_table() {
    assert_eq!(priority(Operator::BitOr), 8);
    assert_eq!(priority(Operator::BitXor), 10);
    assert_eq!(priority(Operator::BitAnd), 12);
    assert_eq!(priority(Operator::BitShLeft), 15);
    assert_eq!(priority(Operator::BitShRight), 15);
    assert_eq!(priority(Operator::Plus), 20);
    assert_eq!(priority(Operator::Minus), 20);
    assert_eq!(priority(Operator::Times), 30);
    assert_eq!(priority(Operator::Divide), 30);
    assert_eq!(priority(Operator::BitNeg), 40);
}

#[test]
fn operand_alone_stays() {
    assert_eq!(reordered("7"), vec![Token::Num(7)]);
    assert_eq!(reordered("x"), vec![Token::Ident("x".to_string())]);
}

#[test]
fn no_tokens_reorder_to_none() {
    assert_eq!(shunting_yard(&[]).unwrap(), vec![]);
}

#[test]
fn operator_comes_before_its_operands() {
    assert_eq!(
        reordered("1 + 2"),
        vec![op(Operator::Plus), Token::Num(1), Token::Num(2)]
    );
}

#[test]
fn higher_rank_binds_tighter() {
    assert_eq!(
        reordered("2 + 3 * 4"),
        vec![
            op(Operator::Plus),
            Token::Num(2),
            op(Operator::Times),
            Token::Num(3),
            Token::Num(4)
        ]
    );
    assert_eq!(
        reordered("2 * 3 + 4"),
        vec![
            op(Operator::Plus),
            op(Operator::Times),
            Token::Num(2),
            Token::Num(3),
            Token::Num(4)
        ]
    );
}

#[test]
fn brackets_override_ranks_and_are_removed() {
    assert_eq!(
        reordered("(2 + 3) * 4"),
        vec![
            op(Operator::Times),
            op(Operator::Plus),
            Token::Num(2),
            Token::Num(3),
            Token::Num(4)
        ]
    );
    assert_eq!(reordered("((7))"), vec![Token::Num(7)]);
}

#[test]
fn output_is_shorter_by_the_brackets() {
    let tokens = lex("((1 + 2) * (3 - x)) / 4").unwrap();
    let brackets = tokens
        .iter()
        .filter(|t| **t == Token::LeftParen || **t == Token::RightParen)
        .count();
    let out = shunting_yard(&tokens).unwrap();
    assert_eq!(brackets, 6);
    assert_eq!(out.len(), tokens.len() - brackets);
    assert!(out.iter().all(|t| *t != Token::LeftParen && *t != Token::RightParen));
}

#[test]
fn equal_ranks_group_to_the_left() {
    assert_eq!(
        reordered("8 - 3 - 2"),
        vec![
            op(Operator::Minus),
            op(Operator::Minus),
            Token::Num(8),
            Token::Num(3),
            Token::Num(2)
        ]
    );
    assert_eq!(
        reordered("a - b + c"),
        vec![
            op(Operator::Plus),
            op(Operator::Minus),
            Token::Ident("a".to_string()),
            Token::Ident("b".to_string()),
            Token::Ident("c".to_string())
        ]
    );
    assert_eq!(
        parsed("8 - 3 - 2"),
        Prog::Expression(Expr::BinaryOper(
            BinOp::Minus,
            Box::new(Expr::BinaryOper(BinOp::Minus, num(8), num(3))),
            num(2)
        ))
    );
}

#[test]
fn unary_operator_binds_its_operand() {
    assert_eq!(
        reordered("! 1 & 2"),
        vec![
            op(Operator::BitAnd),
            op(Operator::BitNeg),
            Token::Num(1),
            Token::Num(2)
        ]
    );
    assert_eq!(
        reordered("1 * ! 2"),
        vec![
            op(Operator::Times),
            Token::Num(1),
            op(Operator::BitNeg),
            Token::Num(2)
        ]
    );
    assert_eq!(
        reordered("! ! 1"),
        vec![op(Operator::BitNeg), op(Operator::BitNeg), Token::Num(1)]
    );
}

#[test]
fn opening_bracket_without_closing_is_an_error() {
    assert_eq!(reorder_message("(1 + 2"), "mismatched brackets, expected right paren.");
    assert_eq!(reorder_message("3 + (1 + 2"), "mismatched brackets, expected right paren.");
    assert_eq!(reorder_message("(("), "mismatched brackets, expected right paren.");
}

#[test]
fn closing_bracket_before_its_opening_one_is_an_error() {
    assert_eq!(reorder_message(")("), "mismatched brackets, expected right paren.");
    assert_eq!(reorder_message("1 ) + ( 2"), "mismatched brackets, expected right paren.");
    assert_eq!(reorder_message("(1) + )2("), "mismatched brackets, expected right paren.");
}

#[test]
fn matching_brackets_of_any_depth_are_accepted() {
    assert_eq!(reordered("()"), vec![]);
    assert_eq!(reordered("(()())"), vec![]);
    assert_eq!(
        reordered("((1) + ((2)))"),
        vec![op(Operator::Plus), Token::Num(1), Token::Num(2)]
    );
}

#[test]
fn closing_bracket_without_opening_is_an_error() {
    assert_eq!(reorder_message("1 + 2)"), "mismatched brackets, expected left paren.");
    assert_eq!(reorder_message("(1))"), "mismatched brackets, expected left paren.");
}

#[test]
fn keyword_and_equals_are_errors_in_an_expression() {
    assert_eq!(
        reorder_message("1 + let"),
        "keyword 'Let' found while parsing expression."
    );
    assert_eq!(
        reorder_message("x = 1"),
        "equality sign '=' found while parsing expression."
    );
}

#[test]
fn first_error_from_the_right_is_reported() {
    assert_eq!(
        reorder_message("let = 1"),
        "equality sign '=' found while parsing expression."
    );
    assert_eq!(
        reorder_message("= let"),
        "keyword 'Let' found while parsing expression."
    );
    assert_eq!(reorder_message("(1 = 2"), "equality sign '=' found while parsing expression.");
}

#[test]
fn expression_is_parsed_to_a_tree() {
    assert_eq!(
        parsed("2 + 3 * 4"),
        Prog::Expression(Expr::BinaryOper(
            BinOp::Plus,
            num(2),
            Box::new(Expr::BinaryOper(BinOp::Times, num(3), num(4)))
        ))
    );
}

#[test]
fn every_binary_operator_is_parsed() {
    for (text, b) in [
        ("1 + 2", BinOp::Plus),
        ("1 - 2", BinOp::Minus),
        ("1 * 2", BinOp::Times),
        ("1 / 2", BinOp::Divide),
        ("1 << 2", BinOp::BitShLeft),
        ("1 >> 2", BinOp::BitShRight),
        ("1 & 2", BinOp::BitAnd),
        ("1 | 2", BinOp::BitOr),
        ("1 ^ 2", BinOp::BitXor),
    ] {
        assert_eq!(parsed(text), Prog::Expression(Expr::BinaryOper(b, num(1), num(2))));
    }
}

#[test]
fn unary_operation_is_parsed() {
    assert_eq!(
        parsed("! ! x"),
        Prog::Expression(Expr::UnaryOper(
            UnaryOp::BitNeg,
            Box::new(Expr::UnaryOper(
                UnaryOp::BitNeg,
                Box::new(Expr::Var("x".to_string()))
            ))
        ))
    );
}

#[test]
fn assignment_is_parsed() {
    assert_eq!(parsed("let x = 5"), Prog::Assign("x".to_string(), Expr::Const(5)));
    assert_eq!(
        parsed("let total = (a + 1)"),
        Prog::Assign(
            "total".to_string(),
            Expr::BinaryOper(BinOp::Plus, Box::new(Expr::Var("a".to_string())), num(1))
        )
    );
}

#[test]
fn prefix_and_postfix_order_are_read_too() {
    let sum = Prog::Expression(Expr::BinaryOper(BinOp::Plus, num(1), num(2)));
    assert_eq!(parsed("+ 1 2"), sum);
    assert_eq!(parsed("1 2 +"), sum);
}

#[test]
fn parse_leaves_the_tokens_alone() {
    let mut tokens = lex("let x = (1 + 2)").unwrap();
    let before = tokens.clone();
    parse(&mut tokens).unwrap();
    assert_eq!(tokens, before);
    let mut bad = lex("(1 + 2 3").unwrap();
    let bad_before = bad.clone();
    assert!(parse(&mut bad).is_err());
    assert_eq!(bad, bad_before);
}

#[test]
fn no_tokens_are_no_program() {
    assert_eq!(
        parse(&mut Vec::new()).unwrap_err().to_string(),
        "Expected token while peeking but found nothing."
    );
}

#[test]
fn extra_token_is_an_error() {
    assert_eq!(
        parse_message("1 2"),
        "Extra token 2 found after program Expression(1)"
    );
    assert_eq!(
        parse_message("let x = 1 + 2 y"),
        "Extra token y found after program Assign(\"x\", (+ 1 2))"
    );
}

#[test]
fn mismatched_bracket_is_a_parse_error() {
    assert_eq!(parse_message("(1 + 2"), "mismatched brackets, expected right paren.");
    assert_eq!(parse_message("let x = 1)"), "mismatched brackets, expected left paren.");
}

#[test]
fn assignment_needs_a_name_and_an_equals_sign() {
    assert_eq!(parse_message("let"), "Expected token but found nothing.");
    assert_eq!(parse_message("let 5 = 1"), "Wanted identifier but found 5");
    assert_eq!(parse_message("let let = 1"), "Wanted identifier but found let");
    assert_eq!(parse_message("let << = 1"), "Wanted identifier but found <<");
    assert_eq!(parse_message("let x"), "Expected token while peeking but found nothing.");
    assert_eq!(parse_message("let x 5"), "Expected '=' while parsing assignment.");
    assert_eq!(parse_message("let x ="), "Expected token while peeking but found nothing.");
}

#[test]
fn keyword_and_equals_inside_an_expression_are_parse_errors() {
    assert_eq!(parse_message("x = 1"), "equality sign '=' found while parsing expression.");
    assert_eq!(
        parse_message("let x = let"),
        "keyword 'Let' found while parsing expression."
    );
    assert_eq!(parse_message("1 + let"), "keyword 'Let' found while parsing expression.");
}

#[test]
fn missing_operand_is_an_error() {
    assert_eq!(parse_message("+"), "Expected token while peeking but found nothing.");
    assert_eq!(parse_message("1 +"), "Expected token while peeking but found nothing.");
    assert_eq!(parse_message("!"), "Expected token while peeking but found nothing.");
    assert_eq!(parse_message("()"), "Expected token while peeking but found nothing.");
}

#[test]
fn expression_text_is_prefix_with_brackets() {
    match parsed("2 + 3 * x") {
        Prog::Expression(e) => assert_eq!(e.to_text(), "(+ 2 (* 3 x))"),
        other => panic!("{:?}", other),
    }
    match parsed("! 1 << 12") {
        Prog::Expression(e) => assert_eq!(e.to_text(), "(<< (! 1) 12)"),
        other => panic!("{:?}", other),
    }
    assert_eq!(Expr::Const(65535).to_text(), "65535");
    assert_eq!(Expr::Var("abc".to_string()).to_text(), "abc");
}

#[test]
fn operator_text_is_its_symbol() {
    assert_eq!(UnaryOp::BitNeg.to_text(), "!");
    assert_eq!(BinOp::BitAnd.to_text(), "&");
    assert_eq!(BinOp::BitOr.to_text(), "|");
    assert_eq!(BinOp::BitXor.to_text(), "^");
    assert_eq!(BinOp::BitShLeft.to_text(), "<<");
    assert_eq!(BinOp::BitShRight.to_text(), ">>");
    assert_eq!(BinOp::Plus.to_text(), "+");
    assert_eq!(BinOp::Minus.to_text(), "-");
    assert_eq!(BinOp::Times.to_text(), "*");
    assert_eq!(BinOp::Divide.to_text(), "/");
}

#[test]
fn program_text_names_its_kind() {
    assert_eq!(parsed("1 + 2").to_text(), "Expression((+ 1 2))");
    assert_eq!(parsed("let x = ! 7").to_text(), "Assign(\"x\", (! 7))");
}

#[test]
fn parse_error_keeps_its_message() {
    assert_eq!(ParseError::new("some message").to_string(), "some message");
    assert_eq!(ParseError::from_string("other".to_string()).to_string(), "other");
}

#[test]
fn keyword_token_in_operand_position() {
    let mut tokens = vec![Token::Keyw(Keyword::Let)];
    assert_eq!(
        parse(&mut tokens).unwrap_err().to_string(),
        "Expected token but found nothing."
    );
}
