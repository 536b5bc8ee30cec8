use bitcalc::lexer::{as_keyword, is_symbol, lex, Keyword, LexError, Operator, Token};

fn ident(name: &str) -> Token {
    Token::Ident(name.to_string())
}

fn lex_message(text: &str) -> String {
    match lex(text) {
        Ok(tokens) => panic!("{:?} was tokenized as {:?}", text, tokens),
        Err(e) => e.to_string(),
    }
}

#[test]
fn empty_text_has_no_tokens() {
    assert_eq!(lex("").unwrap(), vec![]);
}

#[test]
fn numbers_and_operators_without_spaces() {
    assert_eq!(
        lex("1+2").unwrap(),
        vec![Token::Num(1), Token::Oper(Operator::Plus), Token::Num(2)]
    );
}

#[test]
fn every_operator_is_tokenized() {
    assert_eq!(
        lex("+ - * / & | ^ ! << >>").unwrap(),
        vec![
            Token::Oper(Operator::Plus),
            Token::Oper(Operator::Minus),
            Token::Oper(Operator::Times),
            Token::Oper(Operator::Divide),
            Token::Oper(Operator::BitAnd),
            Token::Oper(Operator::BitOr),
            Token::Oper(Operator::BitXor),
            Token::Oper(Operator::BitNeg),
            Token::Oper(Operator::BitShLeft),
            Token::Oper(Operator::BitShRight),
        ]
    );
}

#[test]
fn brackets_and_equals_are_tokenized() {
    assert_eq!(
        lex("(x)=1").unwrap(),
        vec![
            Token::LeftParen,
            ident("x"),
            Token::RightParen,
            Token::Equals,
            Token::Num(1)
        ]
    );
}

#[test]
fn let_is_a_keyword_only_as_a_whole_word() {
    assert_eq!(
        lex("let letx x1 Let le").unwrap(),
        vec![
            Token::Keyw(Keyword::Let),
            ident("letx"),
            ident("x1"),
            ident("Let"),
            ident("le"),
        ]
    );
}

#[test]
fn leading_white_space_is_skipped() {
    assert_eq!(lex(" \t\n 1").unwrap(), vec![Token::Num(1)]);
}

#[test]
fn white_space_of_every_ascii_kind_separates_tokens() {
    assert_eq!(
        lex("a\tb\nc\rd\u{b}e\u{c}f g").unwrap(),
        vec![
            ident("a"),
            ident("b"),
            ident("c"),
            ident("d"),
            ident("e"),
            ident("f"),
            ident("g")
        ]
    );
}

#[test]
fn white_space_outside_ascii_separates_tokens() {
    assert_eq!(lex("a\u{a0}b\u{2003}c").unwrap(), vec![ident("a"), ident("b"), ident("c")]);
}

#[test]
fn trailing_white_space_is_an_error() {
    assert_eq!(lex_message("1 "), "No characters left while lexing token.");
    assert_eq!(lex_message("   "), "No characters left while lexing token.");
}

#[test]
fn largest_number_is_65535() {
    assert_eq!(lex("65535").unwrap(), vec![Token::Num(65535)]);
    assert_eq!(lex_message("65536"), "Failed to parse 65536 as u16");
    assert_eq!(lex_message("99999999999999999999999"), "Failed to parse 99999999999999999999999 as u16");
}

#[test]
fn leading_zeros_are_allowed() {
    assert_eq!(lex("007").unwrap(), vec![Token::Num(7)]);
    assert_eq!(lex("0000000000000000000000065535").unwrap(), vec![Token::Num(65535)]);
    assert_eq!(lex("0").unwrap(), vec![Token::Num(0)]);
}

#[test]
fn letter_after_digits_is_an_error() {
    assert_eq!(
        lex_message("12ab"),
        "Expected digit while parsing number but found 'a'"
    );
    assert_eq!(
        lex_message("1 + 2x"),
        "Expected digit while parsing number but found 'x'"
    );
}

#[test]
fn numeric_characters_outside_ascii_are_no_digits() {
    assert_eq!(lex_message("\u{663}"), "Failed to parse \u{663} as u16");
    assert_eq!(lex_message("1\u{b2}"), "Failed to parse 1\u{b2} as u16");
}

#[test]
fn numeric_letter_starts_a_number() {
    assert_eq!(lex_message("\u{2167}"), "Failed to parse \u{2167} as u16");
    assert_eq!(lex("x\u{2167}").unwrap(), vec![ident("x\u{2167}")]);
}

#[test]
fn letters_outside_ascii_make_identifiers() {
    assert_eq!(lex("\u{e9}t\u{e9}1 + \u{3b1}").unwrap(), vec![
        ident("\u{e9}t\u{e9}1"),
        Token::Oper(Operator::Plus),
        ident("\u{3b1}"),
    ]);
}

#[test]
fn single_angle_bracket_is_an_error() {
    assert_eq!(lex_message("<5"), "Error while lexing '<' (did you mean '<<'?)");
    assert_eq!(lex_message("<"), "Error while lexing '<' (did you mean '<<'?)");
    assert_eq!(lex_message("< <"), "Error while lexing '<' (did you mean '<<'?)");
    assert_eq!(lex_message("1 > 2"), "Error while lexing '>' (did you mean '>>'?)");
    assert_eq!(lex_message(">="), "Error while lexing '>' (did you mean '>>'?)");
    assert_eq!(lex_message("<>"), "Error while lexing '<' (did you mean '<<'?)");
}

#[test]
fn three_angle_brackets_are_a_shift_and_an_error() {
    assert_eq!(lex_message("<<<"), "Error while lexing '<' (did you mean '<<'?)");
    assert_eq!(
        lex("<<>>").unwrap(),
        vec![Token::Oper(Operator::BitShLeft), Token::Oper(Operator::BitShRight)]
    );
}

#[test]
fn unknown_character_is_named_in_the_error() {
    assert_eq!(lex_message("#"), "Couldn't lex token. Failed on character #");
    assert_eq!(lex_message("1 + $x"), "Couldn't lex token. Failed on character $");
    assert_eq!(lex_message("a_b"), "Couldn't lex token. Failed on character _");
}

#[test]
fn first_error_from_the_left_is_reported() {
    assert_eq!(lex_message("# <"), "Couldn't lex token. Failed on character #");
    assert_eq!(lex_message("< #"), "Error while lexing '<' (did you mean '<<'?)");
}

#[test]
fn symbols_are_the_ten_operator_characters() {
    for c in ['+', '*', '/', '-', '&', '|', '^', '!', '<', '>'] {
        assert!(is_symbol(c));
    }
    for c in ['(', ')', '=', 'a', '1', ' ', '~', '%'] {
        assert!(!is_symbol(c));
    }
}

#[test]
fn keyword_lookup() {
    assert_eq!(as_keyword("let"), Some(Keyword::Let));
    assert_eq!(as_keyword("Let"), None);
    assert_eq!(as_keyword("le"), None);
    assert_eq!(as_keyword("lett"), None);
    assert_eq!(as_keyword(""), None);
    assert_eq!(as_keyword("l\u{e9}t"), None);
}

#[test]
fn token_text_is_what_was_written() {
    assert_eq!(ident("abc").to_text(), "abc");
    assert_eq!(Token::Num(0).to_text(), "0");
    assert_eq!(Token::Num(65535).to_text(), "65535");
    assert_eq!(Token::Oper(Operator::BitShLeft).to_text(), "<<");
    assert_eq!(Token::Oper(Operator::BitShRight).to_text(), ">>");
    assert_eq!(Token::Oper(Operator::BitNeg).to_text(), "!");
    assert_eq!(Token::Oper(Operator::Plus).to_text(), "+");
    assert_eq!(Token::Oper(Operator::Minus).to_text(), "-");
    assert_eq!(Token::Oper(Operator::Times).to_text(), "*");
    assert_eq!(Token::Oper(Operator::Divide).to_text(), "/");
    assert_eq!(Token::Oper(Operator::BitAnd).to_text(), "&");
    assert_eq!(Token::Oper(Operator::BitOr).to_text(), "|");
    assert_eq!(Token::Oper(Operator::BitXor).to_text(), "^");
    assert_eq!(Token::LeftParen.to_text(), "(");
    assert_eq!(Token::RightParen.to_text(), ")");
    assert_eq!(Token::Keyw(Keyword::Let).to_text(), "let");
    assert_eq!(Token::Equals.to_text(), "=");
}

#[test]
fn token_clone_is_equal() {
    let t = ident("name");
    assert_eq!(t.clone(), t);
    assert_eq!(Token::Num(3).clone(), Token::Num(3));
}

#[test]
fn lex_error_keeps_its_message() {
    assert_eq!(LexError::new("some message").to_string(), "some message");
    assert_eq!(LexError::from_string("other".to_string()).to_string(), "other");
}

#[test]
fn tokens_written_out_are_tokenized_to_themselves() {
    for text in [
        "let x = (1 + 2) * 3",
        "007<<2>>1",
        "a&b|c^!d",
        "\u{e9}t\u{e9} / y2",
        "( ( ) ) = = let let",
        "65535 - 0",
        "",
    ] {
        let tokens = lex(text).unwrap();
        let words: Vec<String> = tokens.iter().map(|t| t.to_text()).collect();
        let written = words.join(" ");
        assert_eq!(lex(&written).unwrap(), tokens);
    }
}
