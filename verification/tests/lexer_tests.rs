use polygon::lexer::Lexer;
use polygon::tokens::{Keyword, LexError, Literal, Operator, Separator, Token};

/// Drives a lexer over the whole input, failing the test on a lex error.
fn collect(src: &str) -> Vec<Token> {
    let mut lexer = Lexer::new(src);
    let mut out = Vec::new();
    loop {
        match lexer.next_token() {
            Ok(Some(token)) => out.push(token),
            Ok(None) => break,
            Err(e) => panic!("unexpected lex error: {:?}", e),
        }
    }
    out
}

#[test]
fn whitespace_only_yields_no_token() {
    let mut lexer = Lexer::new(" \t\r\n   ");
    assert_eq!(lexer.next_token(), Ok(None));
}

#[test]
fn empty_input_yields_no_token() {
    let mut lexer = Lexer::new("");
    assert_eq!(lexer.next_token(), Ok(None));
}

#[test]
fn double_equal_is_one_token() {
    assert_eq!(collect("=="), vec![Token::OPERATOR(Operator::EQUAL)]);
}

#[test]
fn spaced_equals_are_two_assignments() {
    assert_eq!(
        collect("= ="),
        vec![
            Token::OPERATOR(Operator::ASSIGNMENT),
            Token::OPERATOR(Operator::ASSIGNMENT)
        ]
    );
}

#[test]
fn triple_equal_is_equal_then_assignment() {
    assert_eq!(
        collect("=== "),
        vec![
            Token::OPERATOR(Operator::EQUAL),
            Token::OPERATOR(Operator::ASSIGNMENT)
        ]
    );
}

#[test]
fn suffix_u_gives_unsigned() {
    assert_eq!(
        collect("10u"),
        vec![Token::LITERAL(Literal::USIGNEDINT(10))]
    );
}

#[test]
fn suffix_i_gives_signed() {
    assert_eq!(collect("10i"), vec![Token::LITERAL(Literal::SIGNEDINT(10))]);
}

#[test]
fn suffix_f_gives_float() {
    let tokens = collect("1.5f");
    assert_eq!(
        tokens,
        vec![Token::LITERAL(Literal::FLOAT(String::from("1.5")))]
    );
    match &tokens[0] {
        Token::LITERAL(Literal::FLOAT(text)) => {
            let value: f64 = text.parse().unwrap();
            assert_eq!(value, 1.5);
        }
        other => panic!("expected a float literal, got {:?}", other),
    }
}

#[test]
fn keyword_let_is_exact() {
    assert_eq!(collect("let"), vec![Token::KEYWORD(Keyword::LET)]);
}

#[test]
fn keyword_prefix_is_identifier() {
    assert_eq!(
        collect("lets"),
        vec![Token::IDENTIFIER(String::from("lets"))]
    );
}

#[test]
fn all_keywords_scan() {
    assert_eq!(
        collect("let const static fn if else for loop break continue"),
        vec![
            Token::KEYWORD(Keyword::LET),
            Token::KEYWORD(Keyword::CONST),
            Token::KEYWORD(Keyword::STATIC),
            Token::KEYWORD(Keyword::FN),
            Token::KEYWORD(Keyword::IF),
            Token::KEYWORD(Keyword::ELSE),
            Token::KEYWORD(Keyword::FOR),
            Token::KEYWORD(Keyword::LOOP),
            Token::KEYWORD(Keyword::BREAK),
            Token::KEYWORD(Keyword::CONTINUE),
        ]
    );
}

#[test]
fn bool_true_exact() {
    assert_eq!(collect("true"), vec![Token::LITERAL(Literal::BOOL(true))]);
}

#[test]
fn bool_false_exact() {
    assert_eq!(collect("false"), vec![Token::LITERAL(Literal::BOOL(false))]);
}

#[test]
fn bool_extension_is_identifier() {
    assert_eq!(
        collect("truex"),
        vec![Token::IDENTIFIER(String::from("truex"))]
    );
}

#[test]
fn bool_before_separator_matches() {
    assert_eq!(
        collect("false)"),
        vec![
            Token::LITERAL(Literal::BOOL(false)),
            Token::SEPARATOR(Separator::RPARAN)
        ]
    );
}

#[test]
fn string_literal_round_trip() {
    assert_eq!(
        collect("\"hello world\""),
        vec![Token::LITERAL(Literal::STRING(String::from("hello world")))]
    );
}

#[test]
fn empty_string_literal() {
    assert_eq!(
        collect("\"\""),
        vec![Token::LITERAL(Literal::STRING(String::new()))]
    );
}

#[test]
fn unterminated_string_yields_no_token() {
    let mut lexer = Lexer::new("\"abc");
    assert_eq!(lexer.next_token(), Ok(None));
}

#[test]
fn unsuffixed_number_yields_no_token() {
    let mut lexer = Lexer::new("123");
    assert_eq!(lexer.next_token(), Ok(None));
}

#[test]
fn assignment_statement_scenario() {
    assert_eq!(
        collect("let x = 10i + 5i;"),
        vec![
            Token::KEYWORD(Keyword::LET),
            Token::IDENTIFIER(String::from("x")),
            Token::OPERATOR(Operator::ASSIGNMENT),
            Token::LITERAL(Literal::SIGNEDINT(10)),
            Token::OPERATOR(Operator::ADD),
            Token::LITERAL(Literal::SIGNEDINT(5)),
            Token::SEPARATOR(Separator::SEMICOLON),
        ]
    );
}

#[test]
fn condition_block_scenario() {
    assert_eq!(
        collect("if(a!=b){c++;}"),
        vec![
            Token::KEYWORD(Keyword::IF),
            Token::SEPARATOR(Separator::LPARAN),
            Token::IDENTIFIER(String::from("a")),
            Token::OPERATOR(Operator::NOTEQUAL),
            Token::IDENTIFIER(String::from("b")),
            Token::SEPARATOR(Separator::RPARAN),
            Token::SEPARATOR(Separator::LCURLY),
            Token::IDENTIFIER(String::from("c")),
            Token::OPERATOR(Operator::INCREMENT),
            Token::SEPARATOR(Separator::SEMICOLON),
            Token::SEPARATOR(Separator::RCURLY),
        ]
    );
}

#[test]
fn separators_scan() {
    assert_eq!(
        collect("{ } ( ) ; ,"),
        vec![
            Token::SEPARATOR(Separator::LCURLY),
            Token::SEPARATOR(Separator::RCURLY),
            Token::SEPARATOR(Separator::LPARAN),
            Token::SEPARATOR(Separator::RPARAN),
            Token::SEPARATOR(Separator::SEMICOLON),
            Token::SEPARATOR(Separator::COMMA),
        ]
    );
}

#[test]
fn operators_scan() {
    assert_eq!(
        collect(". ! && & || | ++ += + -- -= - *= * /= /"),
        vec![
            Token::OPERATOR(Operator::DOT),
            Token::OPERATOR(Operator::NOT),
            Token::OPERATOR(Operator::AND),
            Token::OPERATOR(Operator::BITAND),
            Token::OPERATOR(Operator::OR),
            Token::OPERATOR(Operator::BITOR),
            Token::OPERATOR(Operator::INCREMENT),
            Token::OPERATOR(Operator::INCASSIGN),
            Token::OPERATOR(Operator::ADD),
            Token::OPERATOR(Operator::DECREMENT),
            Token::OPERATOR(Operator::DECASSIGN),
            Token::OPERATOR(Operator::SUBTRACT),
            Token::OPERATOR(Operator::MULTASSIGN),
            Token::OPERATOR(Operator::MULTIPLY),
            Token::OPERATOR(Operator::DIVASSIGN),
            Token::OPERATOR(Operator::DIVIDE),
        ]
    );
}

#[test]
fn not_then_identifier() {
    assert_eq!(
        collect("!flag "),
        vec![
            Token::OPERATOR(Operator::NOT),
            Token::IDENTIFIER(String::from("flag"))
        ]
    );
}

#[test]
fn negative_signed_literal() {
    assert_eq!(collect("-5i"), vec![Token::LITERAL(Literal::SIGNEDINT(-5))]);
}

#[test]
fn plus_signed_unsigned_literal() {
    assert_eq!(collect("+7u"), vec![Token::LITERAL(Literal::USIGNEDINT(7))]);
}

#[test]
fn negative_fraction_float() {
    assert_eq!(
        collect("-.5f"),
        vec![Token::LITERAL(Literal::FLOAT(String::from("-.5")))]
    );
}

#[test]
fn leading_dot_is_dot_operator() {
    assert_eq!(
        collect(".5f"),
        vec![
            Token::OPERATOR(Operator::DOT),
            Token::LITERAL(Literal::FLOAT(String::from("5")))
        ]
    );
}

#[test]
fn minus_before_space_is_subtract() {
    assert_eq!(
        collect("a - 1i"),
        vec![
            Token::IDENTIFIER(String::from("a")),
            Token::OPERATOR(Operator::SUBTRACT),
            Token::LITERAL(Literal::SIGNEDINT(1)),
        ]
    );
}

#[test]
fn minus_before_digit_is_negative_literal() {
    assert_eq!(
        collect("a -1i"),
        vec![
            Token::IDENTIFIER(String::from("a")),
            Token::LITERAL(Literal::SIGNEDINT(-1)),
        ]
    );
}

#[test]
fn unresolved_pair_falls_through_to_identifier() {
    assert_eq!(
        collect("a=b "),
        vec![Token::IDENTIFIER(String::from("a=b"))]
    );
}

#[test]
fn malformed_unsigned_is_error() {
    let mut lexer = Lexer::new("1.5u");
    assert_eq!(lexer.next_token(), Err(LexError::MALFORMEDUNSIGNED));
}

#[test]
fn malformed_signed_is_error() {
    let mut lexer = Lexer::new("3.5i");
    assert_eq!(lexer.next_token(), Err(LexError::MALFORMEDSIGNED));
}

#[test]
fn double_minus_is_decrement_not_sign() {
    assert_eq!(
        collect("--3i"),
        vec![
            Token::OPERATOR(Operator::DECREMENT),
            Token::LITERAL(Literal::SIGNEDINT(3)),
        ]
    );
}

#[test]
fn malformed_float_is_error() {
    let mut lexer = Lexer::new("1.2.3f");
    assert_eq!(lexer.next_token(), Err(LexError::MALFORMEDFLOAT));
}

#[test]
fn unsigned_overflow_is_error() {
    let mut lexer = Lexer::new("99999999999999999999999999u");
    assert_eq!(lexer.next_token(), Err(LexError::MALFORMEDUNSIGNED));
}

#[test]
fn unsigned_max_fits() {
    let text = format!("{}u", usize::MAX);
    assert_eq!(
        collect(&text),
        vec![Token::LITERAL(Literal::USIGNEDINT(usize::MAX))]
    );
}

#[test]
fn signed_min_and_max_fit() {
    let min_text = format!("{}i", isize::MIN);
    assert_eq!(
        collect(&min_text),
        vec![Token::LITERAL(Literal::SIGNEDINT(isize::MIN))]
    );
    let max_text = format!("{}i", isize::MAX);
    assert_eq!(
        collect(&max_text),
        vec![Token::LITERAL(Literal::SIGNEDINT(isize::MAX))]
    );
}

#[test]
fn signed_overflow_is_error() {
    let mut lexer = Lexer::new("9223372036854775808i");
    assert_eq!(lexer.next_token(), Err(LexError::MALFORMEDSIGNED));
}

#[test]
fn error_leaves_cursor_after_suffix() {
    let mut lexer = Lexer::new("1.5u 2u");
    assert_eq!(lexer.next_token(), Err(LexError::MALFORMEDUNSIGNED));
    assert_eq!(
        lexer.next_token(),
        Ok(Some(Token::LITERAL(Literal::USIGNEDINT(2))))
    );
    assert_eq!(lexer.next_token(), Ok(None));
}

#[test]
fn multi_byte_characters_count_as_one_position() {
    assert_eq!(
        collect("h\u{00e9}llo = w\u{00f6}rld;"),
        vec![
            Token::IDENTIFIER(String::from("h\u{00e9}llo")),
            Token::OPERATOR(Operator::ASSIGNMENT),
            Token::IDENTIFIER(String::from("w\u{00f6}rld")),
            Token::SEPARATOR(Separator::SEMICOLON),
        ]
    );
}

#[test]
fn string_literal_keeps_operators_and_spaces() {
    assert_eq!(
        collect("\"a + b == c\""),
        vec![Token::LITERAL(Literal::STRING(String::from("a + b == c")))]
    );
}

#[test]
fn function_header_scenario() {
    assert_eq!(
        collect("fn f(){}"),
        vec![
            Token::KEYWORD(Keyword::FN),
            Token::IDENTIFIER(String::from("f")),
            Token::SEPARATOR(Separator::LPARAN),
            Token::SEPARATOR(Separator::RPARAN),
            Token::SEPARATOR(Separator::LCURLY),
            Token::SEPARATOR(Separator::RCURLY),
        ]
    );
}
