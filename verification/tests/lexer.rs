use rusty_cas::error::Error;
use rusty_cas::lexer::ignored_input;
use rusty_cas::lexer::is_digit;
use rusty_cas::lexer::is_letter;
use rusty_cas::lexer::is_space;
use rusty_cas::lexer::scan;
use rusty_cas::lexer::token_for;
use rusty_cas::lexer::tokenize_string;
use rusty_cas::lexer::Tokens;
use rusty_cas::numeric::Numeric;
use rusty_cas::shunting_yard::infix_to_postfix;
use rusty_cas::token::Operator;
use rusty_cas::token::OperatorType;
use rusty_cas::token::Term;
use rusty_cas::token::Token;

fn number(value: i64) -> Token {
    Token::new_number(Numeric::from_integer(value))
}

#[test]
fn test_infix_to_postfix_conversion() {
    let infix1: Tokens = vec![
        Token::new_number(Numeric::from_integer(1)),
        Operator::add(),
        Operator::left_parenthesis(),
        Operator::left_parenthesis(),
        Token::new_number(Numeric::from_integer(2)),
        Operator::mul(),
        Token::new_number(Numeric::from_integer(3)),
        Operator::right_parenthesis(),
        Operator::add(),
        Token::new_number(Numeric::from_integer(4)),
        Operator::right_parenthesis(),
    ];

    let infix1_mismatched_parenthesis: Tokens = vec![
        Token::new_number(Numeric::from_integer(1)),
        Operator::add(),
        Operator::left_parenthesis(),
        Token::new_number(Numeric::from_integer(2)),
        Operator::left_parenthesis(),
        Operator::mul(),
        Token::new_number(Numeric::from_integer(3)),
        Operator::right_parenthesis(),
        Operator::add(),
        Token::new_number(Numeric::from_integer(4)),
        Operator::right_parenthesis(),
    ];

    let postfix1: Tokens = vec![
        Token::new_number(Numeric::from_integer(1)),
        Token::new_number(Numeric::from_integer(2)),
        Token::new_number(Numeric::from_integer(3)),
        Operator::mul(),
        Token::new_number(Numeric::from_integer(4)),
        Operator::add(),
        Operator::add(),
    ];

    assert_eq!(infix_to_postfix(&infix1), Ok(postfix1.clone()));
    // every left parenthesis of the second sequence is closed too
    assert_eq!(infix_to_postfix(&infix1_mismatched_parenthesis), Ok(postfix1));

    let mut unclosed = infix1.clone();
    unclosed.insert(2, Operator::left_parenthesis());
    assert_eq!(infix_to_postfix(&unclosed), Err(Error::MismatchedParenthesis));
}

#[test]
fn implicit_multiplication_gives_the_same_tokens() {
    let implicit = tokenize_string("32(x + y)").unwrap();
    let explicit = tokenize_string("32 * (x + y)").unwrap();
    assert_eq!(implicit, explicit);
    assert_eq!(
        implicit,
        vec![
            number(32),
            Operator::mul(),
            Operator::left_parenthesis(),
            Token::new_variable('x'),
            Operator::add(),
            Token::new_variable('y'),
            Operator::right_parenthesis(),
        ]
    );
}

#[test]
fn digits_are_merged_into_one_number() {
    assert_eq!(tokenize_string("235"), Ok(vec![number(235)]));
    assert_eq!(tokenize_string("007"), Ok(vec![number(7)]));
    assert_eq!(tokenize_string("0"), Ok(vec![number(0)]));
    assert_eq!(
        tokenize_string("12+345"),
        Ok(vec![number(12), Operator::add(), number(345)])
    );
}

#[test]
fn digits_across_skipped_characters_are_merged() {
    assert_eq!(tokenize_string("2 3"), Ok(vec![number(23)]));
    assert_eq!(tokenize_string("1,000"), Ok(vec![number(1000)]));
    assert_eq!(tokenize_string("4.5"), Ok(vec![number(45)]));
}

#[test]
fn first_pass_keeps_every_digit_apart() {
    assert_eq!(scan("235"), vec![number(2), number(3), number(5)]);
    assert_eq!(
        scan("3(x)"),
        vec![
            number(3),
            Operator::left_parenthesis(),
            Token::new_variable('x'),
            Operator::right_parenthesis(),
        ]
    );
    assert_eq!(scan(" \t;#"), vec![]);
}

#[test]
fn multiplication_is_put_only_before_a_left_parenthesis() {
    assert_eq!(
        tokenize_string("x(y)"),
        Ok(vec![
            Token::new_variable('x'),
            Operator::mul(),
            Operator::left_parenthesis(),
            Token::new_variable('y'),
            Operator::right_parenthesis(),
        ])
    );
    assert_eq!(
        tokenize_string("(x)(y)"),
        Ok(vec![
            Operator::left_parenthesis(),
            Token::new_variable('x'),
            Operator::right_parenthesis(),
            Operator::left_parenthesis(),
            Token::new_variable('y'),
            Operator::right_parenthesis(),
        ])
    );
    assert_eq!(tokenize_string("2x"), Ok(vec![number(2), Token::new_variable('x')]));
    assert_eq!(
        tokenize_string("x y"),
        Ok(vec![Token::new_variable('x'), Token::new_variable('y')])
    );
    assert_eq!(
        tokenize_string("+("),
        Ok(vec![Operator::add(), Operator::left_parenthesis()])
    );
}

#[test]
fn tokens_of_an_assignment() {
    assert_eq!(
        tokenize_string("x = 5;"),
        Ok(vec![Token::new_variable('x'), Operator::assign(), number(5)])
    );
    assert_eq!(tokenize_string(""), Ok(vec![]));
    assert_eq!(tokenize_string("   "), Ok(vec![]));
}

#[test]
fn a_number_too_large_overflows() {
    assert_eq!(
        tokenize_string("9223372036854775807"),
        Ok(vec![number(i64::MAX)])
    );
    assert_eq!(tokenize_string("9223372036854775808"), Err(Error::Overflow));
    assert_eq!(tokenize_string("x + 99999999999999999999"), Err(Error::Overflow));
    assert_eq!(tokenize_string("92233720368547758070"), Err(Error::Overflow));
}

#[test]
fn ignored_input_is_reported() {
    assert_eq!(ignored_input("x = 5;"), vec![';']);
    assert_eq!(ignored_input("x = 5"), vec![]);
    assert_eq!(ignored_input(" 1\t+\n2 "), vec![]);
    assert_eq!(ignored_input("3 - 4 / 2^\u{e9}"), vec!['-', '/', '^', '\u{e9}']);
    assert_eq!(ignored_input("a\u{a0}b\u{3000}"), vec![]);
}

#[test]
fn characters_are_classified() {
    assert!(is_digit('0') && is_digit('9') && !is_digit('a') && !is_digit('/') && !is_digit(':'));
    assert!(is_letter('a') && is_letter('z') && is_letter('A') && is_letter('Z'));
    assert!(!is_letter('@') && !is_letter('[') && !is_letter('`') && !is_letter('{'));
    assert!(!is_letter('\u{e9}') && !is_letter('5'));
    for c in ['\t', '\n', '\u{b}', '\u{c}', '\r', ' ', '\u{85}', '\u{a0}', '\u{1680}', '\u{2000}',
        '\u{200a}', '\u{2028}', '\u{2029}', '\u{202f}', '\u{205f}', '\u{3000}']
    {
        assert!(is_space(c));
        assert!(c.is_whitespace());
    }
    for c in ['a', '0', '\u{8}', '\u{e}', '\u{200b}', '\u{1f}', '!'] {
        assert!(!is_space(c));
        assert!(!c.is_whitespace());
    }
}

#[test]
fn one_character_one_token() {
    assert_eq!(token_for('('), Some(Operator::left_parenthesis()));
    assert_eq!(token_for(')'), Some(Operator::right_parenthesis()));
    assert_eq!(token_for('+'), Some(Operator::add()));
    assert_eq!(token_for('*'), Some(Operator::mul()));
    assert_eq!(token_for('='), Some(Operator::assign()));
    assert_eq!(token_for('7'), Some(number(7)));
    assert_eq!(token_for('q'), Some(Token::Term(Term::Variable('q'))));
    assert_eq!(token_for('-'), None);
    assert_eq!(token_for(' '), None);
}

#[test]
fn operators_have_fixed_precedences() {
    let precedence = |token: Token| match token {
        Token::Operator(operator) => (operator.precedence, operator.operator_type),
        Token::Term(_) => panic!("not an operator"),
    };
    assert_eq!(precedence(Operator::left_parenthesis()), (1, OperatorType::LeftParen));
    assert_eq!(precedence(Operator::right_parenthesis()), (1, OperatorType::RightParen));
    assert_eq!(precedence(Operator::add()), (2, OperatorType::Add));
    assert_eq!(precedence(Operator::mul()), (4, OperatorType::Mul));
    assert_eq!(precedence(Operator::assign()), (4, OperatorType::Assign));
}

#[test]
fn tokens_are_told_apart() {
    assert!(number(1).is_number() && !number(1).is_variable());
    assert!(Token::new_variable('x').is_variable() && !Token::new_variable('x').is_number());
    assert!(Operator::assign().is_assignment() && !Operator::add().is_assignment());
    assert!(Operator::mul().is_operator(OperatorType::Mul));
    assert!(!Operator::mul().is_operator(OperatorType::Add));
    assert!(!number(4).is_operator(OperatorType::Mul));
}

#[test]
fn postfix_of_a_nested_sum() {
    let infix = tokenize_string("1 + ((2 * 3) + 4)").unwrap();
    assert_eq!(
        infix_to_postfix(&infix),
        Ok(vec![
            number(1),
            number(2),
            number(3),
            Operator::mul(),
            number(4),
            Operator::add(),
            Operator::add(),
        ])
    );
}

#[test]
fn postfix_respects_precedence() {
    let infix = tokenize_string("1 + 2 * 3").unwrap();
    assert_eq!(
        infix_to_postfix(&infix),
        Ok(vec![number(1), number(2), number(3), Operator::mul(), Operator::add()])
    );
    let infix = tokenize_string("1 * 2 + 3").unwrap();
    assert_eq!(
        infix_to_postfix(&infix),
        Ok(vec![number(1), number(2), Operator::mul(), number(3), Operator::add()])
    );
}

#[test]
fn postfix_keeps_equal_precedence_on_the_stack() {
    let infix = tokenize_string("1 + 2 + 3").unwrap();
    assert_eq!(
        infix_to_postfix(&infix),
        Ok(vec![number(1), number(2), number(3), Operator::add(), Operator::add()])
    );
}

#[test]
fn postfix_of_nothing_is_nothing() {
    assert_eq!(infix_to_postfix(&vec![]), Ok(vec![]));
}

#[test]
fn unmatched_parentheses_are_refused() {
    for line in ["(1 + 2", "1 + 2)", ")(", "((x)", "(x))", "("] {
        let infix = tokenize_string(line).unwrap();
        assert_eq!(infix_to_postfix(&infix), Err(Error::MismatchedParenthesis));
    }
    for line in ["(1 + 2)", "()", "(x)(y)", "((x) + (y))"] {
        let infix = tokenize_string(line).unwrap();
        assert!(infix_to_postfix(&infix).is_ok());
    }
}
