use expr_parser::lexer::Lexer;
use expr_parser::token::Token;

#[test]
fn it_correctly_parses_tokens_simple() {
    let mut lexer = Lexer::new("5 * 5");

    let tokens = vec![Token::Int(5), Token::Asterisk, Token::Int(5)];

    for expected_token in tokens {
        let token = lexer.next_token();

        assert_eq!(expected_token, token);
    }
}

#[test]
fn it_correctly_parses_tokens_multiple_no_spaces() {
    let mut lexer = Lexer::new("3+9/4");

    let tokens = vec![
        Token::Int(3),
        Token::Plus,
        Token::Int(9),
        Token::Slash,
        Token::Int(4),
    ];

    for expected_token in tokens {
        let token = lexer.next_token();

        assert_eq!(expected_token, token);
    }
}

#[test]
fn it_correctly_parses_tokens_multiple_digit_numbers() {
    let mut lexer = Lexer::new("(86915 / 2)");

    let tokens = vec![
        Token::LParen,
        Token::Int(86915),
        Token::Slash,
        Token::Int(2),
        Token::RParen,
    ];

    for expected_token in tokens {
        let token = lexer.next_token();

        assert_eq!(expected_token, token);
    }
}

#[test]
fn it_correctly_parses_tokens_with_braces() {
    let mut lexer = Lexer::new("((12 * 3242) + 5)");

    let tokens = vec![
        Token::LParen,
        Token::LParen,
        Token::Int(12),
        Token::Asterisk,
        Token::Int(3242),
        Token::RParen,
        Token::Plus,
        Token::Int(5),
        Token::RParen,
    ];

    for expected_token in tokens {
        let token = lexer.next_token();

        assert_eq!(expected_token, token);
    }
}

#[test]
fn it_correctly_parses_tokens_with_equality_check() {
    let mut lexer = Lexer::new("5 * 5 - 2 == 23");

    let tokens = vec![
        Token::Int(5),
        Token::Asterisk,
        Token::Int(5),
        Token::Minus,
        Token::Int(2),
        Token::Eq,
        Token::Int(23),
    ];

    for expected_token in tokens {
        let token = lexer.next_token();

        assert_eq!(expected_token, token);
    }
}

#[test]
fn it_correctly_parses_tokens_with_non_equality_check() {
    let mut lexer = Lexer::new("5 * 12332 - 2 != 22");

    let tokens = vec![
        Token::Int(5),
        Token::Asterisk,
        Token::Int(12332),
        Token::Minus,
        Token::Int(2),
        Token::NotEq,
        Token::Int(22),
    ];

    for expected_token in tokens {
        let token = lexer.next_token();

        assert_eq!(expected_token, token);
    }
}

/// Collect every token up to (and not including) `EOF`.
fn all_tokens(input: &str) -> Vec<Token> {
    let mut lexer = Lexer::new(input);
    let mut tokens = Vec::new();
    loop {
        let token = lexer.next_token();
        if token == Token::EOF {
            return tokens;
        }
        tokens.push(token);
    }
}

#[test]
fn whitespace_does_not_change_the_token_sequence() {
    let dense = all_tokens("3+9/4");
    let spaced = all_tokens("3 + 9 / 4");
    let very_spaced = all_tokens("3   +  9 /     4");
    assert_eq!(dense, spaced);
    assert_eq!(dense, very_spaced);
    assert_eq!(
        dense,
        vec![
            Token::Int(3),
            Token::Plus,
            Token::Int(9),
            Token::Slash,
            Token::Int(4),
        ]
    );
}

#[test]
fn end_of_input_is_idempotent() {
    let mut lexer = Lexer::new("5");
    assert_eq!(lexer.next_token(), Token::Int(5));
    assert_eq!(lexer.next_token(), Token::EOF);
    assert_eq!(lexer.next_token(), Token::EOF);
    assert_eq!(lexer.next_token(), Token::EOF);
    assert_eq!(lexer.next_token(), Token::EOF);
}

#[test]
fn numeric_literal_round_trips_through_the_scanner() {
    let mut lexer = Lexer::new("86915");
    let token = lexer.next_token();
    assert_eq!(token, Token::Int(86915));
    let rendered = Lexer::render_int(86915);
    let expected: Vec<char> = "86915".chars().collect();
    assert_eq!(rendered, expected);
}

#[test]
fn render_int_handles_zero_and_single_digits() {
    assert_eq!(Lexer::render_int(0), vec!['0']);
    assert_eq!(Lexer::render_int(7), vec!['7']);
    assert_eq!(Lexer::render_int(10), vec!['1', '0']);
}

#[test]
fn unknown_characters_scan_as_illegal() {
    assert_eq!(all_tokens("5 @ 3"), vec![Token::Int(5), Token::Illegal, Token::Int(3)]);
}

#[test]
fn lone_equals_and_bang_scan_as_illegal() {
    assert_eq!(all_tokens("="), vec![Token::Illegal]);
    assert_eq!(all_tokens("!"), vec![Token::Illegal]);
    assert_eq!(all_tokens("!="), vec![Token::NotEq]);
    assert_eq!(all_tokens("=="), vec![Token::Eq]);
}

#[test]
fn oversized_literal_scans_as_illegal_with_overflow_flag() {
    let mut lexer = Lexer::new("99999999999999999999999");
    let token = lexer.next_token();
    assert_eq!(token, Token::Illegal);
    assert!(lexer.last_overflow());
    assert_eq!(lexer.next_token(), Token::EOF);
}
