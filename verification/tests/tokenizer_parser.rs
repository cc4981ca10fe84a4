use miischeme::error::KirundiError;
use miischeme::parser::{expr_to_tokens, parse, parse_tokens, Expr};
use miischeme::tokenizer::{tokenize, Token};

#[test]
fn tokenize_spaced_form() {
    let tokens = tokenize("( + 1 2 )").unwrap();
    assert_eq!(
        tokens,
        vec![
            Token::OpenParen,
            Token::Symbol("+".to_string()),
            Token::Number(1),
            Token::Number(2),
            Token::CloseParen,
        ]
    );
}

#[test]
fn tokenize_adjacent_parens_stay_in_words() {
    // parentheses are tokens only as standalone whitespace-delimited words
    let tokens = tokenize("(+ 1 2)").unwrap();
    assert_eq!(
        tokens,
        vec![
            Token::Symbol("(+".to_string()),
            Token::Number(1),
            Token::Symbol("2)".to_string()),
        ]
    );
}

#[test]
fn tokenize_empty_input() {
    assert_eq!(tokenize("").unwrap(), Vec::<Token>::new());
    assert_eq!(tokenize(" \t\r\n ").unwrap(), Vec::<Token>::new());
}

#[test]
fn tokenize_number_at_limit() {
    let tokens = tokenize("9223372036854775807").unwrap();
    assert_eq!(tokens, vec![Token::Number(i64::MAX)]);
}

#[test]
fn tokenize_number_overflow_is_lex_error() {
    let err = tokenize("9223372036854775808").unwrap_err();
    assert_eq!(
        err,
        KirundiError::LexError("9223372036854775808".to_string())
    );
}

#[test]
fn tokenize_overflow_reports_first_bad_word() {
    let err = tokenize("1 99999999999999999999 88888888888888888888").unwrap_err();
    assert_eq!(
        err,
        KirundiError::LexError("99999999999999999999".to_string())
    );
}

#[test]
fn tokenize_lone_minus_is_a_symbol() {
    let tokens = tokenize("- -5").unwrap();
    // a word that merely looks numeric without being all digits stays a symbol
    assert_eq!(
        tokens,
        vec![Token::Symbol("-".to_string()), Token::Symbol("-5".to_string())]
    );
}

#[test]
fn parse_flat_form() {
    let tokens = tokenize("( + 1 2 )").unwrap();
    let expr = parse(&tokens).unwrap();
    assert_eq!(
        expr,
        Expr::List(vec![
            Expr::Symbol("+".to_string()),
            Expr::Number(1),
            Expr::Number(2),
        ])
    );
}

#[test]
fn parse_define_form() {
    let tokens = vec![
        Token::OpenParen,
        Token::Symbol("define".to_string()),
        Token::Symbol("x".to_string()),
        Token::Number(10),
        Token::CloseParen,
    ];
    let expr = parse(&tokens).unwrap();
    assert_eq!(
        expr,
        Expr::List(vec![
            Expr::Symbol("define".to_string()),
            Expr::Symbol("x".to_string()),
            Expr::Number(10),
        ])
    );
}

#[test]
fn parse_extra_trailing_close_is_syntax_error() {
    let tokens = vec![
        Token::OpenParen,
        Token::Symbol("define".to_string()),
        Token::Symbol("x".to_string()),
        Token::Number(10),
        Token::CloseParen,
        Token::CloseParen,
    ];
    let err = parse(&tokens).unwrap_err();
    assert!(matches!(err, KirundiError::SyntaxError(_)));
}

#[test]
fn parse_leaves() {
    assert_eq!(parse(&vec![Token::Number(7)]).unwrap(), Expr::Number(7));
    assert_eq!(
        parse(&vec![Token::Symbol("abc".to_string())]).unwrap(),
        Expr::Symbol("abc".to_string())
    );
}

#[test]
fn parse_empty_input_is_syntax_error() {
    let err = parse(&Vec::new()).unwrap_err();
    assert_eq!(
        err,
        KirundiError::SyntaxError("unexpected end of input".to_string())
    );
}

#[test]
fn parse_missing_close_is_syntax_error() {
    let tokens = tokenize("( + 1 2").unwrap();
    let err = parse(&tokens).unwrap_err();
    assert_eq!(
        err,
        KirundiError::SyntaxError("missing closing parenthesis".to_string())
    );
}

#[test]
fn parse_unmatched_close_is_syntax_error() {
    let tokens = vec![Token::CloseParen];
    let err = parse(&tokens).unwrap_err();
    assert_eq!(
        err,
        KirundiError::SyntaxError("unexpected closing parenthesis".to_string())
    );
}

#[test]
fn parse_two_expressions_is_syntax_error() {
    let tokens = vec![Token::Number(1), Token::Number(2)];
    let err = parse(&tokens).unwrap_err();
    assert_eq!(
        err,
        KirundiError::SyntaxError("unexpected tokens after the expression".to_string())
    );
}

#[test]
fn parse_nested_lists() {
    let tokens = tokenize("( a ( b 1 ) ( ) )").unwrap();
    let expr = parse(&tokens).unwrap();
    assert_eq!(
        expr,
        Expr::List(vec![
            Expr::Symbol("a".to_string()),
            Expr::List(vec![Expr::Symbol("b".to_string()), Expr::Number(1)]),
            Expr::List(vec![]),
        ])
    );
}

#[test]
fn parse_tokens_reports_consumed_position() {
    let tokens = tokenize("( a b )").unwrap();
    let (expr, next) = parse_tokens(&tokens, 0).unwrap();
    assert_eq!(next, 4);
    assert_eq!(
        expr,
        Expr::List(vec![
            Expr::Symbol("a".to_string()),
            Expr::Symbol("b".to_string()),
        ])
    );
}

#[test]
fn round_trip_reserializes_the_same_tokens() {
    let source = "( define x ( + ( * 2 3 ) y ) )";
    let tokens = tokenize(source).unwrap();
    let expr = parse(&tokens).unwrap();
    assert_eq!(expr_to_tokens(&expr), tokens);
}

#[test]
fn round_trip_leaf() {
    let tokens = vec![Token::Number(42)];
    let expr = parse(&tokens).unwrap();
    assert_eq!(expr_to_tokens(&expr), tokens);
}
