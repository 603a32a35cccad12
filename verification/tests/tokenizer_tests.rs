use yasld::errors::SyntaxError;
use yasld::lexer::Token;
use yasld::lexer::parse;

#[test]
fn tokenize_double_ampersand_is_one_token() {
    let tokens = parse("&&").unwrap();
    assert_eq!(tokens, vec![Token::BinaryAnd]);
}

#[test]
fn tokenize_double_pipe_is_one_token() {
    let tokens = parse("||").unwrap();
    assert_eq!(tokens, vec![Token::BinaryOr]);
}

#[test]
fn tokenize_double_equals_is_one_token() {
    let tokens = parse("==").unwrap();
    assert_eq!(tokens, vec![Token::Eq]);
}

#[test]
fn tokenize_lone_ampersand_is_rejected() {
    assert_eq!(parse("&"), Err(SyntaxError::UnrecognizedCharacter));
}

#[test]
fn tokenize_unrecognized_character() {
    assert_eq!(parse("var x @"), Err(SyntaxError::UnrecognizedCharacter));
}

#[test]
fn tokenize_simple_program() {
    let tokens = parse("var x 5").unwrap();
    assert_eq!(
        tokens,
        vec![
            Token::Var,
            Token::Space,
            Token::Name(String::from("x")),
            Token::Space,
            Token::Number(String::from("5")),
        ]
    );
}

#[test]
fn tokenize_keyword_needs_boundary() {
    let tokens = parse("variable").unwrap();
    assert_eq!(tokens, vec![Token::Name(String::from("variable"))]);
}

#[test]
fn tokenize_keyword_before_bracket() {
    let tokens = parse("if(").unwrap();
    assert_eq!(tokens, vec![Token::If, Token::OpenBracket]);
}

#[test]
fn tokenize_all_keywords() {
    let tokens = parse("if var set range for ").unwrap();
    let kinds: Vec<Token> = tokens
        .into_iter()
        .filter(|t| !matches!(t, Token::Space))
        .collect();
    assert_eq!(
        kinds,
        vec![Token::If, Token::Var, Token::SetKw, Token::Range, Token::For]
    );
}

#[test]
fn tokenize_number_with_sign_fraction_exponent() {
    let tokens = parse("-1.5e+3").unwrap();
    assert_eq!(tokens, vec![Token::Number(String::from("-1.5e+3"))]);
}

#[test]
fn tokenize_signed_number_binds_tighter_than_operator() {
    let tokens = parse("+1 2").unwrap();
    assert_eq!(
        tokens,
        vec![
            Token::Number(String::from("+1")),
            Token::Space,
            Token::Number(String::from("2")),
        ]
    );
}

#[test]
fn tokenize_operator_when_no_digit_follows() {
    let tokens = parse("+ 1").unwrap();
    assert_eq!(
        tokens,
        vec![Token::Plus, Token::Space, Token::Number(String::from("1"))]
    );
}

#[test]
fn tokenize_number_longest_match() {
    let tokens = parse("12.25)").unwrap();
    assert_eq!(
        tokens,
        vec![Token::Number(String::from("12.25")), Token::CloseBracket]
    );
}

#[test]
fn tokenize_bool_before_bracket() {
    let tokens = parse("true)").unwrap();
    assert_eq!(tokens, vec![Token::Bool(true), Token::CloseBracket]);
}

#[test]
fn tokenize_bool_before_operator() {
    let tokens = parse("false&&true ").unwrap();
    assert_eq!(
        tokens,
        vec![
            Token::Bool(false),
            Token::BinaryAnd,
            Token::Bool(true),
            Token::Space,
        ]
    );
}

#[test]
fn tokenize_bool_prefix_is_a_name() {
    let tokens = parse("truee ").unwrap();
    assert_eq!(
        tokens,
        vec![Token::Name(String::from("truee")), Token::Space]
    );
}

#[test]
fn tokenize_bool_at_end_of_input_is_a_name() {
    let tokens = parse("true").unwrap();
    assert_eq!(tokens, vec![Token::Name(String::from("true"))]);
}

#[test]
fn tokenize_single_character_operators() {
    let tokens = parse("+-*/!><").unwrap();
    assert_eq!(
        tokens,
        vec![
            Token::Plus,
            Token::Minus,
            Token::Multiply,
            Token::Divide,
            Token::BinaryNeg,
            Token::Bigger,
            Token::Less,
        ]
    );
}

#[test]
fn tokenize_whitespace_kinds() {
    let tokens = parse(" \n\t").unwrap();
    assert_eq!(tokens, vec![Token::Space, Token::Space, Token::Space]);
}

#[test]
fn tokenize_empty_input() {
    let tokens = parse("").unwrap();
    assert_eq!(tokens, Vec::<Token>::new());
}

#[test]
fn tokenize_is_lossless() {
    // concatenating the consumed substrings reconstructs the input exactly
    let source = "var x1 -1.5e+3\nfor i range 0 3 (+ x1 i)\tif (> x1 2) true) false&&true ==";
    let tokens = parse(source).unwrap();
    let mut rebuilt = String::new();
    let mut spaces = source.chars().filter(|c| *c == ' ' || *c == '\n' || *c == '\t');
    for t in &tokens {
        match t {
            Token::OpenBracket => rebuilt.push('('),
            Token::CloseBracket => rebuilt.push(')'),
            Token::Name(s) => rebuilt.push_str(s),
            Token::Range => rebuilt.push_str("range"),
            Token::Var => rebuilt.push_str("var"),
            Token::Number(s) => rebuilt.push_str(s),
            Token::SetKw => rebuilt.push_str("set"),
            Token::Bool(true) => rebuilt.push_str("true"),
            Token::Bool(false) => rebuilt.push_str("false"),
            Token::If => rebuilt.push_str("if"),
            Token::For => rebuilt.push_str("for"),
            Token::Plus => rebuilt.push('+'),
            Token::Minus => rebuilt.push('-'),
            Token::Multiply => rebuilt.push('*'),
            Token::Divide => rebuilt.push('/'),
            Token::Eq => rebuilt.push_str("=="),
            Token::Bigger => rebuilt.push('>'),
            Token::Less => rebuilt.push('<'),
            Token::BinaryOr => rebuilt.push_str("||"),
            Token::BinaryAnd => rebuilt.push_str("&&"),
            Token::BinaryNeg => rebuilt.push('!'),
            Token::Space => rebuilt.push(spaces.next().unwrap()),
        }
    }
    assert_eq!(rebuilt, source);
}
