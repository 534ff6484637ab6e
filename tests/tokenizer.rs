use calculator::tokenizer::{ParseError, Token, Tokenizer};

fn number_value(tokenizer: &Tokenizer) -> f64 {
    tokenizer.number().iter().collect::<String>().parse::<f64>().unwrap()
}

#[test]
fn parses_tokens() {
    let mut tokenizer = Tokenizer::new("10 + 6 - 23");

    tokenizer.next_token().unwrap();
    assert_eq!(tokenizer.current_token(), Token::Number);
    assert_eq!(number_value(&tokenizer), 10.0);

    tokenizer.next_token().unwrap();
    assert_eq!(tokenizer.current_token(), Token::Add);

    tokenizer.next_token().unwrap();
    assert_eq!(tokenizer.current_token(), Token::Number);
    assert_eq!(number_value(&tokenizer), 6.0);

    tokenizer.next_token().unwrap();
    assert_eq!(tokenizer.current_token(), Token::Subtract);

    tokenizer.next_token().unwrap();
    assert_eq!(tokenizer.current_token(), Token::Number);
    assert_eq!(number_value(&tokenizer), 23.0);

    tokenizer.next_token().unwrap();
    assert_eq!(tokenizer.current_token(), Token::EOF);
}

#[test]
fn handles_decimals() {
    let mut tokenizer = Tokenizer::new("42.91");
    tokenizer.next_token().unwrap();
    assert_eq!(tokenizer.current_token(), Token::Number);
    assert_eq!(number_value(&tokenizer), 42.91);
}

#[test]
fn starts_without_a_token() {
    let tokenizer = Tokenizer::new("1");
    assert_eq!(tokenizer.current_token(), Token::Start);
}

#[test]
fn reads_parentheses_and_operators() {
    let mut tokenizer = Tokenizer::new("(*/)");
    let mut seen = Vec::new();
    for _ in 0..5 {
        tokenizer.next_token().unwrap();
        seen.push(tokenizer.current_token());
    }
    assert_eq!(
        seen,
        vec![Token::ParenOpen, Token::Multiply, Token::Divide, Token::ParenClose, Token::EOF]
    );
    assert!(tokenizer.number().is_empty());
}

#[test]
fn end_of_input_repeats() {
    let mut tokenizer = Tokenizer::new("  ");
    tokenizer.next_token().unwrap();
    assert_eq!(tokenizer.current_token(), Token::EOF);
    tokenizer.next_token().unwrap();
    assert_eq!(tokenizer.current_token(), Token::EOF);
}

#[test]
fn number_text_keeps_digits_and_point() {
    let mut tokenizer = Tokenizer::new("007.50+");
    tokenizer.next_token().unwrap();
    assert_eq!(tokenizer.number(), vec!['0', '0', '7', '.', '5', '0']);
    tokenizer.next_token().unwrap();
    assert_eq!(tokenizer.current_token(), Token::Add);
}

#[test]
fn unicode_whitespace_is_skipped() {
    let mut tokenizer = Tokenizer::new("\u{2003}\u{3000}7");
    tokenizer.next_token().unwrap();
    assert_eq!(tokenizer.current_token(), Token::Number);
    assert_eq!(tokenizer.number(), vec!['7']);
}

#[test]
fn lexical_errors() {
    let mut tokenizer = Tokenizer::new("1..2");
    assert_eq!(tokenizer.next_token(), Err(ParseError::MalformedNumber));
    let mut tokenizer = Tokenizer::new("x");
    assert_eq!(tokenizer.next_token(), Err(ParseError::UnexpectedCharacter));
    let mut tokenizer = Tokenizer::new("\u{200b}");
    assert_eq!(tokenizer.next_token(), Err(ParseError::UnexpectedCharacter));
}
