use calculator::parser::Parser;
use calculator::tokenizer::ParseError;
use calculator::tokenizer::Token;
use calculator::tree::{BinaryOp, Node};

fn value(node: &Node) -> f64 {
    match node {
        Node::Leaf(leaf) => leaf.text.iter().collect::<String>().parse::<f64>().unwrap(),
        Node::Unary(u) => -value(&u.child),
        Node::Binary(b) => {
            let (l, r) = (value(&b.left), value(&b.right));
            match b.op {
                BinaryOp::Add => l + r,
                BinaryOp::Subtract => l - r,
                BinaryOp::Multiply => l * r,
                BinaryOp::Divide => l / r,
            }
        }
    }
}

fn evaluate(expression: &str) -> f64 {
    value(&Parser::parse(expression).unwrap())
}

fn shape(node: &Node) -> String {
    match node {
        Node::Leaf(leaf) => leaf.text.iter().collect(),
        Node::Unary(u) => format!("(neg {})", shape(&u.child)),
        Node::Binary(b) => {
            let op = match b.op {
                BinaryOp::Add => "+",
                BinaryOp::Subtract => "-",
                BinaryOp::Multiply => "*",
                BinaryOp::Divide => "/",
            };
            format!("({} {} {})", op, shape(&b.left), shape(&b.right))
        }
    }
}

fn shape_of(expression: &str) -> String {
    shape(&Parser::parse(expression).unwrap())
}

#[test]
fn works() {
    assert_eq!(evaluate("10 + 5"), 15.0);
    assert_eq!(evaluate("15 * 2"), 30.0);
    assert_eq!(evaluate("15 + 20 - 12"), 23.0);
    assert_eq!(evaluate("30.5 + 62"), 92.5);
}

#[test]
fn handles_negatives() {
    assert_eq!(evaluate("-42"), -42.0);
    assert_eq!(evaluate("---42"), -42.0);
    assert_eq!(evaluate("10 + -100"), -90.0);
}

#[test]
fn follows_order_of_operations() {
    assert_eq!(evaluate("2 + 20 * 2"), 42.0);
    assert_eq!(evaluate("(2 + 20) * 2"), 44.0);
    assert_eq!(evaluate("-(10+2)*3"), -36.0);
    assert_eq!(evaluate("-(10*2) / 5"), -4.0);
}

#[test]
fn precedence_builds_expected_trees() {
    assert_eq!(shape_of("2 + 20 * 2"), "(+ 2 (* 20 2))");
    assert_eq!(shape_of("(2 + 20) * 2"), "(* (+ 2 20) 2)");
    assert_eq!(shape_of("-(10+2)*3"), "(* (neg (+ 10 2)) 3)");
}

#[test]
fn same_precedence_groups_left() {
    assert_eq!(evaluate("15 + 20 - 12"), 23.0);
    assert_eq!(evaluate("2 * 3 * 4"), 24.0);
    assert_eq!(shape_of("15 + 20 - 12"), "(- (+ 15 20) 12)");
    assert_eq!(shape_of("2 * 3 * 4"), "(* (* 2 3) 4)");
    assert_eq!(shape_of("8 / 4 / 2"), "(/ (/ 8 4) 2)");
    assert_eq!(evaluate("8 / 4 / 2"), 1.0);
    assert_eq!(evaluate("10 - 4 - 3"), 3.0);
}

#[test]
fn repeated_negation() {
    assert_eq!(evaluate("---42"), -42.0);
    assert_eq!(shape_of("---42"), "(neg (neg (neg 42)))");
    assert_eq!(evaluate("-(10+2)*3"), -36.0);
}

#[test]
fn decimal_literals() {
    assert_eq!(evaluate("30.5 + 62"), 92.5);
    assert_eq!(shape_of("30.5 + 62"), "(+ 30.5 62)");
    assert_eq!(evaluate("5."), 5.0);
}

#[test]
fn division_by_zero_is_infinite() {
    let v = evaluate("1/0");
    assert!(v.is_infinite());
    assert!(v > 0.0);
    assert!(evaluate("0/0").is_nan());
}

#[test]
fn malformed_input_is_rejected() {
    assert_eq!(Parser::parse("(1+2").err(), Some(ParseError::MissingClosingParen));
    assert_eq!(Parser::parse("1 + ").err(), Some(ParseError::UnexpectedToken(Token::EOF)));
    assert_eq!(Parser::parse("1 $ 2").err(), Some(ParseError::UnexpectedCharacter));
    assert_eq!(Parser::parse("1.2.3").err(), Some(ParseError::MalformedNumber));
    assert_eq!(Parser::parse("").err(), Some(ParseError::UnexpectedToken(Token::EOF)));
    assert_eq!(Parser::parse("* 2").err(), Some(ParseError::UnexpectedToken(Token::Multiply)));
}

#[test]
fn trailing_tokens_are_rejected() {
    assert_eq!(Parser::parse("1 2").err(), Some(ParseError::TrailingToken(Token::Number)));
    assert_eq!(Parser::parse("1 + 2 ) 3").err(), Some(ParseError::TrailingToken(Token::ParenClose)));
}

#[test]
fn lexical_error_is_met_lazily() {
    assert_eq!(Parser::parse("1 ) $").err(), Some(ParseError::TrailingToken(Token::ParenClose)));
    assert_eq!(Parser::parse("(1 $").err(), Some(ParseError::UnexpectedCharacter));
}

#[test]
fn whitespace_is_insignificant() {
    assert_eq!(evaluate("10+5"), 15.0);
    assert_eq!(evaluate(" 10 +  5 "), 15.0);
    assert_eq!(evaluate("10 + 5\n"), 15.0);
    assert_eq!(evaluate("\t10\u{3000}+\u{a0}5"), 15.0);
    assert_eq!(shape_of("10+5"), shape_of(" 10 +  5 "));
}

#[test]
fn parse_is_repeatable() {
    assert_eq!(evaluate("2 + 20 * 2"), evaluate("2 + 20 * 2"));
    assert_eq!(shape_of("-(10*2) / 5"), shape_of("-(10*2) / 5"));
}
