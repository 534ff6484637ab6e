//! The expression grammar over a token stream, as spec functions.
//!
//! ```text
//! expr    := term ( ('+' | '-') term )*
//! term    := unary ( ('*' | '/') unary )*
//! unary   := '-' unary | primary
//! primary := NUMBER | '(' expr ')'
//! ```
//!
//! Each function takes the stream whose head is the current token and gives the tree
//! read together with the stream that is left. A stream is read lazily: the error that
//! ends it is met only when the token before it is consumed.
use vstd::prelude::*;
use crate::tokenizer::{Token, ParseError, Lexed, lex, all_white_space, lemma_lex_surrounding_white_space};
use crate::tree::{Expr, BinaryOp};

verus! {

pub type Parsed = Result<(Expr, Seq<Lexed>), ParseError>;

/// The current token; an exhausted stream reads as end of input.
pub open spec fn cur(st: Seq<Lexed>) -> Token {
    if st.len() == 0 {
        Token::EOF
    } else {
        match st[0] {
            Ok((t, _)) => t,
            Err(_) => Token::EOF,
        }
    }
}

/// The text of the current token.
pub open spec fn cur_text(st: Seq<Lexed>) -> Seq<char> {
    if st.len() == 0 {
        Seq::empty()
    } else {
        match st[0] {
            Ok((_, x)) => x,
            Err(_) => Seq::empty(),
        }
    }
}

/// Consumes the current token; fails with the error that ends the stream if that is
/// what comes next.
pub open spec fn advance(st: Seq<Lexed>) -> Result<Seq<Lexed>, ParseError> {
    let r = st.drop_first();
    if r.len() > 0 && r[0] is Err {
        Err(r[0]->Err_0)
    } else {
        Ok(r)
    }
}

pub open spec fn additive(t: Token) -> bool {
    t == Token::Add || t == Token::Subtract
}

pub open spec fn multiplicative(t: Token) -> bool {
    t == Token::Multiply || t == Token::Divide
}

pub open spec fn op_of(t: Token) -> BinaryOp {
    if t == Token::Add {
        BinaryOp::Add
    } else if t == Token::Subtract {
        BinaryOp::Subtract
    } else if t == Token::Multiply {
        BinaryOp::Multiply
    } else {
        BinaryOp::Divide
    }
}

// Every successful parse consumes at least one token (`lemma_expr_consumes` and its
// siblings below), so the length comparisons always hold; they make the termination of
// the definitions evident.

/// `expr`: terms joined by `+` and `-`, grouped to the left.
pub open spec fn parse_expr(st: Seq<Lexed>) -> Parsed
    decreases st.len(), 5int,
{
    match parse_term(st) {
        Err(e) => Err(e),
        Ok((left, r)) => if r.len() < st.len() {
            expr_tail(left, r)
        } else {
            Ok((left, r))
        },
    }
}

/// Folds `( ('+' | '-') term )*` onto `left`.
pub open spec fn expr_tail(left: Expr, st: Seq<Lexed>) -> Parsed
    decreases st.len(), 4int,
{
    let t = cur(st);
    if additive(t) {
        match advance(st) {
            Err(e) => Err(e),
            Ok(st1) => match parse_term(st1) {
                Err(e) => Err(e),
                Ok((right, st2)) => {
                    let joined = Expr::Binary(op_of(t), Box::new(left), Box::new(right));
                    if st2.len() < st.len() {
                        expr_tail(joined, st2)
                    } else {
                        Ok((joined, st2))
                    }
                },
            },
        }
    } else {
        Ok((left, st))
    }
}

/// `term`: unary operands joined by `*` and `/`, grouped to the left.
pub open spec fn parse_term(st: Seq<Lexed>) -> Parsed
    decreases st.len(), 3int,
{
    match parse_unary(st) {
        Err(e) => Err(e),
        Ok((left, r)) => if r.len() < st.len() {
            term_tail(left, r)
        } else {
            Ok((left, r))
        },
    }
}

/// Folds `( ('*' | '/') unary )*` onto `left`.
pub open spec fn term_tail(left: Expr, st: Seq<Lexed>) -> Parsed
    decreases st.len(), 2int,
{
    let t = cur(st);
    if multiplicative(t) {
        match advance(st) {
            Err(e) => Err(e),
            Ok(st1) => match parse_unary(st1) {
                Err(e) => Err(e),
                Ok((right, st2)) => {
                    let joined = Expr::Binary(op_of(t), Box::new(left), Box::new(right));
                    if st2.len() < st.len() {
                        term_tail(joined, st2)
                    } else {
                        Ok((joined, st2))
                    }
                },
            },
        }
    } else {
        Ok((left, st))
    }
}

/// `unary`: a `-` where an operand is expected negates the operand after it.
pub open spec fn parse_unary(st: Seq<Lexed>) -> Parsed
    decreases st.len(), 1int,
{
    if cur(st) == Token::Subtract {
        match advance(st) {
            Err(e) => Err(e),
            Ok(st1) => match parse_unary(st1) {
                Err(e) => Err(e),
                Ok((child, st2)) => Ok((Expr::Negate(Box::new(child)), st2)),
            },
        }
    } else {
        parse_primary(st)
    }
}

/// `primary`: a number, or an expression in parentheses (which makes no node).
pub open spec fn parse_primary(st: Seq<Lexed>) -> Parsed
    decreases st.len(), 0int,
{
    let t = cur(st);
    if t == Token::ParenOpen {
        match advance(st) {
            Err(e) => Err(e),
            Ok(st1) => match parse_expr(st1) {
                Err(e) => Err(e),
                Ok((inner, st2)) => if cur(st2) == Token::ParenClose {
                    match advance(st2) {
                        Err(e) => Err(e),
                        Ok(st3) => Ok((inner, st3)),
                    }
                } else {
                    Err(ParseError::MissingClosingParen)
                },
            },
        }
    } else if t == Token::Number {
        match advance(st) {
            Err(e) => Err(e),
            Ok(st1) => Ok((Expr::Literal(cur_text(st)), st1)),
        }
    } else {
        Err(ParseError::UnexpectedToken(t))
    }
}

/// A whole stream: one expression and then the end of input.
pub open spec fn parse_stream(st: Seq<Lexed>) -> Result<Expr, ParseError> {
    if st.len() > 0 && st[0] is Err {
        Err(st[0]->Err_0)
    } else {
        match parse_expr(st) {
            Err(e) => Err(e),
            Ok((e, r)) => if cur(r) == Token::EOF {
                Ok(e)
            } else {
                Err(ParseError::TrailingToken(cur(r)))
            },
        }
    }
}

/// What an input string parses to.
pub open spec fn parse_spec(s: Seq<char>) -> Result<Expr, ParseError> {
    parse_stream(lex(s))
}

/// The stream left by a parse (`None` for an error).
pub open spec fn left_over(p: Parsed) -> Option<Seq<Lexed>> {
    match p {
        Ok((_, r)) => Some(r),
        Err(_) => None,
    }
}

/// Every successful reading of an expression consumes at least one token, so the
/// length comparisons in the definitions above always hold.
pub proof fn lemma_expr_consumes(st: Seq<Lexed>)
    ensures
        left_over(parse_expr(st)) is Some ==> left_over(parse_expr(st))->Some_0.len() < st.len(),
    decreases st.len(), 5int,
{
    lemma_term_consumes(st);
    if let Ok((l, r)) = parse_term(st) {
        lemma_expr_tail_consumes(l, r);
    }
}

proof fn lemma_expr_tail_consumes(left: Expr, st: Seq<Lexed>)
    ensures
        left_over(expr_tail(left, st)) is Some ==> left_over(expr_tail(left, st))->Some_0.len()
            <= st.len(),
    decreases st.len(), 4int,
{
    let t = cur(st);
    if additive(t) {
        if let Ok(st1) = advance(st) {
            lemma_term_consumes(st1);
            if let Ok((right, st2)) = parse_term(st1) {
                let joined = Expr::Binary(op_of(t), Box::new(left), Box::new(right));
                lemma_expr_tail_consumes(joined, st2);
            }
        }
    }
}

/// Every successful reading of a term consumes at least one token.
pub proof fn lemma_term_consumes(st: Seq<Lexed>)
    ensures
        left_over(parse_term(st)) is Some ==> left_over(parse_term(st))->Some_0.len() < st.len(),
    decreases st.len(), 3int,
{
    lemma_unary_consumes(st);
    if let Ok((l, r)) = parse_unary(st) {
        lemma_term_tail_consumes(l, r);
    }
}

proof fn lemma_term_tail_consumes(left: Expr, st: Seq<Lexed>)
    ensures
        left_over(term_tail(left, st)) is Some ==> left_over(term_tail(left, st))->Some_0.len()
            <= st.len(),
    decreases st.len(), 2int,
{
    let t = cur(st);
    if multiplicative(t) {
        if let Ok(st1) = advance(st) {
            lemma_unary_consumes(st1);
            if let Ok((right, st2)) = parse_unary(st1) {
                let joined = Expr::Binary(op_of(t), Box::new(left), Box::new(right));
                lemma_term_tail_consumes(joined, st2);
            }
        }
    }
}

/// Every successful reading of a unary operand consumes at least one token.
pub proof fn lemma_unary_consumes(st: Seq<Lexed>)
    ensures
        left_over(parse_unary(st)) is Some ==> left_over(parse_unary(st))->Some_0.len() < st.len(),
    decreases st.len(), 1int,
{
    if cur(st) == Token::Subtract {
        if let Ok(st1) = advance(st) {
            lemma_unary_consumes(st1);
        }
    } else {
        lemma_primary_consumes(st);
    }
}

/// Every successful reading of a primary consumes at least one token.
pub proof fn lemma_primary_consumes(st: Seq<Lexed>)
    ensures
        left_over(parse_primary(st)) is Some ==> left_over(parse_primary(st))->Some_0.len()
            < st.len(),
    decreases st.len(), 0int,
{
    if cur(st) == Token::ParenOpen {
        if let Ok(st1) = advance(st) {
            lemma_expr_consumes(st1);
        }
    }
}

/// Parsing is a function of the input alone: two parses of the same text give the
/// same tree, or the same error.
pub proof fn lemma_parse_deterministic(a: Seq<char>, b: Seq<char>)
    requires
        a == b,
    ensures
        parse_spec(a) == parse_spec(b),
{
}

/// Whitespace before and after an expression does not change how it parses.
pub proof fn lemma_parse_surrounding_white_space(w1: Seq<char>, s: Seq<char>, w2: Seq<char>)
    requires
        all_white_space(w1),
        all_white_space(w2),
    ensures
        parse_spec(w1 + s + w2) == parse_spec(s),
{
    lemma_lex_surrounding_white_space(w1, s, w2);
}

} // verus!
