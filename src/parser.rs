//! Recursive-descent parser: reads an expression tree from a string.
use vstd::prelude::*;
use crate::tokenizer::{Token, Tokenizer, ParseError, Lexed, lex};
use crate::tree::{Node, Leaf, BinaryNode, UnaryNode, BinaryOp};
use crate::grammar::{
    Parsed,
    cur,
    advance,
    op_of,
    parse_expr,
    expr_tail,
    parse_term,
    term_tail,
    parse_unary,
    parse_primary,
    parse_spec,
};

verus! {

/// A parser over one input, holding a tokenizer with one token of lookahead.
pub struct Parser {
    tokenizer: Tokenizer,
}

/// `r` and the parser `p` after the call agree with the grammar's `expected` reading of
/// the stream `st`; a successful reading consumes at least one token.
pub open spec fn outcome(r: Result<Node, ParseError>, p: Parser, st: Seq<Lexed>, expected: Parsed) -> bool {
    match expected {
        Ok((e, rest)) => {
            &&& r is Ok
            &&& r->Ok_0@ == e
            &&& p.stream() == rest
            &&& rest.len() < st.len()
        },
        Err(x) => r == Err::<Node, ParseError>(x),
    }
}

impl Parser {
    /// The token stream from the current token on.
    pub closed spec fn stream(&self) -> Seq<Lexed> {
        if self.tokenizer.token() == Token::EOF {
            seq![Ok((Token::EOF, Seq::empty()))]
        } else {
            seq![Ok((self.tokenizer.token(), self.tokenizer.text()))] + self.tokenizer.rest()
        }
    }

    /// A parser whose current token is the first token of `expression`.
    pub fn new(expression: &str) -> (r: Result<Parser, ParseError>)
        ensures
            lex(expression@).len() > 0,
            match lex(expression@)[0] {
                Ok(_) => r is Ok && r->Ok_0.stream() == lex(expression@),
                Err(e) => r == Err::<Parser, ParseError>(e),
            },
    {
        let mut tokenizer = Tokenizer::new(expression);
        match tokenizer.next_token() {
            Ok(()) => {},
            Err(e) => return Err(e),
        }
        let p = Parser { tokenizer };
        assert(p.stream() =~= lex(expression@));
        Ok(p)
    }

    /// Parses `expression` whole: one expression followed by the end of input.
    pub fn parse(expression: &str) -> (r: Result<Node, ParseError>)
        ensures
            match parse_spec(expression@) {
                Ok(e) => r is Ok && r->Ok_0@ == e,
                Err(x) => r == Err::<Node, ParseError>(x),
            },
    {
        let mut parser = match Parser::new(expression) {
            Ok(p) => p,
            Err(e) => return Err(e),
        };
        let tree = match parser.parse_addsub() {
            Ok(n) => n,
            Err(e) => return Err(e),
        };
        let t = parser.tokenizer.current_token();
        if t == Token::EOF {
            Ok(tree)
        } else {
            Err(ParseError::TrailingToken(t))
        }
    }

    /// Consumes the current token, which is not the end of input.
    fn advance(&mut self) -> (r: Result<(), ParseError>)
        requires
            cur(old(self).stream()) != Token::EOF,
        ensures
            match advance(old(self).stream()) {
                Ok(st) => r is Ok && final(self).stream() == st,
                Err(e) => r == Err::<(), ParseError>(e),
            },
    {
        let ghost st = self.stream();
        let r = self.tokenizer.next_token();
        proof {
            if r is Ok {
                assert(self.stream() =~= st.drop_first());
            }
        }
        r
    }

    /// Parses `expr`: terms joined by `+` and `-`, grouped to the left.
    pub fn parse_addsub(&mut self) -> (r: Result<Node, ParseError>)
        ensures
            outcome(r, *final(self), old(self).stream(), parse_expr(old(self).stream())),
        decreases old(self).stream().len(), 5int,
    {
        let ghost st0 = self.stream();
        let mut left = match self.parse_multdiv() {
            Ok(n) => n,
            Err(e) => return Err(e),
        };
        loop
            invariant
                st0 == old(self).stream(),
                parse_expr(st0) == expr_tail(left@, self.stream()),
                self.stream().len() < st0.len(),
            decreases self.stream().len(),
        {
            let t = self.tokenizer.current_token();
            if t == Token::Add || t == Token::Subtract {
                let op = if t == Token::Add {
                    BinaryOp::Add
                } else {
                    BinaryOp::Subtract
                };
                assert(op == op_of(t));
                match self.advance() {
                    Ok(()) => {},
                    Err(e) => return Err(e),
                }
                let right = match self.parse_multdiv() {
                    Ok(n) => n,
                    Err(e) => return Err(e),
                };
                left = BinaryNode::new(left, right, op);
            } else {
                return Ok(left);
            }
        }
    }

    /// Parses `term`: unary operands joined by `*` and `/`, grouped to the left.
    fn parse_multdiv(&mut self) -> (r: Result<Node, ParseError>)
        ensures
            outcome(r, *final(self), old(self).stream(), parse_term(old(self).stream())),
        decreases old(self).stream().len(), 3int,
    {
        let ghost st0 = self.stream();
        let mut left = match self.parse_unary() {
            Ok(n) => n,
            Err(e) => return Err(e),
        };
        loop
            invariant
                st0 == old(self).stream(),
                parse_term(st0) == term_tail(left@, self.stream()),
                self.stream().len() < st0.len(),
            decreases self.stream().len(),
        {
            let t = self.tokenizer.current_token();
            if t == Token::Multiply || t == Token::Divide {
                let op = if t == Token::Multiply {
                    BinaryOp::Multiply
                } else {
                    BinaryOp::Divide
                };
                assert(op == op_of(t));
                match self.advance() {
                    Ok(()) => {},
                    Err(e) => return Err(e),
                }
                let right = match self.parse_unary() {
                    Ok(n) => n,
                    Err(e) => return Err(e),
                };
                left = BinaryNode::new(left, right, op);
            } else {
                return Ok(left);
            }
        }
    }

    /// Parses `unary`: any number of leading `-`, then a primary.
    fn parse_unary(&mut self) -> (r: Result<Node, ParseError>)
        ensures
            outcome(r, *final(self), old(self).stream(), parse_unary(old(self).stream())),
        decreases old(self).stream().len(), 1int,
    {
        if self.tokenizer.current_token() == Token::Subtract {
            match self.advance() {
                Ok(()) => {},
                Err(e) => return Err(e),
            }
            let child = match self.parse_unary() {
                Ok(n) => n,
                Err(e) => return Err(e),
            };
            return Ok(UnaryNode::new(child));
        }
        self.parse_literal()
    }

    /// Parses `primary`: a number, or an expression in parentheses.
    fn parse_literal(&mut self) -> (r: Result<Node, ParseError>)
        ensures
            outcome(r, *final(self), old(self).stream(), parse_primary(old(self).stream())),
        decreases old(self).stream().len(), 0int,
    {
        let t = self.tokenizer.current_token();
        if t == Token::ParenOpen {
            match self.advance() {
                Ok(()) => {},
                Err(e) => return Err(e),
            }
            let inner = match self.parse_addsub() {
                Ok(n) => n,
                Err(e) => return Err(e),
            };
            if self.tokenizer.current_token() != Token::ParenClose {
                return Err(ParseError::MissingClosingParen);
            }
            match self.advance() {
                Ok(()) => {},
                Err(e) => return Err(e),
            }
            return Ok(inner);
        }
        if t != Token::Number {
            return Err(ParseError::UnexpectedToken(t));
        }
        let text = self.tokenizer.number();
        match self.advance() {
            Ok(()) => {},
            Err(e) => return Err(e),
        }
        Ok(Leaf::new(text))
    }
}

} // verus!
