//! Lazy lexer: turns characters into tokens, one per call of `next_token`.
use vstd::prelude::*;
use vstd::string::StrSliceExecFns;

verus! {

/// A lexical token. `Number` carries its text in the tokenizer's `number` field.
#[derive(Debug, Clone, Copy, PartialEq, Eq, Structural)]
pub enum Token {
    /// No token has been read yet.
    Start,
    EOF,
    Add,
    Subtract,
    Multiply,
    Divide,
    /// Unary minus; the lexer never produces it, the grammar decides what `-` means.
    Negate,
    ParenOpen,
    ParenClose,
    Number,
}

/// Why an expression could not be read.
#[derive(Debug, Clone, Copy, PartialEq, Eq, Structural)]
pub enum ParseError {
    /// Lexical: a character that starts no token.
    UnexpectedCharacter,
    /// Lexical: a run of digits and dots with more than one dot.
    MalformedNumber,
    /// Syntactic: a `(` whose group is not followed by `)`.
    MissingClosingParen,
    /// Syntactic: a token where a number or `(` is expected.
    UnexpectedToken(Token),
    /// Syntactic: a token left over after a complete expression.
    TrailingToken(Token),
}

/// One step of the token stream: a token with its text, or the error met while scanning it.
pub type Lexed = Result<(Token, Seq<char>), ParseError>;

/// Unicode's White_Space property.
pub open spec fn is_white_space(c: char) -> bool {
    ('\u{9}' <= c && c <= '\u{d}') || c == ' ' || c == '\u{85}' || c == '\u{a0}' || c == '\u{1680}'
        || ('\u{2000}' <= c && c <= '\u{200a}') || c == '\u{2028}' || c == '\u{2029}' || c
        == '\u{202f}' || c == '\u{205f}' || c == '\u{3000}'
}

pub open spec fn is_digit(c: char) -> bool {
    '0' <= c && c <= '9'
}

pub open spec fn is_number_char(c: char) -> bool {
    is_digit(c) || c == '.'
}

pub open spec fn dot_count(t: Seq<char>) -> nat
    decreases t.len(),
{
    if t.len() == 0 {
        0
    } else {
        dot_count(t.drop_last()) + if t.last() == '.' {
            1nat
        } else {
            0nat
        }
    }
}

/// A digit run with at most one decimal point reads as a number.
pub open spec fn is_decimal(t: Seq<char>) -> bool {
    dot_count(t) <= 1
}

/// The characters that stand alone as tokens.
pub open spec fn is_symbol(c: char) -> bool {
    c == '+' || c == '-' || c == '*' || c == '/' || c == '(' || c == ')'
}

/// The token that a symbol character stands for.
pub open spec fn symbol_token(c: char) -> Token {
    if c == '+' {
        Token::Add
    } else if c == '-' {
        Token::Subtract
    } else if c == '*' {
        Token::Multiply
    } else if c == '/' {
        Token::Divide
    } else if c == '(' {
        Token::ParenOpen
    } else {
        Token::ParenClose
    }
}

/// The stream element that reports a lexical error.
pub open spec fn lex_error(e: ParseError) -> Lexed {
    Err(e)
}

/// The tokens of `s` from position `p` on. The stream ends with `EOF` or with the
/// first lexical error; nothing past an error is scanned.
pub open spec fn lex_from(s: Seq<char>, p: nat) -> Seq<Lexed>
    decreases s.len() - p, 0int,
{
    if p >= s.len() {
        seq![Ok((Token::EOF, Seq::empty()))]
    } else {
        let c = s[p as int];
        if is_white_space(c) {
            lex_from(s, p + 1)
        } else if is_digit(c) {
            lex_number(s, p + 1, seq![c])
        } else if is_symbol(c) {
            seq![Ok((symbol_token(c), Seq::empty()))] + lex_from(s, p + 1)
        } else {
            seq![lex_error(ParseError::UnexpectedCharacter)]
        }
    }
}

/// The rest of the stream while a number whose text so far is `text` is being read at `p`.
pub open spec fn lex_number(s: Seq<char>, p: nat, text: Seq<char>) -> Seq<Lexed>
    decreases s.len() - p, 1int,
{
    if p < s.len() && is_number_char(s[p as int]) {
        lex_number(s, p + 1, text.push(s[p as int]))
    } else if is_decimal(text) {
        seq![Ok((Token::Number, text))] + lex_from(s, p)
    } else {
        seq![Err::<(Token, Seq<char>), ParseError>(ParseError::MalformedNumber)]
    }
}

/// The token stream of a whole input.
pub open spec fn lex(s: Seq<char>) -> Seq<Lexed> {
    lex_from(s, 0)
}

/// Every character of `w` is whitespace.
pub open spec fn all_white_space(w: Seq<char>) -> bool {
    forall|i: int| 0 <= i < w.len() ==> is_white_space(#[trigger] w[i])
}

/// Scanning `s` behind any prefix `u` gives the tokens of `s` alone.
proof fn lemma_shift_from(u: Seq<char>, s: Seq<char>, k: nat)
    ensures
        lex_from(u + s, u.len() + k) == lex_from(s, k),
    decreases s.len() - k, 0int,
{
    if k < s.len() {
        assert((u + s)[(u.len() + k) as int] == s[k as int]);
        let c = s[k as int];
        if is_white_space(c) {
            lemma_shift_from(u, s, k + 1);
        } else if is_digit(c) {
            lemma_shift_number(u, s, k + 1, seq![c]);
        } else if is_symbol(c) {
            lemma_shift_from(u, s, k + 1);
        }
    }
}

proof fn lemma_shift_number(u: Seq<char>, s: Seq<char>, k: nat, t: Seq<char>)
    ensures
        lex_number(u + s, u.len() + k, t) == lex_number(s, k, t),
    decreases s.len() - k, 1int,
{
    if k < s.len() {
        assert((u + s)[(u.len() + k) as int] == s[k as int]);
        if is_number_char(s[k as int]) {
            lemma_shift_number(u, s, k + 1, t.push(s[k as int]));
        } else {
            lemma_shift_from(u, s, k);
        }
    } else {
        lemma_shift_from(u, s, k);
    }
}

proof fn lemma_skip_leading(w: Seq<char>, s: Seq<char>, i: nat)
    requires
        all_white_space(w),
        i <= w.len(),
    ensures
        lex_from(w + s, i) == lex_from(w + s, w.len()),
    decreases w.len() - i,
{
    if i < w.len() {
        assert((w + s)[i as int] == w[i as int]);
        lemma_skip_leading(w, s, i + 1);
    }
}

proof fn lemma_trailing_end(s: Seq<char>, w: Seq<char>, k: nat)
    requires
        all_white_space(w),
        k >= s.len(),
    ensures
        lex_from(s + w, k) == lex_from(s, k),
    decreases (s + w).len() - k,
{
    if k < (s + w).len() {
        assert((s + w)[k as int] == w[k - s.len()]);
        lemma_trailing_end(s, w, k + 1);
    }
}

proof fn lemma_trailing_from(s: Seq<char>, w: Seq<char>, k: nat)
    requires
        all_white_space(w),
    ensures
        lex_from(s + w, k) == lex_from(s, k),
    decreases s.len() - k, 0int,
{
    if k < s.len() {
        assert((s + w)[k as int] == s[k as int]);
        let c = s[k as int];
        if is_white_space(c) {
            lemma_trailing_from(s, w, k + 1);
        } else if is_digit(c) {
            lemma_trailing_number(s, w, k + 1, seq![c]);
        } else if is_symbol(c) {
            lemma_trailing_from(s, w, k + 1);
        }
    } else {
        lemma_trailing_end(s, w, k);
    }
}

proof fn lemma_trailing_number(s: Seq<char>, w: Seq<char>, k: nat, t: Seq<char>)
    requires
        all_white_space(w),
    ensures
        lex_number(s + w, k, t) == lex_number(s, k, t),
    decreases s.len() - k, 1int,
{
    if k < s.len() {
        assert((s + w)[k as int] == s[k as int]);
        if is_number_char(s[k as int]) {
            lemma_trailing_number(s, w, k + 1, t.push(s[k as int]));
        } else {
            lemma_trailing_from(s, w, k);
        }
    } else {
        if k < (s + w).len() {
            assert((s + w)[k as int] == w[k - s.len()]);
        }
        lemma_trailing_from(s, w, k);
    }
}

/// Whitespace before and after an input does not change its tokens.
pub proof fn lemma_lex_surrounding_white_space(w1: Seq<char>, s: Seq<char>, w2: Seq<char>)
    requires
        all_white_space(w1),
        all_white_space(w2),
    ensures
        lex(w1 + s + w2) == lex(s),
{
    lemma_trailing_from(w1 + s, w2, 0);
    lemma_skip_leading(w1, s, 0);
    lemma_shift_from(w1, s, 0);
}

/// Relies on `char::is_whitespace`: true exactly for the characters with Unicode's
/// White_Space property.
#[verifier::external_body]
fn is_space(c: char) -> (r: bool)
    ensures
        r == is_white_space(c),
{
    c.is_whitespace()
}

fn symbol(c: char) -> (r: Option<Token>)
    ensures
        r is Some <==> is_symbol(c),
        r is Some ==> r->Some_0 == symbol_token(c),
{
    if c == '+' {
        Some(Token::Add)
    } else if c == '-' {
        Some(Token::Subtract)
    } else if c == '*' {
        Some(Token::Multiply)
    } else if c == '/' {
        Some(Token::Divide)
    } else if c == '(' {
        Some(Token::ParenOpen)
    } else if c == ')' {
        Some(Token::ParenClose)
    } else {
        None
    }
}

/// Scans a character sequence, keeping one current token.
pub struct Tokenizer {
    chars: Vec<char>,
    pos: usize,
    current_token: Token,
    number: Vec<char>,
}

impl Tokenizer {
    /// The characters being scanned.
    pub closed spec fn source(&self) -> Seq<char> {
        self.chars@
    }

    /// The current token.
    pub closed spec fn token(&self) -> Token {
        self.current_token
    }

    /// The text of the current token while it is `Number`; empty otherwise.
    pub closed spec fn text(&self) -> Seq<char> {
        self.number@
    }

    /// The tokens that later calls of `next_token` produce, in order.
    pub closed spec fn rest(&self) -> Seq<Lexed> {
        lex_from(self.chars@, self.pos as nat)
    }

    /// A tokenizer at the start of `source`, with no current token yet.
    pub fn new(source: &str) -> (t: Tokenizer)
        ensures
            t.source() == source@,
            t.rest() == lex(source@),
            t.token() == Token::Start,
    {
        let n = source.unicode_len();
        let mut chars: Vec<char> = Vec::new();
        let mut i: usize = 0;
        while i < n
            invariant
                i <= n,
                n == source@.len(),
                chars@ == source@.subrange(0, i as int),
            decreases n - i,
        {
            chars.push(source.get_char(i));
            i += 1;
        }
        assert(chars@ =~= source@);
        Tokenizer { chars, pos: 0, current_token: Token::Start, number: Vec::new() }
    }

    /// The current token.
    pub fn current_token(&self) -> (r: Token)
        ensures
            r == self.token(),
    {
        self.current_token
    }

    /// A copy of the current number's text (empty unless the token is `Number`).
    pub fn number(&self) -> (r: Vec<char>)
        ensures
            r@ == self.text(),
    {
        let r = self.number.clone();
        assert(r@ =~= self.number@);
        r
    }

    /// Reads the next token of the stream into `current_token` (and `number`).
    pub fn next_token(&mut self) -> (r: Result<(), ParseError>)
        ensures
            final(self).source() == old(self).source(),
            old(self).rest().len() > 0,
            match old(self).rest()[0] {
                Ok((tok, text)) => {
                    &&& r is Ok
                    &&& final(self).token() == tok
                    &&& final(self).text() == text
                    &&& tok != Token::EOF ==> final(self).rest() == old(self).rest().drop_first()
                    &&& tok == Token::EOF ==> old(self).rest() == seq![
                        Ok::<(Token, Seq<char>), ParseError>((Token::EOF, Seq::<char>::empty())),
                    ] && final(self).rest() == old(self).rest()
                },
                Err(e) => r == Err::<(), ParseError>(e),
            },
    {
        let ghost s = self.chars@;
        let ghost start = old(self).rest();
        while self.pos < self.chars.len() && is_space(self.chars[self.pos])
            invariant
                self.chars@ == s,
                lex_from(s, self.pos as nat) == start,
            decreases s.len() - self.pos,
        {
            self.pos = self.pos + 1;
        }
        if self.pos >= self.chars.len() {
            self.current_token = Token::EOF;
            self.number = Vec::new();
            assert(self.number@ =~= Seq::<char>::empty());
            return Ok(());
        }
        let c = self.chars[self.pos];
        if '0' <= c && c <= '9' {
            let mut digits: Vec<char> = Vec::new();
            let mut dots: usize = 0;
            digits.push(c);
            self.pos = self.pos + 1;
            assert(digits@ =~= seq![c]);
            assert(dot_count(digits@) == 0) by {
                assert(digits@.drop_last() =~= Seq::<char>::empty());
                assert(dot_count(Seq::<char>::empty()) == 0);
            }
            while self.pos < self.chars.len() && ('0' <= self.chars[self.pos] && self.chars[self.pos]
                <= '9' || self.chars[self.pos] == '.')
                invariant
                    self.chars@ == s,
                    dots <= digits@.len() <= self.pos,
                    dots == dot_count(digits@),
                    lex_number(s, self.pos as nat, digits@) == start,
                decreases s.len() - self.pos,
            {
                let d = self.chars[self.pos];
                let ghost before = digits@;
                digits.push(d);
                assert(digits@.drop_last() =~= before);
                if d == '.' {
                    dots = dots + 1;
                }
                self.pos = self.pos + 1;
            }
            if dots > 1 {
                return Err(ParseError::MalformedNumber);
            }
            self.current_token = Token::Number;
            self.number = digits;
            assert(start.drop_first() =~= lex_from(s, self.pos as nat));
            return Ok(());
        }
        match symbol(c) {
            Some(t) => {
                self.current_token = t;
                self.number = Vec::new();
                self.pos = self.pos + 1;
                assert(self.number@ =~= Seq::<char>::empty());
                assert(start.drop_first() =~= lex_from(s, self.pos as nat));
                Ok(())
            },
            None => {
                Err(ParseError::UnexpectedCharacter)
            },
        }
    }
}

} // verus!
