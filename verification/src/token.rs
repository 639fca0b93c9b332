//! Lexical tokens of the expression language and the layered error model.
//!
//! Numeric values travel through the engine as IEEE 754 binary64 bit
//! patterns held in `u64` fields; the numeral text scanned by the lexer is
//! kept verbatim in the token, and the caller turns it into a bit pattern
//! before evaluation.
use vstd::prelude::*;

verus! {

/// A lexical token.
///
/// `Number` carries the scanned numeral text (ASCII digits with at most one
/// decimal point) rather than a machine number: the verified core never
/// manipulates floating-point values directly.
#[derive(Debug, Clone, PartialEq)]
pub enum Token {
    Number(String),
    Plus,
    Minus,
    Multiply,
    Divide,
    Caret,
    Dollar,
    LeftParen,
    RightParen,
    Equals,
}

/// Mathematical model of a token: the numeral text is a sequence of
/// characters.
pub enum SpecToken {
    Number(Seq<char>),
    Plus,
    Minus,
    Multiply,
    Divide,
    Caret,
    Dollar,
    LeftParen,
    RightParen,
    Equals,
}

impl View for Token {
    type V = SpecToken;

    open spec fn view(&self) -> SpecToken {
        match self {
            Token::Number(s) => SpecToken::Number(s@),
            Token::Plus => SpecToken::Plus,
            Token::Minus => SpecToken::Minus,
            Token::Multiply => SpecToken::Multiply,
            Token::Divide => SpecToken::Divide,
            Token::Caret => SpecToken::Caret,
            Token::Dollar => SpecToken::Dollar,
            Token::LeftParen => SpecToken::LeftParen,
            Token::RightParen => SpecToken::RightParen,
            Token::Equals => SpecToken::Equals,
        }
    }
}

impl DeepView for Token {
    type V = SpecToken;

    open spec fn deep_view(&self) -> SpecToken {
        self.view()
    }
}

impl Token {
    /// The token, if any, that a single symbol character stands for.
    pub open spec fn spec_from_char(c: char) -> Option<Token> {
        match c {
            '+' => Some(Token::Plus),
            '-' => Some(Token::Minus),
            '*' => Some(Token::Multiply),
            '/' => Some(Token::Divide),
            '^' => Some(Token::Caret),
            '$' => Some(Token::Dollar),
            '(' => Some(Token::LeftParen),
            ')' => Some(Token::RightParen),
            '=' => Some(Token::Equals),
            _ => None,
        }
    }

    /// Turns a symbol character into its token; `None` for any character
    /// that is not one of the nine symbols of the grammar.
    pub fn from_char(c: char) -> (r: Option<Token>)
        ensures
            r == Token::spec_from_char(c),
    {
        match c {
            '+' => Some(Token::Plus),
            '-' => Some(Token::Minus),
            '*' => Some(Token::Multiply),
            '/' => Some(Token::Divide),
            '^' => Some(Token::Caret),
            '$' => Some(Token::Dollar),
            '(' => Some(Token::LeftParen),
            ')' => Some(Token::RightParen),
            '=' => Some(Token::Equals),
            _ => None,
        }
    }

    /// An owned copy of the token, with the same view.
    pub fn duplicate(&self) -> (r: Token)
        ensures
            r@ == self@,
    {
        match self {
            Token::Number(s) => Token::Number(s.clone()),
            Token::Plus => Token::Plus,
            Token::Minus => Token::Minus,
            Token::Multiply => Token::Multiply,
            Token::Divide => Token::Divide,
            Token::Caret => Token::Caret,
            Token::Dollar => Token::Dollar,
            Token::LeftParen => Token::LeftParen,
            Token::RightParen => Token::RightParen,
            Token::Equals => Token::Equals,
        }
    }

    /// True exactly for the four additive and multiplicative operators.
    pub fn is_operator(&self) -> (r: bool)
        ensures
            r == (self@ is Plus || self@ is Minus || self@ is Multiply
                || self@ is Divide),
    {
        matches!(self, Token::Plus | Token::Minus | Token::Multiply | Token::Divide)
    }
}

/// An arithmetic (semantic) failure of the evaluator.
///
/// Operand payloads are IEEE 754 binary64 bit patterns.
#[derive(Debug, Clone, Copy, PartialEq, Eq, Structural)]
pub enum MathError {
    DivisionByZero,
    OverflowError,
    UnderflowError,
    ExpressionTooComplex,
    InvalidExponentiation { base: u64, exponent: u64 },
    NegativeRoot { base: u64, root: u64 },
    EvenRootOfNegative { base: u64, root: u64 },
    InvalidRoot { base: u64, root: u64 },
}

/// A lexical or syntactic failure of the lexer or parser.
#[derive(Debug, Clone, PartialEq)]
pub enum TokenError {
    InvalidNumber(String),
    UnexpectedEnd,
    InvalidExpression(String),
    InvalidOperator(char),
    UnmatchedParenthesis { found: char, position: usize },
    UnexpectedToken(Token),
    SyntaxError(String),
}

/// Mathematical model of a lexical or syntactic failure.
pub enum SpecTokenError {
    InvalidNumber(Seq<char>),
    UnexpectedEnd,
    InvalidExpression(Seq<char>),
    InvalidOperator(char),
    UnmatchedParenthesis { found: char, position: int },
    UnexpectedToken(SpecToken),
    SyntaxError(Seq<char>),
}

impl View for TokenError {
    type V = SpecTokenError;

    open spec fn view(&self) -> SpecTokenError {
        match self {
            TokenError::InvalidNumber(s) => SpecTokenError::InvalidNumber(s@),
            TokenError::UnexpectedEnd => SpecTokenError::UnexpectedEnd,
            TokenError::InvalidExpression(s) => SpecTokenError::InvalidExpression(s@),
            TokenError::InvalidOperator(c) => SpecTokenError::InvalidOperator(*c),
            TokenError::UnmatchedParenthesis { found, position } => (
                SpecTokenError::UnmatchedParenthesis {
                    found: *found,
                    position: *position as int,
                }
            ),
            TokenError::UnexpectedToken(t) => SpecTokenError::UnexpectedToken(t@),
            TokenError::SyntaxError(s) => SpecTokenError::SyntaxError(s@),
        }
    }
}

impl DeepView for TokenError {
    type V = SpecTokenError;

    open spec fn deep_view(&self) -> SpecTokenError {
        self.view()
    }
}

/// Either kind of failure, unified at the boundary between the lexer and
/// the evaluator's output.
#[derive(Debug, Clone, PartialEq)]
pub enum CalcError {
    Math(MathError),
    Token(TokenError),
}

/// Mathematical model of a unified failure. Arithmetic errors carry only
/// plain values and model themselves.
pub enum SpecCalcError {
    Math(MathError),
    Token(SpecTokenError),
}

impl View for CalcError {
    type V = SpecCalcError;

    open spec fn view(&self) -> SpecCalcError {
        match self {
            CalcError::Math(e) => SpecCalcError::Math(*e),
            CalcError::Token(e) => SpecCalcError::Token(e@),
        }
    }
}

impl DeepView for CalcError {
    type V = SpecCalcError;

    open spec fn deep_view(&self) -> SpecCalcError {
        self.view()
    }
}

impl From<MathError> for CalcError {
    fn from(e: MathError) -> (r: Self) {
        CalcError::Math(e)
    }
}

impl vstd::std_specs::convert::FromSpecImpl<MathError> for CalcError {
    open spec fn obeys_from_spec() -> bool {
        true
    }

    open spec fn from_spec(e: MathError) -> Self {
        CalcError::Math(e)
    }
}

impl From<TokenError> for CalcError {
    fn from(e: TokenError) -> (r: Self) {
        CalcError::Token(e)
    }
}

impl vstd::std_specs::convert::FromSpecImpl<TokenError> for CalcError {
    open spec fn obeys_from_spec() -> bool {
        true
    }

    open spec fn from_spec(e: TokenError) -> Self {
        CalcError::Token(e)
    }
}

} // verus!
