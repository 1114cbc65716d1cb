use vstd::prelude::*;
use crate::numeric::Numeric;

verus! {

/// A lexical unit: a term or an operator.
#[derive(Clone, Copy, PartialEq, Eq, Structural, Debug)]
pub enum Token {
    Term(Term),
    Operator(Operator),
}

/// A number, or a variable named by one letter.
#[derive(Clone, Copy, PartialEq, Eq, Structural, Debug)]
pub enum Term {
    Number(Numeric),
    Variable(char),
}

/// The operators that a line can hold.
#[derive(Clone, Copy, PartialEq, Eq, Structural, Debug)]
pub enum OperatorType {
    LeftParen,
    RightParen,
    Add,
    Mul,
    Assign,
}

/// An operator and how tightly it binds.
#[derive(Clone, Copy, PartialEq, Eq, Structural, Debug)]
pub struct Operator {
    pub precedence: i64,
    pub operator_type: OperatorType,
}

impl OperatorType {
    /// The precedence that each operator is given: 1 for the two
    /// parentheses, 2 for `+`, 4 for `*` and for `=`.
    pub open spec fn rank(self) -> i64 {
        match self {
            OperatorType::LeftParen => 1,
            OperatorType::RightParen => 1,
            OperatorType::Add => 2,
            OperatorType::Mul => 4,
            OperatorType::Assign => 4,
        }
    }

    /// The operator token of this type, with its precedence.
    pub open spec fn token(self) -> Token {
        Token::Operator(Operator { precedence: self.rank(), operator_type: self })
    }
}

impl Token {
    /// The token for the integer `value`.
    pub open spec fn integer(value: i64) -> Token {
        Token::Term(Term::Number(Numeric::Integer(value)))
    }

    /// Whether the token is a number.
    pub open spec fn number(self) -> bool {
        self matches Token::Term(Term::Number(_))
    }

    /// Whether the token is an operator of the given type.
    pub open spec fn operator(self, operator_type: OperatorType) -> bool {
        self matches Token::Operator(operator) && operator.operator_type == operator_type
    }

    pub fn new_number(number: Numeric) -> (token: Token)
        ensures
            token == Token::Term(Term::Number(number)),
    {
        Token::Term(Term::Number(number))
    }

    pub fn new_variable(name: char) -> (token: Token)
        ensures
            token == Token::Term(Term::Variable(name)),
    {
        Token::Term(Term::Variable(name))
    }

    pub fn is_number(&self) -> (b: bool)
        ensures
            b == self.number(),
    {
        match self {
            Token::Term(Term::Number(_)) => true,
            _ => false,
        }
    }

    pub fn is_variable(&self) -> (b: bool)
        ensures
            b == (self matches Token::Term(Term::Variable(_))),
    {
        match self {
            Token::Term(Term::Variable(_)) => true,
            _ => false,
        }
    }

    pub fn is_assignment(&self) -> (b: bool)
        ensures
            b == self.operator(OperatorType::Assign),
    {
        self.is_operator(OperatorType::Assign)
    }

    pub fn is_operator(&self, operator_type: OperatorType) -> (b: bool)
        ensures
            b == self.operator(operator_type),
    {
        match self {
            Token::Operator(operator) => operator.operator_type == operator_type,
            _ => false,
        }
    }
}

impl Operator {
    pub fn add() -> (token: Token)
        ensures
            token == OperatorType::Add.token(),
    {
        Token::Operator(Operator { precedence: 2, operator_type: OperatorType::Add })
    }

    pub fn mul() -> (token: Token)
        ensures
            token == OperatorType::Mul.token(),
    {
        Token::Operator(Operator { precedence: 4, operator_type: OperatorType::Mul })
    }

    pub fn assign() -> (token: Token)
        ensures
            token == OperatorType::Assign.token(),
    {
        Token::Operator(Operator { precedence: 4, operator_type: OperatorType::Assign })
    }

    pub fn left_parenthesis() -> (token: Token)
        ensures
            token == OperatorType::LeftParen.token(),
    {
        Token::Operator(Operator { precedence: 1, operator_type: OperatorType::LeftParen })
    }

    pub fn right_parenthesis() -> (token: Token)
        ensures
            token == OperatorType::RightParen.token(),
    {
        Token::Operator(Operator { precedence: 1, operator_type: OperatorType::RightParen })
    }
}

} // verus!
