//! Tokens, operators and meta-commands.

use vstd::prelude::*;

verus! {

/// One of the four binary operators.
#[derive(Clone, Copy, Debug, PartialEq, Eq, Structural)]
pub enum Operator {
    Add,
    Sub,
    Mul,
    Div,
}

/// One item of an expression: a number or an operator.
#[derive(Debug, PartialEq)]
pub enum Token<T> {
    Number(T),
    Operator(Operator),
}

/// A meta-command of the session.
#[derive(Clone, Copy, Debug, PartialEq, Eq, Structural)]
pub enum Command {
    Quit,
    Trace,
}

/// A parsed input line.
#[derive(Debug, PartialEq)]
pub enum Input<T> {
    Expression(Vec<Token<T>>),
    Command(Command),
}

impl<T: Copy> Clone for Token<T> {
    fn clone(&self) -> (copy: Self)
        ensures
            copy == *self,
    {
        *self
    }
}

impl<T: Copy> Copy for Token<T> {

}

impl Operator {
    /// The character that stands for the operator.
    pub open spec fn sign(self) -> char {
        match self {
            Operator::Add => '+',
            Operator::Sub => '-',
            Operator::Mul => '*',
            Operator::Div => '/',
        }
    }

    /// The operator's symbol as text: its sign alone.
    pub open spec fn symbol_text(self) -> Seq<char> {
        seq![self.sign()]
    }

    /// The operator's symbol.
    pub fn symbol(self) -> (text: &'static str)
        ensures
            text@ == self.symbol_text(),
    {
        proof {
            reveal_strlit("+");
            reveal_strlit("-");
            reveal_strlit("*");
            reveal_strlit("/");
        }
        let text = match self {
            Operator::Add => "+",
            Operator::Sub => "-",
            Operator::Mul => "*",
            Operator::Div => "/",
        };
        assert(text@ =~= self.symbol_text());
        text
    }
}

/// The operator that a field spells, if it spells one.
pub open spec fn operator_of(field: Seq<char>) -> Option<Operator> {
    if field.len() != 1 {
        None
    } else if field[0] == '+' {
        Some(Operator::Add)
    } else if field[0] == '-' {
        Some(Operator::Sub)
    } else if field[0] == '*' {
        Some(Operator::Mul)
    } else if field[0] == '/' {
        Some(Operator::Div)
    } else {
        None
    }
}

/// Reads a field as an operator symbol.
pub fn read_operator(field: &str) -> (op: Option<Operator>)
    ensures
        op == operator_of(field@),
{
    if field.unicode_len() != 1 {
        return None;
    }
    let c = field.get_char(0);
    if c == '+' {
        Some(Operator::Add)
    } else if c == '-' {
        Some(Operator::Sub)
    } else if c == '*' {
        Some(Operator::Mul)
    } else if c == '/' {
        Some(Operator::Div)
    } else {
        None
    }
}

/// Every operator's symbol spells that operator.
pub proof fn lemma_symbol_spells_operator(op: Operator)
    ensures
        operator_of(op.symbol_text()) == Some(op),
{
}

} // verus!
