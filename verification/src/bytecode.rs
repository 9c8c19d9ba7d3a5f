//! The instructions that a program is lowered to, and the values that
//! they work on.

use vstd::prelude::*;
use crate::ast::Operator;

verus! {

/// A value of the machine.
#[derive(Debug, Clone, Copy, PartialEq, Eq, Structural)]
pub enum Value {
    /// What a slot holds before anything is stored in it.
    Nil,
    Int(i128),
    Bool(bool),
    Char(char),
    /// A string, by its index in the table of texts.
    Str(usize),
    /// A fractional number, by the index of its literal in the table of
    /// texts. The machine carries it and does not compute with it.
    Float(usize),
    /// A function: the index of its first instruction, the number of its
    /// parameters, and the frame that it was made in.
    Function { entry: usize, parameters: usize, link: usize },
}

/// An instruction of the machine.
#[derive(Debug, Clone, Copy, PartialEq, Eq, Structural)]
pub enum Instruction {
    /// Puts a value on the compute stack.
    Push(Value),
    /// Takes the top value off the compute stack.
    Pop,
    /// Puts the value of a slot on the compute stack. The slot belongs to
    /// the frame that is `distance` links out from the current one.
    Load { distance: usize, slot: usize },
    /// Takes the top value off the compute stack and stores it in a slot.
    Store { distance: usize, slot: usize },
    /// Replaces the top value by the result of an operator.
    Unary(Operator),
    /// Replaces the two top values by the result of an operator.
    Binary(Operator),
    /// Gives the current frame so many more slots.
    Reserve(usize),
    /// Puts on the compute stack the function whose body is the next
    /// `length` instructions, and goes on behind them.
    Function { parameters: usize, length: usize },
    /// Calls the function that lies under so many arguments.
    Call(usize),
    /// Leaves the current frame and goes back to the caller.
    Return,
}

/// Why the machine stopped before the end of the program.
#[derive(Debug, Clone, Copy, PartialEq, Eq, Structural)]
pub enum Trap {
    /// An instruction needs more values than the compute stack holds.
    StackUnderflow,
    /// A slot or a frame that does not exist.
    InvalidAddress,
    /// An operand of the wrong kind.
    TypeMismatch,
    /// A result that does not fit a number of the machine.
    Overflow,
    DivisionByZero,
    /// A call of something that is no function.
    NotAFunction,
    /// A call with the wrong number of arguments.
    WrongArity,
    /// A function body or a return address beyond the program.
    InvalidJump,
    /// A return outside any call.
    InvalidReturn,
    /// The budget of steps is used up.
    OutOfSteps,
}

/// A frame of the variable stack: where its slots begin, the frame that
/// the names around it live in, and where to go on after it.
#[derive(Debug, Clone, Copy, PartialEq, Eq, Structural)]
pub struct Frame {
    pub base: usize,
    pub link: usize,
    pub back: usize,
}

/// What an operator makes of one operand.
pub open spec fn apply_unary(operator: Operator, operand: Value) -> Result<Value, Trap> {
    match (operator, operand) {
        (Operator::Minus, Value::Int(a)) => match 0i128.checked_sub(a) {
            Some(result) => Ok(Value::Int(result)),
            None => Err(Trap::Overflow),
        },
        (Operator::Not, Value::Bool(a)) => Ok(Value::Bool(!a)),
        _ => Err(Trap::TypeMismatch),
    }
}

/// What an operator makes of two whole numbers.
pub open spec fn apply_numbers(operator: Operator, a: i128, b: i128) -> Result<Value, Trap> {
    match operator {
        Operator::Plus => match a.checked_add(b) {
            Some(result) => Ok(Value::Int(result)),
            None => Err(Trap::Overflow),
        },
        Operator::Minus => match a.checked_sub(b) {
            Some(result) => Ok(Value::Int(result)),
            None => Err(Trap::Overflow),
        },
        Operator::Times => match a.checked_mul(b) {
            Some(result) => Ok(Value::Int(result)),
            None => Err(Trap::Overflow),
        },
        Operator::Divide => if b == 0 {
            Err(Trap::DivisionByZero)
        } else {
            match a.checked_div(b) {
                Some(result) => Ok(Value::Int(result)),
                None => Err(Trap::Overflow),
            }
        },
        Operator::Remainder => if b == 0 {
            Err(Trap::DivisionByZero)
        } else {
            match a.checked_rem(b) {
                Some(result) => Ok(Value::Int(result)),
                None => Err(Trap::Overflow),
            }
        },
        Operator::Equal => Ok(Value::Bool(a == b)),
        Operator::NotEqual => Ok(Value::Bool(a != b)),
        Operator::Less => Ok(Value::Bool(a < b)),
        Operator::LessEqual => Ok(Value::Bool(a <= b)),
        Operator::Greater => Ok(Value::Bool(a > b)),
        Operator::GreaterEqual => Ok(Value::Bool(a >= b)),
        _ => Err(Trap::TypeMismatch),
    }
}

/// What an operator makes of two operands. Numbers are computed with and
/// compared; truth values are combined; values of any one kind are
/// compared for equality.
pub open spec fn apply_binary(operator: Operator, left: Value, right: Value) -> Result<Value, Trap> {
    match (left, right) {
        (Value::Int(a), Value::Int(b)) => apply_numbers(operator, a, b),
        (Value::Bool(a), Value::Bool(b)) => match operator {
            Operator::And => Ok(Value::Bool(a && b)),
            Operator::Or => Ok(Value::Bool(a || b)),
            Operator::Equal => Ok(Value::Bool(a == b)),
            Operator::NotEqual => Ok(Value::Bool(a != b)),
            _ => Err(Trap::TypeMismatch),
        },
        _ => match operator {
            Operator::Equal => Ok(Value::Bool(left == right)),
            Operator::NotEqual => Ok(Value::Bool(left != right)),
            _ => Err(Trap::TypeMismatch),
        },
    }
}

/// Applies an operator to one operand.
pub fn unary(operator: Operator, operand: Value) -> (result: Result<Value, Trap>)
    ensures
        result == apply_unary(operator, operand),
{
    match (operator, operand) {
        (Operator::Minus, Value::Int(a)) => match 0i128.checked_sub(a) {
            Some(result) => Ok(Value::Int(result)),
            None => Err(Trap::Overflow),
        },
        (Operator::Not, Value::Bool(a)) => Ok(Value::Bool(!a)),
        _ => Err(Trap::TypeMismatch),
    }
}

/// Applies an operator to two whole numbers.
fn numbers(operator: Operator, a: i128, b: i128) -> (result: Result<Value, Trap>)
    ensures
        result == apply_numbers(operator, a, b),
{
    match operator {
        Operator::Plus => match a.checked_add(b) {
            Some(result) => Ok(Value::Int(result)),
            None => Err(Trap::Overflow),
        },
        Operator::Minus => match a.checked_sub(b) {
            Some(result) => Ok(Value::Int(result)),
            None => Err(Trap::Overflow),
        },
        Operator::Times => match a.checked_mul(b) {
            Some(result) => Ok(Value::Int(result)),
            None => Err(Trap::Overflow),
        },
        Operator::Divide => if b == 0 {
            Err(Trap::DivisionByZero)
        } else {
            match a.checked_div(b) {
                Some(result) => Ok(Value::Int(result)),
                None => Err(Trap::Overflow),
            }
        },
        Operator::Remainder => if b == 0 {
            Err(Trap::DivisionByZero)
        } else {
            match a.checked_rem(b) {
                Some(result) => Ok(Value::Int(result)),
                None => Err(Trap::Overflow),
            }
        },
        Operator::Equal => Ok(Value::Bool(a == b)),
        Operator::NotEqual => Ok(Value::Bool(a != b)),
        Operator::Less => Ok(Value::Bool(a < b)),
        Operator::LessEqual => Ok(Value::Bool(a <= b)),
        Operator::Greater => Ok(Value::Bool(a > b)),
        Operator::GreaterEqual => Ok(Value::Bool(a >= b)),
        _ => Err(Trap::TypeMismatch),
    }
}

/// Applies an operator to two operands.
pub fn binary(operator: Operator, left: Value, right: Value) -> (result: Result<Value, Trap>)
    ensures
        result == apply_binary(operator, left, right),
{
    match (left, right) {
        (Value::Int(a), Value::Int(b)) => numbers(operator, a, b),
        (Value::Bool(a), Value::Bool(b)) => match operator {
            Operator::And => Ok(Value::Bool(a && b)),
            Operator::Or => Ok(Value::Bool(a || b)),
            Operator::Equal => Ok(Value::Bool(a == b)),
            Operator::NotEqual => Ok(Value::Bool(a != b)),
            _ => Err(Trap::TypeMismatch),
        },
        _ => match operator {
            Operator::Equal => Ok(Value::Bool(left == right)),
            Operator::NotEqual => Ok(Value::Bool(left != right)),
            _ => Err(Trap::TypeMismatch),
        },
    }
}

} // verus!
