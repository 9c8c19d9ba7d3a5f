//! What goes wrong while a program is checked, and how it is reported.

use vstd::prelude::*;
use vstd::string::*;
use crate::token::Position;
use crate::types::{NodeModel, Type, TypeModel, TypeNode};

verus! {

/// The ways in which checking a program can fail.
#[derive(Debug)]
pub enum Fault {
    /// A name was used that no enclosing scope declares.
    Undeclared(String),
    /// A declaration names one type and its initializer has another: the
    /// shape that was expected, then the type that was found.
    Mismatched(TypeNode, Type),
    /// A tuple on the left of a declaration holds something that is not a
    /// name.
    NonIdentifier,
    /// The left side of a variable declaration is neither a name nor a tuple.
    UnexpectedVariable,
    /// The left side of a constant declaration is neither a name nor a tuple.
    UnexpectedConstant,
    /// A scope has no slot with this index.
    InvalidTypeIndex(usize),
    /// The chain of scopes ended this many links before the scope asked for.
    InvalidScope(usize),
    /// A scope has no alias of this name.
    InvalidAlias(String),
    /// A string literal has no closing quote.
    UnterminatedString,
    /// A character literal is empty or has no closing quote.
    UnterminatedChar,
    /// A backslash is followed by a character that names no escape.
    InvalidEscape(char),
    /// No token begins with this character.
    UnexpectedCharacter(char),
    /// A token stands where the grammar has no place for it.
    UnexpectedToken(String),
    /// The input ends where the grammar asks for more.
    UnexpectedEnd,
    /// A whole number that the machine has no room for.
    NumberTooLarge(String),
    /// A tuple stands where a single value is needed, or a single value
    /// where a tuple is needed.
    MisplacedTuple,
}

/// Mathematical value of a [`Fault`].
pub enum FaultModel {
    Undeclared(Seq<char>),
    Mismatched(NodeModel, TypeModel),
    NonIdentifier,
    UnexpectedVariable,
    UnexpectedConstant,
    InvalidTypeIndex(usize),
    InvalidScope(usize),
    InvalidAlias(Seq<char>),
    UnterminatedString,
    UnterminatedChar,
    InvalidEscape(char),
    UnexpectedCharacter(char),
    UnexpectedToken(Seq<char>),
    UnexpectedEnd,
    NumberTooLarge(Seq<char>),
    MisplacedTuple,
}

impl View for Fault {
    type V = FaultModel;

    open spec fn view(&self) -> FaultModel {
        match self {
            Fault::Undeclared(name) => FaultModel::Undeclared(name@),
            Fault::Mismatched(expected, found) => FaultModel::Mismatched(expected@, found@),
            Fault::NonIdentifier => FaultModel::NonIdentifier,
            Fault::UnexpectedVariable => FaultModel::UnexpectedVariable,
            Fault::UnexpectedConstant => FaultModel::UnexpectedConstant,
            Fault::InvalidTypeIndex(index) => FaultModel::InvalidTypeIndex(*index),
            Fault::InvalidScope(distance) => FaultModel::InvalidScope(*distance),
            Fault::InvalidAlias(name) => FaultModel::InvalidAlias(name@),
            Fault::UnterminatedString => FaultModel::UnterminatedString,
            Fault::UnterminatedChar => FaultModel::UnterminatedChar,
            Fault::InvalidEscape(c) => FaultModel::InvalidEscape(*c),
            Fault::UnexpectedCharacter(c) => FaultModel::UnexpectedCharacter(*c),
            Fault::UnexpectedToken(lexeme) => FaultModel::UnexpectedToken(lexeme@),
            Fault::UnexpectedEnd => FaultModel::UnexpectedEnd,
            Fault::NumberTooLarge(text) => FaultModel::NumberTooLarge(text@),
            Fault::MisplacedTuple => FaultModel::MisplacedTuple,
        }
    }
}

/// `String::push` appends one character to the end of the string.
pub assume_specification[ String::push ](text: &mut String, c: char)
    ensures
        final(text)@ == old(text)@.push(c),
;

/// One decimal digit written out.
pub open spec fn digit_text(d: nat) -> Seq<char> {
    if d == 0 {
        "0"@
    } else if d == 1 {
        "1"@
    } else if d == 2 {
        "2"@
    } else if d == 3 {
        "3"@
    } else if d == 4 {
        "4"@
    } else if d == 5 {
        "5"@
    } else if d == 6 {
        "6"@
    } else if d == 7 {
        "7"@
    } else if d == 8 {
        "8"@
    } else {
        "9"@
    }
}

/// A natural number written out in base ten, without leading zeros.
pub open spec fn decimal_text(n: nat) -> Seq<char>
    decreases n,
{
    if n < 10 {
        digit_text(n)
    } else {
        decimal_text(n / 10) + digit_text(n % 10)
    }
}

impl FaultModel {
    /// The sentence that reports the fault.
    pub open spec fn message(self) -> Seq<char> {
        match self {
            FaultModel::Undeclared(name) => "no such value `"@ + name + "` in this scope"@,
            FaultModel::Mismatched(expected, found) => "mismatched types, expected type `"@
                + expected.text() + "` got `"@ + found.text() + "`"@,
            FaultModel::NonIdentifier => "can't declare non-identifier"@,
            FaultModel::UnexpectedVariable => "unexpected variable declaration"@,
            FaultModel::UnexpectedConstant => "unexpected constant declaration"@,
            FaultModel::InvalidTypeIndex(index) => "invalid type index: "@ + decimal_text(
                index as nat,
            ),
            FaultModel::InvalidScope(distance) => "invalid type env index: "@ + decimal_text(
                distance as nat,
            ),
            FaultModel::InvalidAlias(name) => "invalid type: "@ + name,
            FaultModel::UnterminatedString => "unterminated string literal"@,
            FaultModel::UnterminatedChar => "unterminated character literal"@,
            FaultModel::InvalidEscape(c) => "invalid escape `\\"@.push(c) + "`"@,
            FaultModel::UnexpectedCharacter(c) => "unexpected character `"@.push(c) + "`"@,
            FaultModel::UnexpectedToken(lexeme) => "unexpected token `"@ + lexeme + "`"@,
            FaultModel::UnexpectedEnd => "unexpected end of input"@,
            FaultModel::NumberTooLarge(text) => "number too large `"@ + text + "`"@,
            FaultModel::MisplacedTuple => "a tuple can only stand for the values of a tuple of names"@,
        }
    }
}

fn digit(d: usize) -> (text: &'static str)
    requires
        d < 10,
    ensures
        text@ == digit_text(d as nat),
{
    if d == 0 {
        "0"
    } else if d == 1 {
        "1"
    } else if d == 2 {
        "2"
    } else if d == 3 {
        "3"
    } else if d == 4 {
        "4"
    } else if d == 5 {
        "5"
    } else if d == 6 {
        "6"
    } else if d == 7 {
        "7"
    } else if d == 8 {
        "8"
    } else {
        "9"
    }
}

/// Writes a number out in base ten.
pub fn decimal(n: usize) -> (text: String)
    ensures
        text@ == decimal_text(n as nat),
    decreases n,
{
    if n < 10 {
        String::from_str(digit(n))
    } else {
        let mut text = decimal(n / 10);
        text.append(digit(n % 10));
        text
    }
}

impl Fault {
    /// The sentence that reports the fault.
    pub fn message(&self) -> (text: String)
        ensures
            text@ == self@.message(),
    {
        match self {
            Fault::Undeclared(name) => {
                let mut text = String::from_str("no such value `");
                text.append(name.as_str());
                text.append("` in this scope");
                text
            },
            Fault::Mismatched(expected, found) => {
                let mut text = String::from_str("mismatched types, expected type `");
                let expected_text = expected.to_string();
                let found_text = found.to_string();
                text.append(expected_text.as_str());
                text.append("` got `");
                text.append(found_text.as_str());
                text.append("`");
                text
            },
            Fault::NonIdentifier => String::from_str("can't declare non-identifier"),
            Fault::UnexpectedVariable => String::from_str("unexpected variable declaration"),
            Fault::UnexpectedConstant => String::from_str("unexpected constant declaration"),
            Fault::InvalidTypeIndex(index) => {
                let mut text = String::from_str("invalid type index: ");
                let number = decimal(*index);
                text.append(number.as_str());
                text
            },
            Fault::InvalidScope(distance) => {
                let mut text = String::from_str("invalid type env index: ");
                let number = decimal(*distance);
                text.append(number.as_str());
                text
            },
            Fault::InvalidAlias(name) => {
                let mut text = String::from_str("invalid type: ");
                text.append(name.as_str());
                text
            },
            Fault::UnterminatedString => String::from_str("unterminated string literal"),
            Fault::UnterminatedChar => String::from_str("unterminated character literal"),
            Fault::InvalidEscape(c) => {
                let mut text = String::from_str("invalid escape `\\");
                text.push(*c);
                text.append("`");
                text
            },
            Fault::UnexpectedCharacter(c) => {
                let mut text = String::from_str("unexpected character `");
                text.push(*c);
                text.append("`");
                text
            },
            Fault::UnexpectedToken(lexeme) => {
                let mut text = String::from_str("unexpected token `");
                text.append(lexeme.as_str());
                text.append("`");
                text
            },
            Fault::UnexpectedEnd => String::from_str("unexpected end of input"),
            Fault::NumberTooLarge(number) => {
                let mut text = String::from_str("number too large `");
                text.append(number.as_str());
                text.append("`");
                text
            },
            Fault::MisplacedTuple => String::from_str(
                "a tuple can only stand for the values of a tuple of names",
            ),
        }
    }
}

/// A fault together with the file and, where one is known, the position at
/// which it was found.
#[derive(Debug)]
pub struct Diagnostic {
    pub fault: Fault,
    pub file: String,
    pub position: Option<Position>,
}

/// Mathematical value of a [`Diagnostic`].
pub struct DiagnosticModel {
    pub fault: FaultModel,
    pub file: Seq<char>,
    pub position: Option<Position>,
}

impl View for Diagnostic {
    type V = DiagnosticModel;

    open spec fn view(&self) -> DiagnosticModel {
        DiagnosticModel { fault: self.fault@, file: self.file@, position: self.position }
    }
}

impl Diagnostic {
    /// A diagnostic from its parts.
    pub fn new(fault: Fault, file: &str, position: Option<Position>) -> (diagnostic: Diagnostic)
        ensures
            diagnostic@ == (DiagnosticModel { fault: fault@, file: file@, position }),
    {
        Diagnostic { fault, file: String::from_str(file), position }
    }

    /// The sentence that reports the fault.
    pub fn message(&self) -> (text: String)
        ensures
            text@ == self@.fault.message(),
    {
        self.fault.message()
    }
}

} // verus!
