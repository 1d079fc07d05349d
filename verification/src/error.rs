//! The errors of the back end.

use vstd::prelude::*;

verus! {

/// Why the back end refused a line.
#[derive(Debug, Clone, Copy, PartialEq, Eq, Structural)]
pub enum AsmError {
    /// The line holds no opcode, or a `call` or `func` names no function.
    MissingOpcode,
    /// An opcode or a called function got more or fewer operands than it
    /// takes.
    WrongArgumentCount,
    /// A plain number was handed to a function.
    NumberArgument,
    /// A label was handed to a function.
    LabelArgument,
    /// A `call` names a function that no `func` ... `end_func` has closed yet.
    UnknownFunction,
    /// An operand is not of the kind that the opcode takes at its place.
    InvalidArgument,
    /// The opcode is not in the table.
    UnknownOpcode,
    /// What follows a `&` is no byte.
    BadRefNumber,
    /// A `ret` or an `end_func` stands outside every function.
    OutsideFunction,
    /// An immediate value does not fit one hexadecimal digit.
    ValueOutOfRange,
    /// A function declares more than 255 parameters.
    TooManyParameters,
    /// An emitter targets a section that the template does not declare.
    UndeclaredSection,
    /// The counter of call sites has reached the largest `usize`.
    CounterExhausted,
}

/// The text of an error, as a user reads it.
pub open spec fn error_text(e: AsmError) -> Seq<char> {
    match e {
        AsmError::MissingOpcode => "Can't find function name"@,
        AsmError::WrongArgumentCount => "Invalid number of args"@,
        AsmError::NumberArgument =>
            "Can't pass a `num` as function argument expecyed `&num` or `var`"@,
        AsmError::LabelArgument =>
            "Can't pass a `'label` as function argument expecyed `&num` or `var`"@,
        AsmError::UnknownFunction => "No function declared with this name (Check the case)"@,
        AsmError::InvalidArgument => "Invalid argument"@,
        AsmError::UnknownOpcode => "Invalid function"@,
        AsmError::BadRefNumber => "No variable ref allowed"@,
        AsmError::OutsideFunction => "Can't use ret or end_func outside of a function"@,
        AsmError::ValueOutOfRange => "Can't write a number above 15 as a hexadecimal digit"@,
        AsmError::TooManyParameters => "Can't declare more than 255 parameters"@,
        AsmError::UndeclaredSection => "The template has no section of this name"@,
        AsmError::CounterExhausted => "Too many calls"@,
    }
}

impl AsmError {
    /// The text of the error.
    pub fn message(&self) -> (text: &'static str)
        ensures
            text@ == error_text(*self),
    {
        match self {
            AsmError::MissingOpcode => "Can't find function name",
            AsmError::WrongArgumentCount => "Invalid number of args",
            AsmError::NumberArgument =>
                "Can't pass a `num` as function argument expecyed `&num` or `var`",
            AsmError::LabelArgument =>
                "Can't pass a `'label` as function argument expecyed `&num` or `var`",
            AsmError::UnknownFunction => "No function declared with this name (Check the case)",
            AsmError::InvalidArgument => "Invalid argument",
            AsmError::UnknownOpcode => "Invalid function",
            AsmError::BadRefNumber => "No variable ref allowed",
            AsmError::OutsideFunction => "Can't use ret or end_func outside of a function",
            AsmError::ValueOutOfRange => "Can't write a number above 15 as a hexadecimal digit",
            AsmError::TooManyParameters => "Can't declare more than 255 parameters",
            AsmError::UndeclaredSection => "The template has no section of this name",
            AsmError::CounterExhausted => "Too many calls",
        }
    }
}

} // verus!
