//! The ways in which assembling a source can fail.

use vstd::prelude::*;

verus! {

/// Why a source was not assembled. Every failure ends the assembly: no part
/// of a module is handed out with it.
#[derive(Clone, Copy, Debug, PartialEq, Eq, Structural)]
pub enum AssembleError {
    /// A directive or an operand is malformed, or a token that an
    /// instruction needs is missing.
    Syntax,
    /// A global variable is declared twice.
    DuplicateSymbol,
    /// A mnemonic is not in the instruction table.
    UnknownInstruction,
    /// A `.use` directive names a builtin that the registry does not hold.
    UnknownBuiltin,
    /// An operand is of a kind that its position does not take.
    TypeConstraint,
    /// A jump or a call refers to an index outside its table.
    UnresolvedAddress,
    /// A function is called that the source does not define.
    UnresolvedSymbol,
    /// No function named `main` is defined.
    MissingEntryPoint,
    /// An offset, a length or an id does not fit the 32 bits that the module
    /// format gives it.
    TooLarge,
}

/// The sentence that names a failure.
pub open spec fn message_of(error: AssembleError) -> Seq<char> {
    match error {
        AssembleError::Syntax => "Malformed or missing token"@,
        AssembleError::DuplicateSymbol => "Duplicate global variable"@,
        AssembleError::UnknownInstruction => "Unknown instruction"@,
        AssembleError::UnknownBuiltin => "Unknown builtin function"@,
        AssembleError::TypeConstraint => "Argument of a type that is not allowed here"@,
        AssembleError::UnresolvedAddress => "Invalid jump or call address"@,
        AssembleError::UnresolvedSymbol => "Call of a function that is not defined"@,
        AssembleError::MissingEntryPoint => "No main function found"@,
        AssembleError::TooLarge => "Module too large"@,
    }
}

impl AssembleError {
    /// A sentence that names the failure.
    pub fn message(&self) -> (text: String)
        ensures
            text@ == message_of(*self),
    {
        let text = match self {
            AssembleError::Syntax => "Malformed or missing token",
            AssembleError::DuplicateSymbol => "Duplicate global variable",
            AssembleError::UnknownInstruction => "Unknown instruction",
            AssembleError::UnknownBuiltin => "Unknown builtin function",
            AssembleError::TypeConstraint => "Argument of a type that is not allowed here",
            AssembleError::UnresolvedAddress => "Invalid jump or call address",
            AssembleError::UnresolvedSymbol => "Call of a function that is not defined",
            AssembleError::MissingEntryPoint => "No main function found",
            AssembleError::TooLarge => "Module too large",
        };
        text.to_string()
    }
}

} // verus!
