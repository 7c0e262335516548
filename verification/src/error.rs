use vstd::prelude::*;

verus! {

/// Why an assembly stopped. There is no warning tier: whatever is detected is
/// one of these, and the first one met ends the run.
#[derive(Debug, Clone, Copy, PartialEq, Eq, Structural)]
pub enum AsmError {
    /// The mnemonic names no opcode of the instruction set.
    UnknownOpcode,
    /// The opcode does not belong to the operand format that was asked to read
    /// its operands.
    WrongFormat,
    /// An operand is missing, or there is operand text where none is expected.
    OperandCount,
    /// A token that should name a register is not one of `r0` .. `r31`.
    BadRegister,
    /// A token that should be a constant is neither a decimal literal nor a
    /// symbol name.
    BadConstant,
    /// A directive line has an unknown keyword, no value, or a value that is
    /// not a decimal number within the machine word.
    BadDirective,
    /// Two lines define the same label.
    DuplicateSymbol,
    /// An instruction refers to a symbol that no line defines.
    UndefinedSymbol,
    /// The location counter would leave the range of the machine word.
    AddressOverflow,
}

impl AsmError {
    /// The text of the message that describes this error.
    pub open spec fn text(self) -> Seq<char> {
        match self {
            AsmError::UnknownOpcode => "opcode not found"@,
            AsmError::WrongFormat => "opcode does not take this operand format"@,
            AsmError::OperandCount => "wrong number of operands"@,
            AsmError::BadRegister => "incorrect register formatting"@,
            AsmError::BadConstant => "could not parse constant"@,
            AsmError::BadDirective => "could not interpret directive"@,
            AsmError::DuplicateSymbol => "encountered duplicate symbol"@,
            AsmError::UndefinedSymbol => "undefined symbol"@,
            AsmError::AddressOverflow => "address out of range"@,
        }
    }

    /// A single descriptive message for the caller to report.
    pub fn message(&self) -> (r: &'static str)
        ensures
            r@ == self.text(),
    {
        match self {
            AsmError::UnknownOpcode => "opcode not found",
            AsmError::WrongFormat => "opcode does not take this operand format",
            AsmError::OperandCount => "wrong number of operands",
            AsmError::BadRegister => "incorrect register formatting",
            AsmError::BadConstant => "could not parse constant",
            AsmError::BadDirective => "could not interpret directive",
            AsmError::DuplicateSymbol => "encountered duplicate symbol",
            AsmError::UndefinedSymbol => "undefined symbol",
            AsmError::AddressOverflow => "address out of range",
        }
    }
}

/// The outcome `r` with its value, if it has one, replaced by that value's view.
pub open spec fn result_view<T: View>(r: Result<T, AsmError>) -> Result<T::V, AsmError> {
    match r {
        Ok(t) => Ok(t@),
        Err(e) => Err(e),
    }
}

} // verus!
