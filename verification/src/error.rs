//! What can go wrong with one line of source text or one instruction word.

use vstd::prelude::*;

verus! {

/// The reason why a line could not be encoded or a word could not be decoded.
#[derive(Clone, Copy, Debug, PartialEq, Eq, Structural)]
pub enum ErrorKind {
    /// A mnemonic that no table knows; in decoding, an opcode or function code
    /// without a mnemonic.
    UnknownMnemonic,
    /// A register name that is neither symbolic nor numeric; in decoding, a
    /// register number without a name.
    UnknownRegister,
    /// An operand that is missing, or a memory operand that is not of the
    /// shape `offset(base)`.
    MalformedOperandSyntax,
    /// An immediate that is no unsigned 32-bit decimal number, or a shift
    /// amount that is none or does not fit in five bits.
    InvalidNumericLiteral,
    /// A jump instruction, whose target cannot be decoded without labels.
    UnsupportedDecode,
}

/// An encoding failure, with the position of the offending token in the token
/// sequence of its line. The mnemonic is token 0.
#[derive(Clone, Copy, Debug, PartialEq, Eq, Structural)]
pub struct AsmError {
    pub kind: ErrorKind,
    pub token: usize,
}

/// The first failure in a program, with the number of its line, counted
/// from 1.
#[derive(Clone, Copy, Debug, PartialEq, Eq, Structural)]
pub struct LineError {
    pub line: usize,
    pub error: AsmError,
}

} // verus!
