//! The machine's reported failure conditions.

use crate::data::OpCode;
use crate::ops::Operation;
use vstd::prelude::*;

verus! {

/// A failure reported by one execution step.
///
/// The call stack holds 16 return addresses; the original hardware leaves
/// behaviour beyond that bound unspecified, so exceeding it is reported
/// explicitly here as `StackOverflow` or `StackUnderflow`.
#[derive(Clone, Copy, Debug, PartialEq, Eq, Structural)]
pub enum VmError {
    /// The fetched instruction word matches no entry in the decode table.
    UnknownOpCode(OpCode),
    /// The instruction decodes but is deliberately not implemented.
    UnsupportedOperation(Operation),
    /// A call was executed with all 16 stack slots in use.
    StackOverflow,
    /// A return was executed with no call outstanding.
    StackUnderflow,
}

} // verus!
