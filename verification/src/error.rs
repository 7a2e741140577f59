//! Error and result kinds surfaced to the hypervisor.

use vstd::prelude::*;

verus! {

/// Outcome of a completed invocation.
#[derive(Clone, Copy, Debug, PartialEq, Eq, Structural)]
pub enum InvokeResult {
    /// The guest executed `exit` with this value.
    Value(i64),
    /// Sentinel outcome used by the conformance suite: the host `stest`
    /// callable read the expected magic string.
    StdabiTestSuccess,
}

/// Errors of the memory subsystem.
#[derive(Clone, Copy, Debug, PartialEq, Eq, Structural)]
pub enum MemoryErr {
    /// An image did not fit below the padded tail of machine memory.
    OutOfMemory,
    /// A typed access fell outside `[0, end)` after address translation.
    SegmentationFault,
}

/// Errors that abort an invocation.
#[derive(Clone, Copy, Debug, PartialEq, Eq, Structural)]
pub enum InvokeErr {
    /// A memory error escaped an instruction.
    MemErr(MemoryErr),
    /// `throw` ran while the stack-break marker was the `(0, 0)` sentinel.
    UncaughtThrow(u8),
    /// The fetched opcode byte is outside the defined table.
    BadInstruction,
    /// A `div` instruction met a zero divisor.
    DivideByZero,
    /// The conformance `stest` callable read something other than its magic.
    StdabiTestFailure,
    /// A host-facing C string did not terminate before the end of memory.
    StringProcessingError,
    /// The invocation ran its whole instruction budget of `2^64 - 1`
    /// instructions without terminating.
    Stalled,
}

/// Folds any intermediate failure into [`InvokeErr::StringProcessingError`].
pub fn str_proc_fail<T>(_cause: T) -> (r: InvokeErr)
    ensures
        r == InvokeErr::StringProcessingError,
{
    InvokeErr::StringProcessingError
}

pub type MemResult<T> = Result<T, MemoryErr>;

} // verus!
