use vstd::prelude::*;

use crate::mode::LensMode;

verus! {

/// Everything that can go wrong in a lens session.
///
/// Channel-level failures (`Transport`) are fatal to the exchange that raised
/// them; checksum and framing failures discard the exchange but leave the
/// session usable; the mode errors are purely local and perform no I/O.
#[derive(Clone, Copy, Debug, PartialEq, Eq, Structural)]
pub enum LensError {
    /// The byte channel failed to open, read or write.
    Transport,
    /// The initial reply did not match the expected greeting.
    HandshakeFailed,
    /// A response checksum disagreed with the received payload.
    CrcError,
    /// A response was shorter than its declared shape.
    ShortResponse,
    /// A response violated the expected framing or carried a field out of range.
    UnexpectedResponse,
    /// A mode-gated command was attempted while another mode was active.
    WrongMode { expected: LensMode, actual: Option<LensMode> },
    /// The operation needs a determined operating mode.
    InvalidMode,
}

} // verus!
