use vstd::prelude::*;

verus! {

/// What went wrong computing one output cell.
#[derive(Debug, Clone, Copy, PartialEq, Eq, Structural)]
pub enum CellFault {
    /// The cell's dot product left the `i64` range.
    Overflow,
    /// The cell's row and column operands had different lengths.
    LengthMismatch,
    /// The worker for the cell ended before delivering its result.
    Disconnected,
}

/// Everything that can go wrong while multiplying matrices.
///
/// `DimensionMismatch` is a user error (incompatible operand shapes) and is
/// reported before any work is dispatched. `LengthMismatch` is a defensive
/// check inside the dot-product engine; it is unreachable when the operands
/// were sliced by a shape-checked coordinator. `Overflow` reports a dot
/// product that left the `i64` range. `ComputationError` wraps a per-cell
/// failure with the flat index of the output cell that failed and the kind
/// of failure. `ChannelClosed` marks a worker that ended before delivering
/// its result; it is a fatal coordination error and is never retried.
#[derive(Debug, Clone, Copy, PartialEq, Eq, Structural)]
pub enum MatError {
    /// The operand shapes are incompatible: `a.cols != b.rows`.
    DimensionMismatch,
    /// The dot-product operands have different lengths.
    LengthMismatch,
    /// A dot product does not fit in `i64`.
    Overflow,
    /// The cell at this flat (row-major) index failed, and how.
    ComputationError(usize, CellFault),
    /// A worker ended before delivering its result.
    ChannelClosed,
}

} // verus!
