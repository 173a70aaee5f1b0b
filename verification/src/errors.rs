use vstd::prelude::*;

verus! {

/// The failure kinds of the cell operations. Every operation that can
/// receive an out-of-domain argument reports one of these; none aborts.
#[derive(Clone, Copy, Debug, PartialEq, Eq, Structural)]
pub enum CellError {
    /// A resolution argument outside `[0, 15]`.
    InvalidResolution,
    /// A requested ancestor resolution greater than the cell's own resolution.
    InvalidParentResolution,
    /// A base-cell argument outside `[0, 121]`.
    InvalidBaseCell,
    /// A digit level outside `[1, 15]`.
    InvalidDigitIndex,
    /// A digit value outside `[0, 6]`.
    InvalidDigitValue,
    /// An attempt to set digit value 1 on a cell whose base cell is a pentagon.
    PentagonDigitConflict,
    /// A value that does not fit in the width of a bit field.
    FieldOverflow,
    /// A malformed wire buffer during cache decoding.
    TypeMismatch,
}

/// The failure of the validated construction path: the raw value was
/// rejected by the external validity oracle.
#[derive(Clone, Copy, Debug, PartialEq, Eq, Structural)]
pub enum TryFromError {
    InvalidH3Index,
}

} // verus!
