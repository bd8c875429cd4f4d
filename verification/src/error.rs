//! Error values returned by the library.

use vstd::prelude::*;

verus! {

/// Errors produced by core operations.
#[derive(Debug, Clone, PartialEq, Eq)]
pub enum Error {
    /// A value failed validation (for example, an invalid node name).
    Invalid(String),
    /// An operation was refused in the current state.
    InvalidOperation(String),
    /// An internal invariant was broken.
    Internal(String),
    /// The event loop could not proceed.
    RunLoop(String),
    /// A terminal buffer does not have the canonical cell shape.
    Invariant(String),
    /// A requested render width exceeds its limit.
    RenderWidthLimit {
        /// Requested width.
        requested: u32,
        /// Configured limit.
        limit: u32,
    },
    /// A requested render height exceeds its limit.
    RenderHeightLimit {
        /// Requested height.
        requested: u32,
        /// Configured limit.
        limit: u32,
    },
    /// The number of cells of a render target does not fit in `usize`.
    RenderCellCountOverflow {
        /// Requested width.
        width: u32,
        /// Requested height.
        height: u32,
    },
    /// A requested render cell count exceeds its limit.
    RenderCellLimit {
        /// Requested cell count.
        requested: usize,
        /// Configured limit.
        limit: usize,
    },
    /// The cells of a render target could not be allocated.
    RenderAllocation {
        /// Requested cell count.
        cells: usize,
    },
    /// A character does not occupy exactly one terminal cell.
    InvalidCellCharacter {
        /// The rejected character.
        ch: char,
        /// Its terminal width.
        width: usize,
    },
}

} // verus!
