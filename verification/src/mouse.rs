//! Types for the pointer-simulation convenience layer. The cursor itself
//! lives outside this library: querying and moving it is host I/O, so only
//! the data carried across that boundary is defined here.

use vstd::prelude::*;

verus! {

/// A cursor position in screen coordinates.
#[derive(Debug, Clone, Copy, PartialEq, Eq, Structural)]
pub struct Point {
    pub x: i32,
    pub y: i32,
}

/// Failures of the cursor convenience layer.
#[derive(Debug, Clone, Copy)]
pub enum MouseError {
    GetCursorFailed,
    SetCursorFailed,
}

/// Handle for issuing cursor requests; it carries no state of its own.
pub struct Mouse;

impl Mouse {
    pub fn new() -> (r: Self)
        ensures
            r == Mouse,
    {
        Mouse
    }
}

} // verus!
