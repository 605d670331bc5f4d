use vstd::prelude::*;

use crate::common::LineCol;

verus! {

/// A positioned, user-facing syntax error.  Rendering a human-readable
/// report from it is left to the caller.
#[derive(Debug)]
pub struct Error {
    pub msg: String,
    pub pos: LineCol,
}

} // verus!
