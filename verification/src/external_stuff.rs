//! A plain record that sibling modules build and hand out.

use vstd::prelude::*;

verus! {

/// A record of two integers, both fields visible to every module.
#[derive(Clone, Copy, Debug, PartialEq, Eq, Structural)]
pub struct Stuff {
    pub x: i32,
    pub y: i32,
}

} // verus!
