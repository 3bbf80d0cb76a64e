//! A record declared one module further down.

use vstd::prelude::*;

verus! {

/// A record of two integers, both fields visible to every module.
#[derive(Clone, Copy, Debug, PartialEq, Eq, Structural)]
pub struct NestedStuff {
    pub x: i32,
    pub y: i32,
}

} // verus!
