//! A module that shows one record and one builder to the outside.

use vstd::prelude::*;

verus! {

/// A record of two factors.
#[derive(Clone, Copy, Debug, PartialEq, Eq, Structural)]
pub struct PublicStruct {
    pub x: i32,
    pub y: i32,
}

impl PublicStruct {
    /// The product of the two fields.
    pub fn multiply(&self) -> (product: i32)
        requires
            i32::MIN <= self.x * self.y <= i32::MAX,
        ensures
            product == self.x * self.y,
    {
        self.x * self.y
    }
}

/// The record with the factors 42 and 2001.
pub fn get_thing() -> (thing: PublicStruct)
    ensures
        thing == (PublicStruct { x: 42, y: 2001 }),
{
    PublicStruct { x: 42, y: 2001 }
}

} // verus!
