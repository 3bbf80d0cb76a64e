//! Builders of records. Each reaches the type it builds by another kind of
//! path: from the crate root, from the parent module, from this module.

pub mod nested_module;

use crate::external_stuff::Stuff;
use vstd::prelude::*;

verus! {

/// The record, its type named by a path from the crate root.
pub fn get_stuff() -> (stuff: Stuff)
    ensures
        stuff == (Stuff { x: 42, y: 2001 }),
{
    Stuff { x: 42, y: 2001 }
}

/// The record, its type named by a path from the parent module.
pub fn get_stuff_2() -> (stuff: super::external_stuff::Stuff)
    ensures
        stuff == (Stuff { x: 42, y: 2001 }),
{
    super::external_stuff::Stuff { x: 42, y: 2001 }
}

/// The nested record, its type named by a path from this module.
pub fn get_nested() -> (nested: self::nested_module::NestedStuff)
    ensures
        nested == (self::nested_module::NestedStuff { x: 42, y: 2001 }),
{
    self::nested_module::NestedStuff { x: 42, y: 2001 }
}

} // verus!
