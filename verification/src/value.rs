//! The values that a binding can hold, and their shapes.

use crate::external_stuff::Stuff;
use vstd::prelude::*;

verus! {

/// The shape of a value. A binding keeps the shape it was declared with.
#[derive(Clone, Copy, Debug, PartialEq, Eq, Structural)]
pub enum Kind {
    /// A primitive integer.
    Number,
    /// An owned text buffer.
    Text,
    /// An aggregate record.
    Record,
}

/// What a value is, mathematically.
pub enum ValueModel {
    Number(int),
    Text(Seq<char>),
    Record { x: int, y: int },
}

impl ValueModel {
    /// The shape of this value.
    pub open spec fn kind(self) -> Kind {
        match self {
            ValueModel::Number(_) => Kind::Number,
            ValueModel::Text(_) => Kind::Text,
            ValueModel::Record { .. } => Kind::Record,
        }
    }
}

/// A value that a binding owns.
#[derive(Debug, PartialEq, Eq)]
pub enum Value {
    /// A primitive integer.
    Number(i32),
    /// An owned text buffer.
    Text(String),
    /// An aggregate record.
    Record(Stuff),
}

impl View for Value {
    type V = ValueModel;

    open spec fn view(&self) -> ValueModel {
        match self {
            Value::Number(n) => ValueModel::Number(*n as int),
            Value::Text(s) => ValueModel::Text(s@),
            Value::Record(r) => ValueModel::Record { x: r.x as int, y: r.y as int },
        }
    }
}

impl Clone for Value {
    /// A second value, equal to this one and owned apart from it.
    fn clone(&self) -> (copy: Value)
        ensures
            copy@ == self@,
    {
        match self {
            Value::Number(n) => Value::Number(*n),
            Value::Text(s) => Value::Text(s.clone()),
            Value::Record(r) => Value::Record(Stuff { x: r.x, y: r.y }),
        }
    }
}

impl Value {
    /// The shape of this value.
    pub fn kind(&self) -> (k: Kind)
        ensures
            k == self@.kind(),
    {
        match self {
            Value::Number(_) => Kind::Number,
            Value::Text(_) => Kind::Text,
            Value::Record(_) => Kind::Record,
        }
    }
}

} // verus!
