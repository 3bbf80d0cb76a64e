//! Bindings, owned values and borrowed views, with the rules that govern
//! their lifecycle, stated as contracts and proved.
//!
//! - [`environment`] holds the executable environment: declare, read,
//!   mutate, transfer, move out, drop, borrow, release, and scopes.
//! - [`state`] is the mathematical state that an environment stands for,
//!   with every operation as a function on it.
//! - [`preservation`] shows that every operation keeps a state well-formed.
//! - [`laws`] states what follows: who owns a value, which borrows exclude
//!   each other, and what ends with a scope.
//! - [`value`] and [`rejection`] hold the values and the reasons for
//!   turning an operation down.
//! - [`external_stuff`], [`more_external_stuff`], [`stuff`] and
//!   [`functions`] hold plain records and small functions on plain values.

pub mod environment;
pub mod external_stuff;
pub mod functions;
pub mod laws;
pub mod more_external_stuff;
pub mod preservation;
pub mod rejection;
pub mod state;
pub mod stuff;
pub mod value;
