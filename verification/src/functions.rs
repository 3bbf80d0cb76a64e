//! Small functions on plain values.

use vstd::prelude::*;

verus! {

/// The sum of two integers.
pub fn add_ints(a: i32, b: i32) -> (sum: i32)
    requires
        i32::MIN <= a + b <= i32::MAX,
    ensures
        sum == a + b,
{
    a + b
}

/// Whether `x` exceeds 42.
pub fn greater_than_42(x: i32) -> (greater: bool)
    ensures
        greater == (x > 42),
{
    if x <= 42 {
        false
    } else {
        true
    }
}

/// Whether `x` falls short of 42.
pub fn less_than_42(x: i32) -> (less: bool)
    ensures
        less == (x < 42),
{
    if x >= 42 {
        false
    } else {
        true
    }
}

/// The sum of a local 22 and 20: a function sees no value bound outside it.
pub fn normal_function() -> (answer: i32)
    ensures
        answer == 42,
{
    let inner_var: i32 = 22;
    inner_var + 20
}

/// The thanks that a sign-up with `email` earns.
pub fn sign_up_to_newsletter(email: &str) -> (thanks: String)
    ensures
        thanks@ == "Thanks for signing up "@ + email@,
{
    String::from_str("Thanks for signing up ").concat(email)
}

/// A text that needs no argument.
pub fn no_argument() -> (text: String)
    ensures
        text@ == "I've got nothing"@,
{
    "I've got nothing".to_owned()
}

} // verus!
