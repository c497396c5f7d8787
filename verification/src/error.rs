//! What can go wrong.

use vstd::prelude::*;

verus! {

/// An error, with a message for people.
#[derive(Debug)]
pub enum Error {
    /// The input or the configuration cannot be used.
    InvalidInput(String),
    /// Something was asked of a transformer, named here, that was not fitted.
    NotFitted(String),
    /// A computation on a data frame failed.
    Computation(String),
}

} // verus!
