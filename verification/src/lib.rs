//! Raven: a mock server whose request parsing, mock matching, route
//! resolution and response building are verified.

pub mod cli;
pub mod colors;
pub mod delay;
pub mod handler;
pub mod listener;
pub mod logger;
pub mod matcher;
pub mod mock_engine;
pub mod request;
pub mod resolver;
pub mod strings;
pub mod strmap;
pub mod text;

use vstd::prelude::*;

verus! {

/// Adds two numbers; the sum must fit in a `u64`.
pub fn add(left: u64, right: u64) -> (sum: u64)
    requires
        left + right <= u64::MAX,
    ensures
        sum == left + right,
{
    left + right
}

} // verus!
