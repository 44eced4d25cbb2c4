//! Clients of the listener.

use vstd::prelude::*;

verus! {

/// A connected client.
#[derive(Clone, Copy, Debug)]
pub struct Client {}

} // verus!
