use vstd::prelude::*;

verus! {

/// Selects a plain TCP connection to the broker.
pub struct Tcp {}

/// Selects a WebSocket connection to the broker.
pub struct Ws {}

} // verus!
