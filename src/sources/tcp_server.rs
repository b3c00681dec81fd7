//! Settings of the listener that reads events, one JSON object per line.

use vstd::prelude::*;

verus! {

/// The address to listen on; `127.0.0.1:4000` when absent.
pub struct Config {
    pub address: Option<String>,
}

} // verus!
