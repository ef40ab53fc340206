//! Authentication of the Android client.

use vstd::prelude::*;

verus! {

/// The token that a request of the Android client carries, if any.
#[derive(Debug, Clone)]
pub struct AndroidAuth {
    pub token: Option<String>,
}

} // verus!
