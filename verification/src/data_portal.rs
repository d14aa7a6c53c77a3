//! Network transport endpoint compatible with the data portal protocol.

use vstd::prelude::*;

verus! {

/// Network transport endpoint compatible with the data portal protocol.
/// It carries no state yet: every value of it is the same endpoint.
pub struct DataPortalNetworkTransport {}

impl DataPortalNetworkTransport {
    /// Creates a new data portal network transport.
    pub fn new() -> (t: Self)
        ensures
            t == (DataPortalNetworkTransport {}),
    {
        DataPortalNetworkTransport {}
    }
}

impl Default for DataPortalNetworkTransport {
    fn default() -> (t: Self)
        ensures
            t == (DataPortalNetworkTransport {}),
    {
        Self::new()
    }
}

} // verus!
