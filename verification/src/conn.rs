//! The pooled resource: one live backend connection.

use vstd::prelude::*;

verus! {

/// Usage-accounting identifiers captured when a connection is dialed.
#[derive(Debug)]
pub struct Ids {
    pub endpoint_id: String,
    pub branch_id: String,
}

impl Ids {
    /// A field-for-field copy.
    pub fn duplicate(&self) -> (r: Ids)
        ensures
            r.endpoint_id@ == self.endpoint_id@,
            r.branch_id@ == self.branch_id@,
    {
        Ids { endpoint_id: self.endpoint_id.clone(), branch_id: self.branch_id.clone() }
    }
}

/// One live backend connection.
///
/// The protocol client itself, together with whatever the dialer attaches to
/// it (channels, guards), is the payload `C`.  The pool moves the payload
/// around whole and reads nothing inside it; everything its own logic needs
/// is carried beside it as plain fields.
pub struct BackendConnection<C> {
    /// The live protocol client and whatever rides along with it.
    pub inner: C,
    /// The session id the connection's driver task currently tags its log
    /// lines with.  Rebound on reuse.
    pub session: u128,
    /// Usage-accounting identifiers captured at dial time.
    pub ids: Ids,
    /// Unique identifier minted at dial time.
    pub conn_id: u128,
    /// Whether the protocol client has shut down.  The owner of the
    /// connection refreshes this from the client before handing the
    /// connection to the pool.
    pub closed: bool,
}

} // verus!
