//! Errors surfaced by the acquire path.

use vstd::prelude::*;

verus! {

/// Why an acquire could not produce a usable connection.
#[derive(Debug, PartialEq, Eq)]
pub enum PoolError {
    /// The dial to the compute node failed.  The backend's message is
    /// surfaced unchanged.
    Dial(String),
    /// Hashing the password for the bucket's credential cache failed.
    PasswordHash,
}

} // verus!
