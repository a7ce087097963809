//! A per-endpoint pool of backend database connections.
//!
//! The pool fronts a Postgres-protocol proxy serving short-lived requests.
//! Each request acquires a warm backend connection, runs its statements, and
//! either returns the connection for reuse or discards it.  Reuse of a cached
//! connection is gated by a per-bucket PBKDF2 password hash, so a cached
//! connection is never handed out to a caller whose password differs from the
//! one that opened it.
//!
//! The index itself is sequential; the embedding runtime guards it with a
//! lock and performs the outside work (the dial to the compute node, the
//! driver tasks) between the two halves of the acquire path.

pub mod acquire;
pub mod client;
pub mod conn;
pub mod conn_info;
pub mod driver;
pub mod error;
pub mod hashing;
pub mod laws;
pub mod level;
pub mod pool;
pub mod startup;
pub mod text;

pub use acquire::{cache_hit, CacheOutcome};
pub use client::{backref_view, Client, Discard, ReadyForQueryStatus};
pub use conn::{BackendConnection, Ids};
pub use conn_info::{display_of, lemma_display_reads_no_password, ConnInfo, ConnInfoView};
pub use driver::{driver_decision, AsyncMessage, DriverState, PollEvent};
pub use error::PoolError;
pub use hashing::{pbkdf2_matches, PBKDF2_OUTPUT_LENGTH, PBKDF2_ROUNDS};
pub use laws::{
    lemma_capacity_bound, lemma_closed_pool_empty, lemma_counter_consistency, lemma_lifo_reuse,
};
pub use level::Level;
pub use pool::{
    DbUserConnPool, EndpointConnPool, GlobalConnPool, PoolConfig, PutOutcome,
    MAX_CONNS_PER_ENDPOINT,
};
pub use startup::{app_name_str, startup_params};
pub use text::{contains_seq, is_auth_failed_message, str_contains};
