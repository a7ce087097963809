//! The lease: the scoped owner of one checked-out connection.

use crate::conn::{BackendConnection, Ids};
use crate::conn_info::{ConnInfo, ConnInfoView};
use crate::pool::{GlobalConnPool, PutOutcome};
use vstd::prelude::*;

verus! {

/// The transaction-state indicator the backend reports at each command
/// boundary.
#[derive(Debug, Clone, Copy, PartialEq, Eq, Structural)]
pub enum ReadyForQueryStatus {
    Idle,
    InTransaction,
    InFailedTransaction,
}

/// One in-flight request's exclusive handle on a backend connection.
///
/// `pool` is the back-reference: it holds the `ConnInfo` under which the
/// connection is returned to the index when the lease ends, and it is `Some`
/// exactly as long as the connection is still eligible for return.
pub struct Client<C> {
    pub conn_id: u128,
    pub inner: Option<BackendConnection<C>>,
    pub pool: Option<ConnInfo>,
}

/// The poolability half of a lease, detached with [`Client::inner`] so the
/// caller can hold the protocol client and still revoke poolability; it is
/// handed back with [`Client::reattach`] when the borrow ends.
pub struct Discard {
    pub conn_id: u128,
    pub pool: Option<ConnInfo>,
}

/// The connection request a back-reference holds, if any.
pub open spec fn backref_view(pool: Option<ConnInfo>) -> Option<ConnInfoView> {
    match pool {
        Some(ci) => Some(ci@),
        None => None,
    }
}

/// Takes the back-reference if the reported status is anything but `Idle`:
/// a connection inside a transaction (or a failed one) must not be pooled.
/// The connection stays usable for the rest of the lease.
fn revoke_unless_idle(pool: &mut Option<ConnInfo>, status: ReadyForQueryStatus)
    ensures
        status == ReadyForQueryStatus::Idle ==> *final(pool) == *old(pool),
        status != ReadyForQueryStatus::Idle ==> *final(pool) is None,
{
    if status != ReadyForQueryStatus::Idle {
        let _ = pool.take();
    }
}

impl<C> Client<C> {
    /// Wraps a connection for one request.  `pool` is `Some` exactly when
    /// the lease may return the connection.
    pub(crate) fn new(inner: BackendConnection<C>, pool: Option<ConnInfo>) -> (r: Client<C>)
        ensures
            r.conn_id == inner.conn_id,
            r.inner == Some(inner),
            r.pool == pool,
    {
        let conn_id = inner.conn_id;
        Client { conn_id, inner: Some(inner), pool }
    }

    /// The connection this lease owns.
    pub open spec fn conn(self) -> BackendConnection<C>
        recommends
            self.inner is Some,
    {
        self.inner->0
    }

    /// The usage-accounting identifiers of the leased connection.
    pub fn metrics(&self) -> (r: Ids)
        requires
            self.inner is Some,
        ensures
            r.endpoint_id@ == self.conn().ids.endpoint_id@,
            r.branch_id@ == self.conn().ids.branch_id@,
    {
        match &self.inner {
            Some(conn) => conn.ids.duplicate(),
            None => unreached(),
        }
    }

    /// Borrows the protocol client for issuing queries and detaches the
    /// poolability handle.  The caller hands the handle back with
    /// [`Client::reattach`] once the borrow ends.
    pub fn inner(&mut self) -> ((client, discard): (&mut C, Discard))
        requires
            old(self).inner is Some,
        ensures
            discard.conn_id == old(self).conn_id,
            discard.pool == old(self).pool,
            *client == old(self).conn().inner,
            final(self).conn_id == old(self).conn_id,
            final(self).pool is None,
            final(self).inner is Some,
            final(self).conn().inner == *final(client),
            final(self).conn().session == old(self).conn().session,
            final(self).conn().ids == old(self).conn().ids,
            final(self).conn().conn_id == old(self).conn().conn_id,
            final(self).conn().closed == old(self).conn().closed,
    {
        let discard = Discard { conn_id: self.conn_id, pool: self.pool.take() };
        match &mut self.inner {
            Some(conn) => (&mut conn.inner, discard),
            None => unreached(),
        }
    }

    /// Reabsorbs a detached poolability handle.
    pub fn reattach(&mut self, discard: Discard)
        ensures
            final(self).conn_id == old(self).conn_id,
            final(self).inner == old(self).inner,
            final(self).pool == discard.pool,
    {
        self.pool = discard.pool;
    }

    /// Called after each transaction boundary: a connection that is not idle
    /// is struck from return (its poolability is revoked, nothing more).
    pub fn check_idle(&mut self, status: ReadyForQueryStatus)
        ensures
            final(self).conn_id == old(self).conn_id,
            final(self).inner == old(self).inner,
            status == ReadyForQueryStatus::Idle ==> final(self).pool == old(self).pool,
            status != ReadyForQueryStatus::Idle ==> final(self).pool is None,
    {
        revoke_unless_idle(&mut self.pool, status);
    }

    /// Forcibly revokes poolability, for when a failure has left the server
    /// state unknown.
    pub fn discard(&mut self)
        ensures
            final(self).conn_id == old(self).conn_id,
            final(self).inner == old(self).inner,
            final(self).pool is None,
    {
        let _ = self.pool.take();
    }

    /// What the end of the lease does: hand the connection back to the index
    /// if the back-reference is still in place, else drop it.  Returns what
    /// became of the connection, `None` if it was not eligible for return.
    pub fn release(self, pool: &mut GlobalConnPool<C>) -> (r: Option<PutOutcome>)
        requires
            old(pool).wf(),
            self.inner is Some,
        ensures
            final(pool).wf(),
            final(pool).closed == old(pool).closed,
            final(pool).max_conns_per_endpoint == old(pool).max_conns_per_endpoint,
            self.pool is None ==> r is None && *final(pool) == *old(pool),
            self.pool is Some ==> ({
                let info = (self.pool->0)@;
                let conn = self.conn();
                &&& r is Some
                &&& (r == Some(PutOutcome::DiscardedClosed) <==> old(pool).closed)
                &&& old(pool).closed ==> *final(pool) == *old(pool)
                &&& !old(pool).closed ==> ((r == Some(PutOutcome::DiscardedConnClosed))
                    <==> conn.closed)
                &&& !old(pool).closed && conn.closed ==> *final(pool) == *old(pool)
                &&& !old(pool).closed && !conn.closed ==> ({
                    &&& ((r == Some(PutOutcome::Returned)) <==> old(pool).ep_total(info.hostname)
                        < old(pool).max_conns_per_endpoint)
                    &&& (r == Some(PutOutcome::Returned) ==> final(pool).idle_conns(
                        info.hostname,
                        info.dbname,
                        info.username,
                    ) == old(pool).idle_conns(info.hostname, info.dbname, info.username).push(
                        conn,
                    ))
                    &&& (r == Some(PutOutcome::DiscardedFull) ==> final(pool).idle_conns(
                        info.hostname,
                        info.dbname,
                        info.username,
                    ) == old(pool).idle_conns(info.hostname, info.dbname, info.username))
                    &&& forall|h: Seq<char>, d: Seq<char>, u: Seq<char>|
                        !(h == info.hostname && d == info.dbname && u == info.username)
                            ==> #[trigger] final(pool).idle_conns(h, d, u) == old(pool).idle_conns(
                            h,
                            d,
                            u,
                        )
                    &&& forall|h: Seq<char>, d: Seq<char>, u: Seq<char>| #[trigger] final(pool).bucket_hash(h, d, u) == old(pool).bucket_hash(h, d, u)
                })
            }),
    {
        let Client { conn_id: _, inner, pool: backref } = self;
        match backref {
            Some(info) => {
                match inner {
                    Some(conn) => Some(pool.put(&info, conn)),
                    None => unreached(),
                }
            },
            None => None,
        }
    }
}

impl Discard {
    /// Called after each transaction boundary: a connection that is not idle
    /// is struck from return.
    pub fn check_idle(&mut self, status: ReadyForQueryStatus)
        ensures
            final(self).conn_id == old(self).conn_id,
            status == ReadyForQueryStatus::Idle ==> final(self).pool == old(self).pool,
            status != ReadyForQueryStatus::Idle ==> final(self).pool is None,
    {
        revoke_unless_idle(&mut self.pool, status);
    }

    /// Forcibly revokes poolability.
    pub fn discard(&mut self)
        ensures
            final(self).conn_id == old(self).conn_id,
            final(self).pool is None,
    {
        let _ = self.pool.take();
    }
}

} // verus!
