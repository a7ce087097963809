//! The acquire path: look up, verify, pop; or tell the caller to dial.
//!
//! Acquiring suspends on outside work (the dial to the compute node), so it
//! is split in two.  [`GlobalConnPool::get_cached`] does everything up to the
//! dial: peek the bucket's hash, verify the password against it, and pop the
//! most recent idle connection if the hash matched.  If it returns
//! [`CacheOutcome::Dial`], the caller dials and hands the result to
//! [`GlobalConnPool::finish_dial`], which maintains the cached hash and wraps
//! the fresh connection in a lease.

use crate::client::{backref_view, Client};
use crate::conn::BackendConnection;
use crate::conn_info::ConnInfo;
use crate::error::PoolError;
use crate::hashing::{hash_password, pbkdf2_matches, verify_password};
use crate::pool::{
    assoc_at, key_at, lemma_assoc_at, lemma_assoc_update, lemma_remove_insert, val_at,
    EndpointConnPool, GlobalConnPool,
};
use crate::text::{auth_failed_marker, contains_seq, is_auth_failed_message};
use vstd::prelude::*;

verus! {

/// What the cache lookup decided.
pub enum CacheOutcome<C> {
    /// A warm connection was popped; the lease is ready.
    Reuse(Client<C>),
    /// The caller must dial.  `hash_valid` records whether the incoming
    /// password verified against the bucket's cached hash, which decides the
    /// hash maintenance after the dial.
    Dial { hash_valid: bool },
}

impl<C> CacheOutcome<C> {
    /// Whether the password verified against a cached hash on this lookup.
    pub open spec fn spec_hash_valid(self) -> bool {
        match self {
            CacheOutcome::Reuse(_) => true,
            CacheOutcome::Dial { hash_valid } => hash_valid,
        }
    }

    /// The lease, when the lookup hit.
    pub open spec fn reuse_client(self) -> Client<C>
        recommends
            self is Reuse,
    {
        match self {
            CacheOutcome::Reuse(c) => c,
            CacheOutcome::Dial { .. } => arbitrary(),
        }
    }
}

/// The password of this request verifies against the hash cached for its
/// bucket, and the bucket holds an idle connection: the precondition for
/// reuse.
pub open spec fn cache_hit<C>(pool: GlobalConnPool<C>, info: ConnInfo) -> bool {
    &&& pool.idle_conns(info@.hostname, info@.dbname, info@.username).len() > 0
    &&& match pool.bucket_hash(info@.hostname, info@.dbname, info@.username) {
        Some(h) => pbkdf2_matches(info@.password, h),
        None => false,
    }
}

impl<C> GlobalConnPool<C> {
    /// Everything the acquire path does before a dial: consult the bucket for
    /// this request, verify the password against the cached hash, and pop the
    /// most recently returned idle connection if the hash matched.  On reuse
    /// the popped connection's driver is rebound to `session_id`.  A popped
    /// connection that already closed is dropped and the caller dials; no
    /// second pop is tried.
    pub fn get_cached(&mut self, conn_info: &ConnInfo, force_new: bool, session_id: u128) -> (r:
        CacheOutcome<C>)
        requires
            old(self).wf(),
        ensures
            final(self).wf(),
            final(self).closed == old(self).closed,
            final(self).max_conns_per_endpoint == old(self).max_conns_per_endpoint,
            force_new ==> *final(self) == *old(self) && (r matches CacheOutcome::Dial {
                hash_valid,
            } && !hash_valid),
            !force_new ==> ({
                let host = conn_info@.hostname;
                let db = conn_info@.dbname;
                let user = conn_info@.username;
                let hit = cache_hit(*old(self), *conn_info);
                &&& final(self).has_ep(host)
                &&& r.spec_hash_valid() == hit
                &&& (r is Reuse <==> (hit && !old(self).idle_conns(host, db, user).last().closed))
                &&& (r is Reuse ==> ({
                    let client = r.reuse_client();
                    let popped = old(self).idle_conns(host, db, user).last();
                    &&& client.conn_id == popped.conn_id
                    &&& client.inner is Some
                    &&& client.conn().session == session_id
                    &&& client.conn().inner == popped.inner
                    &&& client.conn().ids == popped.ids
                    &&& client.conn().conn_id == popped.conn_id
                    &&& !client.conn().closed
                    &&& backref_view(client.pool) == Some(conn_info@)
                }))
                &&& (hit ==> final(self).idle_conns(host, db, user) == old(self).idle_conns(
                    host,
                    db,
                    user,
                ).drop_last() && final(self).ep_total(host) + 1 == old(self).ep_total(host))
                &&& (!hit ==> final(self).idle_conns(host, db, user) == old(self).idle_conns(
                    host,
                    db,
                    user,
                ) && final(self).ep_total(host) == old(self).ep_total(host))
                &&& forall|h: Seq<char>, d: Seq<char>, u: Seq<char>|
                    !(h == host && d == db && u == user) ==> #[trigger] final(self).idle_conns(
                        h,
                        d,
                        u,
                    ) == old(self).idle_conns(h, d, u)
                &&& forall|h: Seq<char>, d: Seq<char>, u: Seq<char>| #[trigger] final(self).bucket_hash(h, d, u) == old(self).bucket_hash(h, d, u)
                &&& forall|h: Seq<char>|
                    h != host ==> #[trigger] final(self).ep_total(h) == old(self).ep_total(h)
            }),
    {
        if force_new {
            return CacheOutcome::Dial { hash_valid: false };
        }
        let ghost pre = *old(self);
        let (db, user) = conn_info.db_and_user();
        let i = self.get_or_create_endpoint_pool(&conn_info.hostname);
        let ghost mid = *self;
        let ghost host = conn_info@.hostname;
        let ghost db_v = conn_info@.dbname;
        let ghost user_v = conn_info@.username;
        proof {
            lemma_assoc_at(mid.global_pool@, i as int);
            assert(mid.ep(host) == val_at(mid.global_pool@, i as int));
            if !pre.has_ep(host) {
                assert forall|d: Seq<char>, u: Seq<char>|
                    !(#[trigger] mid.ep(host).has_bucket(d, u)) by {
                    if mid.ep(host).has_bucket(d, u) {
                        let m = assoc_at(mid.ep(host).pools@, (d, u));
                        assert(false);
                    }
                }
            }
            // In every case the frames from the old state to the mid state.
            assert forall|h: Seq<char>, d: Seq<char>, u: Seq<char>| #[trigger] mid.idle_conns(
                h,
                d,
                u,
            ) == pre.idle_conns(h, d, u) && #[trigger] mid.bucket_hash(h, d, u) == pre.bucket_hash(
                h,
                d,
                u,
            ) by {
                if pre.has_ep(host) {
                    assert(mid == pre);
                } else {
                    if h != host {
                        assert(mid.has_ep(h) == pre.has_ep(h));
                        if pre.has_ep(h) {
                            assert(mid.ep(h) == pre.ep(h));
                        }
                    } else {
                        assert(mid.idle_conns(h, d, u) =~= pre.idle_conns(h, d, u));
                    }
                }
            }
            assert forall|h: Seq<char>| #[trigger] mid.ep_total(h) == pre.ep_total(h) by {
                if pre.has_ep(host) {
                    assert(mid == pre);
                } else {
                    if h != host {
                        assert(mid.has_ep(h) == pre.has_ep(h));
                        if pre.has_ep(h) {
                            assert(mid.ep(h) == pre.ep(h));
                        }
                    } else {
                        assert(mid.ep(host).total_conns == 0);
                    }
                }
            }
        }
        let hash = self.global_pool[i].1.peek_hash(&db, &user);
        match hash {
            Some(h) => {
                if verify_password(conn_info.password.as_str(), h.as_str()) {
                    proof {
                        if !pre.has_ep(host) {
                            assert(!mid.ep(host).has_bucket(db_v, user_v));
                            assert(false);
                        }
                        assert(mid == pre);
                        assert(cache_hit(pre, *conn_info));
                    }
                    let mut entry = self.global_pool.remove(i);
                    let popped = entry.1.pop_conn(&db, &user);
                    self.global_pool.insert(i, entry);
                    proof {
                        lemma_remove_insert(
                            mid.global_pool@,
                            i as int,
                            (mid.global_pool@[i as int].0, entry.1),
                        );
                        assert(self.global_pool@ =~= mid.global_pool@.update(
                            i as int,
                            (mid.global_pool@[i as int].0, entry.1),
                        ));
                        lemma_assoc_update(mid.global_pool@, i as int, entry.1);
                        assert(self.has_ep(host) && self.ep(host) == entry.1);
                        assert forall|m: int|
                            0 <= m < self.global_pool@.len() implies (#[trigger] val_at(
                            self.global_pool@,
                            m,
                        )).wf() && val_at(self.global_pool@, m).total_conns
                            <= self.max_conns_per_endpoint && (self.closed ==> val_at(
                            self.global_pool@,
                            m,
                        ).total_conns == 0) by {
                            if m != i {
                                assert(self.global_pool@[m] == mid.global_pool@[m]);
                                assert(val_at(mid.global_pool@, m).wf());
                            }
                        }
                        assert forall|h2: Seq<char>, d: Seq<char>, u: Seq<char>|
                            !(h2 == host && d == db_v && u == user_v) implies #[trigger] self
                            .idle_conns(h2, d, u) == mid.idle_conns(h2, d, u) by {
                            if h2 == host {
                                assert(self.ep(host).has_bucket(d, u) == mid.ep(host).has_bucket(
                                    d,
                                    u,
                                ));
                                if mid.ep(host).has_bucket(d, u) {
                                    assert(self.ep(host).bucket(d, u) == mid.ep(host).bucket(d, u));
                                }
                            } else {
                                assert(self.has_ep(h2) == mid.has_ep(h2));
                                if mid.has_ep(h2) {
                                    assert(self.ep(h2) == mid.ep(h2));
                                }
                            }
                        }
                        assert forall|h2: Seq<char>, d: Seq<char>, u: Seq<char>| #[trigger] self
                            .bucket_hash(h2, d, u) == mid.bucket_hash(h2, d, u) by {
                            if h2 == host {
                                assert(self.ep(host).has_bucket(d, u) == mid.ep(host).has_bucket(
                                    d,
                                    u,
                                ));
                                if mid.ep(host).has_bucket(d, u) {
                                    if d == db_v && u == user_v {
                                        assert(self.ep(host).bucket(d, u).hash_view() == mid.ep(
                                            host,
                                        ).bucket(d, u).hash_view());
                                    } else {
                                        assert(self.ep(host).bucket(d, u) == mid.ep(host).bucket(
                                            d,
                                            u,
                                        ));
                                    }
                                }
                            } else {
                                assert(self.has_ep(h2) == mid.has_ep(h2));
                                if mid.has_ep(h2) {
                                    assert(self.ep(h2) == mid.ep(h2));
                                }
                            }
                        }
                        assert forall|h2: Seq<char>| h2 != host implies #[trigger] self.ep_total(h2)
                            == mid.ep_total(h2) by {
                            assert(self.has_ep(h2) == mid.has_ep(h2));
                            if mid.has_ep(h2) {
                                assert(self.ep(h2) == mid.ep(h2));
                            }
                        }
                    }
                    match popped {
                        Some(conn) => {
                            if conn.closed {
                                CacheOutcome::Dial { hash_valid: true }
                            } else {
                                let mut conn = conn;
                                conn.session = session_id;
                                let client = Client::new(conn, Some(conn_info.duplicate()));
                                CacheOutcome::Reuse(client)
                            }
                        },
                        None => unreached(),
                    }
                } else {
                    CacheOutcome::Dial { hash_valid: false }
                }
            },
            None => {
                proof {
                    assert(!cache_hit(pre, *conn_info));
                }
                CacheOutcome::Dial { hash_valid: false }
            },
        }
    }

    /// The tail of the acquire path, entered with the dial's outcome.
    ///
    /// A failed dial is surfaced unchanged; if its message reports a rejected
    /// password and a cached hash had verified this request (`hash_valid`),
    /// that hash is now known stale and is cleared.  A successful dial not
    /// forced fresh and not covered by a cached hash stores a new hash of the
    /// password (creating the bucket if needed) before the lease is handed
    /// out; only a failure of the hashing itself is reported as
    /// [`PoolError::PasswordHash`].  Idle connections are never touched here.
    pub fn finish_dial(
        &mut self,
        conn_info: &ConnInfo,
        force_new: bool,
        hash_valid: bool,
        dialed: Result<BackendConnection<C>, String>,
    ) -> (r: Result<Client<C>, PoolError>)
        requires
            old(self).wf(),
        ensures
            final(self).wf(),
            final(self).closed == old(self).closed,
            final(self).max_conns_per_endpoint == old(self).max_conns_per_endpoint,
            forall|h: Seq<char>, d: Seq<char>, u: Seq<char>| #[trigger] final(self).idle_conns(
                h,
                d,
                u,
            ) == old(self).idle_conns(h, d, u),
            forall|h: Seq<char>| #[trigger] final(self).ep_total(h) == old(self).ep_total(h),
            dialed matches Err(msg) ==> ({
                let host = conn_info@.hostname;
                let db = conn_info@.dbname;
                let user = conn_info@.username;
                let auth = contains_seq(msg@, auth_failed_marker());
                &&& r == Err::<Client<C>, PoolError>(PoolError::Dial(msg))
                &&& (hash_valid && auth ==> final(self).bucket_hash(host, db, user) is None)
                &&& (!(hash_valid && auth) ==> *final(self) == *old(self))
                &&& forall|h: Seq<char>, d: Seq<char>, u: Seq<char>|
                    !(h == host && d == db && u == user) ==> #[trigger] final(self).bucket_hash(
                        h,
                        d,
                        u,
                    ) == old(self).bucket_hash(h, d, u)
            }),
            dialed matches Ok(conn) ==> ({
                let host = conn_info@.hostname;
                let db = conn_info@.dbname;
                let user = conn_info@.username;
                &&& (force_new || hash_valid ==> *final(self) == *old(self) && r is Ok)
                &&& (r is Err ==> !force_new && !hash_valid && r == Err::<
                    Client<C>,
                    PoolError,
                >(PoolError::PasswordHash) && *final(self) == *old(self))
                &&& (!force_new && !hash_valid && r is Ok ==> (match final(self).bucket_hash(
                    host,
                    db,
                    user,
                ) {
                    Some(hh) => pbkdf2_matches(conn_info@.password, hh),
                    None => false,
                }))
                &&& (r matches Ok(client) ==> ({
                    &&& client.conn_id == conn.conn_id
                    &&& client.inner == Some(conn)
                    &&& (client.pool is Some <==> !force_new)
                    &&& (!force_new ==> backref_view(client.pool) == Some(conn_info@))
                }))
                &&& forall|h: Seq<char>, d: Seq<char>, u: Seq<char>|
                    !(h == host && d == db && u == user) ==> #[trigger] final(self).bucket_hash(
                        h,
                        d,
                        u,
                    ) == old(self).bucket_hash(h, d, u)
            }),
    {
        let ghost pre = *old(self);
        let ghost host = conn_info@.hostname;
        let ghost db_v = conn_info@.dbname;
        let ghost user_v = conn_info@.username;
        match dialed {
            Err(msg) => {
                if hash_valid && is_auth_failed_message(msg.as_str()) {
                    let (db, user) = conn_info.db_and_user();
                    let i = self.get_or_create_endpoint_pool(&conn_info.hostname);
                    let ghost mid = *self;
                    proof {
                        lemma_assoc_at(mid.global_pool@, i as int);
                        self.lemma_creation_frames(pre, i as int, host);
                    }
                    let mut entry = self.global_pool.remove(i);
                    entry.1.clear_hash(&db, &user);
                    self.global_pool.insert(i, entry);
                    proof {
                        lemma_remove_insert(
                            mid.global_pool@,
                            i as int,
                            (mid.global_pool@[i as int].0, entry.1),
                        );
                        assert(self.global_pool@ =~= mid.global_pool@.update(
                            i as int,
                            (mid.global_pool@[i as int].0, entry.1),
                        ));
                        self.lemma_entry_update_frames(pre, mid, i as int, host, db_v, user_v, entry.1);
                    }
                }
                Err(PoolError::Dial(msg))
            },
            Ok(conn) => {
                let backref = if force_new {
                    None
                } else {
                    Some(conn_info.duplicate())
                };
                if !force_new && !hash_valid {
                    match hash_password(conn_info.password.as_str()) {
                        Ok(h) => {
                            let (db, user) = conn_info.db_and_user();
                            let i = self.get_or_create_endpoint_pool(&conn_info.hostname);
                            let ghost mid = *self;
                            proof {
                                lemma_assoc_at(mid.global_pool@, i as int);
                                self.lemma_creation_frames(pre, i as int, host);
                            }
                            let mut entry = self.global_pool.remove(i);
                            entry.1.set_hash(&db, &user, h);
                            self.global_pool.insert(i, entry);
                            proof {
                                lemma_remove_insert(
                                    mid.global_pool@,
                                    i as int,
                                    (mid.global_pool@[i as int].0, entry.1),
                                );
                                assert(self.global_pool@ =~= mid.global_pool@.update(
                                    i as int,
                                    (mid.global_pool@[i as int].0, entry.1),
                                ));
                                self.lemma_entry_update_frames(
                                    pre,
                                    mid,
                                    i as int,
                                    host,
                                    db_v,
                                    user_v,
                                    entry.1,
                                );
                            }
                            Ok(Client::new(conn, backref))
                        },
                        Err(e) => Err(e),
                    }
                } else {
                    Ok(Client::new(conn, backref))
                }
            },
        }
    }

    /// After `get_or_create_endpoint_pool` ran from state `pre` to `self`:
    /// nothing observable about idle connections, hashes or totals changed.
    proof fn lemma_creation_frames(&self, pre: GlobalConnPool<C>, i: int, host: Seq<char>)
        requires
            self.wf(),
            0 <= i < self.global_pool@.len(),
            key_at(self.global_pool@, i) == host,
            assoc_at(self.global_pool@, host) == i,
            self.has_ep(host),
            pre.has_ep(host) ==> *self == pre,
            !pre.has_ep(host) ==> {
                &&& val_at(self.global_pool@, i).pools@.len() == 0
                &&& val_at(self.global_pool@, i).total_conns == 0
                &&& forall|q: Seq<char>| q != host ==> #[trigger] self.has_ep(q) == pre.has_ep(q)
                &&& forall|q: Seq<char>|
                    q != host && pre.has_ep(q) ==> #[trigger] self.ep(q) == pre.ep(q)
            },
        ensures
            self.ep(host) == val_at(self.global_pool@, i),
            forall|h: Seq<char>, d: Seq<char>, u: Seq<char>| #[trigger] self.idle_conns(h, d, u)
                == pre.idle_conns(h, d, u),
            forall|h: Seq<char>, d: Seq<char>, u: Seq<char>| #[trigger] self.bucket_hash(h, d, u)
                == pre.bucket_hash(h, d, u),
            forall|h: Seq<char>| #[trigger] self.ep_total(h) == pre.ep_total(h),
    {
        lemma_assoc_at(self.global_pool@, i);
        if !pre.has_ep(host) {
            assert forall|d: Seq<char>, u: Seq<char>|
                !(#[trigger] self.ep(host).has_bucket(d, u)) by {
                if self.ep(host).has_bucket(d, u) {
                    let m = assoc_at(self.ep(host).pools@, (d, u));
                    assert(false);
                }
            }
        }
        assert forall|h: Seq<char>, d: Seq<char>, u: Seq<char>| #[trigger] self.idle_conns(h, d, u)
            == pre.idle_conns(h, d, u) && #[trigger] self.bucket_hash(h, d, u) == pre.bucket_hash(
            h,
            d,
            u,
        ) by {
            if pre.has_ep(host) {
            } else {
                if h != host {
                    assert(self.has_ep(h) == pre.has_ep(h));
                    if pre.has_ep(h) {
                        assert(self.ep(h) == pre.ep(h));
                    }
                } else {
                    assert(self.idle_conns(h, d, u) =~= pre.idle_conns(h, d, u));
                }
            }
        }
        assert forall|h: Seq<char>| #[trigger] self.ep_total(h) == pre.ep_total(h) by {
            if pre.has_ep(host) {
            } else {
                if h != host {
                    assert(self.has_ep(h) == pre.has_ep(h));
                    if pre.has_ep(h) {
                        assert(self.ep(h) == pre.ep(h));
                    }
                } else {
                    assert(self.ep(host).total_conns == 0);
                }
            }
        }
    }

    /// After the endpoint entry at `i` (keyed `host`) was taken out of `mid`,
    /// had one bucket's hash changed (conns and totals untouched, other
    /// buckets untouched), and was put back: the pool is well formed again,
    /// idle connections and totals are everywhere as in `pre`, and hashes are
    /// as in `pre` except possibly at (host, db, user).
    proof fn lemma_entry_update_frames(
        &self,
        pre: GlobalConnPool<C>,
        mid: GlobalConnPool<C>,
        i: int,
        host: Seq<char>,
        db: Seq<char>,
        user: Seq<char>,
        ep2: EndpointConnPool<C>,
    )
        requires
            mid.wf(),
            0 <= i < mid.global_pool@.len(),
            key_at(mid.global_pool@, i) == host,
            assoc_at(mid.global_pool@, host) == i,
            mid.has_ep(host),
            self.global_pool@ == mid.global_pool@.update(i, (mid.global_pool@[i].0, ep2)),
            self.closed == mid.closed,
            self.max_conns_per_endpoint == mid.max_conns_per_endpoint,
            ep2.wf(),
            ep2.total_conns == mid.ep(host).total_conns,
            forall|d2: Seq<char>, u2: Seq<char>|
                !(d2 == db && u2 == user) ==> #[trigger] ep2.has_bucket(d2, u2) == mid.ep(
                    host,
                ).has_bucket(d2, u2),
            forall|d2: Seq<char>, u2: Seq<char>|
                !(d2 == db && u2 == user) && mid.ep(host).has_bucket(d2, u2)
                    ==> #[trigger] ep2.bucket(d2, u2) == mid.ep(host).bucket(d2, u2),
            ep2.has_bucket(db, user) ==> ep2.bucket(db, user).conns@ == (if mid.ep(
                host,
            ).has_bucket(db, user) {
                mid.ep(host).bucket(db, user).conns@
            } else {
                Seq::<BackendConnection<C>>::empty()
            }),
            mid.ep(host).has_bucket(db, user) ==> ep2.has_bucket(db, user),
            forall|h: Seq<char>, d2: Seq<char>, u2: Seq<char>| #[trigger] mid.idle_conns(
                h,
                d2,
                u2,
            ) == pre.idle_conns(h, d2, u2),
            forall|h: Seq<char>, d2: Seq<char>, u2: Seq<char>| #[trigger] mid.bucket_hash(
                h,
                d2,
                u2,
            ) == pre.bucket_hash(h, d2, u2),
            forall|h: Seq<char>| #[trigger] mid.ep_total(h) == pre.ep_total(h),
        ensures
            self.wf(),
            self.has_ep(host),
            forall|h: Seq<char>, d2: Seq<char>, u2: Seq<char>| #[trigger] self.idle_conns(
                h,
                d2,
                u2,
            ) == pre.idle_conns(h, d2, u2),
            forall|h: Seq<char>| #[trigger] self.ep_total(h) == pre.ep_total(h),
            forall|h: Seq<char>, d2: Seq<char>, u2: Seq<char>|
                !(h == host && d2 == db && u2 == user) ==> #[trigger] self.bucket_hash(h, d2, u2)
                    == pre.bucket_hash(h, d2, u2),
            self.bucket_hash(host, db, user) == (if self.has_ep(host) && self.ep(
                host,
            ).has_bucket(db, user) {
                self.ep(host).bucket(db, user).hash_view()
            } else {
                None::<Seq<char>>
            }),
            self.ep(host) == ep2,
    {
        lemma_assoc_update(mid.global_pool@, i, ep2);
        assert(self.has_ep(host) && self.ep(host) == ep2);
        assert forall|m: int| 0 <= m < self.global_pool@.len() implies (#[trigger] val_at(
            self.global_pool@,
            m,
        )).wf() && val_at(self.global_pool@, m).total_conns <= self.max_conns_per_endpoint && (
        self.closed ==> val_at(self.global_pool@, m).total_conns == 0) by {
            if m != i {
                assert(self.global_pool@[m] == mid.global_pool@[m]);
                assert(val_at(mid.global_pool@, m).wf());
            } else {
                assert(val_at(mid.global_pool@, m).wf());
                assert(val_at(self.global_pool@, m) == ep2);
            }
        }
        assert forall|h: Seq<char>, d2: Seq<char>, u2: Seq<char>| #[trigger] self.idle_conns(
            h,
            d2,
            u2,
        ) == pre.idle_conns(h, d2, u2) by {
            assert(mid.idle_conns(h, d2, u2) == pre.idle_conns(h, d2, u2));
            if h == host {
                if d2 == db && u2 == user {
                    if mid.ep(host).has_bucket(db, user) {
                        assert(self.idle_conns(h, d2, u2) == mid.idle_conns(h, d2, u2));
                    } else {
                        if ep2.has_bucket(db, user) {
                            assert(self.idle_conns(h, d2, u2) =~= mid.idle_conns(h, d2, u2));
                        }
                    }
                } else {
                    assert(ep2.has_bucket(d2, u2) == mid.ep(host).has_bucket(d2, u2));
                    if mid.ep(host).has_bucket(d2, u2) {
                        assert(ep2.bucket(d2, u2) == mid.ep(host).bucket(d2, u2));
                    }
                }
            } else {
                assert(self.has_ep(h) == mid.has_ep(h));
                if mid.has_ep(h) {
                    assert(self.ep(h) == mid.ep(h));
                }
            }
        }
        assert forall|h: Seq<char>| #[trigger] self.ep_total(h) == pre.ep_total(h) by {
            assert(mid.ep_total(h) == pre.ep_total(h));
            if h == host {
                assert(self.ep_total(h) == mid.ep_total(h));
            } else {
                assert(self.has_ep(h) == mid.has_ep(h));
                if mid.has_ep(h) {
                    assert(self.ep(h) == mid.ep(h));
                }
            }
        }
        assert forall|h: Seq<char>, d2: Seq<char>, u2: Seq<char>|
            !(h == host && d2 == db && u2 == user) implies #[trigger] self.bucket_hash(h, d2, u2)
            == pre.bucket_hash(h, d2, u2) by {
            assert(mid.bucket_hash(h, d2, u2) == pre.bucket_hash(h, d2, u2));
            if h == host {
                assert(ep2.has_bucket(d2, u2) == mid.ep(host).has_bucket(d2, u2));
                if mid.ep(host).has_bucket(d2, u2) {
                    assert(ep2.bucket(d2, u2) == mid.ep(host).bucket(d2, u2));
                }
            } else {
                assert(self.has_ep(h) == mid.has_ep(h));
                if mid.has_ep(h) {
                    assert(self.ep(h) == mid.ep(h));
                }
            }
        }
    }
}

} // verus!
