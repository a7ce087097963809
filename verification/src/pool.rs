//! The two-level pool index: endpoint -> (database, user) -> idle connections.

use crate::conn::BackendConnection;
use crate::conn_info::ConnInfo;
use vstd::prelude::*;

verus! {

// ---------------------------------------------------------------------------
// Association lists.
//
// Both levels of the index are association lists over string-like keys: the
// outer level maps a hostname to its endpoint pool, the inner level maps a
// (database, user) pair to its bucket.  The spec functions below give both
// levels one vocabulary: a key is present, and if so it names one value.
// ---------------------------------------------------------------------------
/// The view of the key stored at position `i`.
pub open spec fn key_at<K: View, V>(s: Seq<(K, V)>, i: int) -> K::V {
    s[i].0@
}

/// The value stored at position `i`.
pub open spec fn val_at<K: View, V>(s: Seq<(K, V)>, i: int) -> V {
    s[i].1
}

/// Some position holds `key`.
pub open spec fn assoc_has<K: View, V>(s: Seq<(K, V)>, key: K::V) -> bool {
    exists|i: int| 0 <= i < s.len() && #[trigger] key_at(s, i) == key
}

/// The position that holds `key` (meaningful only when keys are unique and
/// `assoc_has` holds).
pub open spec fn assoc_at<K: View, V>(s: Seq<(K, V)>, key: K::V) -> int {
    choose|i: int| 0 <= i < s.len() && #[trigger] key_at(s, i) == key
}

/// The value `key` names.
pub open spec fn assoc_get<K: View, V>(s: Seq<(K, V)>, key: K::V) -> V {
    val_at(s, assoc_at(s, key))
}

/// No two positions hold the same key.
pub open spec fn assoc_unique<K: View, V>(s: Seq<(K, V)>) -> bool {
    forall|i: int, j: int| 0 <= i < j < s.len() ==> key_at(s, i) != key_at(s, j)
}

/// With unique keys, position `i` is exactly the position its key names.
pub proof fn lemma_assoc_at<K: View, V>(s: Seq<(K, V)>, i: int)
    requires
        assoc_unique(s),
        0 <= i < s.len(),
    ensures
        assoc_has(s, key_at(s, i)),
        assoc_at(s, key_at(s, i)) == i,
        assoc_get(s, key_at(s, i)) == val_at(s, i),
{
    assert(assoc_has(s, key_at(s, i)));
    let j = assoc_at(s, key_at(s, i));
    if j != i {
        assert(key_at(s, i) != key_at(s, j));
        assert(false);
    }
}

/// Replacing the value at position `i` (key kept) changes what that key names
/// and nothing else.
pub proof fn lemma_assoc_update<K: View, V>(s: Seq<(K, V)>, i: int, v2: V)
    requires
        assoc_unique(s),
        0 <= i < s.len(),
    ensures
        ({
            let s2 = s.update(i, (s[i].0, v2));
            &&& assoc_unique(s2)
            &&& forall|q: <K as View>::V| #[trigger] assoc_has(s2, q) == assoc_has(s, q)
            &&& forall|q: <K as View>::V|
                q != key_at(s, i) && assoc_has(s, q) ==> #[trigger] assoc_get(s2, q) == assoc_get(
                    s,
                    q,
                )
            &&& assoc_has(s2, key_at(s, i))
            &&& assoc_at(s2, key_at(s, i)) == i
            &&& assoc_get(s2, key_at(s, i)) == v2
        }),
{
    let s2 = s.update(i, (s[i].0, v2));
    assert forall|m: int| 0 <= m < s2.len() implies #[trigger] key_at(s2, m) == key_at(s, m) by {
        if m == i {
            assert(s2[m].0 == s[m].0);
        } else {
            assert(s2[m] == s[m]);
        }
    }
    assert(assoc_unique(s2));
    assert forall|q: <K as View>::V| #[trigger] assoc_has(s2, q) == assoc_has(s, q) by {
        if assoc_has(s, q) {
            let m = assoc_at(s, q);
            assert(key_at(s2, m) == q);
            assert(assoc_has(s2, q));
        }
        if assoc_has(s2, q) {
            let m = assoc_at(s2, q);
            assert(key_at(s, m) == q);
            assert(assoc_has(s, q));
        }
    }
    assert forall|q: <K as View>::V|
        q != key_at(s, i) && assoc_has(s, q) implies #[trigger] assoc_get(s2, q) == assoc_get(
        s,
        q,
    ) by {
        let m = assoc_at(s, q);
        lemma_assoc_at(s, m);
        assert(key_at(s2, m) == q);
        lemma_assoc_at(s2, m);
        assert(m != i);
        assert(s2[m] == s[m]);
    }
    assert(key_at(s2, i) == key_at(s, i));
    lemma_assoc_at(s2, i);
}

/// Appending a fresh key adds exactly that binding.
pub proof fn lemma_assoc_push<K: View, V>(s: Seq<(K, V)>, k: K, v: V)
    requires
        assoc_unique(s),
        !assoc_has(s, k@),
    ensures
        ({
            let s2 = s.push((k, v));
            &&& assoc_unique(s2)
            &&& forall|q: <K as View>::V|
                q != k@ ==> #[trigger] assoc_has(s2, q) == assoc_has(s, q)
            &&& forall|q: <K as View>::V|
                q != k@ && assoc_has(s, q) ==> #[trigger] assoc_get(s2, q) == assoc_get(s, q)
            &&& assoc_has(s2, k@)
            &&& assoc_at(s2, k@) == s.len()
            &&& assoc_get(s2, k@) == v
        }),
{
    let s2 = s.push((k, v));
    assert forall|m: int| 0 <= m < s.len() implies #[trigger] key_at(s2, m) == key_at(s, m) by {
        assert(s2[m] == s[m]);
    }
    assert(key_at(s2, s.len() as int) == k@);
    assert forall|m: int| 0 <= m < s.len() implies #[trigger] key_at(s, m) != k@ by {
        if key_at(s, m) == k@ {
            assert(assoc_has(s, k@));
        }
    }
    assert(assoc_unique(s2));
    assert forall|q: <K as View>::V| q != k@ implies #[trigger] assoc_has(s2, q) == assoc_has(
        s,
        q,
    ) by {
        if assoc_has(s, q) {
            let m = assoc_at(s, q);
            assert(key_at(s2, m) == q);
        }
        if assoc_has(s2, q) {
            let m = assoc_at(s2, q);
            assert(0 <= m < s.len());
            assert(key_at(s, m) == q);
        }
    }
    assert forall|q: <K as View>::V|
        q != k@ && assoc_has(s, q) implies #[trigger] assoc_get(s2, q) == assoc_get(s, q) by {
        let m = assoc_at(s, q);
        lemma_assoc_at(s, m);
        assert(key_at(s2, m) == q);
        lemma_assoc_at(s2, m);
    }
    lemma_assoc_at(s2, s.len() as int);
}

// ---------------------------------------------------------------------------
// Buckets and endpoint pools.
// ---------------------------------------------------------------------------
/// The idle connections sharing one (database, user) within an endpoint,
/// plus at most one cached password hash.
pub struct DbUserConnPool<C> {
    /// Idle connections, most recently returned last.  Reuse pops from the
    /// end: the most recently used connection is the most likely to still be
    /// warm end to end.
    pub conns: Vec<BackendConnection<C>>,
    /// PHC-formatted PBKDF2 hash of the password that last opened a
    /// connection in this bucket.  Cleared on an authoritative
    /// authentication failure.
    pub password_hash: Option<String>,
}

impl<C> DbUserConnPool<C> {
    /// The cached hash, as a sequence of characters.
    pub open spec fn hash_view(self) -> Option<Seq<char>> {
        match self.password_hash {
            Some(h) => Some(h@),
            None => None,
        }
    }
}

/// The number of idle connections across a sequence of buckets.
pub open spec fn sum_conns<C>(s: Seq<((String, String), DbUserConnPool<C>)>) -> nat
    decreases s.len(),
{
    if s.len() == 0 {
        0
    } else {
        s[0].1.conns@.len() + sum_conns(s.skip(1))
    }
}

/// Replacing one bucket changes the total by the difference in that bucket's
/// size.
pub proof fn lemma_sum_update<C>(
    s: Seq<((String, String), DbUserConnPool<C>)>,
    i: int,
    e: ((String, String), DbUserConnPool<C>),
)
    requires
        0 <= i < s.len(),
    ensures
        sum_conns(s.update(i, e)) + s[i].1.conns@.len() == sum_conns(s) + e.1.conns@.len(),
    decreases s.len(),
{
    if i == 0 {
        assert(s.update(0, e).skip(1) =~= s.skip(1));
    } else {
        lemma_sum_update(s.skip(1), i - 1, e);
        assert(s.update(i, e).skip(1) =~= s.skip(1).update(i - 1, e));
        assert(s.update(i, e)[0] == s[0]);
    }
}

/// Appending a bucket adds its size to the total.
pub proof fn lemma_sum_push<C>(
    s: Seq<((String, String), DbUserConnPool<C>)>,
    e: ((String, String), DbUserConnPool<C>),
)
    ensures
        sum_conns(s.push(e)) == sum_conns(s) + e.1.conns@.len(),
    decreases s.len(),
{
    if s.len() == 0 {
        assert(s.push(e).skip(1) =~= Seq::<((String, String), DbUserConnPool<C>)>::empty());
        assert(sum_conns(Seq::<((String, String), DbUserConnPool<C>)>::empty()) == 0);
        assert(s.push(e)[0] == e);
    } else {
        lemma_sum_push(s.skip(1), e);
        assert(s.push(e).skip(1) =~= s.skip(1).push(e));
        assert(s.push(e)[0] == s[0]);
    }
}

/// No bucket is larger than the total.
pub proof fn lemma_sum_bound<C>(s: Seq<((String, String), DbUserConnPool<C>)>, i: int)
    requires
        0 <= i < s.len(),
    ensures
        s[i].1.conns@.len() <= sum_conns(s),
    decreases s.len(),
{
    if i > 0 {
        lemma_sum_bound(s.skip(1), i - 1);
    }
}

/// A zero total means every bucket is empty.
pub proof fn lemma_sum_zero<C>(s: Seq<((String, String), DbUserConnPool<C>)>)
    requires
        sum_conns(s) == 0,
    ensures
        forall|i: int| 0 <= i < s.len() ==> (#[trigger] s[i]).1.conns@.len() == 0,
    decreases s.len(),
{
    if s.len() > 0 {
        lemma_sum_zero(s.skip(1));
        assert forall|i: int| 0 <= i < s.len() implies (#[trigger] s[i]).1.conns@.len() == 0 by {
            if i > 0 {
                assert(s.skip(1)[i - 1] == s[i]);
            }
        }
    }
}

/// The per-endpoint pool: buckets keyed by (database, user), and a counter of
/// all idle connections they hold.
pub struct EndpointConnPool<C> {
    pub pools: Vec<((String, String), DbUserConnPool<C>)>,
    pub total_conns: usize,
}

impl<C> EndpointConnPool<C> {
    /// A bucket for this (database, user) exists.
    pub open spec fn has_bucket(self, db: Seq<char>, user: Seq<char>) -> bool {
        assoc_has(self.pools@, (db, user))
    }

    /// The bucket for this (database, user).
    pub open spec fn bucket(self, db: Seq<char>, user: Seq<char>) -> DbUserConnPool<C> {
        assoc_get(self.pools@, (db, user))
    }

    /// Bucket keys are unique and the counter equals the number of idle
    /// connections actually held.
    pub open spec fn wf(self) -> bool {
        &&& assoc_unique(self.pools@)
        &&& self.total_conns == sum_conns(self.pools@)
    }
}

/// Taking an element out, reworking it, and putting it back in the same
/// position is an update.
pub proof fn lemma_remove_insert<T>(s: Seq<T>, i: int, e: T)
    requires
        0 <= i < s.len(),
    ensures
        s.remove(i).insert(i, e) =~= s.update(i, e),
{
}

impl<C> EndpointConnPool<C> {
    /// The position of the bucket for (db, user), if one exists.
    fn bucket_index_of(&self, db: &String, user: &String) -> (r: Option<usize>)
        ensures
            match r {
                Some(i) => i < self.pools@.len() && key_at(self.pools@, i as int) == (db@, user@),
                None => !self.has_bucket(db@, user@),
            },
    {
        let n = self.pools.len();
        let mut i: usize = 0;
        while i < n
            invariant
                n == self.pools@.len(),
                i <= n,
                forall|m: int| 0 <= m < i ==> #[trigger] key_at(self.pools@, m) != (db@, user@),
            decreases n - i,
        {
            let entry = &self.pools[i];
            if entry.0.0 == *db && entry.0.1 == *user {
                proof {
                    assert(key_at(self.pools@, i as int) == (db@, user@));
                }
                return Some(i);
            }
            proof {
                assert(key_at(self.pools@, i as int) != (db@, user@));
            }
            i += 1;
        }
        proof {
            if self.has_bucket(db@, user@) {
                let m = assoc_at(self.pools@, (db@, user@));
                assert(false);
            }
        }
        None
    }

    /// The acquire path's peek under the shared lock: the cached hash, cloned,
    /// but only when the bucket holds at least one idle connection.
    pub(crate) fn peek_hash(&self, db: &String, user: &String) -> (r: Option<String>)
        requires
            self.wf(),
        ensures
            match r {
                Some(h) => self.has_bucket(db@, user@) && self.bucket(db@, user@).conns@.len() > 0
                    && self.bucket(db@, user@).hash_view() == Some(h@),
                None => !self.has_bucket(db@, user@) || self.bucket(db@, user@).conns@.len() == 0
                    || self.bucket(db@, user@).hash_view() is None,
            },
    {
        match self.bucket_index_of(db, user) {
            Some(i) => {
                proof {
                    lemma_assoc_at(self.pools@, i as int);
                }
                let entry = &self.pools[i];
                if entry.1.conns.len() > 0 {
                    match &entry.1.password_hash {
                        Some(h) => Some(h.clone()),
                        None => None,
                    }
                } else {
                    None
                }
            },
            None => None,
        }
    }

    /// Pops the most recently returned idle connection for (db, user), if any,
    /// and decrements the counter.
    pub(crate) fn pop_conn(&mut self, db: &String, user: &String) -> (r: Option<
        BackendConnection<C>,
    >)
        requires
            old(self).wf(),
        ensures
            final(self).wf(),
            match r {
                Some(conn) => {
                    &&& old(self).has_bucket(db@, user@)
                    &&& old(self).bucket(db@, user@).conns@.len() > 0
                    &&& conn == old(self).bucket(db@, user@).conns@.last()
                    &&& final(self).has_bucket(db@, user@)
                    &&& final(self).bucket(db@, user@).conns@ == old(self).bucket(
                        db@,
                        user@,
                    ).conns@.drop_last()
                    &&& final(self).bucket(db@, user@).hash_view() == old(self).bucket(
                        db@,
                        user@,
                    ).hash_view()
                    &&& final(self).total_conns + 1 == old(self).total_conns
                },
                None => {
                    &&& final(self).pools@ == old(self).pools@
                    &&& final(self).total_conns == old(self).total_conns
                    &&& (!old(self).has_bucket(db@, user@) || old(self).bucket(
                        db@,
                        user@,
                    ).conns@.len() == 0)
                },
            },
            forall|d: Seq<char>, u: Seq<char>|
                !(d == db@ && u == user@) ==> #[trigger] final(self).has_bucket(d, u) == old(self).has_bucket(d, u),
            forall|d: Seq<char>, u: Seq<char>|
                !(d == db@ && u == user@) && old(self).has_bucket(d, u) ==> #[trigger] final(self).bucket(d, u) == old(self).bucket(d, u),
    {
        let ghost pre = *old(self);
        match self.bucket_index_of(db, user) {
            Some(i) => {
                proof {
                    lemma_assoc_at(self.pools@, i as int);
                }
                if self.pools[i].1.conns.len() == 0 {
                    return None;
                }
                let mut entry = self.pools.remove(i);
                let popped = entry.1.conns.pop();
                match popped {
                    Some(conn) => {
                        proof {
                            lemma_sum_bound(pre.pools@, i as int);
                        }
                        self.pools.insert(i, entry);
                        self.total_conns = self.total_conns - 1;
                        proof {
                            lemma_remove_insert(
                                pre.pools@,
                                i as int,
                                (pre.pools@[i as int].0, entry.1),
                            );
                            assert(self.pools@ =~= pre.pools@.update(
                                i as int,
                                (pre.pools@[i as int].0, entry.1),
                            ));
                            lemma_assoc_update(pre.pools@, i as int, entry.1);
                            lemma_sum_update(
                                pre.pools@,
                                i as int,
                                (pre.pools@[i as int].0, entry.1),
                            );
                        }
                        Some(conn)
                    },
                    None => unreached(),
                }
            },
            None => None,
        }
    }

    /// Pushes a returned connection on top of its bucket, creating the bucket
    /// if absent, and increments the counter.  A bucket created here starts
    /// with no cached hash.
    pub(crate) fn push_conn(&mut self, db: &String, user: &String, conn: BackendConnection<C>)
        requires
            old(self).wf(),
            old(self).total_conns < usize::MAX,
        ensures
            final(self).wf(),
            final(self).total_conns == old(self).total_conns + 1,
            final(self).has_bucket(db@, user@),
            final(self).bucket(db@, user@).conns@ == (if old(self).has_bucket(db@, user@) {
                old(self).bucket(db@, user@).conns@
            } else {
                Seq::<BackendConnection<C>>::empty()
            }).push(conn),
            final(self).bucket(db@, user@).hash_view() == (if old(self).has_bucket(db@, user@) {
                old(self).bucket(db@, user@).hash_view()
            } else {
                None::<Seq<char>>
            }),
            forall|d: Seq<char>, u: Seq<char>|
                !(d == db@ && u == user@) ==> #[trigger] final(self).has_bucket(d, u) == old(self).has_bucket(d, u),
            forall|d: Seq<char>, u: Seq<char>|
                !(d == db@ && u == user@) && old(self).has_bucket(d, u) ==> #[trigger] final(self).bucket(d, u) == old(self).bucket(d, u),
    {
        let ghost pre = *old(self);
        match self.bucket_index_of(db, user) {
            Some(i) => {
                proof {
                    lemma_assoc_at(self.pools@, i as int);
                }
                let mut entry = self.pools.remove(i);
                entry.1.conns.push(conn);
                self.pools.insert(i, entry);
                self.total_conns = self.total_conns + 1;
                proof {
                    lemma_remove_insert(pre.pools@, i as int, (pre.pools@[i as int].0, entry.1));
                    assert(self.pools@ =~= pre.pools@.update(
                        i as int,
                        (pre.pools@[i as int].0, entry.1),
                    ));
                    lemma_assoc_update(pre.pools@, i as int, entry.1);
                    lemma_sum_update(pre.pools@, i as int, (pre.pools@[i as int].0, entry.1));
                }
            },
            None => {
                let key = (db.clone(), user.clone());
                let mut conns: Vec<BackendConnection<C>> = Vec::new();
                conns.push(conn);
                let bucket = DbUserConnPool { conns, password_hash: None };
                proof {
                    lemma_assoc_push(self.pools@, key, bucket);
                    lemma_sum_push(self.pools@, (key, bucket));
                }
                self.pools.push((key, bucket));
                self.total_conns = self.total_conns + 1;
            },
        }
    }

    /// Clears the cached hash of the bucket for (db, user), if the bucket
    /// exists.  Idle connections are untouched.
    pub(crate) fn clear_hash(&mut self, db: &String, user: &String)
        requires
            old(self).wf(),
        ensures
            final(self).wf(),
            final(self).total_conns == old(self).total_conns,
            old(self).has_bucket(db@, user@) ==> final(self).has_bucket(db@, user@) && final(self).bucket(db@, user@).hash_view() is None && final(self).bucket(db@, user@).conns@
                == old(self).bucket(db@, user@).conns@,
            !old(self).has_bucket(db@, user@) ==> final(self).pools@ == old(self).pools@,
            forall|d: Seq<char>, u: Seq<char>|
                !(d == db@ && u == user@) ==> #[trigger] final(self).has_bucket(d, u) == old(self).has_bucket(d, u),
            forall|d: Seq<char>, u: Seq<char>|
                !(d == db@ && u == user@) && old(self).has_bucket(d, u) ==> #[trigger] final(self).bucket(d, u) == old(self).bucket(d, u),
    {
        let ghost pre = *old(self);
        match self.bucket_index_of(db, user) {
            Some(i) => {
                proof {
                    lemma_assoc_at(self.pools@, i as int);
                }
                let mut entry = self.pools.remove(i);
                entry.1.password_hash = None;
                self.pools.insert(i, entry);
                proof {
                    lemma_remove_insert(pre.pools@, i as int, (pre.pools@[i as int].0, entry.1));
                    assert(self.pools@ =~= pre.pools@.update(
                        i as int,
                        (pre.pools@[i as int].0, entry.1),
                    ));
                    lemma_assoc_update(pre.pools@, i as int, entry.1);
                    lemma_sum_update(pre.pools@, i as int, (pre.pools@[i as int].0, entry.1));
                }
            },
            None => {},
        }
    }

    /// Stores a freshly computed hash into the bucket for (db, user),
    /// creating the bucket if absent.  Idle connections are untouched.
    pub(crate) fn set_hash(&mut self, db: &String, user: &String, hash: String)
        requires
            old(self).wf(),
        ensures
            final(self).wf(),
            final(self).total_conns == old(self).total_conns,
            final(self).has_bucket(db@, user@),
            final(self).bucket(db@, user@).hash_view() == Some(hash@),
            final(self).bucket(db@, user@).conns@ == (if old(self).has_bucket(db@, user@) {
                old(self).bucket(db@, user@).conns@
            } else {
                Seq::<BackendConnection<C>>::empty()
            }),
            forall|d: Seq<char>, u: Seq<char>|
                !(d == db@ && u == user@) ==> #[trigger] final(self).has_bucket(d, u) == old(self).has_bucket(d, u),
            forall|d: Seq<char>, u: Seq<char>|
                !(d == db@ && u == user@) && old(self).has_bucket(d, u) ==> #[trigger] final(self).bucket(d, u) == old(self).bucket(d, u),
    {
        let ghost pre = *old(self);
        match self.bucket_index_of(db, user) {
            Some(i) => {
                proof {
                    lemma_assoc_at(self.pools@, i as int);
                }
                let mut entry = self.pools.remove(i);
                entry.1.password_hash = Some(hash);
                self.pools.insert(i, entry);
                proof {
                    lemma_remove_insert(pre.pools@, i as int, (pre.pools@[i as int].0, entry.1));
                    assert(self.pools@ =~= pre.pools@.update(
                        i as int,
                        (pre.pools@[i as int].0, entry.1),
                    ));
                    lemma_assoc_update(pre.pools@, i as int, entry.1);
                    lemma_sum_update(pre.pools@, i as int, (pre.pools@[i as int].0, entry.1));
                }
            },
            None => {
                let key = (db.clone(), user.clone());
                let bucket = DbUserConnPool { conns: Vec::new(), password_hash: Some(hash) };
                proof {
                    lemma_assoc_push(self.pools@, key, bucket);
                    lemma_sum_push(self.pools@, (key, bucket));
                }
                self.pools.push((key, bucket));
            },
        }
    }
}

// ---------------------------------------------------------------------------
// The global index.
// ---------------------------------------------------------------------------
/// How many idle connections one endpoint may hold, unless overridden at
/// construction.
pub const MAX_CONNS_PER_ENDPOINT: usize = 20;

/// The knobs the pool reads from the proxy configuration.
#[derive(Debug, Clone, Copy)]
pub struct PoolConfig {
    /// Idle connections an endpoint may hold; the newest return above this
    /// bound is dropped.
    pub max_conns_per_endpoint: usize,
}

impl Default for PoolConfig {
    fn default() -> (r: PoolConfig)
        ensures
            r.max_conns_per_endpoint == MAX_CONNS_PER_ENDPOINT,
    {
        PoolConfig { max_conns_per_endpoint: MAX_CONNS_PER_ENDPOINT }
    }
}

/// What became of a connection handed back to the pool.
#[derive(Debug, Clone, Copy, PartialEq, Eq, Structural)]
pub enum PutOutcome {
    /// Pushed on top of its bucket, available for reuse.
    Returned,
    /// Dropped: the pool has shut down.
    DiscardedClosed,
    /// Dropped: the connection itself had closed.
    DiscardedConnClosed,
    /// Dropped: the endpoint already holds `max_conns_per_endpoint` idle
    /// connections.  The newest return loses; nothing is evicted.
    DiscardedFull,
}

/// The process-wide index: one endpoint pool per hostname, a capacity bound
/// shared by all of them, and a `closed` gate that shutdown sets once.
pub struct GlobalConnPool<C> {
    /// hostname -> endpoint pool.
    pub global_pool: Vec<(String, EndpointConnPool<C>)>,
    /// Diagnostic counter of endpoint pools ever created.
    pub global_pool_size: usize,
    /// Idle connections one endpoint may hold.
    pub max_conns_per_endpoint: usize,
    /// Once true, returns are dropped silently and no idle connection
    /// remains anywhere in the index.
    pub closed: bool,
}

impl<C> GlobalConnPool<C> {
    /// An endpoint pool for this hostname exists.
    pub open spec fn has_ep(self, host: Seq<char>) -> bool {
        assoc_has(self.global_pool@, host)
    }

    /// The endpoint pool for this hostname.
    pub open spec fn ep(self, host: Seq<char>) -> EndpointConnPool<C> {
        assoc_get(self.global_pool@, host)
    }

    /// How many idle connections this endpoint holds (0 if absent).
    pub open spec fn ep_total(self, host: Seq<char>) -> nat {
        if self.has_ep(host) {
            self.ep(host).total_conns as nat
        } else {
            0
        }
    }

    /// The idle connections for (host, db, user), oldest first (empty if the
    /// endpoint or bucket is absent).
    pub open spec fn idle_conns(self, host: Seq<char>, db: Seq<char>, user: Seq<char>) -> Seq<
        BackendConnection<C>,
    > {
        if self.has_ep(host) && self.ep(host).has_bucket(db, user) {
            self.ep(host).bucket(db, user).conns@
        } else {
            Seq::empty()
        }
    }

    /// The cached password hash for (host, db, user), if any.
    pub open spec fn bucket_hash(self, host: Seq<char>, db: Seq<char>, user: Seq<char>) -> Option<
        Seq<char>,
    > {
        if self.has_ep(host) && self.ep(host).has_bucket(db, user) {
            self.ep(host).bucket(db, user).hash_view()
        } else {
            None
        }
    }

    /// Hostnames are unique; every endpoint pool is well formed and within
    /// the capacity bound; once closed, no endpoint holds an idle connection.
    pub open spec fn wf(self) -> bool {
        &&& assoc_unique(self.global_pool@)
        &&& forall|i: int|
            0 <= i < self.global_pool@.len() ==> (#[trigger] val_at(self.global_pool@, i)).wf()
        &&& forall|i: int|
            0 <= i < self.global_pool@.len() ==> (#[trigger] val_at(
                self.global_pool@,
                i,
            )).total_conns <= self.max_conns_per_endpoint
        &&& (self.closed ==> forall|i: int|
            0 <= i < self.global_pool@.len() ==> (#[trigger] val_at(
                self.global_pool@,
                i,
            )).total_conns == 0)
    }

    /// A fresh, open, empty index.
    pub fn new(config: PoolConfig) -> (r: GlobalConnPool<C>)
        ensures
            r.wf(),
            !r.closed,
            r.global_pool@.len() == 0,
            r.global_pool_size == 0,
            r.max_conns_per_endpoint == config.max_conns_per_endpoint,
            forall|h: Seq<char>| !(#[trigger] r.has_ep(h)),
    {
        let r = GlobalConnPool {
            global_pool: Vec::new(),
            global_pool_size: 0,
            max_conns_per_endpoint: config.max_conns_per_endpoint,
            closed: false,
        };
        proof {
            assert forall|h: Seq<char>| !(#[trigger] r.has_ep(h)) by {
                if r.has_ep(h) {
                    let m = assoc_at(r.global_pool@, h);
                    assert(false);
                }
            }
        }
        r
    }

    /// The position of the endpoint pool for this hostname, if one exists.
    fn ep_index_of(&self, hostname: &String) -> (r: Option<usize>)
        ensures
            match r {
                Some(i) => i < self.global_pool@.len() && key_at(self.global_pool@, i as int)
                    == hostname@,
                None => !self.has_ep(hostname@),
            },
    {
        let n = self.global_pool.len();
        let mut i: usize = 0;
        while i < n
            invariant
                n == self.global_pool@.len(),
                i <= n,
                forall|m: int| 0 <= m < i ==> #[trigger] key_at(self.global_pool@, m) != hostname@,
            decreases n - i,
        {
            let entry = &self.global_pool[i];
            if entry.0 == *hostname {
                proof {
                    assert(key_at(self.global_pool@, i as int) == hostname@);
                }
                return Some(i);
            }
            proof {
                assert(key_at(self.global_pool@, i as int) != hostname@);
            }
            i += 1;
        }
        proof {
            if self.has_ep(hostname@) {
                let m = assoc_at(self.global_pool@, hostname@);
                assert(false);
            }
        }
        None
    }

    /// Finds the endpoint pool for this hostname, creating an empty one (and
    /// bumping the diagnostic counter) if absent.
    pub(crate) fn get_or_create_endpoint_pool(&mut self, hostname: &String) -> (i: usize)
        requires
            old(self).wf(),
        ensures
            final(self).wf(),
            final(self).closed == old(self).closed,
            final(self).max_conns_per_endpoint == old(self).max_conns_per_endpoint,
            i < final(self).global_pool@.len(),
            key_at(final(self).global_pool@, i as int) == hostname@,
            final(self).has_ep(hostname@),
            assoc_at(final(self).global_pool@, hostname@) == i,
            old(self).has_ep(hostname@) ==> *final(self) == *old(self),
            !old(self).has_ep(hostname@) ==> {
                &&& final(self).global_pool_size == (if old(self).global_pool_size < usize::MAX {
                    old(self).global_pool_size + 1
                } else {
                    old(self).global_pool_size as int
                })
                &&& i == old(self).global_pool@.len()
                &&& final(self).global_pool@.len() == old(self).global_pool@.len() + 1
                &&& forall|m: int|
                    0 <= m < old(self).global_pool@.len() ==> final(self).global_pool@[m] == old(self).global_pool@[m]
                &&& val_at(final(self).global_pool@, i as int).pools@.len() == 0
                &&& val_at(final(self).global_pool@, i as int).total_conns == 0
                &&& forall|q: Seq<char>|
                    q != hostname@ ==> #[trigger] final(self).has_ep(q) == old(self).has_ep(q)
                &&& forall|q: Seq<char>|
                    q != hostname@ && old(self).has_ep(q) ==> #[trigger] final(self).ep(q) == old(self).ep(q)
            },
    {
        match self.ep_index_of(hostname) {
            Some(i) => {
                proof {
                    lemma_assoc_at(self.global_pool@, i as int);
                }
                i
            },
            None => {
                let ghost pre = *self;
                let i = self.global_pool.len();
                let host_key = hostname.clone();
                let ep = EndpointConnPool { pools: Vec::new(), total_conns: 0 };
                proof {
                    lemma_assoc_push(self.global_pool@, host_key, ep);
                    assert(sum_conns(ep.pools@) == 0);
                    assert(ep.wf());
                }
                self.global_pool.push((host_key, ep));
                if self.global_pool_size < usize::MAX {
                    self.global_pool_size = self.global_pool_size + 1;
                }
                proof {
                    assert forall|m: int| 0 <= m < self.global_pool@.len() implies (
                    #[trigger] val_at(self.global_pool@, m)).wf() && val_at(
                        self.global_pool@,
                        m,
                    ).total_conns <= self.max_conns_per_endpoint && (self.closed ==> val_at(
                        self.global_pool@,
                        m,
                    ).total_conns == 0) by {
                        if m < pre.global_pool@.len() {
                            assert(self.global_pool@[m] == pre.global_pool@[m]);
                            assert(val_at(pre.global_pool@, m).wf());
                        } else {
                            assert(val_at(self.global_pool@, m) == ep);
                        }
                    }
                }
                i
            },
        }
    }

    /// Hands a connection back to the pool: dropped if the pool has shut
    /// down, the connection has closed, or the endpoint is at capacity;
    /// otherwise pushed on top of its bucket, which is created if absent (the
    /// one path on which a bucket appears without a cached hash).
    pub fn put(&mut self, conn_info: &ConnInfo, client: BackendConnection<C>) -> (r: PutOutcome)
        requires
            old(self).wf(),
        ensures
            final(self).wf(),
            final(self).closed == old(self).closed,
            final(self).max_conns_per_endpoint == old(self).max_conns_per_endpoint,
            (r == PutOutcome::DiscardedClosed <==> old(self).closed),
            old(self).closed ==> *final(self) == *old(self),
            !old(self).closed ==> ((r == PutOutcome::DiscardedConnClosed) <==> client.closed),
            !old(self).closed && client.closed ==> *final(self) == *old(self),
            !old(self).closed && !client.closed ==> ({
                let host = conn_info@.hostname;
                let db = conn_info@.dbname;
                let user = conn_info@.username;
                &&& ((r == PutOutcome::Returned) <==> old(self).ep_total(host) < old(self).max_conns_per_endpoint)
                &&& ((r == PutOutcome::DiscardedFull) <==> old(self).ep_total(host) >= old(self).max_conns_per_endpoint)
                &&& final(self).has_ep(host)
                &&& (r == PutOutcome::Returned ==> {
                    &&& final(self).idle_conns(host, db, user) == old(self).idle_conns(
                        host,
                        db,
                        user,
                    ).push(client)
                    &&& final(self).ep_total(host) == old(self).ep_total(host) + 1
                })
                &&& (r == PutOutcome::DiscardedFull ==> {
                    &&& final(self).idle_conns(host, db, user) == old(self).idle_conns(
                        host,
                        db,
                        user,
                    )
                    &&& final(self).ep_total(host) == old(self).ep_total(host)
                })
                &&& forall|h: Seq<char>, d: Seq<char>, u: Seq<char>|
                    !(h == host && d == db && u == user) ==> #[trigger] final(self).idle_conns(
                        h,
                        d,
                        u,
                    ) == old(self).idle_conns(h, d, u)
                &&& forall|h: Seq<char>, d: Seq<char>, u: Seq<char>| #[trigger] final(self).bucket_hash(h, d, u) == old(self).bucket_hash(h, d, u)
                &&& forall|h: Seq<char>|
                    h != host ==> #[trigger] final(self).ep_total(h) == old(self).ep_total(h)
            }),
    {
        let ghost pre = *old(self);
        if self.closed {
            return PutOutcome::DiscardedClosed;
        }
        if client.closed {
            return PutOutcome::DiscardedConnClosed;
        }
        let (db, user) = conn_info.db_and_user();
        let i = self.get_or_create_endpoint_pool(&conn_info.hostname);
        let ghost mid = *self;
        let ghost host = conn_info@.hostname;
        let ghost db_v = conn_info@.dbname;
        let ghost user_v = conn_info@.username;
        proof {
            lemma_assoc_at(mid.global_pool@, i as int);
            assert(mid.ep(host) == val_at(mid.global_pool@, i as int));
            if !pre.has_ep(host) {
                assert(pre.ep_total(host) == 0);
                assert(mid.ep(host).total_conns == 0);
                assert forall|d: Seq<char>, u: Seq<char>|
                    !(#[trigger] mid.ep(host).has_bucket(d, u)) by {
                    if mid.ep(host).has_bucket(d, u) {
                        let m = assoc_at(mid.ep(host).pools@, (d, u));
                        assert(false);
                    }
                }
            }
            assert(pre.ep_total(host) == mid.ep(host).total_conns as nat);
        }
        if self.global_pool[i].1.total_conns < self.max_conns_per_endpoint {
            let mut entry = self.global_pool.remove(i);
            proof {
                lemma_assoc_at(mid.global_pool@, i as int);
            }
            entry.1.push_conn(&db, &user, client);
            self.global_pool.insert(i, entry);
            proof {
                lemma_remove_insert(
                    mid.global_pool@,
                    i as int,
                    (mid.global_pool@[i as int].0, entry.1),
                );
                assert(self.global_pool@ =~= mid.global_pool@.update(
                    i as int,
                    (mid.global_pool@[i as int].0, entry.1),
                ));
                lemma_assoc_update(mid.global_pool@, i as int, entry.1);
                assert(self.has_ep(host) && self.ep(host) == entry.1);
                // Well-formedness of every endpoint after the update.
                assert forall|m: int| 0 <= m < self.global_pool@.len() implies (#[trigger] val_at(
                    self.global_pool@,
                    m,
                )).wf() && val_at(self.global_pool@, m).total_conns
                    <= self.max_conns_per_endpoint by {
                    if m != i {
                        assert(self.global_pool@[m] == mid.global_pool@[m]);
                        assert(val_at(mid.global_pool@, m).wf());
                    }
                }
                // What the caller sees at the put key.
                assert(self.idle_conns(host, db_v, user_v) == pre.idle_conns(
                    host,
                    db_v,
                    user_v,
                ).push(client));
                assert(self.ep_total(host) == pre.ep_total(host) + 1);
                // Other keys are untouched.
                assert forall|h: Seq<char>, d: Seq<char>, u: Seq<char>|
                    !(h == host && d == db_v && u == user_v) implies #[trigger] self.idle_conns(
                    h,
                    d,
                    u,
                ) == pre.idle_conns(h, d, u) by {
                    if h == host {
                        assert(mid.idle_conns(h, d, u) == pre.idle_conns(h, d, u));
                        assert(self.ep(host).has_bucket(d, u) == mid.ep(host).has_bucket(d, u));
                        if mid.ep(host).has_bucket(d, u) {
                            assert(self.ep(host).bucket(d, u) == mid.ep(host).bucket(d, u));
                        }
                    } else {
                        assert(self.has_ep(h) == mid.has_ep(h));
                        if mid.has_ep(h) {
                            assert(self.ep(h) == mid.ep(h));
                        }
                        assert(mid.idle_conns(h, d, u) == pre.idle_conns(h, d, u));
                    }
                }
                assert forall|h: Seq<char>, d: Seq<char>, u: Seq<char>| #[trigger] self.bucket_hash(
                    h,
                    d,
                    u,
                ) == pre.bucket_hash(h, d, u) by {
                    if h == host {
                        assert(mid.bucket_hash(h, d, u) == pre.bucket_hash(h, d, u));
                        assert(self.ep(host).has_bucket(d, u) == mid.ep(host).has_bucket(d, u) || (
                        d == db_v && u == user_v));
                        if d == db_v && u == user_v {
                            assert(self.ep(host).bucket(d, u).hash_view() == (if mid.ep(
                                host,
                            ).has_bucket(d, u) {
                                mid.ep(host).bucket(d, u).hash_view()
                            } else {
                                None::<Seq<char>>
                            }));
                        } else {
                            if mid.ep(host).has_bucket(d, u) {
                                assert(self.ep(host).bucket(d, u) == mid.ep(host).bucket(d, u));
                            }
                        }
                    } else {
                        assert(self.has_ep(h) == mid.has_ep(h));
                        if mid.has_ep(h) {
                            assert(self.ep(h) == mid.ep(h));
                        }
                        assert(mid.bucket_hash(h, d, u) == pre.bucket_hash(h, d, u));
                    }
                }
                assert forall|h: Seq<char>| h != host implies #[trigger] self.ep_total(h)
                    == pre.ep_total(h) by {
                    assert(self.has_ep(h) == mid.has_ep(h));
                    if mid.has_ep(h) {
                        assert(self.ep(h) == mid.ep(h));
                    }
                    assert(mid.ep_total(h) == pre.ep_total(h));
                }
            }
            PutOutcome::Returned
        } else {
            proof {
                assert(*self == mid);
                if pre.has_ep(host) {
                    assert(mid == pre);
                } else {
                    assert(self.idle_conns(host, db_v, user_v) =~= pre.idle_conns(
                        host,
                        db_v,
                        user_v,
                    ));
                    assert forall|h: Seq<char>, d: Seq<char>, u: Seq<char>|
                        !(h == host && d == db_v && u == user_v) implies #[trigger] self.idle_conns(
                        h,
                        d,
                        u,
                    ) == pre.idle_conns(h, d, u) by {
                        if h != host {
                            assert(self.has_ep(h) == pre.has_ep(h));
                            if pre.has_ep(h) {
                                assert(self.ep(h) == pre.ep(h));
                            }
                        } else {
                            assert(self.idle_conns(h, d, u) =~= pre.idle_conns(h, d, u));
                        }
                    }
                    assert forall|h: Seq<char>, d: Seq<char>, u: Seq<char>| #[trigger] self
                        .bucket_hash(h, d, u) == pre.bucket_hash(h, d, u) by {
                        if h != host {
                            assert(self.has_ep(h) == pre.has_ep(h));
                            if pre.has_ep(h) {
                                assert(self.ep(h) == pre.ep(h));
                            }
                        }
                    }
                    assert forall|h: Seq<char>| h != host implies #[trigger] self.ep_total(h)
                        == pre.ep_total(h) by {
                        assert(self.has_ep(h) == pre.has_ep(h));
                        if pre.has_ep(h) {
                            assert(self.ep(h) == pre.ep(h));
                        }
                    }
                }
            }
            PutOutcome::DiscardedFull
        }
    }

    /// Sets `closed` and removes every endpoint pool together with every
    /// idle connection it holds.  May be called more than once.  An
    /// outstanding lease finishes its request; `put` then sees the flag and
    /// swallows the return.
    pub fn shutdown(&mut self)
        requires
            old(self).wf(),
        ensures
            final(self).wf(),
            final(self).closed,
            final(self).global_pool@.len() == 0,
            final(self).max_conns_per_endpoint == old(self).max_conns_per_endpoint,
            final(self).global_pool_size == old(self).global_pool_size,
            forall|h: Seq<char>| !(#[trigger] final(self).has_ep(h)),
            forall|h: Seq<char>, d: Seq<char>, u: Seq<char>| #[trigger] final(self).idle_conns(
                h,
                d,
                u,
            ) == Seq::<BackendConnection<C>>::empty(),
    {
        self.closed = true;
        self.global_pool.clear();
        proof {
            assert forall|h: Seq<char>| !(#[trigger] self.has_ep(h)) by {
                if self.has_ep(h) {
                    let m = assoc_at(self.global_pool@, h);
                    assert(false);
                }
            }
        }
    }
}

} // verus!
