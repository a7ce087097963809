//! The pool's global laws, stated once over the whole index.
//!
//! Each operation's contract carries its own precise effect; these lemmas
//! state the properties a reader should be able to rely on at any quiescent
//! point, and prove them from well-formedness alone.

use crate::conn::BackendConnection;
use crate::pool::{
    assoc_at, lemma_sum_zero, sum_conns, val_at, EndpointConnPool, GlobalConnPool,
};
use vstd::prelude::*;

verus! {

/// LAW (capacity bound): at every quiescent point, no endpoint of a
/// well-formed pool holds more than `max_conns_per_endpoint` idle
/// connections.
pub proof fn lemma_capacity_bound<C>(pool: GlobalConnPool<C>, host: Seq<char>)
    requires
        pool.wf(),
    ensures
        pool.ep_total(host) <= pool.max_conns_per_endpoint,
{
    if pool.has_ep(host) {
        let i = assoc_at(pool.global_pool@, host);
        assert(val_at(pool.global_pool@, i).total_conns <= pool.max_conns_per_endpoint);
    }
}

/// LAW (counter consistency): in every well-formed endpoint pool the counter
/// equals the sum of its buckets' sizes.  Well-formedness is required by and
/// preserved through every pool operation, so this holds at every quiescent
/// point.
pub proof fn lemma_counter_consistency<C>(ep: EndpointConnPool<C>)
    requires
        ep.wf(),
    ensures
        ep.total_conns == sum_conns(ep.pools@),
{
}

/// LAW (shutdown drains): once the pool is closed — which `shutdown`
/// establishes and every operation preserves — no bucket anywhere holds an
/// idle connection, so nothing can be handed out of the cache again.
pub proof fn lemma_closed_pool_empty<C>(
    pool: GlobalConnPool<C>,
    host: Seq<char>,
    db: Seq<char>,
    user: Seq<char>,
)
    requires
        pool.wf(),
        pool.closed,
    ensures
        pool.idle_conns(host, db, user) == Seq::<BackendConnection<C>>::empty(),
{
    if pool.has_ep(host) {
        let i = assoc_at(pool.global_pool@, host);
        let ep = val_at(pool.global_pool@, i);
        assert(ep.total_conns == 0);
        assert(ep.wf());
        lemma_sum_zero(ep.pools@);
        if ep.has_bucket(db, user) {
            let j = assoc_at(ep.pools@, (db, user));
            assert(ep.pools@[j].1.conns@.len() == 0);
            assert(pool.idle_conns(host, db, user) =~= Seq::<BackendConnection<C>>::empty());
        } else {
            assert(pool.idle_conns(host, db, user) =~= Seq::<BackendConnection<C>>::empty());
        }
    } else {
        assert(pool.idle_conns(host, db, user) =~= Seq::<BackendConnection<C>>::empty());
    }
}

/// LAW (LIFO reuse): `put` appends to the bucket's stack and `get_cached`
/// pops its last element, so after connections `a` then `b` are returned to
/// one bucket, the next acquire takes `b` and leaves the stack as it was
/// after `a`.
pub proof fn lemma_lifo_reuse<C>(
    conns: Seq<BackendConnection<C>>,
    a: BackendConnection<C>,
    b: BackendConnection<C>,
)
    ensures
        conns.push(a).push(b).last() == b,
        conns.push(a).push(b).drop_last() == conns.push(a),
{
    assert(conns.push(a).push(b).drop_last() =~= conns.push(a));
}

} // verus!
