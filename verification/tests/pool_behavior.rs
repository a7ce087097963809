use conn_pool::{
    BackendConnection, CacheOutcome, ConnInfo, GlobalConnPool, Ids, PoolConfig, PoolError,
    PutOutcome, ReadyForQueryStatus,
};

fn info(host: &str, db: &str, user: &str, pw: &str) -> ConnInfo {
    ConnInfo {
        username: user.to_string(),
        dbname: db.to_string(),
        hostname: host.to_string(),
        password: pw.to_string(),
        options: None,
    }
}

fn conn(id: u128) -> BackendConnection<u64> {
    BackendConnection {
        inner: id as u64,
        session: 0,
        ids: Ids { endpoint_id: "ep-one".to_string(), branch_id: "br-one".to_string() },
        conn_id: id,
        closed: false,
    }
}

fn idle_count(pool: &GlobalConnPool<u64>, host: &str, db: &str, user: &str) -> usize {
    for (h, ep) in pool.global_pool.iter() {
        if h == host {
            for (key, bucket) in ep.pools.iter() {
                if key.0 == db && key.1 == user {
                    return bucket.conns.len();
                }
            }
        }
    }
    0
}

fn cached_hash(pool: &GlobalConnPool<u64>, host: &str, db: &str, user: &str) -> Option<String> {
    for (h, ep) in pool.global_pool.iter() {
        if h == host {
            for (key, bucket) in ep.pools.iter() {
                if key.0 == db && key.1 == user {
                    return bucket.password_hash.clone();
                }
            }
        }
    }
    None
}

/// One full miss-then-dial acquire that leaves a hash cached and hands the
/// lease back, so the bucket holds one idle connection afterwards.
fn preload(pool: &mut GlobalConnPool<u64>, ci: &ConnInfo, id: u128, session: u128) {
    let outcome = pool.get_cached(ci, false, session);
    let hash_valid = match outcome {
        CacheOutcome::Dial { hash_valid } => hash_valid,
        CacheOutcome::Reuse(_) => panic!("expected a miss while preloading"),
    };
    let client = pool.finish_dial(ci, false, hash_valid, Ok(conn(id))).expect("dial recorded Ok");
    let put = client.release(pool);
    assert_eq!(put, Some(PutOutcome::Returned));
}

#[test]
fn warm_reuse_second_acquire_hits() {
    let mut pool: GlobalConnPool<u64> = GlobalConnPool::new(PoolConfig::default());
    let ci = info("h", "d", "u", "p");
    let mut dials: usize = 0;

    // First acquire: miss, one dial.
    let outcome = pool.get_cached(&ci, false, 1);
    assert!(matches!(outcome, CacheOutcome::Dial { hash_valid: false }));
    dials += 1;
    let client = pool.finish_dial(&ci, false, false, Ok(conn(41))).expect("first dial succeeds");
    assert_eq!(client.conn_id, 41);
    assert_eq!(client.release(&mut pool), Some(PutOutcome::Returned));

    // Second acquire with a new session: pool hit, no second dial.
    let outcome = pool.get_cached(&ci, false, 2);
    match outcome {
        CacheOutcome::Reuse(client2) => {
            let inner = client2.inner.as_ref().expect("lease owns the connection");
            assert_eq!(inner.conn_id, 41);
            assert_eq!(inner.session, 2, "driver is rebound to the new session");
        }
        CacheOutcome::Dial { .. } => panic!("second acquire must reuse"),
    }
    assert_eq!(dials, 1);
    // The reused connection now lives in exactly one place: the lease.
    assert_eq!(idle_count(&pool, "h", "d", "u"), 0);
}

#[test]
fn stale_hash_eviction() {
    let mut pool: GlobalConnPool<u64> = GlobalConnPool::new(PoolConfig::default());
    let ci = info("h", "d", "u", "p");
    preload(&mut pool, &ci, 7, 1);
    assert!(cached_hash(&pool, "h", "d", "u").is_some());
    // The idle connection has died while pooled.
    pool.global_pool[0].1.pools[0].1.conns[0].closed = true;

    // Acquire with the wrong password: verify fails, miss branch dials, the
    // backend denies it.  The hash stays: the cached hash was not consulted
    // for reuse.
    let wrong = info("h", "d", "u", "wrong");
    let outcome = pool.get_cached(&wrong, false, 2);
    assert!(matches!(outcome, CacheOutcome::Dial { hash_valid: false }));
    let err = match pool.finish_dial(
        &wrong,
        false,
        false,
        Err("password authentication failed".to_string()),
    ) {
        Err(e) => e,
        Ok(_) => panic!("denied dial surfaces"),
    };
    assert_eq!(err, PoolError::Dial("password authentication failed".to_string()));
    assert!(cached_hash(&pool, "h", "d", "u").is_some(), "hash survives an unverified acquire");

    // Acquire with the right password: the hash verifies, the popped
    // connection is dead, the dial is denied -> the hash is now known stale
    // and is cleared before the acquire returns.
    let outcome = pool.get_cached(&ci, false, 3);
    assert!(matches!(outcome, CacheOutcome::Dial { hash_valid: true }));
    let err = match pool.finish_dial(
        &ci,
        false,
        true,
        Err("db: password authentication failed (code)".to_string()),
    ) {
        Err(e) => e,
        Ok(_) => panic!("denied dial surfaces"),
    };
    assert!(matches!(err, PoolError::Dial(_)));
    assert!(cached_hash(&pool, "h", "d", "u").is_none(), "stale hash is evicted");
}

#[test]
fn capacity_cap_drops_third_return() {
    let mut pool: GlobalConnPool<u64> = GlobalConnPool::new(PoolConfig { max_conns_per_endpoint: 2 });
    let ci = info("h", "d", "u", "p");

    // Three concurrent acquires, all misses (the bucket never holds an idle
    // connection while they run).
    let mut clients = Vec::new();
    for id in 1..=3u128 {
        let outcome = pool.get_cached(&ci, false, id);
        let hash_valid = match outcome {
            CacheOutcome::Dial { hash_valid } => hash_valid,
            CacheOutcome::Reuse(_) => panic!("bucket is empty; these must miss"),
        };
        clients.push(pool.finish_dial(&ci, false, hash_valid, Ok(conn(id))).expect("dial ok"));
    }

    // Return all three: the first two fit, the third finds the endpoint full.
    let mut outcomes = Vec::new();
    for client in clients {
        outcomes.push(client.release(&mut pool).expect("all three leases are returnable"));
    }
    assert_eq!(outcomes[0], PutOutcome::Returned);
    assert_eq!(outcomes[1], PutOutcome::Returned);
    assert_eq!(outcomes[2], PutOutcome::DiscardedFull);
    assert_eq!(idle_count(&pool, "h", "d", "u"), 2);
    assert_eq!(pool.global_pool[0].1.total_conns, 2);
}

#[test]
fn force_new_isolation() {
    let mut pool: GlobalConnPool<u64> = GlobalConnPool::new(PoolConfig::default());
    let ci = info("h", "d", "u", "p");
    preload(&mut pool, &ci, 5, 1);
    let hash_before = cached_hash(&pool, "h", "d", "u").expect("preload cached a hash");

    // force_new: no hash is read, nothing is popped even though an idle
    // connection exists.
    let outcome = pool.get_cached(&ci, true, 2);
    assert!(matches!(outcome, CacheOutcome::Dial { hash_valid: false }));
    assert_eq!(idle_count(&pool, "h", "d", "u"), 1, "the idle connection was not popped");

    // The force_new lease is non-returnable: its drop does not pool the
    // connection, and no hash is computed from this path.
    let client = pool.finish_dial(&ci, true, false, Ok(conn(9))).expect("dial ok");
    assert!(client.pool.is_none(), "force_new lease carries no back-reference");
    assert_eq!(client.release(&mut pool), None);
    assert_eq!(idle_count(&pool, "h", "d", "u"), 1);
    assert_eq!(cached_hash(&pool, "h", "d", "u"), Some(hash_before.clone()), "hash untouched");

    // An explicit put of a fresh force_new connection is not suppressed: it
    // is pooled, and this is the one path that creates a bucket without a
    // cached hash.
    let ci2 = info("h2", "d", "u", "p");
    assert_eq!(pool.put(&ci2, conn(10)), PutOutcome::Returned);
    assert_eq!(idle_count(&pool, "h2", "d", "u"), 1);
    assert!(cached_hash(&pool, "h2", "d", "u").is_none(), "bucket created without a hash");
}

#[test]
fn shutdown_races_with_outstanding_lease() {
    let mut pool: GlobalConnPool<u64> = GlobalConnPool::new(PoolConfig::default());
    let ci = info("h", "d", "u", "p");
    let outcome = pool.get_cached(&ci, false, 1);
    assert!(matches!(outcome, CacheOutcome::Dial { hash_valid: false }));
    let client = pool.finish_dial(&ci, false, false, Ok(conn(3))).expect("dial ok");

    pool.shutdown();
    assert_eq!(pool.global_pool.len(), 0);

    // The outstanding lease completes; its return is swallowed silently.
    assert_eq!(client.release(&mut pool), Some(PutOutcome::DiscardedClosed));
    assert_eq!(pool.global_pool.len(), 0);

    // Shutdown is idempotent.
    pool.shutdown();
    assert_eq!(pool.global_pool.len(), 0);
}

#[test]
fn put_after_shutdown_does_not_increase_any_count() {
    let mut pool: GlobalConnPool<u64> = GlobalConnPool::new(PoolConfig::default());
    let ci = info("h", "d", "u", "p");
    pool.shutdown();
    assert_eq!(pool.put(&ci, conn(1)), PutOutcome::DiscardedClosed);
    assert_eq!(pool.global_pool.len(), 0);
    assert_eq!(idle_count(&pool, "h", "d", "u"), 0);
}

#[test]
fn non_idle_connection_is_discarded_on_drop() {
    let mut pool: GlobalConnPool<u64> = GlobalConnPool::new(PoolConfig::default());
    let ci = info("h", "d", "u", "p");
    let outcome = pool.get_cached(&ci, false, 1);
    assert!(matches!(outcome, CacheOutcome::Dial { hash_valid: false }));
    let mut client = pool.finish_dial(&ci, false, false, Ok(conn(8))).expect("dial ok");

    // The statement left the session inside a transaction.
    client.check_idle(ReadyForQueryStatus::InTransaction);
    assert_eq!(client.release(&mut pool), None, "non-idle connection is not returned");
    assert_eq!(idle_count(&pool, "h", "d", "u"), 0);
}

#[test]
fn idle_connection_is_returned_on_drop() {
    let mut pool: GlobalConnPool<u64> = GlobalConnPool::new(PoolConfig::default());
    let ci = info("h", "d", "u", "p");
    let outcome = pool.get_cached(&ci, false, 1);
    assert!(matches!(outcome, CacheOutcome::Dial { hash_valid: false }));
    let mut client = pool.finish_dial(&ci, false, false, Ok(conn(8))).expect("dial ok");

    client.check_idle(ReadyForQueryStatus::Idle);
    assert_eq!(client.release(&mut pool), Some(PutOutcome::Returned));
    assert_eq!(idle_count(&pool, "h", "d", "u"), 1);
}

#[test]
fn discard_revokes_poolability() {
    let mut pool: GlobalConnPool<u64> = GlobalConnPool::new(PoolConfig::default());
    let ci = info("h", "d", "u", "p");
    let outcome = pool.get_cached(&ci, false, 1);
    assert!(matches!(outcome, CacheOutcome::Dial { hash_valid: false }));
    let mut client = pool.finish_dial(&ci, false, false, Ok(conn(8))).expect("dial ok");

    client.discard();
    assert_eq!(client.release(&mut pool), None);
    assert_eq!(idle_count(&pool, "h", "d", "u"), 0);
}

#[test]
fn detached_discard_handle_revokes_poolability() {
    let mut pool: GlobalConnPool<u64> = GlobalConnPool::new(PoolConfig::default());
    let ci = info("h", "d", "u", "p");
    let outcome = pool.get_cached(&ci, false, 1);
    assert!(matches!(outcome, CacheOutcome::Dial { hash_valid: false }));
    let mut client = pool.finish_dial(&ci, false, false, Ok(conn(8))).expect("dial ok");

    {
        let (payload, mut discard) = client.inner();
        assert_eq!(*payload, 8u64);
        discard.check_idle(ReadyForQueryStatus::InFailedTransaction);
        client.reattach(discard);
    }
    assert_eq!(client.release(&mut pool), None);
}

#[test]
fn lifo_reuse_pops_most_recent_return() {
    let mut pool: GlobalConnPool<u64> = GlobalConnPool::new(PoolConfig::default());
    let ci = info("h", "d", "u", "p");
    preload(&mut pool, &ci, 1, 1);
    // Return a second connection on top.
    assert_eq!(pool.put(&ci, conn(2)), PutOutcome::Returned);
    assert_eq!(idle_count(&pool, "h", "d", "u"), 2);

    let outcome = pool.get_cached(&ci, false, 9);
    match outcome {
        CacheOutcome::Reuse(client) => assert_eq!(client.conn_id, 2, "most recent return first"),
        CacheOutcome::Dial { .. } => panic!("expected a hit"),
    }
    let outcome = pool.get_cached(&ci, false, 10);
    match outcome {
        CacheOutcome::Reuse(client) => assert_eq!(client.conn_id, 1),
        CacheOutcome::Dial { .. } => panic!("expected a second hit"),
    }
}

#[test]
fn wrong_password_does_not_reuse() {
    let mut pool: GlobalConnPool<u64> = GlobalConnPool::new(PoolConfig::default());
    let ci = info("h", "d", "u", "p");
    preload(&mut pool, &ci, 1, 1);

    // Same bucket, different password: PBKDF2 verification must fail, so the
    // idle connection stays where it is.
    let wrong = info("h", "d", "u", "not-p");
    let outcome = pool.get_cached(&wrong, false, 2);
    assert!(matches!(outcome, CacheOutcome::Dial { hash_valid: false }));
    assert_eq!(idle_count(&pool, "h", "d", "u"), 1);
}

#[test]
fn counter_matches_bucket_sizes() {
    let mut pool: GlobalConnPool<u64> = GlobalConnPool::new(PoolConfig::default());
    let a = info("h", "d1", "u", "p");
    let b = info("h", "d2", "u", "p");
    assert_eq!(pool.put(&a, conn(1)), PutOutcome::Returned);
    assert_eq!(pool.put(&a, conn(2)), PutOutcome::Returned);
    assert_eq!(pool.put(&b, conn(3)), PutOutcome::Returned);

    let ep = &pool.global_pool[0].1;
    let total: usize = ep.pools.iter().map(|(_, bucket)| bucket.conns.len()).sum();
    assert_eq!(ep.total_conns, total);
    assert_eq!(total, 3);
}

#[test]
fn capacity_bound_holds_under_many_returns() {
    let max: usize = 4;
    let mut pool: GlobalConnPool<u64> = GlobalConnPool::new(PoolConfig { max_conns_per_endpoint: max });
    let a = info("h", "d1", "u", "p");
    let b = info("h", "d2", "u", "p");
    for id in 0..10u128 {
        let ci = if id % 2 == 0 { &a } else { &b };
        pool.put(ci, conn(id));
    }
    assert_eq!(pool.global_pool[0].1.total_conns, max);
    let total: usize = pool.global_pool[0].1.pools.iter().map(|(_, bkt)| bkt.conns.len()).sum();
    assert_eq!(total, max);
}

#[test]
fn closed_popped_connection_falls_through_to_dial() {
    let mut pool: GlobalConnPool<u64> = GlobalConnPool::new(PoolConfig::default());
    let ci = info("h", "d", "u", "p");
    preload(&mut pool, &ci, 1, 1);
    pool.global_pool[0].1.pools[0].1.conns[0].closed = true;

    let outcome = pool.get_cached(&ci, false, 2);
    assert!(matches!(outcome, CacheOutcome::Dial { hash_valid: true }));
    assert_eq!(idle_count(&pool, "h", "d", "u"), 0, "the dead connection was dropped");
    assert_eq!(pool.global_pool[0].1.total_conns, 0);
}

#[test]
fn put_of_closed_connection_is_dropped() {
    let mut pool: GlobalConnPool<u64> = GlobalConnPool::new(PoolConfig::default());
    let ci = info("h", "d", "u", "p");
    let mut dead = conn(1);
    dead.closed = true;
    assert_eq!(pool.put(&ci, dead), PutOutcome::DiscardedConnClosed);
    assert_eq!(idle_count(&pool, "h", "d", "u"), 0);
}

#[test]
fn metrics_reports_dial_time_ids() {
    let mut pool: GlobalConnPool<u64> = GlobalConnPool::new(PoolConfig::default());
    let ci = info("h", "d", "u", "p");
    let outcome = pool.get_cached(&ci, false, 1);
    assert!(matches!(outcome, CacheOutcome::Dial { hash_valid: false }));
    let client = pool.finish_dial(&ci, false, false, Ok(conn(8))).expect("dial ok");
    let ids = client.metrics();
    assert_eq!(ids.endpoint_id, "ep-one");
    assert_eq!(ids.branch_id, "br-one");
}

#[test]
fn separate_endpoints_do_not_share_buckets() {
    let mut pool: GlobalConnPool<u64> = GlobalConnPool::new(PoolConfig::default());
    let a = info("h1", "d", "u", "p");
    let b = info("h2", "d", "u", "p");
    assert_eq!(pool.put(&a, conn(1)), PutOutcome::Returned);
    assert_eq!(pool.put(&b, conn(2)), PutOutcome::Returned);
    assert_eq!(idle_count(&pool, "h1", "d", "u"), 1);
    assert_eq!(idle_count(&pool, "h2", "d", "u"), 1);
    assert_eq!(pool.global_pool.len(), 2);
    assert_eq!(pool.global_pool_size, 2);
}
