use load_balancer::pool::{AcquireAction, AcquireEvent, ConnState, ConnectionPool};

fn fresh_connection(pool: &mut ConnectionPool, backend: usize) -> u64 {
    assert_eq!(pool.get_connection_step(backend, AcquireEvent::Begin), AcquireAction::Connect);
    match pool.get_connection_step(backend, AcquireEvent::Connected(true)) {
        AcquireAction::Ready(id) => id,
        other => panic!("expected a ready connection, got {:?}", other),
    }
}

#[test]
fn empty_pool_asks_for_a_new_socket() {
    let mut pool = ConnectionPool::new();
    assert_eq!(pool.get_connection_step(0, AcquireEvent::Begin), AcquireAction::Connect);
    assert!(pool.connections().is_empty());
}

#[test]
fn new_connection_is_recorded_in_use() {
    let mut pool = ConnectionPool::new();
    let id = fresh_connection(&mut pool, 2);
    assert_eq!(id, 0);
    assert_eq!(pool.connections().len(), 1);
    assert_eq!(pool.connections()[0].backend, 2);
    assert_eq!(pool.connections()[0].state, ConnState::InUse);
}

#[test]
fn refused_connect_fails_and_records_nothing() {
    let mut pool = ConnectionPool::new();
    assert_eq!(pool.get_connection_step(1, AcquireEvent::Connected(false)), AcquireAction::Failed);
    assert!(pool.connections().is_empty());
}

#[test]
fn released_connection_is_reused() {
    let mut pool = ConnectionPool::new();
    let id = fresh_connection(&mut pool, 0);
    pool.release_connection(0, id);
    assert_eq!(pool.connections()[0].state, ConnState::Idle);
    assert_eq!(pool.get_connection_step(0, AcquireEvent::Begin), AcquireAction::Probe(id));
    assert_eq!(pool.get_connection_step(0, AcquireEvent::Probed(id, true)), AcquireAction::Ready(id));
    assert_eq!(pool.connections().len(), 1);
    assert_eq!(pool.connections()[0].state, ConnState::InUse);
}

#[test]
fn idle_connection_of_another_backend_is_not_used() {
    let mut pool = ConnectionPool::new();
    let id = fresh_connection(&mut pool, 0);
    pool.release_connection(0, id);
    assert_eq!(pool.get_connection_step(1, AcquireEvent::Begin), AcquireAction::Connect);
}

#[test]
fn failed_probe_evicts_and_opens_fresh() {
    let mut pool = ConnectionPool::new();
    let id = fresh_connection(&mut pool, 0);
    pool.release_connection(0, id);
    assert_eq!(pool.get_connection_step(0, AcquireEvent::Begin), AcquireAction::Probe(id));
    assert_eq!(pool.get_connection_step(0, AcquireEvent::Probed(id, false)), AcquireAction::Connect);
    assert!(pool.connections().is_empty());
    let next = match pool.get_connection_step(0, AcquireEvent::Connected(true)) {
        AcquireAction::Ready(n) => n,
        other => panic!("expected a ready connection, got {:?}", other),
    };
    assert_ne!(next, id);
}

#[test]
fn failed_probe_moves_on_to_next_idle() {
    let mut pool = ConnectionPool::new();
    let a = fresh_connection(&mut pool, 0);
    let b = fresh_connection(&mut pool, 0);
    pool.release_connection(0, a);
    pool.release_connection(0, b);
    assert_eq!(pool.get_connection_step(0, AcquireEvent::Begin), AcquireAction::Probe(a));
    assert_eq!(pool.get_connection_step(0, AcquireEvent::Probed(a, false)), AcquireAction::Probe(b));
    assert_eq!(pool.get_connection_step(0, AcquireEvent::Probed(b, true)), AcquireAction::Ready(b));
    assert_eq!(pool.connections().len(), 1);
}

#[test]
fn evicted_connection_never_returns() {
    let mut pool = ConnectionPool::new();
    let id = fresh_connection(&mut pool, 0);
    pool.evict_connection(0, id);
    assert!(pool.connections().is_empty());
    pool.release_connection(0, id);
    assert!(pool.connections().is_empty());
    assert_eq!(pool.get_connection_step(0, AcquireEvent::Begin), AcquireAction::Connect);
}

#[test]
fn release_of_unknown_connection_is_a_no_op() {
    let mut pool = ConnectionPool::new();
    let id = fresh_connection(&mut pool, 0);
    pool.release_connection(0, id + 7);
    pool.release_connection(1, id);
    assert_eq!(pool.connections().len(), 1);
    assert_eq!(pool.connections()[0].state, ConnState::InUse);
}

#[test]
fn identifiers_increase() {
    let mut pool = ConnectionPool::new();
    let a = fresh_connection(&mut pool, 0);
    let b = fresh_connection(&mut pool, 1);
    let c = fresh_connection(&mut pool, 0);
    assert_eq!((a, b, c), (0, 1, 2));
}
