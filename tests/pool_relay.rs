use anybls::connection_pool::{Acquire, ConnectionPool, PooledConnection};
use anybls::net::{IpAddress, SocketAddress};
use anybls::zero_copy::{CopyAction, CopyState, ZeroCopyBuffer};

fn target(port: u16) -> SocketAddress {
    SocketAddress { ip: IpAddress::v4(127, 0, 0, 1), port }
}

#[test]
fn test_connection_pool_creation() {
    let pool: ConnectionPool<u32> = ConnectionPool::new(10, 100, 5, 30);
    let stats = pool.stats();
    assert_eq!(stats.total_connections, 0);
    assert_eq!(stats.targets, 0);
}

#[test]
fn test_connection_pool_stats() {
    let pool: ConnectionPool<u32> = ConnectionPool::new(5, 50, 5, 30);
    let stats = pool.stats();
    assert_eq!(stats.available_permits, 50);
}

#[test]
fn admission_bound_and_release() {
    let mut pool: ConnectionPool<u32> = ConnectionPool::new(2, 3, 5, 30);
    for _ in 0..3 {
        assert!(matches!(pool.acquire(target(80), 0), Acquire::Dial));
    }
    assert!(matches!(pool.acquire(target(80), 0), Acquire::Exhausted));
    assert!(matches!(pool.acquire(target(81), 0), Acquire::Exhausted));
    pool.release_slot();
    assert!(matches!(pool.acquire(target(81), 0), Acquire::Dial));
    assert!(matches!(pool.acquire(target(81), 0), Acquire::Exhausted));
    pool.dial_failed();
    assert_eq!(pool.stats().available_permits, 1);
}

#[test]
fn pooled_connections_are_reused_until_idle_timeout() {
    let mut pool: ConnectionPool<u32> = ConnectionPool::new(1, 4, 5, 30);
    assert!(matches!(pool.acquire(target(80), 0), Acquire::Dial));
    assert!(matches!(pool.acquire(target(80), 0), Acquire::Dial));
    assert!(pool.return_connection(PooledConnection::new(7, target(80), 0), 10));
    assert!(!pool.return_connection(PooledConnection::new(8, target(80), 0), 10));
    let stats = pool.stats();
    assert_eq!(stats.total_connections, 1);
    assert_eq!(stats.targets, 1);
    assert_eq!(stats.available_permits, 3);
    match pool.acquire(target(80), 20) {
        Acquire::Reused(c) => {
            assert_eq!(c.target_addr(), target(80));
            assert!(!c.is_expired(30, 20));
            assert_eq!(c.into_stream(), 7);
        }
        _ => panic!("expected reuse"),
    }
    assert!(pool.return_connection(PooledConnection::new(9, target(80), 20), 20));
    assert!(matches!(pool.acquire(target(80), 51), Acquire::Dial));
    assert_eq!(pool.stats().total_connections, 0);
}

#[test]
fn expired_connections_are_dropped_on_return_and_sweep() {
    let mut pool: ConnectionPool<u32> = ConnectionPool::new(4, 4, 5, 30);
    for _ in 0..2 {
        assert!(matches!(pool.acquire(target(80), 0), Acquire::Dial));
    }
    assert!(!pool.return_connection(PooledConnection::new(1, target(80), 0), 31));
    assert!(pool.return_connection(PooledConnection::new(2, target(80), 0), 10));
    assert_eq!(pool.cleanup_expired(30), 0);
    assert_eq!(pool.cleanup_expired(41), 1);
    assert_eq!(pool.stats().available_permits, 4);
}

#[test]
fn pooled_connection_bookkeeping() {
    let mut c = PooledConnection::new("stream", target(9), 100);
    assert!(!c.is_expired(10, 110));
    assert!(c.is_expired(10, 111));
    c.update_last_used(200);
    assert!(!c.is_expired(10, 205));
    assert_eq!(c.target_addr(), target(9));
}

#[test]
fn ring_buffer_is_fifo_across_wraps() {
    let mut buf = ZeroCopyBuffer::new(8);
    assert!(!buf.has_data());
    assert_eq!(buf.available_write_space(), 7);
    assert_eq!(buf.write_slice(&[1, 2, 3, 4, 5]), 5);
    assert_eq!(buf.read_bytes(3), vec![1, 2, 3]);
    assert_eq!(buf.write_slice(&[6, 7, 8, 9, 10, 11]), 5);
    assert_eq!(buf.available_read_space(), 7);
    assert_eq!(buf.available_write_space(), 0);
    assert_eq!(buf.read_bytes(100), vec![4, 5, 6, 7, 8, 9, 10]);
    assert!(!buf.has_data());
    buf.write_slice(&[1]);
    buf.clear();
    assert_eq!(buf.available_read_space(), 0);
}

fn pump(sizes: &[usize], chunk: usize) -> (u64, u64) {
    let mut state = CopyState::new();
    for &n in sizes {
        match state.on_read(n) {
            CopyAction::Write { offset: 0, len } => {
                assert_eq!(len, n);
                let mut left = len;
                while left > 0 {
                    let m = left.min(chunk);
                    let next = state.on_written(m);
                    left -= m;
                    if left == 0 {
                        assert_eq!(next, CopyAction::Read);
                    } else {
                        assert!(matches!(next, CopyAction::Write { len, .. } if len == left));
                    }
                }
            }
            other => panic!("unexpected {:?}", other),
        }
    }
    assert_eq!(state.on_read(0), CopyAction::Finish);
    assert!(state.is_finished());
    (state.bytes_read(), state.bytes_written())
}

#[test]
fn relay_totals_match() {
    assert_eq!(pump(&[], 10), (0, 0));
    assert_eq!(pump(&[1], 10), (1, 1));
    assert_eq!(pump(&[65536, 1], 4096), (65537, 65537));
    assert_eq!(pump(&[3, 5, 7], 2), (15, 15));
}

#[test]
fn relay_direction_stops_on_closed_destination_or_error() {
    let mut state = CopyState::new();
    assert_eq!(state.on_read(10), CopyAction::Write { offset: 0, len: 10 });
    assert_eq!(state.on_written(4), CopyAction::Write { offset: 4, len: 6 });
    assert_eq!(state.on_written(0), CopyAction::Finish);
    assert_eq!(state.bytes_read(), 10);
    assert_eq!(state.bytes_written(), 4);
    let mut other = CopyState::new();
    assert_eq!(other.on_error(), CopyAction::Finish);
    assert!(other.is_finished());
}

#[test]
fn sweep_keeps_order_and_reuse_takes_first_fresh() {
    let mut pool: ConnectionPool<u32> = ConnectionPool::new(4, 4, 5, 30);
    for _ in 0..4 {
        assert!(matches!(pool.acquire(target(80), 0), Acquire::Dial));
    }
    assert!(pool.return_connection(PooledConnection::new(1, target(80), 0), 0));
    assert!(pool.return_connection(PooledConnection::new(2, target(81), 0), 20));
    assert!(pool.return_connection(PooledConnection::new(3, target(80), 0), 20));
    assert!(pool.return_connection(PooledConnection::new(4, target(80), 0), 20));
    match pool.acquire(target(80), 40) {
        Acquire::Reused(c) => assert_eq!(c.into_stream(), 3),
        _ => panic!("expected reuse"),
    }
    let stats = pool.stats();
    assert_eq!(stats.total_connections, 2);
    assert_eq!(stats.available_permits, 1);
    assert_eq!(pool.cleanup_expired(100), 2);
    assert_eq!(pool.stats().available_permits, 3);
}
