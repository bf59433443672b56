use peerbridge::limiter::{ConnectionLimiter, LimitError, MAX_PER_IP, MAX_TOTAL_CONNECTIONS};

#[test]
fn admits_up_to_per_ip_ceiling() {
    let mut limiter = ConnectionLimiter::new();
    for _ in 0..MAX_PER_IP {
        assert!(limiter.try_connect(1).is_ok());
    }
    match limiter.try_connect(1) {
        Err(LimitError::IpLimitReached) => {}
        other => panic!("expected per-ip rejection, got {:?}", other),
    }
    // Another address is still admitted.
    assert!(limiter.try_connect(2).is_ok());
}

#[test]
fn disconnect_frees_a_slot() {
    let mut limiter = ConnectionLimiter::new();
    for _ in 0..MAX_PER_IP {
        assert!(limiter.try_connect(7).is_ok());
    }
    assert!(limiter.try_connect(7).is_err());
    limiter.disconnect(7);
    assert!(limiter.try_connect(7).is_ok());
}

#[test]
fn global_ceiling_rejects() {
    let mut limiter = ConnectionLimiter::new();
    let mut admitted = 0usize;
    let mut ip: u128 = 0;
    while admitted < MAX_TOTAL_CONNECTIONS {
        ip += 1;
        for _ in 0..MAX_PER_IP {
            assert!(limiter.try_connect(ip).is_ok());
            admitted += 1;
        }
    }
    match limiter.try_connect(99999) {
        Err(LimitError::TotalLimitReached) => {}
        other => panic!("expected global rejection, got {:?}", other),
    }
    let (total, ips) = limiter.stats();
    assert_eq!(total, MAX_TOTAL_CONNECTIONS);
    assert_eq!(ips, MAX_TOTAL_CONNECTIONS / MAX_PER_IP);
}

#[test]
fn disconnect_unknown_ip_only_lowers_total() {
    let mut limiter = ConnectionLimiter::new();
    assert!(limiter.try_connect(5).is_ok());
    limiter.disconnect(77);
    let (total, ips) = limiter.stats();
    assert_eq!(total, 0);
    assert_eq!(ips, 1);
}

#[test]
fn empty_ip_entries_are_dropped() {
    let mut limiter = ConnectionLimiter::new();
    assert!(limiter.try_connect(3).is_ok());
    assert!(limiter.try_connect(4).is_ok());
    limiter.disconnect(3);
    let (total, ips) = limiter.stats();
    assert_eq!(total, 1);
    assert_eq!(ips, 1);
}

#[test]
fn rejection_messages() {
    assert_eq!(
        LimitError::TotalLimitReached.message(),
        "Maximum total connections reached"
    );
    assert_eq!(LimitError::IpLimitReached.message(), "Maximum connections per IP reached");
}
