use rofi_wifi::refresh::{Refresh, RefreshPhase, ScanPhase, ScanTask, wide_ttl};
use rofi_wifi::types::{AccessPoint, Security};

fn ap(ssid: &str) -> AccessPoint {
    AccessPoint {
        ssid: ssid.to_string(),
        security: Security::Wpa2,
        signal: 70,
        bars: String::new(),
        in_use: false,
    }
}

#[test]
fn hit_returns_stale_list_and_requests_one_background_scan() {
    // a cache hit answers at once and owes exactly one detached refresh
    let mut r = Refresh::new(false, 30);
    assert!(matches!(r.phase, RefreshPhase::NeedRead));
    r.read_result(Some(vec![ap("Home"), ap("Cafe")]));
    match &r.phase {
        RefreshPhase::Done { aps, background_refresh } => {
            assert_eq!(aps.len(), 2);
            assert_eq!(aps[0].ssid, "Home");
            assert!(*background_refresh, "one background scan-and-write is requested");
        }
        _ => panic!("a hit finishes the read"),
    }
}

#[test]
fn miss_scans_synchronously_then_rereads_widened() {
    let mut r = Refresh::new(false, 30);
    r.read_result(None);
    assert!(matches!(r.phase, RefreshPhase::NeedSyncScan));
    r.scan_finished();
    assert!(matches!(r.phase, RefreshPhase::NeedWideRead));
    r.wide_read_result(Some(vec![ap("Home")]));
    match &r.phase {
        RefreshPhase::Done { aps, background_refresh } => {
            assert_eq!(aps.len(), 1);
            assert!(!*background_refresh, "the synchronous path owes no second scan");
        }
        _ => panic!("the widened re-read finishes the read"),
    }
}

#[test]
fn miss_with_nothing_degrades_to_empty() {
    let mut r = Refresh::new(false, 30);
    r.read_result(None);
    r.scan_finished();
    r.wide_read_result(None);
    match &r.phase {
        RefreshPhase::Done { aps, background_refresh } => {
            assert!(aps.is_empty(), "no networks found, never an error");
            assert!(!*background_refresh);
        }
        _ => panic!("the read always comes to rest"),
    }
}

#[test]
fn forced_read_invalidates_first() {
    let mut r = Refresh::new(true, 30);
    assert!(matches!(r.phase, RefreshPhase::NeedInvalidate));
    r.invalidated();
    assert!(matches!(r.phase, RefreshPhase::NeedRead));
}

#[test]
fn widened_ttl_is_tenfold_saturating() {
    assert_eq!(wide_ttl(30), 300);
    assert_eq!(wide_ttl(0), 0);
    assert_eq!(wide_ttl(u64::MAX), u64::MAX);
    assert_eq!(wide_ttl(u64::MAX / 10), u64::MAX / 10 * 10);
    assert_eq!(wide_ttl(u64::MAX / 10 + 1), u64::MAX);
}

#[test]
fn busy_lock_skips_the_scan_immediately() {
    // the second of two concurrent scan-and-write passes finds the lock
    // busy: it never scans and never waits
    let mut t = ScanTask::new();
    assert!(matches!(t.phase, ScanPhase::NeedLock));
    t.lock_result(false);
    match t.phase {
        ScanPhase::Done { ran_scan } => assert!(!ran_scan),
        _ => panic!("a busy lock finishes the pass at once"),
    }
    assert!(!t.lock_held);
}

#[test]
fn acquired_lock_runs_scan_write_unlock() {
    let mut t = ScanTask::new();
    t.lock_result(true);
    assert!(matches!(t.phase, ScanPhase::Scanning));
    assert!(t.lock_held, "scanning happens only under the lock");
    t.scan_result(Some(vec![ap("Home")]));
    match &t.phase {
        ScanPhase::NeedWrite { aps } => assert_eq!(aps.len(), 1),
        _ => panic!("a successful scan is written"),
    }
    t.written();
    assert!(matches!(t.phase, ScanPhase::NeedUnlock));
    assert!(t.lock_held, "the lock is held until after the write");
    t.unlocked();
    match t.phase {
        ScanPhase::Done { ran_scan } => assert!(ran_scan),
        _ => panic!("unlocking finishes the pass"),
    }
    assert!(!t.lock_held);
}

#[test]
fn failed_scan_is_swallowed_but_still_unlocks() {
    let mut t = ScanTask::new();
    t.lock_result(true);
    t.scan_result(None);
    assert!(matches!(t.phase, ScanPhase::NeedUnlock), "a failed scan skips the write");
    t.unlocked();
    assert!(matches!(t.phase, ScanPhase::Done { .. }));
}
