use pscheckwait::memory::MemoryBackend;
use pscheckwait::model::{AdmitForcedOutcome, EnterOutcome, RefreshOutcome, ACTIVE_TTL_MS, WAITING_TTL_MS};

fn filled(max: usize, tokens: &[&str], now: i64) -> MemoryBackend {
    let mut b = MemoryBackend::new();
    for t in tokens {
        b.try_enter_at(t, max, now);
    }
    b
}

#[test]
fn new_backend_is_empty() {
    let b = MemoryBackend::new();
    assert_eq!(b.stats(), (0, 0));
}

#[test]
fn entering_admits_until_full_then_queues() {
    let mut b = MemoryBackend::new();
    assert_eq!(b.try_enter_at("a", 2, 1000), EnterOutcome::Admitted);
    assert_eq!(b.try_enter_at("b", 2, 1000), EnterOutcome::Admitted);
    assert_eq!(b.try_enter_at("c", 2, 1000), EnterOutcome::Waiting(1));
    assert_eq!(b.try_enter_at("d", 2, 1000), EnterOutcome::Waiting(2));
    assert_eq!(b.stats(), (2, 2));
}

#[test]
fn entering_with_the_clock_works() {
    let mut b = MemoryBackend::new();
    assert_eq!(b.try_enter("a", 1), EnterOutcome::Admitted);
    assert_eq!(b.try_enter("b", 1), EnterOutcome::Waiting(1));
    assert_eq!(b.refresh("b", 1), RefreshOutcome::Waiting(1));
    assert!(b.heartbeat("a"));
    assert_eq!(b.admit_forced("b"), AdmitForcedOutcome::Admitted);
    b.cleanup(1, ACTIVE_TTL_MS, WAITING_TTL_MS);
    assert_eq!(b.stats(), (2, 0));
    let snap = b.list_state();
    assert_eq!(snap.total_active, 2);
    let page = b.list_state_paginated(1, 0);
    assert_eq!(page.active.len(), 1);
}

#[test]
fn refresh_reports_standing() {
    let mut b = filled(1, &["a", "b", "c"], 1000);
    assert_eq!(b.refresh_at("a", 1, 2000), RefreshOutcome::Admitted);
    assert_eq!(b.refresh_at("b", 1, 2000), RefreshOutcome::Waiting(1));
    assert_eq!(b.refresh_at("c", 1, 2000), RefreshOutcome::Waiting(2));
    assert_eq!(b.refresh_at("zzz", 1, 2000), RefreshOutcome::Unknown);
}

#[test]
fn leaving_frees_a_place_for_the_next_in_line() {
    let mut b = filled(1, &["a", "b", "c"], 1000);
    b.leave("a");
    assert_eq!(b.refresh_at("b", 1, 2000), RefreshOutcome::Admitted);
    assert_eq!(b.refresh_at("c", 1, 2000), RefreshOutcome::Waiting(1));
    assert_eq!(b.stats(), (1, 1));
}

#[test]
fn leaving_makes_the_token_unknown() {
    let mut b = filled(1, &["a", "b"], 1000);
    b.leave("b");
    assert!(!b.heartbeat_at("b", 2000));
    assert_eq!(b.refresh_at("b", 1, 2000), RefreshOutcome::Unknown);
    assert_eq!(b.stats(), (1, 0));
}

#[test]
fn heartbeat_reports_known_tokens() {
    let mut b = filled(1, &["a", "b"], 1000);
    assert!(b.heartbeat_at("a", 2000));
    assert!(b.heartbeat_at("b", 2000));
    assert!(!b.heartbeat_at("c", 2000));
    assert_eq!(b.stats(), (1, 1));
}

#[test]
fn kick_removes_admitted_and_waiting_tokens() {
    let mut b = filled(1, &["a", "b", "c"], 1000);
    assert!(b.kick("b"));
    assert_eq!(b.stats(), (1, 1));
    assert_eq!(b.refresh_at("c", 1, 2000), RefreshOutcome::Waiting(1));
    assert!(b.kick("a"));
    assert_eq!(b.stats(), (0, 1));
    assert!(!b.kick("nobody"));
}

#[test]
fn forced_admission_ignores_the_limit() {
    let mut b = filled(1, &["a", "b", "c"], 1000);
    assert_eq!(b.admit_forced_at("c", 2000), AdmitForcedOutcome::Admitted);
    assert_eq!(b.stats(), (2, 1));
    assert_eq!(b.admit_forced_at("a", 2000), AdmitForcedOutcome::AlreadyAdmitted);
    assert_eq!(b.admit_forced_at("zzz", 2000), AdmitForcedOutcome::NotWaiting);
    assert_eq!(b.refresh_at("b", 1, 2000), RefreshOutcome::Waiting(1));
}

#[test]
fn cleanup_expires_idle_admitted_tokens_and_promotes() {
    let mut b = filled(1, &["a", "b"], 0);
    // b keeps its place by heartbeats; a stops.
    b.heartbeat_at("b", 50_000);
    b.cleanup_at(1, ACTIVE_TTL_MS, WAITING_TTL_MS, 59_999);
    assert_eq!(b.stats(), (1, 1));
    b.cleanup_at(1, ACTIVE_TTL_MS, WAITING_TTL_MS, 60_000);
    assert_eq!(b.stats(), (1, 0));
    assert_eq!(b.refresh_at("b", 1, 60_000), RefreshOutcome::Admitted);
    assert_eq!(b.refresh_at("a", 1, 60_000), RefreshOutcome::Unknown);
}

#[test]
fn cleanup_expires_idle_waiting_tokens() {
    let mut b = filled(1, &["a", "b", "c"], 0);
    b.heartbeat_at("a", 20_000);
    b.heartbeat_at("c", 20_000);
    b.cleanup_at(1, ACTIVE_TTL_MS, WAITING_TTL_MS, 30_000);
    assert_eq!(b.stats(), (1, 1));
    assert_eq!(b.refresh_at("b", 1, 30_000), RefreshOutcome::Unknown);
    assert_eq!(b.refresh_at("c", 1, 30_000), RefreshOutcome::Waiting(1));
}

#[test]
fn lowering_the_limit_evicts_no_one() {
    let mut b = filled(3, &["a", "b", "c", "d"], 1000);
    b.cleanup_at(1, ACTIVE_TTL_MS, WAITING_TTL_MS, 2000);
    assert_eq!(b.stats(), (3, 1));
    assert_eq!(b.refresh_at("a", 1, 2000), RefreshOutcome::Admitted);
    assert_eq!(b.refresh_at("d", 1, 2000), RefreshOutcome::Waiting(1));
}

#[test]
fn raising_the_limit_admits_from_the_front() {
    let mut b = filled(1, &["a", "b", "c", "d"], 1000);
    b.cleanup_at(3, ACTIVE_TTL_MS, WAITING_TTL_MS, 2000);
    assert_eq!(b.stats(), (3, 1));
    assert_eq!(b.refresh_at("b", 3, 2000), RefreshOutcome::Admitted);
    assert_eq!(b.refresh_at("c", 3, 2000), RefreshOutcome::Admitted);
    assert_eq!(b.refresh_at("d", 3, 2000), RefreshOutcome::Waiting(1));
}

#[test]
fn clear_removes_everything() {
    let mut b = filled(1, &["a", "b", "c"], 1000);
    b.clear();
    assert_eq!(b.stats(), (0, 0));
    assert_eq!(b.refresh_at("a", 1, 2000), RefreshOutcome::Unknown);
}

#[test]
fn listing_pages_through_the_line() {
    let mut b = filled(1, &["a", "b", "c", "d"], 1000);
    b.heartbeat_at("c", 3000);
    let snap = b.list_state_paginated_at(2, 1, 10_500);
    assert_eq!(snap.total_active, 1);
    assert_eq!(snap.total_waiting, 3);
    assert_eq!(snap.active.len(), 0);
    assert_eq!(snap.waiting.len(), 2);
    assert_eq!(snap.waiting[0].token, "c");
    assert_eq!(snap.waiting[0].position, Some(2));
    assert_eq!(snap.waiting[0].idle_secs, 7);
    assert_eq!(snap.waiting[1].token, "d");
    assert_eq!(snap.waiting[1].position, Some(3));
    assert_eq!(snap.waiting[1].idle_secs, 9);
}

#[test]
fn full_listing_shows_everyone() {
    let b = filled(2, &["a", "b", "c"], 1000);
    let snap = b.list_state_at(500);
    assert_eq!(snap.total_active, 2);
    assert_eq!(snap.active.len(), 2);
    for e in &snap.active {
        assert!(e.token == "a" || e.token == "b");
        assert_eq!(e.idle_secs, 0);
        assert_eq!(e.position, None);
    }
    assert_eq!(snap.waiting.len(), 1);
    assert_eq!(snap.waiting[0].token, "c");
    assert_eq!(snap.waiting[0].position, Some(1));
}

#[test]
fn status_right_after_entering_matches() {
    let mut b = filled(2, &["a", "b"], 1000);
    let got = b.try_enter_at("c", 2, 1000);
    assert_eq!(got, EnterOutcome::Waiting(1));
    assert_eq!(b.refresh_at("c", 2, 5000), RefreshOutcome::Waiting(1));
}

#[test]
fn admitted_pages_follow_token_order() {
    let b = filled(5, &["delta", "alpha", "echo", "charlie", "bravo"], 1000);
    let mut seen: Vec<String> = Vec::new();
    for k in 0..3 {
        let snap = b.list_state_paginated_at(2, k * 2, 1000);
        assert_eq!(snap.total_active, 5);
        for e in &snap.active {
            seen.push(e.token.clone());
        }
    }
    assert_eq!(seen, vec!["alpha", "bravo", "charlie", "delta", "echo"]);
    assert!(b.list_state_paginated_at(2, 6, 1000).active.is_empty());
}

#[test]
fn the_queue_stays_orderly() {
    let mut b = filled(2, &["a", "b", "c", "d", "e", "f"], 1000);
    b.leave("c");
    b.kick("a");
    b.admit_forced_at("e", 2000);
    b.refresh_at("f", 2, 3000);
    b.heartbeat_at("d", 3000);
    b.cleanup_at(2, ACTIVE_TTL_MS, WAITING_TTL_MS, 40_000);
    b.try_enter_at("g", 2, 40_000);
    let snap = b.list_state_at(40_000);
    let waiting: Vec<String> = snap.waiting.iter().map(|e| e.token.clone()).collect();
    let active: Vec<String> = snap.active.iter().map(|e| e.token.clone()).collect();
    assert_eq!(snap.total_waiting, waiting.len());
    for (i, t) in waiting.iter().enumerate() {
        assert!(!waiting[..i].contains(t));
        assert!(!active.contains(t));
    }
    assert_eq!(waiting, vec!["g"]);
    assert_eq!(active, vec!["b", "e"]);
}
