use std::collections::{HashMap, VecDeque};
use pscheckwait::model::{AdmitForcedOutcome, EnterOutcome, RefreshOutcome};
use pscheckwait::order::lookup_time;
use pscheckwait::redis_plan::{
    active_key, admit_decision, enter_decision, expired_tokens, expiry_cutoff, kick_result, line_range,
    promote_next, promote_start, queue_key, redis_snapshot, refresh_position, waiting_key,
    waiting_position, PromoteAction, PromoteEvent, heartbeat_next, heartbeat_start, refresh_next,
    refresh_start, HeartbeatAction, HeartbeatEvent, RefreshAction, RefreshEvent,
};
use pscheckwait::sessions::{
    admin_session_step, enter_reply, refresh_reply, session_start, session_step, update_reply,
    update_statuses, AdminSessionAction, AdminSessionEvent, SessionAction, SessionEvent, StatusKind,
    StatusReply, TokenStatus,
};
use pscheckwait::snapshot::{idle_secs, page_size, Snapshot, TokenEntry};

#[test]
fn redis_keys() {
    assert_eq!(queue_key("example.com"), "pcw:queue:example.com");
    assert_eq!(waiting_key("example.com"), "pcw:waiting:example.com");
    assert_eq!(active_key("example.com"), "pcw:active:example.com");
}

#[test]
fn promotion_steps() {
    assert!(matches!(promote_start(), PromoteAction::CountActive));
    assert!(matches!(promote_next(2, PromoteEvent::ActiveCount(2)), PromoteAction::Finish));
    assert!(matches!(promote_next(2, PromoteEvent::ActiveCount(1)), PromoteAction::PopFront));
    assert!(matches!(promote_next(2, PromoteEvent::Popped(vec![])), PromoteAction::Finish));
    assert!(matches!(promote_next(2, PromoteEvent::Popped(vec!["t".to_string()])), PromoteAction::RemoveWaiting(ref t) if t == "t"));
    assert!(matches!(
        promote_next(2, PromoteEvent::Removed { token: "t".to_string(), removed: 1 }),
        PromoteAction::AddActive(ref t) if t == "t"
    ));
    assert!(matches!(
        promote_next(2, PromoteEvent::Removed { token: "t".to_string(), removed: 0 }),
        PromoteAction::CountActive
    ));
    assert!(matches!(promote_next(2, PromoteEvent::Stored), PromoteAction::CountActive));
}

#[test]
fn redis_decisions() {
    assert!(enter_decision(1, 2));
    assert!(!enter_decision(2, 2));
    assert_eq!(waiting_position(0), EnterOutcome::Waiting(1));
    assert_eq!(waiting_position(4), EnterOutcome::Waiting(5));
    assert_eq!(refresh_position(Some(2)), RefreshOutcome::Waiting(3));
    assert_eq!(refresh_position(None), RefreshOutcome::Waiting(0));
    assert_eq!(admit_decision(true, 1), AdmitForcedOutcome::AlreadyAdmitted);
    assert_eq!(admit_decision(false, 0), AdmitForcedOutcome::NotWaiting);
    assert_eq!(admit_decision(false, 1), AdmitForcedOutcome::Admitted);
    assert!(kick_result(1, 0));
    assert!(kick_result(0, 1));
    assert!(!kick_result(0, 0));
}

#[test]
fn expiry_in_redis() {
    assert_eq!(expiry_cutoff(100_000, 60_000), 40_000);
    let entries = vec![("a".to_string(), 39_999), ("b".to_string(), 40_000), ("c".to_string(), 1)];
    assert_eq!(expired_tokens(&entries, 40_000), vec!["a".to_string(), "c".to_string()]);
    assert_eq!(lookup_time(&entries, "b"), Some(40_000));
    assert_eq!(lookup_time(&entries, "z"), None);
}

#[test]
fn redis_line_ranges() {
    assert_eq!(line_range(usize::MAX, 0), (0, -1));
    assert_eq!(line_range(10, 20), (20, 29));
    assert_eq!(line_range(0, 0), (0, 0));
}

#[test]
fn redis_pages() {
    let active = vec![("a".to_string(), 1000), ("b".to_string(), 2000), ("c".to_string(), 3000)];
    let line = vec!["x".to_string(), "y".to_string()];
    let waiting = vec![("y".to_string(), 4000)];
    let snap = redis_snapshot(3, 7, &active, &line, &waiting, 2, 1, 10_000);
    assert_eq!(snap.total_active, 3);
    assert_eq!(snap.total_waiting, 7);
    assert_eq!(snap.active.len(), 2);
    assert_eq!(snap.active[0].token, "b");
    assert_eq!(snap.active[0].idle_secs, 8);
    assert_eq!(snap.active[1].token, "c");
    assert_eq!(snap.waiting.len(), 2);
    assert_eq!(snap.waiting[0].token, "x");
    assert_eq!(snap.waiting[0].idle_secs, 0);
    assert_eq!(snap.waiting[0].position, Some(2));
    assert_eq!(snap.waiting[1].token, "y");
    assert_eq!(snap.waiting[1].idle_secs, 6);
    assert_eq!(snap.waiting[1].position, Some(3));
}

#[test]
fn redis_pages_follow_token_order() {
    let active = vec![
        ("d".to_string(), 1),
        ("b".to_string(), 2),
        ("a".to_string(), 3),
        ("c".to_string(), 4),
        ("b".to_string(), 9),
    ];
    let line: Vec<String> = Vec::new();
    let waiting: Vec<(String, i64)> = Vec::new();
    let first = redis_snapshot(4, 0, &active, &line, &waiting, 2, 0, 10_000);
    let second = redis_snapshot(4, 0, &active, &line, &waiting, 2, 2, 10_000);
    let tokens: Vec<String> = first.active.iter().chain(second.active.iter()).map(|e| e.token.clone()).collect();
    assert_eq!(tokens, vec!["a", "b", "c", "d"]);
    assert_eq!(first.active[1].idle_secs, 9);
    let past = redis_snapshot(4, 0, &active, &line, &waiting, 2, 4, 10_000);
    assert!(past.active.is_empty());
}

#[test]
fn redis_refresh_steps() {
    assert_eq!(refresh_start(), RefreshAction::CheckActive);
    assert_eq!(refresh_next(3, RefreshEvent::ActiveChecked(true)), RefreshAction::StampActive);
    assert_eq!(refresh_next(3, RefreshEvent::ActiveStamped), RefreshAction::Reply(RefreshOutcome::Admitted));
    assert_eq!(refresh_next(3, RefreshEvent::ActiveChecked(false)), RefreshAction::CheckWaiting);
    assert_eq!(refresh_next(3, RefreshEvent::WaitingChecked(false)), RefreshAction::Reply(RefreshOutcome::Unknown));
    assert_eq!(refresh_next(3, RefreshEvent::WaitingChecked(true)), RefreshAction::StampWaiting);
    assert_eq!(refresh_next(3, RefreshEvent::WaitingStamped), RefreshAction::Promote(3));
    assert_eq!(refresh_next(3, RefreshEvent::Promoted), RefreshAction::RecheckActive);
    assert_eq!(refresh_next(3, RefreshEvent::ActiveRechecked(true)), RefreshAction::Reply(RefreshOutcome::Admitted));
    assert_eq!(refresh_next(3, RefreshEvent::ActiveRechecked(false)), RefreshAction::ReadRank);
    assert_eq!(refresh_next(3, RefreshEvent::RankRead(Some(4))), RefreshAction::Reply(RefreshOutcome::Waiting(5)));
    assert_eq!(refresh_next(3, RefreshEvent::RankRead(None)), RefreshAction::Reply(RefreshOutcome::Waiting(0)));
}

#[test]
fn redis_heartbeat_steps() {
    assert_eq!(heartbeat_start(), HeartbeatAction::CheckActive);
    assert_eq!(heartbeat_next(HeartbeatEvent::ActiveChecked(true)), HeartbeatAction::StampActive);
    assert_eq!(heartbeat_next(HeartbeatEvent::ActiveStamped), HeartbeatAction::Reply(true));
    assert_eq!(heartbeat_next(HeartbeatEvent::ActiveChecked(false)), HeartbeatAction::CheckWaiting);
    assert_eq!(heartbeat_next(HeartbeatEvent::WaitingChecked(true)), HeartbeatAction::StampWaiting);
    assert_eq!(heartbeat_next(HeartbeatEvent::WaitingStamped), HeartbeatAction::Reply(true));
    assert_eq!(heartbeat_next(HeartbeatEvent::WaitingChecked(false)), HeartbeatAction::Reply(false));
}

#[test]
fn idle_and_page_sizes() {
    assert_eq!(idle_secs(5_999, 1_000), 4);
    assert_eq!(idle_secs(0, 5), 0);
    assert_eq!(idle_secs(i64::MAX, i64::MIN), u64::MAX / 1000);
    assert_eq!(page_size(10, 3, 8), 2);
    assert_eq!(page_size(10, 3, 2), 3);
    assert_eq!(page_size(10, 3, 10), 0);
}

#[test]
fn replies() {
    let admitted = StatusReply { status: StatusKind::Admitted, position: 0 };
    assert_eq!(enter_reply(EnterOutcome::Admitted), admitted);
    assert_eq!(enter_reply(EnterOutcome::Waiting(4)), StatusReply { status: StatusKind::Waiting, position: 4 });
    assert_eq!(refresh_reply(RefreshOutcome::Unknown), None);
    assert_eq!(refresh_reply(RefreshOutcome::Waiting(2)), Some(StatusReply { status: StatusKind::Waiting, position: 2 }));
    assert_eq!(update_reply(Some(TokenStatus::Admitted)), Some(admitted));
    assert_eq!(update_reply(None), None);
}

#[test]
fn visitor_sessions() {
    assert!(matches!(session_start(RefreshOutcome::Unknown), SessionAction::SendUnknownAndClose));
    assert!(matches!(session_start(RefreshOutcome::Waiting(3)), SessionAction::SendStatus(r) if r.position == 3));
    assert!(matches!(session_step(SessionEvent::Update(None)), SessionAction::SendUnknownAndClose));
    assert!(matches!(session_step(SessionEvent::Update(Some(TokenStatus::Admitted))), SessionAction::SendStatus(r) if r.status == StatusKind::Admitted));
    assert!(matches!(session_step(SessionEvent::UpdatesLagged), SessionAction::Wait));
    assert!(matches!(session_step(SessionEvent::UpdatesClosed), SessionAction::End));
    assert!(matches!(session_step(SessionEvent::HeartbeatDue), SessionAction::Heartbeat));
    assert!(matches!(session_step(SessionEvent::HeartbeatDone(true)), SessionAction::SendPing));
    assert!(matches!(session_step(SessionEvent::HeartbeatDone(false)), SessionAction::End));
    assert!(matches!(session_step(SessionEvent::PeerPing(vec![1, 2])), SessionAction::SendPong(ref p) if p == &vec![1u8, 2]));
    assert!(matches!(session_step(SessionEvent::PeerOther), SessionAction::Wait));
    assert!(matches!(session_step(SessionEvent::PeerClosed), SessionAction::LeaveAndEnd));
    assert!(matches!(session_step(SessionEvent::PeerGone), SessionAction::End));
    assert!(matches!(session_step(SessionEvent::SendFailed), SessionAction::End));
}

#[test]
fn admin_sessions() {
    assert_eq!(admin_session_step(AdminSessionEvent::Update), AdminSessionAction::Forward);
    assert_eq!(admin_session_step(AdminSessionEvent::UpdateUnwritable), AdminSessionAction::Wait);
    assert_eq!(admin_session_step(AdminSessionEvent::UpdatesLagged), AdminSessionAction::Wait);
    assert_eq!(admin_session_step(AdminSessionEvent::UpdatesClosed), AdminSessionAction::End);
    assert_eq!(admin_session_step(AdminSessionEvent::PingDue), AdminSessionAction::SendPing);
    assert_eq!(admin_session_step(AdminSessionEvent::PeerGone), AdminSessionAction::End);
    assert_eq!(admin_session_step(AdminSessionEvent::PeerOther), AdminSessionAction::Wait);
    assert_eq!(admin_session_step(AdminSessionEvent::SendFailed), AdminSessionAction::End);
}

#[test]
fn broadcast_standings() {
    let e = |t: &str, p: Option<usize>| TokenEntry { token: t.to_string(), idle_secs: 0, position: p };
    let snap = Snapshot {
        active: vec![e("a", None)],
        waiting: vec![e("b", Some(1)), e("c", None)],
        total_active: 1,
        total_waiting: 2,
    };
    let r = update_statuses(&snap);
    assert_eq!(r.len(), 3);
    assert_eq!(r[0], ("a".to_string(), TokenStatus::Admitted));
    assert_eq!(r[1], ("b".to_string(), TokenStatus::Waiting(1)));
    assert_eq!(r[2], ("c".to_string(), TokenStatus::Waiting(0)));
    let d = Snapshot::default();
    assert!(d.active.is_empty() && d.waiting.is_empty() && d.total_active == 0 && d.total_waiting == 0);
}

#[test]
fn redis_promotion_run_against_a_store() {
    let mut queue: VecDeque<String> = ["a", "b", "c", "d"].iter().map(|t| t.to_string()).collect();
    let mut waiting: HashMap<String, i64> = HashMap::new();
    waiting.insert("a".to_string(), 1);
    waiting.insert("c".to_string(), 1);
    waiting.insert("d".to_string(), 1);
    let mut active: HashMap<String, i64> = HashMap::new();
    active.insert("x".to_string(), 1);
    let mut action = promote_start();
    let mut steps = 0;
    loop {
        steps += 1;
        assert!(steps < 100);
        let event = match action {
            PromoteAction::CountActive => PromoteEvent::ActiveCount(active.len()),
            PromoteAction::PopFront => PromoteEvent::Popped(queue.pop_front().into_iter().collect()),
            PromoteAction::RemoveWaiting(token) => {
                let removed = if waiting.remove(&token).is_some() { 1 } else { 0 };
                PromoteEvent::Removed { token, removed }
            }
            PromoteAction::AddActive(token) => {
                active.insert(token, 50);
                PromoteEvent::Stored
            }
            PromoteAction::Finish => break,
        };
        action = promote_next(3, event);
    }
    let mut admitted: Vec<String> = active.keys().cloned().collect();
    admitted.sort();
    assert_eq!(admitted, vec!["a", "c", "x"]);
    assert_eq!(queue, VecDeque::from(vec!["d".to_string()]));
    assert_eq!(waiting.len(), 1);
}
