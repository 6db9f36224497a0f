use vstd::prelude::*;
use crate::model::{EnterOutcome, RefreshOutcome};
use crate::snapshot::Snapshot;

verus! {

/// A visitor's standing as shown to it.
#[derive(Clone, Copy, Debug, PartialEq, Eq, Structural)]
pub enum StatusKind {
    Admitted,
    Waiting,
}

/// What a visitor is told: its standing and its place (0 when admitted).
#[derive(Clone, Copy, Debug, PartialEq, Eq, Structural)]
pub struct StatusReply {
    pub status: StatusKind,
    pub position: usize,
}

/// A token's standing in a broadcast update.
#[derive(Clone, Copy, Debug, PartialEq, Eq, Structural)]
pub enum TokenStatus {
    Admitted,
    Waiting(usize),
}

/// What a visitor asking for its status is told; `None` for an unknown token.
pub open spec fn reply_for_refresh(o: RefreshOutcome) -> Option<StatusReply> {
    match o {
        RefreshOutcome::Admitted => Some(StatusReply { status: StatusKind::Admitted, position: 0 }),
        RefreshOutcome::Waiting(p) => Some(StatusReply { status: StatusKind::Waiting, position: p }),
        RefreshOutcome::Unknown => None,
    }
}

/// What a visitor is told of a broadcast standing; `None` when the update
/// does not list the token.
pub open spec fn reply_for_update(s: Option<TokenStatus>) -> Option<StatusReply> {
    match s {
        Some(TokenStatus::Admitted) => Some(StatusReply { status: StatusKind::Admitted, position: 0 }),
        Some(TokenStatus::Waiting(p)) => Some(StatusReply { status: StatusKind::Waiting, position: p }),
        None => None,
    }
}

/// What a visitor that entered is told.
pub fn enter_reply(o: EnterOutcome) -> (r: StatusReply)
    ensures
        r == match o {
            EnterOutcome::Admitted => StatusReply { status: StatusKind::Admitted, position: 0 },
            EnterOutcome::Waiting(p) => StatusReply { status: StatusKind::Waiting, position: p },
        },
{
    match o {
        EnterOutcome::Admitted => StatusReply { status: StatusKind::Admitted, position: 0 },
        EnterOutcome::Waiting(p) => StatusReply { status: StatusKind::Waiting, position: p },
    }
}

/// What a visitor asking for its status is told; `None` for an unknown token.
pub fn refresh_reply(o: RefreshOutcome) -> (r: Option<StatusReply>)
    ensures
        r == reply_for_refresh(o),
        o is Admitted ==> r == Some(StatusReply { status: StatusKind::Admitted, position: 0 }),
        o matches RefreshOutcome::Waiting(p) ==> r == Some(StatusReply { status: StatusKind::Waiting, position: p }),
        o is Unknown ==> r is None,
{
    match o {
        RefreshOutcome::Admitted => Some(StatusReply { status: StatusKind::Admitted, position: 0 }),
        RefreshOutcome::Waiting(p) => Some(StatusReply { status: StatusKind::Waiting, position: p }),
        RefreshOutcome::Unknown => None,
    }
}

/// What a visitor is told of a broadcast standing; `None` when the update
/// does not list the token.
pub fn update_reply(s: Option<TokenStatus>) -> (r: Option<StatusReply>)
    ensures
        r == reply_for_update(s),
        s == Some(TokenStatus::Admitted) ==> r == Some(StatusReply { status: StatusKind::Admitted, position: 0 }),
        s matches Some(TokenStatus::Waiting(p)) ==> r == Some(StatusReply { status: StatusKind::Waiting, position: p }),
        s is None ==> r is None,
{
    match s {
        Some(TokenStatus::Admitted) => Some(StatusReply { status: StatusKind::Admitted, position: 0 }),
        Some(TokenStatus::Waiting(p)) => Some(StatusReply { status: StatusKind::Waiting, position: p }),
        None => None,
    }
}

/// The standings that a broadcast update carries, in the order they are to
/// be recorded (a later entry for the same token replaces an earlier one):
/// every admitted token of the listing, then every waiting one with its place
/// (0 when it has none).
pub fn update_statuses(snap: &Snapshot) -> (r: Vec<(String, TokenStatus)>)
    ensures
        r@.len() == snap.active@.len() + snap.waiting@.len(),
        forall|i: int|
            0 <= i < snap.active@.len() ==> (#[trigger] r@[i]).0@ == snap.active@[i].token@ && r@[i].1
                == TokenStatus::Admitted,
        forall|i: int|
            0 <= i < snap.waiting@.len() ==> (#[trigger] r@[snap.active@.len() + i]).0@
                == snap.waiting@[i].token@ && r@[snap.active@.len() + i].1 == TokenStatus::Waiting(
                match snap.waiting@[i].position {
                    Some(p) => p,
                    None => 0,
                },
            ),
{
    let mut r: Vec<(String, TokenStatus)> = Vec::new();
    let mut i: usize = 0;
    while i < snap.active.len()
        invariant
            i <= snap.active@.len(),
            r@.len() == i,
            forall|k: int|
                0 <= k < i ==> (#[trigger] r@[k]).0@ == snap.active@[k].token@ && r@[k].1
                    == TokenStatus::Admitted,
        decreases snap.active@.len() - i,
    {
        r.push((snap.active[i].token.clone(), TokenStatus::Admitted));
        i = i + 1;
    }
    let n = snap.active.len();
    let mut j: usize = 0;
    while j < snap.waiting.len()
        invariant
            n == snap.active@.len(),
            j <= snap.waiting@.len(),
            r@.len() == n + j,
            forall|k: int|
                0 <= k < n ==> (#[trigger] r@[k]).0@ == snap.active@[k].token@ && r@[k].1
                    == TokenStatus::Admitted,
            forall|k: int|
                0 <= k < j ==> (#[trigger] r@[n + k]).0@ == snap.waiting@[k].token@ && r@[n + k].1
                    == TokenStatus::Waiting(
                    match snap.waiting@[k].position {
                        Some(p) => p,
                        None => 0,
                    },
                ),
        decreases snap.waiting@.len() - j,
    {
        let p = match snap.waiting[j].position {
            Some(p) => p,
            None => 0,
        };
        r.push((snap.waiting[j].token.clone(), TokenStatus::Waiting(p)));
        j = j + 1;
    }
    r
}

/// What happens to a visitor's live session.
#[derive(Clone, Debug)]
pub enum SessionEvent {
    /// A broadcast update arrived; it gives the token this standing (`None`:
    /// the update does not list it).
    Update(Option<TokenStatus>),
    /// Some broadcast updates were missed.
    UpdatesLagged,
    /// The broadcast ended.
    UpdatesClosed,
    /// It is time to renew the token's heartbeat.
    HeartbeatDue,
    /// The heartbeat was renewed (`true`) or the token is unknown (`false`).
    HeartbeatDone(bool),
    /// The visitor closed the connection with a close frame.
    PeerClosed,
    /// The connection broke or ended without a close frame.
    PeerGone,
    /// The visitor sent a ping with this payload.
    PeerPing(Vec<u8>),
    /// The visitor sent anything else.
    PeerOther,
    /// Sending a status or a ping failed.
    SendFailed,
}

/// What the session does next.
#[derive(Clone, Debug)]
pub enum SessionAction {
    /// Send this status; a failure to send is reported as `SendFailed`.
    SendStatus(StatusReply),
    /// Tell the visitor its token is unknown and close, whether or not that
    /// succeeds; the session ends.
    SendUnknownAndClose,
    /// Renew the token's heartbeat and report `HeartbeatDone`.
    Heartbeat,
    /// Send a ping; a failure to send is reported as `SendFailed`.
    SendPing,
    /// Answer a ping with this payload; a failure is not reported.
    SendPong(Vec<u8>),
    /// Wait for the next event.
    Wait,
    /// Take the token out of the queue (the visitor left), then end the
    /// session.
    LeaveAndEnd,
    /// End the session.
    End,
}

/// The first step of a visitor's session, from its status when it connected.
pub fn session_start(o: RefreshOutcome) -> (r: SessionAction)
    ensures
        match reply_for_refresh(o) {
            Some(reply) => r == SessionAction::SendStatus(reply),
            None => r is SendUnknownAndClose,
        },
        o is Admitted ==> r == SessionAction::SendStatus(
            StatusReply { status: StatusKind::Admitted, position: 0 },
        ),
        o matches RefreshOutcome::Waiting(p) ==> r == SessionAction::SendStatus(
            StatusReply { status: StatusKind::Waiting, position: p },
        ),
        o is Unknown ==> r is SendUnknownAndClose,
{
    match refresh_reply(o) {
        Some(reply) => SessionAction::SendStatus(reply),
        None => SessionAction::SendUnknownAndClose,
    }
}

/// The next step of a visitor's session after `e`.
pub fn session_step(e: SessionEvent) -> (r: SessionAction)
    ensures
        match e {
            SessionEvent::Update(s) => match reply_for_update(s) {
                Some(reply) => r == SessionAction::SendStatus(reply),
                None => r is SendUnknownAndClose,
            },
            SessionEvent::UpdatesLagged => r is Wait,
            SessionEvent::UpdatesClosed => r is End,
            SessionEvent::HeartbeatDue => r is Heartbeat,
            SessionEvent::HeartbeatDone(known) => if known {
                r is SendPing
            } else {
                r is End
            },
            SessionEvent::PeerClosed => r is LeaveAndEnd,
            SessionEvent::PeerGone => r is End,
            SessionEvent::PeerPing(p) => r == SessionAction::SendPong(p),
            SessionEvent::PeerOther => r is Wait,
            SessionEvent::SendFailed => r is End,
        },
        e matches SessionEvent::Update(Some(TokenStatus::Admitted)) ==> r == SessionAction::SendStatus(
            StatusReply { status: StatusKind::Admitted, position: 0 },
        ),
        e matches SessionEvent::Update(Some(TokenStatus::Waiting(p))) ==> r == SessionAction::SendStatus(
            StatusReply { status: StatusKind::Waiting, position: p },
        ),
        e matches SessionEvent::Update(None) ==> r is SendUnknownAndClose,
{
    match e {
        SessionEvent::Update(s) => match update_reply(s) {
            Some(reply) => SessionAction::SendStatus(reply),
            None => SessionAction::SendUnknownAndClose,
        },
        SessionEvent::UpdatesLagged => SessionAction::Wait,
        SessionEvent::UpdatesClosed => SessionAction::End,
        SessionEvent::HeartbeatDue => SessionAction::Heartbeat,
        SessionEvent::HeartbeatDone(known) => if known {
            SessionAction::SendPing
        } else {
            SessionAction::End
        },
        SessionEvent::PeerClosed => SessionAction::LeaveAndEnd,
        SessionEvent::PeerGone => SessionAction::End,
        SessionEvent::PeerPing(p) => SessionAction::SendPong(p),
        SessionEvent::PeerOther => SessionAction::Wait,
        SessionEvent::SendFailed => SessionAction::End,
    }
}

/// What happens to an administrator's live session.
#[derive(Clone, Copy, Debug, PartialEq, Eq, Structural)]
pub enum AdminSessionEvent {
    /// An overview update arrived, and it could be written out.
    Update,
    /// An overview update arrived, but could not be written out.
    UpdateUnwritable,
    /// Some overview updates were missed.
    UpdatesLagged,
    /// The overview broadcast ended.
    UpdatesClosed,
    /// It is time to ping.
    PingDue,
    /// The administrator closed the connection, or it broke.
    PeerGone,
    /// The administrator sent anything else.
    PeerOther,
    /// Sending failed.
    SendFailed,
}

/// What an administrator's session does next.
#[derive(Clone, Copy, Debug, PartialEq, Eq, Structural)]
pub enum AdminSessionAction {
    /// Send the update; a failure is reported as `SendFailed`.
    Forward,
    /// Send a ping; a failure is reported as `SendFailed`.
    SendPing,
    /// Wait for the next event.
    Wait,
    /// End the session.
    End,
}

/// The next step of an administrator's session after `e`.
pub fn admin_session_step(e: AdminSessionEvent) -> (r: AdminSessionAction)
    ensures
        r == match e {
            AdminSessionEvent::Update => AdminSessionAction::Forward,
            AdminSessionEvent::UpdateUnwritable => AdminSessionAction::Wait,
            AdminSessionEvent::UpdatesLagged => AdminSessionAction::Wait,
            AdminSessionEvent::UpdatesClosed => AdminSessionAction::End,
            AdminSessionEvent::PingDue => AdminSessionAction::SendPing,
            AdminSessionEvent::PeerGone => AdminSessionAction::End,
            AdminSessionEvent::PeerOther => AdminSessionAction::Wait,
            AdminSessionEvent::SendFailed => AdminSessionAction::End,
        },
{
    match e {
        AdminSessionEvent::Update => AdminSessionAction::Forward,
        AdminSessionEvent::UpdateUnwritable => AdminSessionAction::Wait,
        AdminSessionEvent::UpdatesLagged => AdminSessionAction::Wait,
        AdminSessionEvent::UpdatesClosed => AdminSessionAction::End,
        AdminSessionEvent::PingDue => AdminSessionAction::SendPing,
        AdminSessionEvent::PeerGone => AdminSessionAction::End,
        AdminSessionEvent::PeerOther => AdminSessionAction::Wait,
        AdminSessionEvent::SendFailed => AdminSessionAction::End,
    }
}

/// A visitor is told it is admitted exactly when its status or its live
/// update says so, and then at place 0; a waiting visitor is told its place;
/// an unknown one is told nothing. Both channels tell the same standing the
/// same way.
pub proof fn law_replies_tell_standing(o: RefreshOutcome, u: Option<TokenStatus>, p: usize)
    ensures
        (reply_for_refresh(o) matches Some(r) && r.status == StatusKind::Admitted) <==> o is Admitted,
        o is Admitted ==> reply_for_refresh(o) == Some(StatusReply { status: StatusKind::Admitted, position: 0 }),
        o matches RefreshOutcome::Waiting(k) ==> reply_for_refresh(o) == Some(
            StatusReply { status: StatusKind::Waiting, position: k },
        ),
        o is Unknown <==> reply_for_refresh(o) is None,
        (reply_for_update(u) matches Some(r) && r.status == StatusKind::Admitted) <==> u == Some(
            TokenStatus::Admitted,
        ),
        u == Some(TokenStatus::Admitted) ==> reply_for_update(u) == Some(
            StatusReply { status: StatusKind::Admitted, position: 0 },
        ),
        u matches Some(TokenStatus::Waiting(k)) ==> reply_for_update(u) == Some(
            StatusReply { status: StatusKind::Waiting, position: k },
        ),
        u is None <==> reply_for_update(u) is None,
        reply_for_update(Some(TokenStatus::Admitted)) == reply_for_refresh(RefreshOutcome::Admitted),
        reply_for_update(Some(TokenStatus::Waiting(p))) == reply_for_refresh(RefreshOutcome::Waiting(p)),
{
}

} // verus!
