use vstd::prelude::*;

verus! {

/// What a queue backend holds for one site: the waiting line in order, and
/// for each waiting or admitted token the time (in milliseconds) it was last
/// seen.
pub struct QueueState {
    pub queue: Seq<Seq<char>>,
    pub waiting: Map<Seq<char>, i64>,
    pub active: Map<Seq<char>, i64>,
}

/// How long an admitted token stays admitted without being seen, in
/// milliseconds.
pub const ACTIVE_TTL_MS: u64 = 60_000;

/// How long a waiting token keeps its place without being seen, in
/// milliseconds.
pub const WAITING_TTL_MS: u64 = 30_000;

/// What a visitor learns on entering.
#[derive(Clone, Copy, Debug, PartialEq, Eq, Structural)]
pub enum EnterOutcome {
    Admitted,
    /// Waiting at this 1-based position.
    Waiting(usize),
}

/// What a visitor learns when asking for its status.
#[derive(Clone, Copy, Debug, PartialEq, Eq, Structural)]
pub enum RefreshOutcome {
    Admitted,
    /// Waiting at this 1-based position (0 when the token has no place in line).
    Waiting(usize),
    /// The token is neither admitted nor waiting.
    Unknown,
}

/// What an administrator's forced admission did.
#[derive(Clone, Copy, Debug, PartialEq, Eq, Structural)]
pub enum AdmitForcedOutcome {
    AlreadyAdmitted,
    Admitted,
    NotWaiting,
}

/// Whether the token maps of a state are finite (they always are).
pub open spec fn well_formed(s: QueueState) -> bool {
    s.waiting.dom().finite() && s.active.dom().finite()
}

/// Index of the first `t` in `q` at or after `from`.
pub open spec fn index_of_from(q: Seq<Seq<char>>, t: Seq<char>, from: int) -> Option<int>
    decreases q.len() - from,
{
    if from < 0 || from >= q.len() {
        None
    } else if q[from] == t {
        Some(from)
    } else {
        index_of_from(q, t, from + 1)
    }
}

/// The 1-based place of `t` in the line `q`, or 0 when it is not in line.
pub open spec fn queue_position(q: Seq<Seq<char>>, t: Seq<char>) -> usize {
    match index_of_from(q, t, 0) {
        Some(i) => (i + 1) as usize,
        None => 0,
    }
}

/// The line `q` with every `t` taken out.
pub open spec fn without(q: Seq<Seq<char>>, t: Seq<char>) -> Seq<Seq<char>> {
    q.filter(|x: Seq<char>| x != t)
}

/// Admits waiting tokens from the front of the line while fewer than
/// `max_active` are admitted. A token at the front that is no longer waiting
/// leaves the line without being admitted.
pub open spec fn promoted(s: QueueState, max_active: nat, now: i64) -> QueueState
    decreases s.queue.len(),
{
    if s.active.len() >= max_active || s.queue.len() == 0 {
        s
    } else {
        let t = s.queue[0];
        let rest = s.queue.drop_first();
        if s.waiting.contains_key(t) {
            promoted(
                QueueState { queue: rest, waiting: s.waiting.remove(t), active: s.active.insert(t, now) },
                max_active,
                now,
            )
        } else {
            promoted(QueueState { queue: rest, waiting: s.waiting, active: s.active }, max_active, now)
        }
    }
}

/// Promotion keeps the token maps finite.
pub proof fn lemma_promoted_well_formed(s: QueueState, max_active: nat, now: i64)
    ensures
        well_formed(s) ==> well_formed(promoted(s, max_active, now)),
    decreases s.queue.len(),
{
    if s.active.len() >= max_active || s.queue.len() == 0 {
    } else {
        let t = s.queue[0];
        let rest = s.queue.drop_first();
        if s.waiting.contains_key(t) {
            lemma_promoted_well_formed(
                QueueState { queue: rest, waiting: s.waiting.remove(t), active: s.active.insert(t, now) },
                max_active,
                now,
            );
        } else {
            lemma_promoted_well_formed(
                QueueState { queue: rest, waiting: s.waiting, active: s.active },
                max_active,
                now,
            );
        }
    }
}

/// A new visitor with `token` arrives: after promotion it is admitted if there
/// is room, and otherwise joins the end of the line.
pub open spec fn entered(s: QueueState, token: Seq<char>, max_active: nat, now: i64) -> (
    QueueState,
    EnterOutcome,
) {
    let p = promoted(s, max_active, now);
    if p.active.len() < max_active {
        (
            QueueState { queue: p.queue, waiting: p.waiting, active: p.active.insert(token, now) },
            EnterOutcome::Admitted,
        )
    } else {
        let q = p.queue.push(token);
        (
            QueueState { queue: q, waiting: p.waiting.insert(token, now), active: p.active },
            EnterOutcome::Waiting(q.len() as usize),
        )
    }
}

/// A visitor asks for its status: an admitted token is refreshed; a waiting
/// one is refreshed, the line is promoted, and its new status reported; an
/// unknown one changes nothing.
pub open spec fn refreshed(s: QueueState, token: Seq<char>, max_active: nat, now: i64) -> (
    QueueState,
    RefreshOutcome,
) {
    if s.active.contains_key(token) {
        (
            QueueState { queue: s.queue, waiting: s.waiting, active: s.active.insert(token, now) },
            RefreshOutcome::Admitted,
        )
    } else if s.waiting.contains_key(token) {
        let p = promoted(
            QueueState { queue: s.queue, waiting: s.waiting.insert(token, now), active: s.active },
            max_active,
            now,
        );
        if p.active.contains_key(token) {
            (p, RefreshOutcome::Admitted)
        } else {
            (p, RefreshOutcome::Waiting(queue_position(p.queue, token)))
        }
    } else {
        (s, RefreshOutcome::Unknown)
    }
}

/// A heartbeat refreshes an admitted or a waiting token, and reports whether
/// the token is known.
pub open spec fn heartbeat_result(s: QueueState, token: Seq<char>, now: i64) -> (QueueState, bool) {
    if s.active.contains_key(token) {
        (QueueState { queue: s.queue, waiting: s.waiting, active: s.active.insert(token, now) }, true)
    } else if s.waiting.contains_key(token) {
        (QueueState { queue: s.queue, waiting: s.waiting.insert(token, now), active: s.active }, true)
    } else {
        (s, false)
    }
}

/// A visitor leaves: its token is removed everywhere.
pub open spec fn left(s: QueueState, token: Seq<char>) -> QueueState {
    QueueState {
        queue: without(s.queue, token),
        waiting: s.waiting.remove(token),
        active: s.active.remove(token),
    }
}

/// Whether a token last seen at `last` is still alive at `now` for a
/// time-to-live of `ttl` milliseconds.
pub open spec fn fresh(now: i64, last: i64, ttl: int) -> bool {
    now - last < ttl
}

/// The entries of `m` that are still alive at `now`.
pub open spec fn keep_fresh(m: Map<Seq<char>, i64>, now: i64, ttl: int) -> Map<Seq<char>, i64> {
    m.restrict(m.dom().filter(|k: Seq<char>| fresh(now, m[k], ttl)))
}

/// Keeping the alive entries of a finite map leaves a finite map.
pub proof fn lemma_keep_fresh_finite(m: Map<Seq<char>, i64>, now: i64, ttl: int)
    ensures
        m.dom().finite() ==> keep_fresh(m, now, ttl).dom().finite(),
{
    if m.dom().finite() {
        let keys = m.dom().filter(|k: Seq<char>| fresh(now, m[k], ttl));
        assert(keep_fresh(m, now, ttl).dom() =~= m.dom().intersect(keys));
    }
}

/// Whether `t` is waiting but has not been seen for `ttl` milliseconds.
pub open spec fn stale_waiting(w: Map<Seq<char>, i64>, t: Seq<char>, now: i64, ttl: int) -> bool {
    w.contains_key(t) && !fresh(now, w[t], ttl)
}

/// Expiry: admitted and waiting tokens not seen within their time-to-live are
/// dropped (expired waiting ones also leave the line), then the line is
/// promoted.
pub open spec fn cleaned(
    s: QueueState,
    max_active: nat,
    active_ttl: int,
    waiting_ttl: int,
    now: i64,
) -> QueueState {
    promoted(
        QueueState {
            queue: s.queue.filter(|t: Seq<char>| !stale_waiting(s.waiting, t, now, waiting_ttl)),
            waiting: keep_fresh(s.waiting, now, waiting_ttl),
            active: keep_fresh(s.active, now, active_ttl),
        },
        max_active,
        now,
    )
}

/// An administrator admits a waiting token at once, whatever the limit.
pub open spec fn admitted_forced(s: QueueState, token: Seq<char>, now: i64) -> (
    QueueState,
    AdmitForcedOutcome,
) {
    if s.active.contains_key(token) {
        (s, AdmitForcedOutcome::AlreadyAdmitted)
    } else if !s.waiting.contains_key(token) {
        (s, AdmitForcedOutcome::NotWaiting)
    } else {
        (
            QueueState {
                queue: without(s.queue, token),
                waiting: s.waiting.remove(token),
                active: s.active.insert(token, now),
            },
            AdmitForcedOutcome::Admitted,
        )
    }
}

/// An administrator removes a token; the result says whether it was admitted
/// or waiting.
pub open spec fn kicked(s: QueueState, token: Seq<char>) -> (QueueState, bool) {
    let was_active = s.active.contains_key(token);
    let was_waiting = s.waiting.contains_key(token);
    (
        QueueState {
            queue: if was_waiting {
                without(s.queue, token)
            } else {
                s.queue
            },
            waiting: s.waiting.remove(token),
            active: s.active.remove(token),
        },
        was_active || was_waiting,
    )
}

/// The map with no tokens.
pub open spec fn no_times() -> Map<Seq<char>, i64> {
    Map::empty()
}

/// The state with no tokens at all.
pub open spec fn empty_state() -> QueueState {
    QueueState { queue: Seq::empty(), waiting: no_times(), active: no_times() }
}

} // verus!
