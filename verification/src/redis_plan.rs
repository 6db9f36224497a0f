use vstd::prelude::*;
use crate::model::{AdmitForcedOutcome, EnterOutcome, QueueState, RefreshOutcome};
use crate::snapshot::{idle_seconds, idle_secs, page_len, page_size, Snapshot, TokenEntry};
use crate::order::{
    entry_keys, is_token_order, lemma_token_order_is, lookup_from, lookup_time, sort_entries_by_token,
    token_order,
};

verus! {

// The Redis queue keeps, per site, a sorted set (the line, scored by arrival
// time) and two hashes (the last-seen times of waiting and of admitted
// tokens). The commands run in the application; here are the names it uses
// and the decisions it takes on what the commands return.

/// The key of a site's line.
pub fn queue_key(domain: &str) -> (r: String)
    ensures
        r@ == "pcw:queue:"@ + domain@,
{
    String::from_str("pcw:queue:").concat(domain)
}

/// The key of a site's waiting tokens.
pub fn waiting_key(domain: &str) -> (r: String)
    ensures
        r@ == "pcw:waiting:"@ + domain@,
{
    String::from_str("pcw:waiting:").concat(domain)
}

/// The key of a site's admitted tokens.
pub fn active_key(domain: &str) -> (r: String)
    ensures
        r@ == "pcw:active:"@ + domain@,
{
    String::from_str("pcw:active:").concat(domain)
}

/// What happened at the last step of promotion.
#[derive(Clone, Debug)]
pub enum PromoteEvent {
    /// The admitted tokens were counted.
    ActiveCount(usize),
    /// The line's front was popped (at most one token).
    Popped(Vec<String>),
    /// `token` was removed from the waiting tokens; `removed` entries went.
    Removed { token: String, removed: i64 },
    /// `token` was stored as admitted.
    Stored,
}

/// The next step of promotion.
#[derive(Clone, Debug)]
pub enum PromoteAction {
    /// Count the admitted tokens.
    CountActive,
    /// Pop the front of the line.
    PopFront,
    /// Remove this token from the waiting tokens.
    RemoveWaiting(String),
    /// Store this token as admitted, seen now.
    AddActive(String),
    /// Promotion is over.
    Finish,
}

/// The first step of promotion.
pub fn promote_start() -> (r: PromoteAction)
    ensures
        r is CountActive,
{
    PromoteAction::CountActive
}

/// Whether `r` is the next step of promotion after `event`: pop while fewer
/// than `max_active` are admitted; a popped token is admitted only if it was
/// still waiting; stop when full or when the line is empty.
pub open spec fn promote_follows(max_active: usize, event: PromoteEvent, r: PromoteAction) -> bool {
    match event {
        PromoteEvent::ActiveCount(n) => if n >= max_active {
            r is Finish
        } else {
            r is PopFront
        },
        PromoteEvent::Popped(v) => if v@.len() == 0 {
            r is Finish
        } else {
            r == PromoteAction::RemoveWaiting(v@[0])
        },
        PromoteEvent::Removed { token, removed } => if removed > 0 {
            r == PromoteAction::AddActive(token)
        } else {
            r is CountActive
        },
        PromoteEvent::Stored => r is CountActive,
    }
}

/// Whether a Redis store that holds `s` (the line in score order, the
/// waiting and the admitted tokens with their times), its clock reading
/// `now`, answers the promotion step `a` with `e` and then holds `s2`.
pub open spec fn store_answers_promotion(
    s: QueueState,
    a: PromoteAction,
    e: PromoteEvent,
    s2: QueueState,
    now: i64,
) -> bool {
    match a {
        PromoteAction::CountActive => e matches PromoteEvent::ActiveCount(n) && n == s.active.len()
            && s2 == s,
        PromoteAction::PopFront => e matches PromoteEvent::Popped(v) && if s.queue.len() == 0 {
            v@.len() == 0 && s2 == s
        } else {
            v@.len() > 0 && v@[0]@ == s.queue[0] && s2 == QueueState {
                queue: s.queue.drop_first(),
                waiting: s.waiting,
                active: s.active,
            }
        },
        PromoteAction::RemoveWaiting(t) => e matches PromoteEvent::Removed { token, removed }
            && token@ == t@ && removed == (if s.waiting.contains_key(t@) {
            1i64
        } else {
            0i64
        }) && s2 == QueueState { queue: s.queue, waiting: s.waiting.remove(t@), active: s.active },
        PromoteAction::AddActive(t) => e is Stored && s2 == QueueState {
            queue: s.queue,
            waiting: s.waiting,
            active: s.active.insert(t@, now),
        },
        PromoteAction::Finish => false,
    }
}

/// The next step of promotion after `event`; see `promote_follows`.
pub fn promote_next(max_active: usize, event: PromoteEvent) -> (r: PromoteAction)
    ensures
        promote_follows(max_active, event, r),
{
    match event {
        PromoteEvent::ActiveCount(n) => {
            if n >= max_active {
                PromoteAction::Finish
            } else {
                PromoteAction::PopFront
            }
        },
        PromoteEvent::Popped(mut v) => {
            if v.len() == 0 {
                PromoteAction::Finish
            } else {
                let t = v.remove(0);
                PromoteAction::RemoveWaiting(t)
            }
        },
        PromoteEvent::Removed { token, removed } => {
            if removed > 0 {
                PromoteAction::AddActive(token)
            } else {
                PromoteAction::CountActive
            }
        },
        PromoteEvent::Stored => PromoteAction::CountActive,
    }
}

/// The outcome of entering, from the count of admitted tokens after
/// promotion: admitted if there is room. When not, the token is added to the
/// line and `waiting_position` gives its place.
pub fn enter_decision(active_len: usize, max_active: usize) -> (r: bool)
    ensures
        r == (active_len < max_active),
{
    active_len < max_active
}

/// The place of a token that the line ranks `rank` (0-based; 0 when the rank
/// could not be read).
pub fn waiting_position(rank: i64) -> (r: EnterOutcome)
    requires
        rank < i64::MAX,
    ensures
        r == EnterOutcome::Waiting((rank + 1) as usize),
{
    EnterOutcome::Waiting(#[verifier::truncate] ((rank + 1) as usize))
}

/// The status reported to a waiting token that was not admitted by
/// promotion: its 1-based place from its rank, or 0 when it has none.
pub fn refresh_position(rank: Option<i64>) -> (r: RefreshOutcome)
    requires
        rank matches Some(k) ==> k < i64::MAX,
    ensures
        r == RefreshOutcome::Waiting(
            match rank {
                Some(k) => (k + 1) as usize,
                None => 0,
            },
        ),
{
    match rank {
        Some(k) => RefreshOutcome::Waiting(#[verifier::truncate] ((k + 1) as usize)),
        None => RefreshOutcome::Waiting(0),
    }
}

/// What happened at the last step of a status refresh.
#[derive(Clone, Copy, Debug, PartialEq, Eq, Structural)]
pub enum RefreshEvent {
    /// Whether the token is among the admitted tokens.
    ActiveChecked(bool),
    /// The token's admitted time was set to now.
    ActiveStamped,
    /// Whether the token is among the waiting tokens.
    WaitingChecked(bool),
    /// The token's waiting time was set to now.
    WaitingStamped,
    /// Promotion ran.
    Promoted,
    /// Whether the token is admitted after promotion.
    ActiveRechecked(bool),
    /// The token's 0-based rank in the line, where it has one.
    RankRead(Option<i64>),
}

/// The next step of a status refresh.
#[derive(Clone, Copy, Debug, PartialEq, Eq, Structural)]
pub enum RefreshAction {
    /// Ask whether the token is admitted.
    CheckActive,
    /// Set the token's admitted time to now.
    StampActive,
    /// Ask whether the token is waiting.
    CheckWaiting,
    /// Set the token's waiting time to now.
    StampWaiting,
    /// Run promotion with this many places.
    Promote(usize),
    /// Ask again whether the token is admitted.
    RecheckActive,
    /// Read the token's rank in the line.
    ReadRank,
    /// The refresh is over, with this outcome.
    Reply(RefreshOutcome),
}

/// The first step of a status refresh.
pub fn refresh_start() -> (r: RefreshAction)
    ensures
        r is CheckActive,
{
    RefreshAction::CheckActive
}

/// The next step of a status refresh after `event`. An admitted token is
/// stamped and reported admitted; a token that is not waiting either is
/// unknown; a waiting token is stamped, promotion runs, and the token is
/// reported admitted if promotion admitted it, else by its place in line.
pub fn refresh_next(max_active: usize, e: RefreshEvent) -> (r: RefreshAction)
    requires
        e matches RefreshEvent::RankRead(Some(k)) ==> k < i64::MAX,
    ensures
        match e {
            RefreshEvent::ActiveChecked(found) => if found {
                r is StampActive
            } else {
                r is CheckWaiting
            },
            RefreshEvent::ActiveStamped => r == RefreshAction::Reply(RefreshOutcome::Admitted),
            RefreshEvent::WaitingChecked(found) => if found {
                r is StampWaiting
            } else {
                r == RefreshAction::Reply(RefreshOutcome::Unknown)
            },
            RefreshEvent::WaitingStamped => r == RefreshAction::Promote(max_active),
            RefreshEvent::Promoted => r is RecheckActive,
            RefreshEvent::ActiveRechecked(found) => if found {
                r == RefreshAction::Reply(RefreshOutcome::Admitted)
            } else {
                r is ReadRank
            },
            RefreshEvent::RankRead(rank) => r == RefreshAction::Reply(
                RefreshOutcome::Waiting(
                    match rank {
                        Some(k) => (k + 1) as usize,
                        None => 0,
                    },
                ),
            ),
        },
{
    match e {
        RefreshEvent::ActiveChecked(found) => {
            if found {
                RefreshAction::StampActive
            } else {
                RefreshAction::CheckWaiting
            }
        },
        RefreshEvent::ActiveStamped => RefreshAction::Reply(RefreshOutcome::Admitted),
        RefreshEvent::WaitingChecked(found) => {
            if found {
                RefreshAction::StampWaiting
            } else {
                RefreshAction::Reply(RefreshOutcome::Unknown)
            }
        },
        RefreshEvent::WaitingStamped => RefreshAction::Promote(max_active),
        RefreshEvent::Promoted => RefreshAction::RecheckActive,
        RefreshEvent::ActiveRechecked(found) => {
            if found {
                RefreshAction::Reply(RefreshOutcome::Admitted)
            } else {
                RefreshAction::ReadRank
            }
        },
        RefreshEvent::RankRead(rank) => RefreshAction::Reply(refresh_position(rank)),
    }
}

/// What happened at the last step of a heartbeat.
#[derive(Clone, Copy, Debug, PartialEq, Eq, Structural)]
pub enum HeartbeatEvent {
    /// Whether the token is among the admitted tokens.
    ActiveChecked(bool),
    /// The token's admitted time was set to now.
    ActiveStamped,
    /// Whether the token is among the waiting tokens.
    WaitingChecked(bool),
    /// The token's waiting time was set to now.
    WaitingStamped,
}

/// The next step of a heartbeat.
#[derive(Clone, Copy, Debug, PartialEq, Eq, Structural)]
pub enum HeartbeatAction {
    /// Ask whether the token is admitted.
    CheckActive,
    /// Set the token's admitted time to now.
    StampActive,
    /// Ask whether the token is waiting.
    CheckWaiting,
    /// Set the token's waiting time to now.
    StampWaiting,
    /// The heartbeat is over: whether the token was known.
    Reply(bool),
}

/// The first step of a heartbeat.
pub fn heartbeat_start() -> (r: HeartbeatAction)
    ensures
        r is CheckActive,
{
    HeartbeatAction::CheckActive
}

/// The next step of a heartbeat after `e`: an admitted or waiting token is
/// stamped and the heartbeat succeeds; a token that is neither fails.
pub fn heartbeat_next(e: HeartbeatEvent) -> (r: HeartbeatAction)
    ensures
        match e {
            HeartbeatEvent::ActiveChecked(found) => if found {
                r is StampActive
            } else {
                r is CheckWaiting
            },
            HeartbeatEvent::ActiveStamped => r == HeartbeatAction::Reply(true),
            HeartbeatEvent::WaitingChecked(found) => if found {
                r is StampWaiting
            } else {
                r == HeartbeatAction::Reply(false)
            },
            HeartbeatEvent::WaitingStamped => r == HeartbeatAction::Reply(true),
        },
{
    match e {
        HeartbeatEvent::ActiveChecked(found) => {
            if found {
                HeartbeatAction::StampActive
            } else {
                HeartbeatAction::CheckWaiting
            }
        },
        HeartbeatEvent::ActiveStamped => HeartbeatAction::Reply(true),
        HeartbeatEvent::WaitingChecked(found) => {
            if found {
                HeartbeatAction::StampWaiting
            } else {
                HeartbeatAction::Reply(false)
            }
        },
        HeartbeatEvent::WaitingStamped => HeartbeatAction::Reply(true),
    }
}

/// The outcome of a forced admission: already admitted when the token is
/// admitted; not waiting when removing it from the waiting tokens removed
/// nothing; admitted otherwise (the application then takes it out of line
/// and stores it as admitted).
pub fn admit_decision(in_active: bool, removed_waiting: i64) -> (r: AdmitForcedOutcome)
    ensures
        in_active ==> r is AlreadyAdmitted,
        !in_active && removed_waiting == 0 ==> r is NotWaiting,
        !in_active && removed_waiting != 0 ==> r is Admitted,
{
    if in_active {
        AdmitForcedOutcome::AlreadyAdmitted
    } else if removed_waiting == 0 {
        AdmitForcedOutcome::NotWaiting
    } else {
        AdmitForcedOutcome::Admitted
    }
}

/// Whether a kick removed anything, from the counts of entries removed from
/// the admitted and the waiting tokens.
pub fn kick_result(removed_active: i64, removed_waiting: i64) -> (r: bool)
    ensures
        r == (removed_active > 0 || removed_waiting > 0),
{
    removed_active > 0 || removed_waiting > 0
}

/// The time before which a token counts as expired: `ttl` milliseconds
/// before `now`.
pub fn expiry_cutoff(now: i64, ttl: u64) -> (r: i64)
    requires
        ttl <= i64::MAX,
        now - ttl >= i64::MIN,
    ensures
        r == now - ttl,
{
    now - (ttl as i64)
}

/// The tokens of `entries` last seen before `cutoff`, in their order.
pub fn expired_tokens(entries: &Vec<(String, i64)>, cutoff: i64) -> (r: Vec<String>)
    ensures
        r@.map_values(|s: String| s@) == entries@.filter(|e: (String, i64)| e.1 < cutoff).map_values(
            |e: (String, i64)| e.0@,
        ),
{
    let mut out: Vec<String> = Vec::new();
    let mut i: usize = 0;
    while i < entries.len()
        invariant
            i <= entries@.len(),
            out@.map_values(|s: String| s@) == entries@.take(i as int).filter(
                |e: (String, i64)| e.1 < cutoff,
            ).map_values(|e: (String, i64)| e.0@),
        decreases entries@.len() - i,
    {
        reveal_with_fuel(Seq::<_>::filter, 1);
        let ghost before = out@;
        assert(entries@.take(i + 1).drop_last() =~= entries@.take(i as int));
        assert(entries@.take(i + 1).last() == entries@[i as int]);
        let e = &entries[i];
        if e.1 < cutoff {
            out.push(e.0.clone());
            assert(out@.map_values(|s: String| s@) =~= before.map_values(|s: String| s@).push(
                e.0@,
            ));
            assert(entries@.take(i + 1).filter(|e: (String, i64)| e.1 < cutoff) == entries@.take(
                i as int,
            ).filter(|e: (String, i64)| e.1 < cutoff).push(entries@[i as int]));
            assert(entries@.take(i + 1).filter(|e: (String, i64)| e.1 < cutoff).map_values(
                |e: (String, i64)| e.0@,
            ) =~= entries@.take(i as int).filter(|e: (String, i64)| e.1 < cutoff).map_values(
                |e: (String, i64)| e.0@,
            ).push(e.0@));
        }
        i = i + 1;
    }
    assert(entries@.take(entries@.len() as int) =~= entries@);
    out
}

/// Whether `page` lists the admitted tokens of the entries `active_all`
/// (token and last-seen time), in increasing order of token, from `offset`
/// on and at most `limit` of them, each with its idle time at `now`.
pub open spec fn is_admitted_page(
    page: Seq<TokenEntry>,
    active_all: Seq<(String, i64)>,
    limit: nat,
    offset: nat,
    now: i64,
) -> bool {
    let ord = token_order(entry_keys(active_all));
    &&& is_token_order(ord, entry_keys(active_all))
    &&& page.len() == page_len(ord.len(), limit, offset)
    &&& forall|j: int|
        0 <= j < page.len() ==> {
            let e = #[trigger] page[j];
            &&& e.token@ == ord[offset + j]
            &&& lookup_from(active_all, e.token@, 0) matches Some(last) && e.idle_secs == idle_seconds(
                now,
                last,
            )
            &&& e.position is None
        }
}

/// A page of a Redis-kept queue: of the admitted tokens in increasing order
/// (each with its first time among `active_all`), those from `offset` on, at
/// most `limit`; the waiting tokens of the line's page in
/// order, numbered from `offset + 1`, with their times looked up in the
/// waiting entries (0 seconds idle when absent).
pub fn redis_snapshot(
    total_active: usize,
    total_waiting: usize,
    active_all: &Vec<(String, i64)>,
    line_page: &Vec<String>,
    waiting_all: &Vec<(String, i64)>,
    limit: usize,
    offset: usize,
    now: i64,
) -> (r: Snapshot)
    requires
        offset + line_page@.len() <= usize::MAX,
    ensures
        r.total_active == total_active,
        r.total_waiting == total_waiting,
        is_admitted_page(r.active@, active_all@, limit as nat, offset as nat, now),
        r.waiting@.len() == line_page@.len(),
        forall|j: int|
            0 <= j < r.waiting@.len() ==> {
                let e = #[trigger] r.waiting@[j];
                &&& e.token@ == line_page@[j]@
                &&& e.position == Some((offset + j + 1) as usize)
                &&& e.idle_secs == match lookup_from(waiting_all@, line_page@[j]@, 0) {
                    Some(last) => idle_seconds(now, last),
                    None => 0,
                }
            },
{
    let sorted = sort_entries_by_token(active_all);
    let ghost keys = entry_keys(active_all@);
    let ghost ord = sorted@.map_values(|e: (String, i64)| e.0@);
    proof {
        lemma_token_order_is(ord, keys);
    }
    let n_all = sorted.len();
    let n_active = page_size(n_all, limit, offset);
    let mut active: Vec<TokenEntry> = Vec::new();
    let mut i: usize = 0;
    while i < n_active
        invariant
            i <= n_active,
            n_active == page_len(sorted@.len(), limit as nat, offset as nat),
            offset + n_active <= sorted@.len() || n_active == 0,
            n_all == sorted@.len(),
            ord == sorted@.map_values(|e: (String, i64)| e.0@),
            ord == token_order(keys),
            keys == entry_keys(active_all@),
            forall|k: int|
                0 <= k < sorted@.len() ==> Some((#[trigger] sorted@[k]).1) == lookup_from(
                    active_all@,
                    sorted@[k].0@,
                    0,
                ),
            active@.len() == i,
            forall|j: int|
                0 <= j < i ==> {
                    let e = #[trigger] active@[j];
                    &&& e.token@ == token_order(keys)[offset + j]
                    &&& lookup_from(active_all@, e.token@, 0) matches Some(last) && e.idle_secs
                        == idle_seconds(now, last)
                    &&& e.position is None
                },
        decreases n_active - i,
    {
        let e = &sorted[offset + i];
        let ghost k = offset + i;
        assert(ord[k] == e.0@);
        assert(Some(sorted@[k].1) == lookup_from(active_all@, sorted@[k].0@, 0));
        active.push(TokenEntry { token: e.0.clone(), idle_secs: idle_secs(now, e.1), position: None });
        i = i + 1;
    }
    let mut waiting: Vec<TokenEntry> = Vec::new();
    let mut i: usize = 0;
    while i < line_page.len()
        invariant
            i <= line_page@.len(),
            offset + line_page@.len() <= usize::MAX,
            waiting@.len() == i,
            forall|j: int|
                0 <= j < i ==> {
                    let e = #[trigger] waiting@[j];
                    &&& e.token@ == line_page@[j]@
                    &&& e.position == Some((offset + j + 1) as usize)
                    &&& e.idle_secs == match lookup_from(waiting_all@, line_page@[j]@, 0) {
                        Some(last) => idle_seconds(now, last),
                        None => 0,
                    }
                },
        decreases line_page@.len() - i,
    {
        let t = &line_page[i];
        let idle = match lookup_time(waiting_all, t.as_str()) {
            Some(last) => idle_secs(now, last),
            None => 0,
        };
        waiting.push(TokenEntry { token: t.clone(), idle_secs: idle, position: Some(offset + i + 1) });
        i = i + 1;
    }
    Snapshot { active, waiting, total_active, total_waiting }
}

/// The bounds of the line's page to read (inclusive, as the sorted-set range
/// command takes them): from `offset`, and to the end when `limit` is the
/// largest `usize`, else to `offset + limit - 1` (but not below 0).
pub fn line_range(limit: usize, offset: usize) -> (r: (isize, isize))
    requires
        limit == usize::MAX || offset + limit <= usize::MAX,
    ensures
        r.0 == offset as isize,
        limit == usize::MAX ==> r.1 == -1,
        limit != usize::MAX ==> r.1 == (if offset + limit == 0 {
            0
        } else {
            offset + limit - 1
        }) as isize,
{
    let start = #[verifier::truncate] (offset as isize);
    let end: isize = if limit == usize::MAX {
        -1
    } else {
        let last = if offset + limit == 0 {
            0
        } else {
            offset + limit - 1
        };
        #[verifier::truncate] (last as isize)
    };
    (start, end)
}

} // verus!
