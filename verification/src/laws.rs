use vstd::prelude::*;
use crate::memory::{is_page, lists_active, lists_waiting};
use crate::order::{entry_keys, text_lt, token_order};
use crate::redis_plan::{
    is_admitted_page, promote_follows, store_answers_promotion, PromoteAction, PromoteEvent,
};
use crate::snapshot::{Snapshot, TokenEntry};
use crate::sessions::{reply_for_refresh, StatusKind};
use crate::orderly::{law_refreshing_keeps_order, orderly};
use crate::model::{
    admitted_forced, cleaned, empty_state, entered, fresh, heartbeat_result, index_of_from,
    keep_fresh, kicked, left, lemma_keep_fresh_finite, lemma_promoted_well_formed, promoted,
    queue_position, refreshed, stale_waiting, well_formed, AdmitForcedOutcome,
    EnterOutcome, QueueState, RefreshOutcome, ACTIVE_TTL_MS, WAITING_TTL_MS,
};

verus! {

broadcast use vstd::seq_lib::group_filter_ensures;

/// What promotion does, in one place: it stops only when the limit is reached
/// or the line is empty; it never pushes the admitted count over a limit it
/// was within; it only takes tokens off the front of the line; it admits only
/// tokens that were waiting and in line; it never drops an admitted token;
/// and a token stops waiting only by being admitted.
proof fn lemma_promoted(s: QueueState, max_active: nat, now: i64)
    requires
        well_formed(s),
    ensures
        ({
            let p = promoted(s, max_active, now);
            &&& well_formed(p)
            &&& p.active.len() >= max_active || p.queue.len() == 0
            &&& s.active.len() <= max_active ==> p.active.len() <= max_active
            &&& s.active.len() >= max_active ==> p == s
            &&& p.queue.len() <= s.queue.len()
            &&& p.queue == s.queue.subrange(s.queue.len() - p.queue.len(), s.queue.len() as int)
            &&& forall|t: Seq<char>| #[trigger] s.active.contains_key(t) ==> p.active.contains_key(t)
            &&& forall|t: Seq<char>|
                #[trigger] p.active.contains_key(t) ==> s.active.contains_key(t) || (s.waiting.contains_key(
                    t,
                ) && s.queue.contains(t))
            &&& forall|t: Seq<char>| #[trigger] p.waiting.contains_key(t) ==> s.waiting.contains_key(t)
            &&& forall|t: Seq<char>|
                #[trigger] s.waiting.contains_key(t) && !p.waiting.contains_key(t) ==> p.active.contains_key(
                    t,
                )
            &&& forall|t: Seq<char>|
                #[trigger] p.waiting.contains_key(t) ==> p.waiting[t] == s.waiting[t]
        }),
    decreases s.queue.len(),
{
    lemma_promoted_well_formed(s, max_active, now);
    if s.active.len() >= max_active || s.queue.len() == 0 {
        assert(s.queue.subrange(0, s.queue.len() as int) =~= s.queue);
    } else {
        let t = s.queue[0];
        let rest = s.queue.drop_first();
        let next = if s.waiting.contains_key(t) {
            QueueState { queue: rest, waiting: s.waiting.remove(t), active: s.active.insert(t, now) }
        } else {
            QueueState { queue: rest, waiting: s.waiting, active: s.active }
        };
        assert(promoted(s, max_active, now) == promoted(next, max_active, now));
        lemma_promoted(next, max_active, now);
        let p = promoted(next, max_active, now);
        assert(p.queue == s.queue.subrange(s.queue.len() - p.queue.len(), s.queue.len() as int));
        assert forall|x: Seq<char>| #[trigger] p.active.contains_key(x) implies s.active.contains_key(x)
            || (s.waiting.contains_key(x) && s.queue.contains(x)) by {
            if next.active.contains_key(x) {
                if x != t {
                    assert(s.active.contains_key(x));
                } else if !s.active.contains_key(x) {
                    assert(s.queue[0] == x);
                }
            } else {
                assert(next.waiting.contains_key(x) && rest.contains(x));
                let i = choose|i: int| 0 <= i < rest.len() && rest[i] == x;
                assert(s.queue[i + 1] == x);
            }
        }
        assert forall|x: Seq<char>| #[trigger] s.active.contains_key(x) implies p.active.contains_key(x) by {
            assert(next.active.contains_key(x));
        }
        assert forall|x: Seq<char>| #[trigger] s.waiting.contains_key(x) && !p.waiting.contains_key(x)
            implies p.active.contains_key(x) by {
            if x == t {
                assert(next.active.contains_key(x));
            } else {
                assert(next.waiting.contains_key(x));
            }
        }
    }
}

/// Promotion stops only once the admitted count reaches the limit or the line
/// is empty.
pub proof fn law_promotion_fills_or_drains(s: QueueState, max_active: nat, now: i64)
    requires
        well_formed(s),
    ensures
        promoted(s, max_active, now).active.len() >= max_active || promoted(
            s,
            max_active,
            now,
        ).queue.len() == 0,
{
    lemma_promoted(s, max_active, now);
}

/// Promotion never admits past the limit.
pub proof fn law_promotion_respects_limit(s: QueueState, max_active: nat, now: i64)
    requires
        well_formed(s),
        s.active.len() <= max_active,
    ensures
        promoted(s, max_active, now).active.len() <= max_active,
{
    lemma_promoted(s, max_active, now);
}

/// Promotion takes tokens only from the front of the line, keeps every
/// admitted token, and admits only tokens that were waiting in line.
pub proof fn law_promotion_takes_from_front(s: QueueState, max_active: nat, now: i64)
    requires
        well_formed(s),
    ensures
        ({
            let p = promoted(s, max_active, now);
            &&& p.queue == s.queue.skip(s.queue.len() - p.queue.len())
            &&& forall|t: Seq<char>| #[trigger] s.active.contains_key(t) ==> p.active.contains_key(t)
            &&& forall|t: Seq<char>|
                #[trigger] p.active.contains_key(t) && !s.active.contains_key(t) ==> s.waiting.contains_key(
                    t,
                ) && s.queue.contains(t)
        }),
{
    lemma_promoted(s, max_active, now);
    let p = promoted(s, max_active, now);
    assert(p.queue =~= s.queue.skip(s.queue.len() - p.queue.len()));
}

/// Whether no token stands twice in the line, and every token in line is
/// waiting and not admitted.
pub open spec fn orderly_line(s: QueueState) -> bool {
    &&& forall|i: int, j: int|
        0 <= i < j < s.queue.len() ==> #[trigger] s.queue[i] != #[trigger] s.queue[j]
    &&& forall|i: int|
        0 <= i < s.queue.len() ==> s.waiting.contains_key(#[trigger] s.queue[i])
            && !s.active.contains_key(s.queue[i])
}

/// First come, first served: in an orderly line, promotion admits exactly
/// the first tokens of the line, as many as there is room for.
pub proof fn law_first_come_first_served(s: QueueState, max_active: nat, now: i64)
    requires
        well_formed(s),
        orderly_line(s),
        s.active.len() <= max_active,
    ensures
        ({
            let p = promoted(s, max_active, now);
            let room = max_active - s.active.len();
            let m = if room < s.queue.len() {
                room
            } else {
                s.queue.len() as int
            };
            &&& p.queue == s.queue.skip(m)
            &&& p.active.len() == s.active.len() + m
            &&& forall|i: int| 0 <= i < m ==> p.active.contains_key(#[trigger] s.queue[i])
        }),
    decreases s.queue.len(),
{
    if s.active.len() >= max_active || s.queue.len() == 0 {
        assert(s.queue.skip(0) =~= s.queue);
    } else {
        let t = s.queue[0];
        let rest = s.queue.drop_first();
        let next = QueueState { queue: rest, waiting: s.waiting.remove(t), active: s.active.insert(t, now) };
        assert(s.waiting.contains_key(t));
        assert(promoted(s, max_active, now) == promoted(next, max_active, now));
        assert(next.active.len() == s.active.len() + 1);
        assert forall|i: int, j: int| 0 <= i < j < next.queue.len() implies #[trigger] next.queue[i]
            != #[trigger] next.queue[j] by {
            assert(next.queue[i] == s.queue[i + 1] && next.queue[j] == s.queue[j + 1]);
        }
        assert forall|i: int| 0 <= i < next.queue.len() implies next.waiting.contains_key(
            #[trigger] next.queue[i],
        ) && !next.active.contains_key(next.queue[i]) by {
            assert(next.queue[i] == s.queue[i + 1]);
            assert(s.queue[i + 1] != s.queue[0]);
        }
        law_first_come_first_served(next, max_active, now);
        lemma_promoted(next, max_active, now);
        let p = promoted(next, max_active, now);
        let room = max_active - s.active.len();
        let m = if room < s.queue.len() {
            room
        } else {
            s.queue.len() as int
        };
        assert(p.queue =~= s.queue.skip(m));
        assert forall|i: int| 0 <= i < m implies p.active.contains_key(#[trigger] s.queue[i]) by {
            if i > 0 {
                assert(s.queue[i] == next.queue[i - 1]);
            } else {
                assert(next.active.contains_key(t));
            }
        }
    }
}


/// The first `t` at or after `i` is at `k` when `k` holds `t` and nothing
/// from `i` up to `k` does.
proof fn lemma_index_of_from(q: Seq<Seq<char>>, t: Seq<char>, i: int, k: int)
    requires
        0 <= i <= k < q.len(),
        q[k] == t,
        forall|j: int| i <= j < k ==> q[j] != t,
    ensures
        index_of_from(q, t, i) == Some(k),
    decreases k - i,
{
    if i < k {
        lemma_index_of_from(q, t, i + 1, k);
    }
}

/// Entering never admits past the limit: it never leaves more admitted
/// tokens than the larger of the limit and the admitted count before, and
/// when it admits the newcomer the limit holds afterwards.
pub proof fn law_entering_respects_limit(s: QueueState, token: Seq<char>, max_active: nat, now: i64)
    requires
        well_formed(s),
    ensures
        ({
            let (s1, o) = entered(s, token, max_active, now);
            &&& well_formed(s1)
            &&& s1.active.len() <= if s.active.len() <= max_active {
                max_active
            } else {
                s.active.len()
            }
            &&& o is Admitted ==> s1.active.len() <= max_active
        }),
{
    lemma_promoted(s, max_active, now);
}

/// Entering serves the line first: a newcomer is admitted only when no one
/// is left in line, and it is then admitted; a newcomer is told to wait only
/// when the admitted tokens fill the limit.
pub proof fn law_entering_serves_line_first(s: QueueState, token: Seq<char>, max_active: nat, now: i64)
    requires
        well_formed(s),
    ensures
        ({
            let (s1, o) = entered(s, token, max_active, now);
            &&& o is Admitted ==> s1.queue.len() == 0 && s1.active.contains_key(token)
            &&& o is Waiting ==> s1.active.len() >= max_active
        }),
{
    lemma_promoted(s, max_active, now);
}

/// A token that is told to wait stands last in line, at the place it was
/// told (when it was not in line before).
pub proof fn law_entering_reports_place(s: QueueState, token: Seq<char>, max_active: nat, now: i64)
    requires
        well_formed(s),
        !s.queue.contains(token),
        s.queue.len() < usize::MAX,
    ensures
        ({
            let (s1, o) = entered(s, token, max_active, now);
            o matches EnterOutcome::Waiting(k) ==> {
                &&& k == s1.queue.len()
                &&& s1.queue[k - 1] == token
                &&& queue_position(s1.queue, token) == k
            }
        }),
{
    lemma_promoted(s, max_active, now);
    let p = promoted(s, max_active, now);
    let (s1, o) = entered(s, token, max_active, now);
    if o is Waiting {
        assert forall|j: int| 0 <= j < p.queue.len() implies p.queue[j] != token by {
            assert(p.queue[j] == s.queue[s.queue.len() - p.queue.len() + j]);
        }
        lemma_index_of_from(s1.queue, token, 0, p.queue.len() as int);
    }
}

/// Asking for one's status right after being told to wait reports the same
/// place (for a token that was new to the queue).
pub proof fn law_status_right_after_entering(
    s: QueueState,
    token: Seq<char>,
    max_active: nat,
    now: i64,
    later: i64,
)
    requires
        well_formed(s),
        !s.queue.contains(token),
        !s.active.contains_key(token),
        s.queue.len() < usize::MAX,
    ensures
        ({
            let (s1, o) = entered(s, token, max_active, now);
            o is Waiting ==> refreshed(s1, token, max_active, later).1 == match o {
                EnterOutcome::Waiting(k) => RefreshOutcome::Waiting(k),
                EnterOutcome::Admitted => RefreshOutcome::Admitted,
            }
        }),
{
    lemma_promoted(s, max_active, now);
    law_entering_reports_place(s, token, max_active, now);
    let p = promoted(s, max_active, now);
    let (s1, o) = entered(s, token, max_active, now);
    if o is Waiting {
        assert(!p.active.contains_key(token));
        let s2 = QueueState { queue: s1.queue, waiting: s1.waiting.insert(token, later), active: s1.active };
        lemma_promoted(s2, max_active, later);
    }
}

/// A token that left is unknown: it is neither admitted, waiting nor in line,
/// a heartbeat reports it unknown, and asking its status changes nothing.
pub proof fn law_leaving_forgets(s: QueueState, token: Seq<char>, max_active: nat, now: i64)
    ensures
        ({
            let s1 = left(s, token);
            &&& !s1.active.contains_key(token)
            &&& !s1.waiting.contains_key(token)
            &&& !s1.queue.contains(token)
            &&& heartbeat_result(s1, token, now) == (s1, false)
            &&& refreshed(s1, token, max_active, now) == (s1, RefreshOutcome::Unknown)
        }),
{
    let s1 = left(s, token);
    if s1.queue.contains(token) {
        let i = choose|i: int| 0 <= i < s1.queue.len() && s1.queue[i] == token;
        assert((|x: Seq<char>| x != token)(s1.queue[i]));
    }
}

/// A kick reports whether the token was admitted or waiting, and afterwards
/// the token is unknown (and out of line when it was waiting).
pub proof fn law_kicking_removes(s: QueueState, token: Seq<char>, max_active: nat, now: i64)
    ensures
        ({
            let (s1, r) = kicked(s, token);
            &&& r == (s.active.contains_key(token) || s.waiting.contains_key(token))
            &&& !s1.active.contains_key(token)
            &&& !s1.waiting.contains_key(token)
            &&& s.waiting.contains_key(token) ==> !s1.queue.contains(token)
            &&& refreshed(s1, token, max_active, now) == (s1, RefreshOutcome::Unknown)
        }),
{
    let (s1, r) = kicked(s, token);
    if s.waiting.contains_key(token) && s1.queue.contains(token) {
        let i = choose|i: int| 0 <= i < s1.queue.len() && s1.queue[i] == token;
        assert((|x: Seq<char>| x != token)(s1.queue[i]));
    }
}

/// After clearing, no token is admitted or waiting, and every token is
/// unknown.
pub proof fn law_clearing_empties(token: Seq<char>, max_active: nat, now: i64)
    ensures
        empty_state().active.len() == 0,
        empty_state().queue.len() == 0,
        heartbeat_result(empty_state(), token, now) == (empty_state(), false),
        refreshed(empty_state(), token, max_active, now) == (empty_state(), RefreshOutcome::Unknown),
{
    assert(empty_state().active.dom() =~= Set::<Seq<char>>::empty());
}

/// A heartbeat changes no one's standing: the line and who is admitted or
/// waiting stay as they were; it reports whether the token is known.
pub proof fn law_heartbeat_keeps_standing(s: QueueState, token: Seq<char>, now: i64)
    ensures
        ({
            let (s1, r) = heartbeat_result(s, token, now);
            &&& s1.queue == s.queue
            &&& s1.active.dom() == s.active.dom()
            &&& s1.waiting.dom() == s.waiting.dom()
            &&& r == (s.active.contains_key(token) || s.waiting.contains_key(token))
        }),
{
    let (s1, r) = heartbeat_result(s, token, now);
    assert(s1.active.dom() =~= s.active.dom());
    assert(s1.waiting.dom() =~= s.waiting.dom());
}

/// Asking for one's status never admits past the limit.
pub proof fn law_refreshing_respects_limit(s: QueueState, token: Seq<char>, max_active: nat, now: i64)
    requires
        well_formed(s),
        s.active.len() <= max_active,
    ensures
        well_formed(refreshed(s, token, max_active, now).0),
        refreshed(s, token, max_active, now).0.active.len() <= max_active,
{
    if s.active.contains_key(token) {
        assert(s.active.insert(token, now).dom() =~= s.active.dom());
    } else if s.waiting.contains_key(token) {
        let s2 = QueueState { queue: s.queue, waiting: s.waiting.insert(token, now), active: s.active };
        lemma_promoted(s2, max_active, now);
    }
}

/// A visitor asking for its status is told it is admitted exactly when its
/// token is admitted afterwards, and then at place 0; told it waits, at its
/// place in line, exactly when it is known but not admitted; and told
/// nothing only when it was neither admitted nor waiting.
pub proof fn law_status_reply_matches_standing(s: QueueState, token: Seq<char>, max_active: nat, now: i64)
    ensures
        ({
            let (s1, o) = refreshed(s, token, max_active, now);
            match reply_for_refresh(o) {
                Some(r) => {
                    &&& (r.status == StatusKind::Admitted) == s1.active.contains_key(token)
                    &&& r.status == StatusKind::Admitted ==> r.position == 0
                    &&& r.status == StatusKind::Waiting ==> r.position == queue_position(s1.queue, token)
                },
                None => !s.active.contains_key(token) && !s.waiting.contains_key(token),
            }
        }),
{
}

/// Asking for one's status serves the line first: in an orderly queue, a
/// visitor still told to wait after asking is still waiting in line, and the
/// admitted tokens fill the limit.
pub proof fn law_refresh_serves_line_first(s: QueueState, token: Seq<char>, max_active: nat, now: i64)
    requires
        well_formed(s),
        orderly(s),
    ensures
        ({
            let (s1, o) = refreshed(s, token, max_active, now);
            o is Waiting ==> s1.active.len() >= max_active && s1.waiting.contains_key(token) && s1.queue.contains(
                token,
            )
        }),
{
    law_refreshing_keeps_order(s, token, max_active, now);
    if !s.active.contains_key(token) && s.waiting.contains_key(token) {
        let s2 = QueueState { queue: s.queue, waiting: s.waiting.insert(token, now), active: s.active };
        lemma_promoted(s2, max_active, now);
        let p = promoted(s2, max_active, now);
        if !p.active.contains_key(token) {
            assert(s2.waiting.contains_key(token));
            assert(p.waiting.contains_key(token));
            assert(p.queue.contains(token));
        }
    }
}

/// The state that expiry promotes from.
spec fn expired(s: QueueState, active_ttl: int, waiting_ttl: int, now: i64) -> QueueState {
    QueueState {
        queue: s.queue.filter(|t: Seq<char>| !stale_waiting(s.waiting, t, now, waiting_ttl)),
        waiting: keep_fresh(s.waiting, now, waiting_ttl),
        active: keep_fresh(s.active, now, active_ttl),
    }
}

proof fn lemma_expired(s: QueueState, active_ttl: int, waiting_ttl: int, now: i64)
    requires
        well_formed(s),
    ensures
        well_formed(expired(s, active_ttl, waiting_ttl, now)),
        expired(s, active_ttl, waiting_ttl, now).active.len() <= s.active.len(),
{
    lemma_keep_fresh_finite(s.waiting, now, waiting_ttl);
    lemma_keep_fresh_finite(s.active, now, active_ttl);
    vstd::set_lib::lemma_len_subset(keep_fresh(s.active, now, active_ttl).dom(), s.active.dom());
}

/// Expiry never admits past the limit.
pub proof fn law_cleanup_respects_limit(
    s: QueueState,
    max_active: nat,
    active_ttl: int,
    waiting_ttl: int,
    now: i64,
)
    requires
        well_formed(s),
        s.active.len() <= max_active,
    ensures
        well_formed(cleaned(s, max_active, active_ttl, waiting_ttl, now)),
        cleaned(s, max_active, active_ttl, waiting_ttl, now).active.len() <= max_active,
{
    lemma_expired(s, active_ttl, waiting_ttl, now);
    lemma_promoted(expired(s, active_ttl, waiting_ttl, now), max_active, now);
}

/// An admitted token seen within its time-to-live stays admitted through
/// expiry, whatever the limit (lowering the limit evicts no one).
pub proof fn law_cleanup_keeps_live_admitted(
    s: QueueState,
    token: Seq<char>,
    max_active: nat,
    active_ttl: int,
    waiting_ttl: int,
    now: i64,
)
    requires
        well_formed(s),
        s.active.contains_key(token),
        fresh(now, s.active[token], active_ttl),
    ensures
        cleaned(s, max_active, active_ttl, waiting_ttl, now).active.contains_key(token),
{
    lemma_expired(s, active_ttl, waiting_ttl, now);
    let m = expired(s, active_ttl, waiting_ttl, now);
    assert(m.active.contains_key(token));
    lemma_promoted(m, max_active, now);
}

/// An admitted token not seen within its time-to-live is no longer admitted
/// after expiry (unless it was also waiting, and so could be admitted again).
pub proof fn law_cleanup_expires_idle_admitted(
    s: QueueState,
    token: Seq<char>,
    max_active: nat,
    active_ttl: int,
    waiting_ttl: int,
    now: i64,
)
    requires
        well_formed(s),
        s.active.contains_key(token),
        !fresh(now, s.active[token], active_ttl),
        !s.waiting.contains_key(token),
    ensures
        !cleaned(s, max_active, active_ttl, waiting_ttl, now).active.contains_key(token),
{
    lemma_expired(s, active_ttl, waiting_ttl, now);
    let m = expired(s, active_ttl, waiting_ttl, now);
    assert(!m.active.contains_key(token));
    assert(!m.waiting.contains_key(token));
    lemma_promoted(m, max_active, now);
}

/// A waiting token not seen within its time-to-live is no longer waiting nor
/// in line after expiry.
pub proof fn law_cleanup_expires_idle_waiting(
    s: QueueState,
    token: Seq<char>,
    max_active: nat,
    active_ttl: int,
    waiting_ttl: int,
    now: i64,
)
    requires
        well_formed(s),
        s.waiting.contains_key(token),
        !fresh(now, s.waiting[token], waiting_ttl),
    ensures
        !cleaned(s, max_active, active_ttl, waiting_ttl, now).waiting.contains_key(token),
        !cleaned(s, max_active, active_ttl, waiting_ttl, now).queue.contains(token),
{
    lemma_expired(s, active_ttl, waiting_ttl, now);
    let m = expired(s, active_ttl, waiting_ttl, now);
    assert(!m.waiting.contains_key(token));
    if m.queue.contains(token) {
        let i = choose|i: int| 0 <= i < m.queue.len() && m.queue[i] == token;
        assert((|t: Seq<char>| !stale_waiting(s.waiting, t, now, waiting_ttl))(m.queue[i]));
    }
    lemma_promoted(m, max_active, now);
    let p = promoted(m, max_active, now);
    if p.queue.contains(token) {
        let i = choose|i: int| 0 <= i < p.queue.len() && p.queue[i] == token;
        assert(m.queue[m.queue.len() - p.queue.len() + i] == token);
    }
}

/// With the service's times-to-live, expiry keeps an admitted token seen
/// less than a minute ago, and drops from the line a waiting token not seen
/// for half a minute.
pub proof fn law_service_expiry(s: QueueState, token: Seq<char>, max_active: nat, now: i64)
    requires
        well_formed(s),
    ensures
        ({
            let c = cleaned(s, max_active, ACTIVE_TTL_MS as int, WAITING_TTL_MS as int, now);
            &&& s.active.contains_key(token) && now - s.active[token] < 60_000 ==> c.active.contains_key(
                token,
            )
            &&& s.waiting.contains_key(token) && now - s.waiting[token] >= 30_000 ==> !c.waiting.contains_key(
                token,
            ) && !c.queue.contains(token)
        }),
{
    if s.active.contains_key(token) && now - s.active[token] < 60_000 {
        law_cleanup_keeps_live_admitted(s, token, max_active, ACTIVE_TTL_MS as int, WAITING_TTL_MS as int, now);
    }
    if s.waiting.contains_key(token) && now - s.waiting[token] >= 30_000 {
        law_cleanup_expires_idle_waiting(s, token, max_active, ACTIVE_TTL_MS as int, WAITING_TTL_MS as int, now);
    }
}

/// A forced admission admits a waiting token at once, even past the limit,
/// and takes it out of line.
pub proof fn law_forced_admission_ignores_limit(s: QueueState, token: Seq<char>, now: i64)
    requires
        well_formed(s),
        s.waiting.contains_key(token),
        !s.active.contains_key(token),
    ensures
        ({
            let (s1, o) = admitted_forced(s, token, now);
            &&& o == AdmitForcedOutcome::Admitted
            &&& s1.active.contains_key(token)
            &&& s1.active.len() == s.active.len() + 1
            &&& !s1.waiting.contains_key(token)
            &&& !s1.queue.contains(token)
        }),
{
    let (s1, o) = admitted_forced(s, token, now);
    if s1.queue.contains(token) {
        let i = choose|i: int| 0 <= i < s1.queue.len() && s1.queue[i] == token;
        assert((|x: Seq<char>| x != token)(s1.queue[i]));
    }
}


/// The full listing (no limit, from the start) shows every waiting token in
/// line order, numbered from 1, and every admitted token exactly once.
pub proof fn law_full_listing_shows_everyone(r: Snapshot, s: QueueState, now: i64)
    requires
        s.queue.len() <= usize::MAX,
        s.active.len() <= usize::MAX,
        is_page(r, s, usize::MAX as nat, 0, now),
    ensures
        r.waiting@.len() == s.queue.len(),
        forall|k: int|
            0 <= k < s.queue.len() ==> (#[trigger] r.waiting@[k]).token@ == s.queue[k] && r.waiting@[k].position
                == Some((k + 1) as usize),
        r.active@.len() == s.active.len(),
        forall|t: Seq<char>|
            #[trigger] s.active.contains_key(t) ==> exists|j: int|
                0 <= j < r.active@.len() && (#[trigger] r.active@[j]).token@ == t,
        forall|i: int, j: int|
            0 <= i < j < r.active@.len() ==> (#[trigger] r.active@[i]).token@ != (#[trigger] r.active@[j]).token@,
{
    assert forall|k: int| 0 <= k < s.queue.len() implies (#[trigger] r.waiting@[k]).token@ == s.queue[k]
        && r.waiting@[k].position == Some((k + 1) as usize) by {
        assert(lists_waiting(r.waiting@[k], s, 0 + k, now));
    }
    let ord = token_order(s.active.dom());
    assert forall|t: Seq<char>| #[trigger] s.active.contains_key(t) implies exists|j: int|
        0 <= j < r.active@.len() && (#[trigger] r.active@[j]).token@ == t by {
        assert(s.active.dom().contains(t));
        assert(ord.contains(t));
        let k = choose|k: int| 0 <= k < ord.len() && ord[k] == t;
        assert(lists_active(r.active@[k], s, 0 + k, now));
    }
    assert forall|i: int, j: int| 0 <= i < j < r.active@.len() implies (#[trigger] r.active@[i]).token@
        != (#[trigger] r.active@[j]).token@ by {
        assert(lists_active(r.active@[i], s, 0 + i, now));
        assert(lists_active(r.active@[j], s, 0 + j, now));
        assert(text_lt(ord[i], ord[j]));
    }
}

/// Pages of admitted tokens taken further apart than the page size share no
/// token: paging through the admitted tokens never shows one twice.
pub proof fn law_admitted_pages_disjoint(
    r1: Snapshot,
    r2: Snapshot,
    s: QueueState,
    limit: nat,
    o1: nat,
    o2: nat,
    now1: i64,
    now2: i64,
)
    requires
        is_page(r1, s, limit, o1, now1),
        is_page(r2, s, limit, o2, now2),
        o1 + limit <= o2,
    ensures
        forall|i: int, j: int|
            0 <= i < r1.active@.len() && 0 <= j < r2.active@.len() ==> (#[trigger] r1.active@[i]).token@
                != (#[trigger] r2.active@[j]).token@,
{
    let ord = token_order(s.active.dom());
    assert forall|i: int, j: int| 0 <= i < r1.active@.len() && 0 <= j < r2.active@.len() implies (
    #[trigger] r1.active@[i]).token@ != (#[trigger] r2.active@[j]).token@ by {
        assert(lists_active(r1.active@[i], s, o1 + i, now1));
        assert(lists_active(r2.active@[j], s, o2 + j, now2));
        assert(text_lt(ord[o1 + i], ord[o2 + j]));
    }
}

/// Every admitted token has one place in the increasing order of admitted
/// tokens, and the page that covers that place shows it there: paging
/// through the admitted tokens misses none.
pub proof fn law_admitted_token_on_its_page(
    r: Snapshot,
    s: QueueState,
    limit: nat,
    offset: nat,
    now: i64,
    t: Seq<char>,
)
    requires
        is_page(r, s, limit, offset, now),
        s.active.contains_key(t),
    ensures
        exists|k: int|
            0 <= k < s.active.len() && #[trigger] token_order(s.active.dom())[k] == t && (offset <= k
                < offset + limit ==> r.active@[k - offset].token@ == t),
{
    let ord = token_order(s.active.dom());
    assert(s.active.dom().contains(t));
    assert(ord.contains(t));
    let k = choose|k: int| 0 <= k < ord.len() && ord[k] == t;
    if offset <= k < offset + limit {
        assert(lists_active(r.active@[k - offset], s, offset + (k - offset), now));
    }
}

/// Pages of a Redis-kept queue's admitted tokens, read from the same entries
/// at offsets at least a page apart, share no token.
pub proof fn law_redis_admitted_pages_disjoint(
    p1: Seq<TokenEntry>,
    p2: Seq<TokenEntry>,
    active_all: Seq<(String, i64)>,
    limit: nat,
    o1: nat,
    o2: nat,
    now1: i64,
    now2: i64,
)
    requires
        is_admitted_page(p1, active_all, limit, o1, now1),
        is_admitted_page(p2, active_all, limit, o2, now2),
        o1 + limit <= o2,
    ensures
        forall|i: int, j: int|
            0 <= i < p1.len() && 0 <= j < p2.len() ==> (#[trigger] p1[i]).token@ != (#[trigger] p2[j]).token@,
{
    let ord = token_order(entry_keys(active_all));
    assert forall|i: int, j: int| 0 <= i < p1.len() && 0 <= j < p2.len() implies (#[trigger] p1[i]).token@
        != (#[trigger] p2[j]).token@ by {
        assert(p1[i].token@ == ord[o1 + i]);
        assert(p2[j].token@ == ord[o2 + j]);
        assert(text_lt(ord[o1 + i], ord[o2 + j]));
    }
}

/// Every admitted token of a Redis-kept queue has one place in the
/// increasing order of admitted tokens, and the page that covers that place
/// shows it there: paging through them misses none.
pub proof fn law_redis_admitted_token_on_its_page(
    page: Seq<TokenEntry>,
    active_all: Seq<(String, i64)>,
    limit: nat,
    offset: nat,
    now: i64,
    t: Seq<char>,
)
    requires
        is_admitted_page(page, active_all, limit, offset, now),
        entry_keys(active_all).contains(t),
    ensures
        exists|k: int|
            0 <= k < token_order(entry_keys(active_all)).len() && #[trigger] token_order(
                entry_keys(active_all),
            )[k] == t && (offset <= k < offset + limit ==> page[k - offset].token@ == t),
{
    let ord = token_order(entry_keys(active_all));
    assert(ord.contains(t));
    let k = choose|k: int| 0 <= k < ord.len() && ord[k] == t;
    if offset <= k < offset + limit {
        assert(page[k - offset].token@ == ord[offset + (k - offset)]);
    }
}

/// What remains of a promotion run that is to end in `target`, when the store
/// holds `st` and the next step is `a`.
spec fn promotion_pending(target: QueueState, st: QueueState, a: PromoteAction, max_active: nat, now: i64) -> bool {
    match a {
        PromoteAction::CountActive => promoted(st, max_active, now) == target,
        PromoteAction::PopFront => st.active.len() < max_active && promoted(st, max_active, now) == target,
        PromoteAction::RemoveWaiting(t) => st.active.len() < max_active && target == if st.waiting.contains_key(
            t@,
        ) {
            promoted(
                QueueState { queue: st.queue, waiting: st.waiting.remove(t@), active: st.active.insert(t@, now) },
                max_active,
                now,
            )
        } else {
            promoted(st, max_active, now)
        },
        PromoteAction::AddActive(t) => target == promoted(
            QueueState { queue: st.queue, waiting: st.waiting, active: st.active.insert(t@, now) },
            max_active,
            now,
        ),
        PromoteAction::Finish => st == target,
    }
}

proof fn lemma_promotion_pending(
    acts: Seq<PromoteAction>,
    evs: Seq<PromoteEvent>,
    sts: Seq<QueueState>,
    max_active: usize,
    now: i64,
    i: int,
)
    requires
        acts.len() == evs.len() + 1,
        sts.len() == acts.len(),
        acts[0] is CountActive,
        forall|k: int|
            0 <= k < evs.len() ==> store_answers_promotion(sts[k], acts[k], #[trigger] evs[k], sts[k + 1], now),
        forall|k: int| 0 <= k < evs.len() ==> promote_follows(max_active, #[trigger] evs[k], acts[k + 1]),
        0 <= i < acts.len(),
    ensures
        promotion_pending(promoted(sts[0], max_active as nat, now), sts[i], acts[i], max_active as nat, now),
    decreases i,
{
    if i > 0 {
        lemma_promotion_pending(acts, evs, sts, max_active, now, i - 1);
        let st = sts[i - 1];
        let e = evs[i - 1];
        assert(store_answers_promotion(st, acts[i - 1], e, sts[i], now));
        assert(promote_follows(max_active, e, acts[i]));
        match acts[i - 1] {
            PromoteAction::RemoveWaiting(t) => {
                if !st.waiting.contains_key(t@) {
                    assert(st.waiting.remove(t@) =~= st.waiting);
                }
            },
            _ => {},
        }
    }
}

/// Promotion run against a Redis store ends as the queue model says: when
/// every step is the one `promote_next` gives, the store answers each step
/// faithfully (its clock reading `now`), and the run reaches `Finish`, the
/// store holds `promoted` of what it held at the start.
pub proof fn law_redis_promotion_matches_model(
    acts: Seq<PromoteAction>,
    evs: Seq<PromoteEvent>,
    sts: Seq<QueueState>,
    max_active: usize,
    now: i64,
)
    requires
        acts.len() == evs.len() + 1,
        sts.len() == acts.len(),
        acts[0] is CountActive,
        forall|k: int|
            0 <= k < evs.len() ==> store_answers_promotion(sts[k], acts[k], #[trigger] evs[k], sts[k + 1], now),
        forall|k: int| 0 <= k < evs.len() ==> promote_follows(max_active, #[trigger] evs[k], acts[k + 1]),
        acts.last() is Finish,
    ensures
        sts.last() == promoted(sts[0], max_active as nat, now),
{
    lemma_promotion_pending(acts, evs, sts, max_active, now, acts.len() - 1);
}

} // verus!
