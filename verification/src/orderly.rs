use vstd::prelude::*;
use crate::laws::{law_entering_serves_line_first, orderly_line};
use crate::model::{
    admitted_forced, cleaned, empty_state, entered, heartbeat_result, keep_fresh, kicked, left,
    promoted, refreshed, stale_waiting, well_formed, without, QueueState,
};

verus! {

broadcast use vstd::seq_lib::group_filter_ensures;

/// Whether a queue state is orderly: no token stands twice in line, the line
/// holds exactly the waiting tokens, and no token is both admitted and
/// waiting.
pub open spec fn orderly(s: QueueState) -> bool {
    &&& orderly_line(s)
    &&& forall|t: Seq<char>| #[trigger] s.waiting.contains_key(t) ==> s.queue.contains(t)
    &&& forall|t: Seq<char>| #[trigger] s.active.contains_key(t) ==> !s.waiting.contains_key(t)
}

/// Whether no item stands twice in `q`.
spec fn distinct(q: Seq<Seq<char>>) -> bool {
    forall|i: int, j: int| 0 <= i < j < q.len() ==> #[trigger] q[i] != #[trigger] q[j]
}

/// Filtering keeps a sequence free of repeats, and keeps only items of it.
proof fn lemma_filter_distinct(q: Seq<Seq<char>>, pred: spec_fn(Seq<char>) -> bool)
    requires
        distinct(q),
    ensures
        distinct(q.filter(pred)),
        forall|x: Seq<char>| #[trigger] q.filter(pred).contains(x) ==> q.contains(x) && pred(x),
    decreases q.len(),
{
    reveal(Seq::filter);
    if q.len() > 0 {
        let init = q.drop_last();
        assert forall|i: int, j: int| 0 <= i < j < init.len() implies #[trigger] init[i] != #[trigger] init[j] by {
            assert(init[i] == q[i] && init[j] == q[j]);
        }
        lemma_filter_distinct(init, pred);
        let sub = init.filter(pred);
        let out = q.filter(pred);
        assert forall|x: Seq<char>| #[trigger] out.contains(x) implies q.contains(x) && pred(x) by {
            let k = choose|k: int| 0 <= k < out.len() && out[k] == x;
            if k < sub.len() {
                assert(sub[k] == x);
                assert(sub.contains(x));
                let m = choose|m: int| 0 <= m < init.len() && init[m] == x;
                assert(q[m] == x);
            } else {
                assert(x == q.last());
                assert(q[q.len() - 1] == x);
            }
        }
        if pred(q.last()) {
            assert forall|i: int, j: int| 0 <= i < j < out.len() implies #[trigger] out[i] != #[trigger] out[j] by {
                if j == out.len() - 1 {
                    assert(out[j] == q.last());
                    assert(out[i] == sub[i]);
                    assert(sub.contains(sub[i]));
                    if sub[i] == q.last() {
                        let m = choose|m: int| 0 <= m < init.len() && init[m] == sub[i];
                        assert(q[m] == q[q.len() - 1]);
                    }
                } else {
                    assert(out[i] == sub[i] && out[j] == sub[j]);
                }
            }
        } else {
            assert(out == sub);
        }
    }
}

/// Every filter of a sequence free of repeats is free of repeats, and keeps
/// only items of the sequence that meet its predicate.
proof fn lemma_filters_distinct(q: Seq<Seq<char>>)
    requires
        distinct(q),
    ensures
        forall|pred: spec_fn(Seq<char>) -> bool| #![trigger q.filter(pred)] distinct(q.filter(pred)),
        forall|pred: spec_fn(Seq<char>) -> bool, x: Seq<char>|
            #[trigger] q.filter(pred).contains(x) ==> q.contains(x) && pred(x),
{
    assert forall|pred: spec_fn(Seq<char>) -> bool| #![trigger q.filter(pred)] distinct(q.filter(pred)) by {
        lemma_filter_distinct(q, pred);
    }
    assert forall|pred: spec_fn(Seq<char>) -> bool, x: Seq<char>|
        #[trigger] q.filter(pred).contains(x) implies q.contains(x) && pred(x) by {
        lemma_filter_distinct(q, pred);
    }
}

/// Promotion keeps a state orderly; it only takes waiting tokens away and
/// admits only tokens that were admitted or waiting.
proof fn lemma_promoted_orderly(s: QueueState, max_active: nat, now: i64)
    requires
        orderly(s),
    ensures
        orderly(promoted(s, max_active, now)),
        forall|t: Seq<char>| #[trigger] promoted(s, max_active, now).waiting.contains_key(t) ==> s.waiting.contains_key(t),
        forall|t: Seq<char>| #[trigger] promoted(s, max_active, now).active.contains_key(t)
            ==> s.active.contains_key(t) || s.waiting.contains_key(t),
    decreases s.queue.len(),
{
    if s.active.len() >= max_active || s.queue.len() == 0 {
    } else {
        let t = s.queue[0];
        let rest = s.queue.drop_first();
        assert(s.waiting.contains_key(t));
        let next = QueueState { queue: rest, waiting: s.waiting.remove(t), active: s.active.insert(t, now) };
        assert(promoted(s, max_active, now) == promoted(next, max_active, now));
        assert forall|i: int, j: int| 0 <= i < j < next.queue.len() implies #[trigger] next.queue[i]
            != #[trigger] next.queue[j] by {
            assert(next.queue[i] == s.queue[i + 1] && next.queue[j] == s.queue[j + 1]);
        }
        assert forall|i: int| 0 <= i < next.queue.len() implies next.waiting.contains_key(
            #[trigger] next.queue[i],
        ) && !next.active.contains_key(next.queue[i]) by {
            assert(next.queue[i] == s.queue[i + 1]);
            assert(s.queue[i + 1] != s.queue[0]);
        }
        assert forall|x: Seq<char>| #[trigger] next.waiting.contains_key(x) implies next.queue.contains(x) by {
            assert(s.queue.contains(x));
            let i = choose|i: int| 0 <= i < s.queue.len() && s.queue[i] == x;
            assert(i != 0);
            assert(next.queue[i - 1] == x);
        }
        assert forall|x: Seq<char>| #[trigger] next.active.contains_key(x) implies !next.waiting.contains_key(x) by {
            if x != t {
                assert(s.active.contains_key(x));
            }
        }
        lemma_promoted_orderly(next, max_active, now);
    }
}

/// The empty state is orderly.
pub proof fn law_empty_is_orderly()
    ensures
        orderly(empty_state()),
{
}

/// Entering with a token that is neither admitted nor waiting keeps the
/// state orderly.
pub proof fn law_entering_keeps_order(s: QueueState, token: Seq<char>, max_active: nat, now: i64)
    requires
        orderly(s),
        !s.active.contains_key(token),
        !s.waiting.contains_key(token),
    ensures
        orderly(entered(s, token, max_active, now).0),
{
    lemma_promoted_orderly(s, max_active, now);
    let p = promoted(s, max_active, now);
    let s1 = entered(s, token, max_active, now).0;
    assert(!p.waiting.contains_key(token));
    assert(!p.active.contains_key(token));
    assert(!p.queue.contains(token)) by {
        if p.queue.contains(token) {
            let i = choose|i: int| 0 <= i < p.queue.len() && p.queue[i] == token;
            assert(p.waiting.contains_key(p.queue[i]));
        }
    }
    if p.active.len() < max_active {
        assert forall|i: int| 0 <= i < s1.queue.len() implies s1.waiting.contains_key(#[trigger] s1.queue[i])
            && !s1.active.contains_key(s1.queue[i]) by {
            assert(p.queue[i] != token);
        }
    } else {
        assert forall|i: int, j: int| 0 <= i < j < s1.queue.len() implies #[trigger] s1.queue[i]
            != #[trigger] s1.queue[j] by {
            if j == s1.queue.len() - 1 {
                assert(s1.queue[i] == p.queue[i]);
            } else {
                assert(s1.queue[i] == p.queue[i] && s1.queue[j] == p.queue[j]);
            }
        }
        assert forall|i: int| 0 <= i < s1.queue.len() implies s1.waiting.contains_key(#[trigger] s1.queue[i])
            && !s1.active.contains_key(s1.queue[i]) by {
            if i < p.queue.len() {
                assert(s1.queue[i] == p.queue[i]);
            }
        }
        assert forall|x: Seq<char>| #[trigger] s1.waiting.contains_key(x) implies s1.queue.contains(x) by {
            if x == token {
                assert(s1.queue[s1.queue.len() - 1] == token);
            } else {
                let i = choose|i: int| 0 <= i < p.queue.len() && p.queue[i] == x;
                assert(s1.queue[i] == x);
            }
        }
    }
}

/// Asking for one's status keeps the state orderly.
pub proof fn law_refreshing_keeps_order(s: QueueState, token: Seq<char>, max_active: nat, now: i64)
    requires
        orderly(s),
    ensures
        orderly(refreshed(s, token, max_active, now).0),
{
    if !s.active.contains_key(token) && s.waiting.contains_key(token) {
        let s2 = QueueState { queue: s.queue, waiting: s.waiting.insert(token, now), active: s.active };
        assert(orderly(s2));
        lemma_promoted_orderly(s2, max_active, now);
    }
}

/// A heartbeat keeps the state orderly.
pub proof fn law_heartbeat_keeps_order(s: QueueState, token: Seq<char>, now: i64)
    requires
        orderly(s),
    ensures
        orderly(heartbeat_result(s, token, now).0),
{
}

/// Taking `token` out of an orderly state's line and maps keeps it orderly.
proof fn lemma_removed_orderly(s: QueueState, token: Seq<char>)
    requires
        orderly(s),
    ensures
        orderly(left(s, token)),
{
    let s1 = left(s, token);
    lemma_filters_distinct(s.queue);
    assert forall|i: int| 0 <= i < s1.queue.len() implies s1.waiting.contains_key(#[trigger] s1.queue[i])
        && !s1.active.contains_key(s1.queue[i]) by {
        assert(s1.queue.contains(s1.queue[i]));
    }
    assert forall|x: Seq<char>| #[trigger] s1.waiting.contains_key(x) implies s1.queue.contains(x) by {
        let k = choose|k: int| 0 <= k < s.queue.len() && s.queue[k] == x;
        assert((|y: Seq<char>| y != token)(s.queue[k]));
    }
}

/// Leaving keeps the state orderly.
pub proof fn law_leaving_keeps_order(s: QueueState, token: Seq<char>)
    requires
        orderly(s),
    ensures
        orderly(left(s, token)),
{
    lemma_removed_orderly(s, token);
}

/// A kick keeps the state orderly.
pub proof fn law_kicking_keeps_order(s: QueueState, token: Seq<char>)
    requires
        orderly(s),
    ensures
        orderly(kicked(s, token).0),
{
    lemma_removed_orderly(s, token);
    if !s.waiting.contains_key(token) {
        let s1 = kicked(s, token).0;
        assert forall|i: int| 0 <= i < s1.queue.len() implies s1.waiting.contains_key(#[trigger] s1.queue[i])
            && !s1.active.contains_key(s1.queue[i]) by {
            assert(s.waiting.contains_key(s.queue[i]));
        }
    }
}

/// A forced admission keeps the state orderly.
pub proof fn law_forced_admission_keeps_order(s: QueueState, token: Seq<char>, now: i64)
    requires
        orderly(s),
    ensures
        orderly(admitted_forced(s, token, now).0),
{
    if !s.active.contains_key(token) && s.waiting.contains_key(token) {
        lemma_removed_orderly(s, token);
        let s1 = admitted_forced(s, token, now).0;
        let l = left(s, token);
        assert(!l.queue.contains(token));
        assert forall|i: int| 0 <= i < s1.queue.len() implies s1.waiting.contains_key(#[trigger] s1.queue[i])
            && !s1.active.contains_key(s1.queue[i]) by {
            assert(l.queue[i] != token) by {
                assert(l.queue.contains(l.queue[i]));
            }
        }
    }
}

/// Expiry keeps the state orderly.
pub proof fn law_cleanup_keeps_order(
    s: QueueState,
    max_active: nat,
    active_ttl: int,
    waiting_ttl: int,
    now: i64,
)
    requires
        orderly(s),
    ensures
        orderly(cleaned(s, max_active, active_ttl, waiting_ttl, now)),
{
    let pred = |t: Seq<char>| !stale_waiting(s.waiting, t, now, waiting_ttl);
    let e = QueueState {
        queue: s.queue.filter(pred),
        waiting: keep_fresh(s.waiting, now, waiting_ttl),
        active: keep_fresh(s.active, now, active_ttl),
    };
    lemma_filters_distinct(s.queue);
    assert forall|i: int| 0 <= i < e.queue.len() implies e.waiting.contains_key(#[trigger] e.queue[i])
        && !e.active.contains_key(e.queue[i]) by {
        assert(e.queue.contains(e.queue[i]));
        let k = choose|k: int| 0 <= k < s.queue.len() && s.queue[k] == e.queue[i];
        assert(s.waiting.contains_key(s.queue[k]));
    }
    assert forall|x: Seq<char>| #[trigger] e.waiting.contains_key(x) implies e.queue.contains(x) by {
        let k = choose|k: int| 0 <= k < s.queue.len() && s.queue[k] == x;
        assert(pred(s.queue[k]));
    }
    assert(orderly(e));
    lemma_promoted_orderly(e, max_active, now);
}

/// First come, first served at the door: in an orderly queue, a newcomer is
/// admitted only when no one is waiting, so it never passes anyone in line.
pub proof fn law_newcomer_never_passes_the_line(s: QueueState, token: Seq<char>, max_active: nat, now: i64)
    requires
        well_formed(s),
        orderly(s),
        !s.active.contains_key(token),
        !s.waiting.contains_key(token),
    ensures
        entered(s, token, max_active, now).1 is Admitted ==> forall|t: Seq<char>|
            !(#[trigger] entered(s, token, max_active, now).0.waiting.contains_key(t)),
        entered(s, token, max_active, now).1 is Admitted ==> forall|t: Seq<char>|
            #[trigger] s.waiting.contains_key(t) ==> !entered(s, token, max_active, now).0.waiting.contains_key(t),
{
    law_entering_keeps_order(s, token, max_active, now);
    law_entering_serves_line_first(s, token, max_active, now);
}

} // verus!
