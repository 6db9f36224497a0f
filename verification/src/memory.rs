use vstd::prelude::*;
use dashmap::DashMap;
use std::collections::VecDeque;
use crate::clock::now_ms;
use crate::model::{
    admitted_forced, cleaned, empty_state, entered, heartbeat_result, index_of_from, kicked, left,
    lemma_keep_fresh_finite, lemma_promoted_well_formed, promoted, queue_position, refreshed,
    stale_waiting, well_formed, without, AdmitForcedOutcome, EnterOutcome, QueueState,
    RefreshOutcome,
};
use crate::snapshot::{idle_seconds, idle_secs, page_len, page_size, Snapshot, TokenEntry};
use crate::order::{entry_keys, is_token_order, lemma_lookup_from_hit, lemma_token_order_is, sort_entries_by_token, text_lt, token_order};
use crate::text::str_eq;
use crate::laws::law_entering_serves_line_first;
use crate::tokens::{
    clear_tokens, has_token, insert_token, is_fresh, new_token_map, remove_token, retain_fresh,
    time_of, token_count, token_entries, token_times, touch_token,
};

verus! {

/// The waiting line of a state, read as characters.
pub open spec fn line_view(q: Seq<String>) -> Seq<Seq<char>> {
    q.map_values(|s: String| s@)
}

/// Whether `e` lists, as seen at `now`, the admitted token at index `k` of
/// the admitted tokens of `s` in increasing order.
pub open spec fn lists_active(e: TokenEntry, s: QueueState, k: int, now: i64) -> bool {
    &&& e.token@ == token_order(s.active.dom())[k]
    &&& s.active.contains_key(e.token@)
    &&& e.idle_secs == idle_seconds(now, s.active[e.token@])
    &&& e.position is None
}

/// Whether `e` lists the token at index `k` of the line of `s` as seen at `now`.
pub open spec fn lists_waiting(e: TokenEntry, s: QueueState, k: int, now: i64) -> bool {
    &&& e.token@ == s.queue[k]
    &&& e.position == Some((k + 1) as usize)
    &&& e.idle_secs == (if s.waiting.contains_key(s.queue[k]) {
        idle_seconds(now, s.waiting[s.queue[k]])
    } else {
        0
    })
}

/// Whether `r` is a page of `s` at `now` of at most `limit` tokens of each
/// kind, starting `offset` tokens in: the waiting tokens in line order, the
/// admitted ones in increasing order of token.
pub open spec fn is_page(r: Snapshot, s: QueueState, limit: nat, offset: nat, now: i64) -> bool {
    &&& r.total_active == s.active.len()
    &&& r.total_waiting == s.queue.len()
    &&& r.waiting@.len() == page_len(s.queue.len(), limit, offset)
    &&& forall|j: int|
        0 <= j < r.waiting@.len() ==> lists_waiting(#[trigger] r.waiting@[j], s, offset + j, now)
    &&& is_token_order(token_order(s.active.dom()), s.active.dom())
    &&& token_order(s.active.dom()).len() == s.active.len()
    &&& r.active@.len() == page_len(s.active.len(), limit, offset)
    &&& forall|j: int|
        0 <= j < r.active@.len() ==> lists_active(#[trigger] r.active@[j], s, offset + j, now)
}

/// The contents of an in-memory queue: a waiting line, and the last-seen
/// times of waiting and of admitted tokens.
struct QueueCore {
    queue: VecDeque<String>,
    waiting: DashMap<String, i64>,
    active: DashMap<String, i64>,
}

impl View for QueueCore {
    type V = QueueState;

    closed spec fn view(&self) -> QueueState {
        QueueState {
            queue: line_view(self.queue@),
            waiting: token_times(self.waiting),
            active: token_times(self.active),
        }
    }
}

impl QueueCore {
    /// An empty queue.
    fn new() -> (r: QueueCore)
        ensures
            r@ == empty_state(),
            well_formed(r@),
    {
        let r = QueueCore { queue: VecDeque::new(), waiting: new_token_map(), active: new_token_map() };
        assert(r@.queue =~= Seq::<Seq<char>>::empty());
        r
    }

    /// The admitted tokens' count and the length of the line.
    fn stats(&self) -> (r: (usize, usize))
        ensures
            r.0 == self@.active.len(),
            r.1 == self@.queue.len(),
    {
        (token_count(&self.active), self.queue.len())
    }

    /// Admits waiting tokens from the front of the line while there is room;
    /// see `promoted`.
    fn promote_internal(&mut self, max_active: usize, now: i64)
        ensures
            final(self)@ == promoted(old(self)@, max_active as nat, now),
            well_formed(old(self)@) ==> well_formed(final(self)@),
    {
        proof {
            lemma_promoted_well_formed(self@, max_active as nat, now);
        }
        let ghost goal = promoted(self@, max_active as nat, now);
        while token_count(&self.active) < max_active && self.queue.len() > 0
            invariant
                promoted(self@, max_active as nat, now) == goal,
            decreases self.queue@.len(),
        {
            let ghost pre = self@;
            let token = self.queue.pop_front().unwrap();
            assert(self@.queue =~= pre.queue.drop_first());
            assert(token@ == pre.queue[0]);
            if remove_token(&mut self.waiting, token.as_str()).is_some() {
                insert_token(&mut self.active, token, now);
            } else {
                assert(self@.waiting =~= pre.waiting);
            }
        }
    }

    /// The 1-based place of `token` in line, or 0.
    fn position_of(&self, token: &str) -> (r: usize)
        ensures
            r == queue_position(self@.queue, token@),
    {
        let n = self.queue.len();
        let mut i: usize = 0;
        while i < n
            invariant
                i <= n,
                n == self@.queue.len(),
                index_of_from(self@.queue, token@, 0) == index_of_from(self@.queue, token@, i as int),
            decreases n - i,
        {
            if str_eq(self.queue[i].as_str(), token) {
                return i + 1;
            }
            i = i + 1;
        }
        0
    }

    /// Takes every `token` out of the line.
    fn remove_from_line(&mut self, token: &str)
        ensures
            final(self)@ == (QueueState {
                queue: without(old(self)@.queue, token@),
                waiting: old(self)@.waiting,
                active: old(self)@.active,
            }),
    {
        let ghost q = self@.queue;
        let n = self.queue.len();
        let mut kept: VecDeque<String> = VecDeque::new();
        let mut i: usize = 0;
        while i < n
            invariant
                i <= n,
                n == q.len(),
                q == line_view(self.queue@),
                line_view(kept@) == q.take(i as int).filter((|x: Seq<char>| x != token@)),
            decreases n - i,
        {
            let t = &self.queue[i];
            let ghost before = kept@;
            reveal_with_fuel(Seq::<_>::filter, 1);
            proof {
                assert(q.take(i + 1).drop_last() =~= q.take(i as int));
                assert(q.take(i + 1).last() == q[i as int]);
                assert(q[i as int] == self.queue@[i as int]@);
            }
            if !str_eq(t.as_str(), token) {
                kept.push_back(t.clone());
                assert(line_view(kept@) =~= line_view(before).push(t@));
                assert(q[i as int] != token@);
                assert(q.take(i + 1).filter((|x: Seq<char>| x != token@)) == q.take(i as int).filter((|x: Seq<char>| x != token@)).push(q[i as int]));
            } else {
                assert(q[i as int] == token@);
                assert(q.take(i + 1).filter((|x: Seq<char>| x != token@)) == q.take(i as int).filter((|x: Seq<char>| x != token@)));
            }
            i = i + 1;
        }
        assert(q.take(n as int) =~= q);
        self.queue = kept;
    }

    /// A visitor with `token` arrives at `now`; see `entered`.
    fn try_enter_at(&mut self, token: &str, max_active: usize, now: i64) -> (r: EnterOutcome)
        ensures
            (final(self)@, r) == entered(old(self)@, token@, max_active as nat, now),
            well_formed(old(self)@) ==> well_formed(final(self)@),
    {
        self.promote_internal(max_active, now);
        if token_count(&self.active) < max_active {
            insert_token(&mut self.active, String::from_str(token), now);
            return EnterOutcome::Admitted;
        }
        let ghost p = self@;
        self.queue.push_back(String::from_str(token));
        insert_token(&mut self.waiting, String::from_str(token), now);
        assert(self@.queue =~= p.queue.push(token@));
        EnterOutcome::Waiting(self.queue.len())
    }

    /// A visitor asks at `now` for its status; see `refreshed`.
    fn refresh_at(&mut self, token: &str, max_active: usize, now: i64) -> (r: RefreshOutcome)
        ensures
            (final(self)@, r) == refreshed(old(self)@, token@, max_active as nat, now),
            well_formed(old(self)@) ==> well_formed(final(self)@),
    {
        if touch_token(&mut self.active, token, now) {
            return RefreshOutcome::Admitted;
        }
        if !touch_token(&mut self.waiting, token, now) {
            return RefreshOutcome::Unknown;
        }
        self.promote_internal(max_active, now);
        if has_token(&self.active, token) {
            return RefreshOutcome::Admitted;
        }
        RefreshOutcome::Waiting(self.position_of(token))
    }

    /// A heartbeat from `token` at `now`; see `heartbeat_result`.
    fn heartbeat_at(&mut self, token: &str, now: i64) -> (r: bool)
        ensures
            (final(self)@, r) == heartbeat_result(old(self)@, token@, now),
            well_formed(old(self)@) ==> well_formed(final(self)@),
    {
        if touch_token(&mut self.active, token, now) {
            return true;
        }
        touch_token(&mut self.waiting, token, now)
    }

    /// The visitor with `token` leaves; see `left`.
    fn leave(&mut self, token: &str)
        ensures
            final(self)@ == left(old(self)@, token@),
            well_formed(old(self)@) ==> well_formed(final(self)@),
    {
        remove_token(&mut self.active, token);
        remove_token(&mut self.waiting, token);
        self.remove_from_line(token);
    }

    /// Expires tokens not seen within their time-to-live (in milliseconds) as
    /// of `now`, then promotes; see `cleaned`.
    fn cleanup_at(&mut self, max_active: usize, active_ttl: u64, waiting_ttl: u64, now: i64)
        ensures
            final(self)@ == cleaned(old(self)@, max_active as nat, active_ttl as int, waiting_ttl as int, now),
            well_formed(old(self)@) ==> well_formed(final(self)@),
    {
        let ghost s0 = self@;
        retain_fresh(&mut self.active, now, active_ttl);
        let ghost q = self@.queue;
        let n = self.queue.len();
        let mut kept: VecDeque<String> = VecDeque::new();
        let mut i: usize = 0;
        while i < n
            invariant
                i <= n,
                n == q.len(),
                q == line_view(self.queue@),
                token_times(self.waiting) == s0.waiting,
                line_view(kept@) == q.take(i as int).filter(|t: Seq<char>| !stale_waiting(s0.waiting, t, now, waiting_ttl as int)),
            decreases n - i,
        {
            let t = &self.queue[i];
            let ghost before = kept@;
            reveal_with_fuel(Seq::<_>::filter, 1);
            proof {
                assert(q.take(i + 1).drop_last() =~= q.take(i as int));
                assert(q.take(i + 1).last() == q[i as int]);
                assert(q[i as int] == self.queue@[i as int]@);
            }
            let stale = match time_of(&self.waiting, t.as_str()) {
                Some(last) => !is_fresh(now, last, waiting_ttl),
                None => false,
            };
            if !stale {
                kept.push_back(t.clone());
                assert(line_view(kept@) =~= line_view(before).push(t@));
            }
            i = i + 1;
        }
        assert(q.take(n as int) =~= q);
        self.queue = kept;
        retain_fresh(&mut self.waiting, now, waiting_ttl);
        proof {
            lemma_keep_fresh_finite(s0.waiting, now, waiting_ttl as int);
            lemma_keep_fresh_finite(s0.active, now, active_ttl as int);
        }
        self.promote_internal(max_active, now);
    }

    /// Admits the waiting `token` at `now`, whatever the limit; see
    /// `admitted_forced`.
    fn admit_forced_at(&mut self, token: &str, now: i64) -> (r: AdmitForcedOutcome)
        ensures
            (final(self)@, r) == admitted_forced(old(self)@, token@, now),
            well_formed(old(self)@) ==> well_formed(final(self)@),
    {
        if has_token(&self.active, token) {
            return AdmitForcedOutcome::AlreadyAdmitted;
        }
        if remove_token(&mut self.waiting, token).is_none() {
            assert(self@.waiting =~= old(self)@.waiting);
            return AdmitForcedOutcome::NotWaiting;
        }
        self.remove_from_line(token);
        insert_token(&mut self.active, String::from_str(token), now);
        AdmitForcedOutcome::Admitted
    }

    /// Removes `token`; see `kicked`.
    fn kick(&mut self, token: &str) -> (r: bool)
        ensures
            (final(self)@, r) == kicked(old(self)@, token@),
            well_formed(old(self)@) ==> well_formed(final(self)@),
    {
        let was_active = remove_token(&mut self.active, token).is_some();
        let was_waiting = remove_token(&mut self.waiting, token).is_some();
        if was_waiting {
            self.remove_from_line(token);
        }
        was_active || was_waiting
    }

    /// Removes every token.
    fn clear(&mut self)
        ensures
            final(self)@ == empty_state(),
            well_formed(final(self)@),
    {
        clear_tokens(&mut self.active);
        clear_tokens(&mut self.waiting);
        self.queue.clear();
        assert(self@.queue =~= Seq::<Seq<char>>::empty());
    }

    /// A page of the tokens as seen at `now`; see `is_page`.
    fn list_state_paginated_at(&self, limit: usize, offset: usize, now: i64) -> (r: Snapshot)
        requires
            well_formed(self@),
        ensures
            is_page(r, self@, limit as nat, offset as nat, now),
    {
        let total_active = token_count(&self.active);
        let entries = token_entries(&self.active);
        let sorted = sort_entries_by_token(&entries);
        let ghost dom = self@.active.dom();
        let ghost ord = sorted@.map_values(|e: (String, i64)| e.0@);
        proof {
            lemma_entries_cover(entries@, self@.active);
            lemma_token_order_is(ord, dom);
            assert(ord.no_duplicates()) by {
                assert forall|i: int, j: int| 0 <= i < ord.len() && 0 <= j < ord.len() && i != j implies ord[i]
                    != ord[j] by {
                    if i < j {
                        assert(text_lt(ord[i], ord[j]));
                    } else {
                        assert(text_lt(ord[j], ord[i]));
                    }
                }
            }
            ord.unique_seq_to_set();
            assert(ord.to_set() =~= dom);
            assert forall|k: int| 0 <= k < ord.len() implies #[trigger] self@.active.contains_key(ord[k])
                && self@.active[ord[k]] == sorted@[k].1 by {
                assert(ord.contains(ord[k]));
                lemma_lookup_from_hit(entries@, ord[k], 0);
            }
        }
        let n_all = sorted.len();
        let n_active = page_size(n_all, limit, offset);
        let mut active: Vec<TokenEntry> = Vec::new();
        let mut i: usize = 0;
        while i < n_active
            invariant
                i <= n_active,
                n_active == page_len(n_all as nat, limit as nat, offset as nat),
                n_all == sorted@.len(),
                offset + n_active <= n_all || n_active == 0,
                ord == sorted@.map_values(|e: (String, i64)| e.0@),
                ord == token_order(self@.active.dom()),
                active@.len() == i,
                forall|j: int| 0 <= j < i ==> lists_active(#[trigger] active@[j], self@, offset + j, now),
                forall|k: int|
                    0 <= k < ord.len() ==> #[trigger] self@.active.contains_key(ord[k]) && self@.active[ord[k]]
                        == sorted@[k].1,
            decreases n_active - i,
        {
            let e = &sorted[offset + i];
            let ghost k = offset + i;
            assert(ord[k] == e.0@);
            assert(self@.active.contains_key(ord[k]));
            active.push(TokenEntry { token: e.0.clone(), idle_secs: idle_secs(now, e.1), position: None });
            i = i + 1;
        }
        let total_waiting = self.queue.len();
        let n_waiting = page_size(total_waiting, limit, offset);
        let mut waiting: Vec<TokenEntry> = Vec::new();
        let mut i: usize = 0;
        while i < n_waiting
            invariant
                i <= n_waiting,
                n_waiting == page_len(total_waiting as nat, limit as nat, offset as nat),
                total_waiting == self@.queue.len(),
                offset + n_waiting <= total_waiting || n_waiting == 0,
                waiting@.len() == i,
                forall|j: int| 0 <= j < i ==> lists_waiting(#[trigger] waiting@[j], self@, offset + j, now),
            decreases n_waiting - i,
        {
            let idx = offset + i;
            let t = &self.queue[idx];
            let idle = match time_of(&self.waiting, t.as_str()) {
                Some(last) => idle_secs(now, last),
                None => 0,
            };
            waiting.push(TokenEntry { token: t.clone(), idle_secs: idle, position: Some(idx + 1) });
            i = i + 1;
        }
        Snapshot { active, waiting, total_active, total_waiting }
    }
}

/// The entries that a token map hands out have exactly the map's keys.
proof fn lemma_entries_cover(entries: Seq<(String, i64)>, m: Map<Seq<char>, i64>)
    requires
        m.dom().finite(),
        entries.len() == m.len(),
        forall|i: int|
            0 <= i < entries.len() ==> #[trigger] m.contains_key(entries[i].0@) && m[entries[i].0@]
                == entries[i].1,
        forall|i: int, j: int|
            0 <= i < entries.len() && 0 <= j < entries.len() && i != j ==> #[trigger] entries[i].0@
                != #[trigger] entries[j].0@,
    ensures
        entry_keys(entries) == m.dom(),
{
    let tk = entries.map_values(|e: (String, i64)| e.0@);
    assert forall|i: int, j: int| 0 <= i < tk.len() && 0 <= j < tk.len() && i != j implies tk[i] != tk[j] by {
        assert(entries[i].0@ != entries[j].0@);
    }
    assert(tk.no_duplicates());
    tk.unique_seq_to_set();
    assert forall|t: Seq<char>| tk.to_set().contains(t) implies m.dom().contains(t) by {
        let j = choose|j: int| 0 <= j < tk.len() && tk[j] == t;
        assert(m.contains_key(entries[j].0@));
    }
    vstd::set_lib::lemma_subset_equality(tk.to_set(), m.dom());
    assert forall|t: Seq<char>| #[trigger] entry_keys(entries).contains(t) <==> m.dom().contains(t) by {
        if entry_keys(entries).contains(t) {
            let k = choose|k: int| 0 <= k < entries.len() && #[trigger] entries[k].0@ == t;
            assert(m.contains_key(entries[k].0@));
        }
        if m.dom().contains(t) {
            assert(tk.to_set().contains(t));
            let j = choose|j: int| 0 <= j < tk.len() && tk[j] == t;
            assert(entries[j].0@ == t);
        }
    }
    assert(entry_keys(entries) =~= m.dom());
}

/// The in-memory queue of one site: a waiting line, and the last-seen times
/// of waiting and of admitted tokens.
pub struct MemoryBackend {
    core: Option<QueueCore>,
}

impl View for MemoryBackend {
    type V = QueueState;

    closed spec fn view(&self) -> QueueState {
        match self.core {
            Some(c) => c@,
            None => empty_state(),
        }
    }
}

impl MemoryBackend {
    #[verifier::type_invariant]
    closed spec fn inv(self) -> bool {
        match self.core {
            Some(c) => well_formed(c@),
            None => true,
        }
    }

    /// Takes the contents out, leaving none behind.
    fn take_core(&mut self) -> (c: QueueCore)
        ensures
            c@ == old(self)@,
            well_formed(c@),
    {
        proof {
            use_type_invariant(&*self);
        }
        let mut slot: Option<QueueCore> = None;
        std::mem::swap(&mut slot, &mut self.core);
        match slot {
            Some(c) => c,
            None => QueueCore::new(),
        }
    }

    /// An empty queue.
    pub fn new() -> (r: MemoryBackend)
        ensures
            r@ == empty_state(),
            well_formed(r@),
    {
        MemoryBackend { core: Some(QueueCore::new()) }
    }

    /// The admitted tokens' count and the length of the line.
    pub fn stats(&self) -> (r: (usize, usize))
        ensures
            r.0 == self@.active.len(),
            r.1 == self@.queue.len(),
            well_formed(self@),
    {
        proof {
            use_type_invariant(self);
        }
        match &self.core {
            Some(c) => c.stats(),
            None => (0, 0),
        }
    }

    /// A visitor with `token` arrives at `now`; see `entered`.
    pub fn try_enter_at(&mut self, token: &str, max_active: usize, now: i64) -> (r: EnterOutcome)
        ensures
            (final(self)@, r) == entered(old(self)@, token@, max_active as nat, now),
            well_formed(final(self)@),
            r is Admitted ==> final(self)@.queue.len() == 0 && final(self)@.active.contains_key(token@),
            r is Waiting ==> final(self)@.active.len() >= max_active,
    {
        let mut c = self.take_core();
        proof {
            law_entering_serves_line_first(c@, token@, max_active as nat, now);
        }
        let r = c.try_enter_at(token, max_active, now);
        self.core = Some(c);
        r
    }

    /// A visitor with `token` arrives now; see `entered`.
    pub fn try_enter(&mut self, token: &str, max_active: usize) -> (r: EnterOutcome)
        ensures
            exists|now: i64| (final(self)@, r) == #[trigger] entered(old(self)@, token@, max_active as nat, now),
            well_formed(final(self)@),
            r is Admitted ==> final(self)@.queue.len() == 0 && final(self)@.active.contains_key(token@),
            r is Waiting ==> final(self)@.active.len() >= max_active,
    {
        let now = now_ms();
        self.try_enter_at(token, max_active, now)
    }

    /// A visitor asks at `now` for its status; see `refreshed`.
    pub fn refresh_at(&mut self, token: &str, max_active: usize, now: i64) -> (r: RefreshOutcome)
        ensures
            (final(self)@, r) == refreshed(old(self)@, token@, max_active as nat, now),
            well_formed(final(self)@),
    {
        let mut c = self.take_core();
        let r = c.refresh_at(token, max_active, now);
        self.core = Some(c);
        r
    }

    /// A visitor asks now for its status; see `refreshed`.
    pub fn refresh(&mut self, token: &str, max_active: usize) -> (r: RefreshOutcome)
        ensures
            exists|now: i64| (final(self)@, r) == #[trigger] refreshed(old(self)@, token@, max_active as nat, now),
            well_formed(final(self)@),
    {
        let now = now_ms();
        self.refresh_at(token, max_active, now)
    }

    /// A heartbeat from `token` at `now`; see `heartbeat_result`.
    pub fn heartbeat_at(&mut self, token: &str, now: i64) -> (r: bool)
        ensures
            (final(self)@, r) == heartbeat_result(old(self)@, token@, now),
            well_formed(final(self)@),
    {
        let mut c = self.take_core();
        let r = c.heartbeat_at(token, now);
        self.core = Some(c);
        r
    }

    /// A heartbeat from `token` now; see `heartbeat_result`.
    pub fn heartbeat(&mut self, token: &str) -> (r: bool)
        ensures
            exists|now: i64| (final(self)@, r) == #[trigger] heartbeat_result(old(self)@, token@, now),
            well_formed(final(self)@),
    {
        let now = now_ms();
        self.heartbeat_at(token, now)
    }

    /// The visitor with `token` leaves; see `left`.
    pub fn leave(&mut self, token: &str)
        ensures
            final(self)@ == left(old(self)@, token@),
            well_formed(final(self)@),
    {
        let mut c = self.take_core();
        c.leave(token);
        self.core = Some(c);
    }

    /// Expires tokens not seen within their time-to-live (in milliseconds) as
    /// of `now`, then promotes; see `cleaned`.
    pub fn cleanup_at(&mut self, max_active: usize, active_ttl: u64, waiting_ttl: u64, now: i64)
        ensures
            final(self)@ == cleaned(old(self)@, max_active as nat, active_ttl as int, waiting_ttl as int, now),
            well_formed(final(self)@),
    {
        let mut c = self.take_core();
        c.cleanup_at(max_active, active_ttl, waiting_ttl, now);
        self.core = Some(c);
    }

    /// Expires tokens as of now, then promotes; see `cleaned`.
    pub fn cleanup(&mut self, max_active: usize, active_ttl: u64, waiting_ttl: u64)
        ensures
            exists|now: i64| final(self)@ == #[trigger] cleaned(old(self)@, max_active as nat, active_ttl as int, waiting_ttl as int, now),
            well_formed(final(self)@),
    {
        let now = now_ms();
        self.cleanup_at(max_active, active_ttl, waiting_ttl, now)
    }

    /// Admits the waiting `token` at `now`, whatever the limit; see
    /// `admitted_forced`.
    pub fn admit_forced_at(&mut self, token: &str, now: i64) -> (r: AdmitForcedOutcome)
        ensures
            (final(self)@, r) == admitted_forced(old(self)@, token@, now),
            well_formed(final(self)@),
    {
        let mut c = self.take_core();
        let r = c.admit_forced_at(token, now);
        self.core = Some(c);
        r
    }

    /// Admits the waiting `token` now, whatever the limit; see `admitted_forced`.
    pub fn admit_forced(&mut self, token: &str) -> (r: AdmitForcedOutcome)
        ensures
            exists|now: i64| (final(self)@, r) == #[trigger] admitted_forced(old(self)@, token@, now),
            well_formed(final(self)@),
    {
        let now = now_ms();
        self.admit_forced_at(token, now)
    }

    /// Removes `token`; see `kicked`.
    pub fn kick(&mut self, token: &str) -> (r: bool)
        ensures
            (final(self)@, r) == kicked(old(self)@, token@),
            well_formed(final(self)@),
    {
        let mut c = self.take_core();
        let r = c.kick(token);
        self.core = Some(c);
        r
    }

    /// Removes every token.
    pub fn clear(&mut self)
        ensures
            final(self)@ == empty_state(),
            well_formed(final(self)@),
    {
        let mut c = self.take_core();
        c.clear();
        self.core = Some(c);
    }

    /// A page of the tokens as seen at `now`; see `is_page`.
    pub fn list_state_paginated_at(&self, limit: usize, offset: usize, now: i64) -> (r: Snapshot)
        ensures
            is_page(r, self@, limit as nat, offset as nat, now),
            well_formed(self@),
    {
        proof {
            use_type_invariant(self);
        }
        match &self.core {
            Some(c) => c.list_state_paginated_at(limit, offset, now),
            None => QueueCore::new().list_state_paginated_at(limit, offset, now),
        }
    }

    /// A page of the tokens as seen now; see `is_page`.
    pub fn list_state_paginated(&self, limit: usize, offset: usize) -> (r: Snapshot)
        ensures
            exists|now: i64| #[trigger] is_page(r, self@, limit as nat, offset as nat, now),
            well_formed(self@),
    {
        let now = now_ms();
        self.list_state_paginated_at(limit, offset, now)
    }

    /// All tokens as seen at `now`.
    pub fn list_state_at(&self, now: i64) -> (r: Snapshot)
        ensures
            is_page(r, self@, usize::MAX as nat, 0, now),
            well_formed(self@),
    {
        self.list_state_paginated_at(usize::MAX, 0, now)
    }

    /// All tokens as seen now.
    pub fn list_state(&self) -> (r: Snapshot)
        ensures
            exists|now: i64| #[trigger] is_page(r, self@, usize::MAX as nat, 0, now),
            well_formed(self@),
    {
        self.list_state_paginated(usize::MAX, 0)
    }
}

} // verus!
