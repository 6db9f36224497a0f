use vstd::prelude::*;
use dashmap::DashMap;
use crate::model::{fresh, keep_fresh, no_times};

verus! {

#[verifier::external_type_specification]
#[verifier::external_body]
#[verifier::reject_recursive_types(K)]
#[verifier::reject_recursive_types(V)]
#[verifier::reject_recursive_types(S)]
pub struct ExDashMap<K, V, S>(DashMap<K, V, S>);

/// What a token map holds: for each token, by its characters, the time in
/// milliseconds at which it was last seen.
pub uninterp spec fn token_times(m: DashMap<String, i64>) -> Map<Seq<char>, i64>;

/// Calls `DashMap::new`: the new map holds nothing.
#[verifier::external_body]
pub(crate) fn new_token_map() -> (r: DashMap<String, i64>)
    ensures
        token_times(r) == no_times(),
{
    DashMap::new()
}

/// Calls `DashMap::insert`: afterwards `t` maps to `v` and every other entry
/// is unchanged; the result is the value `t` had before, if any.
#[verifier::external_body]
pub(crate) fn insert_token(m: &mut DashMap<String, i64>, t: String, v: i64) -> (r: Option<i64>)
    ensures
        token_times(*final(m)) == token_times(*old(m)).insert(t@, v),
        r == (if token_times(*old(m)).contains_key(t@) {
            Some(token_times(*old(m))[t@])
        } else {
            None::<i64>
        }),
{
    m.insert(t, v)
}

/// Calls `DashMap::remove`: afterwards `t` has no entry and every other entry
/// is unchanged; the result is the value `t` had, if any (its key is dropped).
#[verifier::external_body]
pub(crate) fn remove_token(m: &mut DashMap<String, i64>, t: &str) -> (r: Option<i64>)
    ensures
        token_times(*final(m)) == token_times(*old(m)).remove(t@),
        r == (if token_times(*old(m)).contains_key(t@) {
            Some(token_times(*old(m))[t@])
        } else {
            None::<i64>
        }),
{
    m.remove(t).map(|(_, v)| v)
}

/// Calls `DashMap::contains_key`: whether `t` has an entry.
#[verifier::external_body]
pub(crate) fn has_token(m: &DashMap<String, i64>, t: &str) -> (r: bool)
    ensures
        r == token_times(*m).contains_key(t@),
{
    m.contains_key(t)
}

/// Calls `DashMap::get`: the value of `t`, if it has an entry.
#[verifier::external_body]
pub(crate) fn time_of(m: &DashMap<String, i64>, t: &str) -> (r: Option<i64>)
    ensures
        r == (if token_times(*m).contains_key(t@) {
            Some(token_times(*m)[t@])
        } else {
            None::<i64>
        }),
{
    m.get(t).map(|e| *e.value())
}

/// Calls `DashMap::get_mut` and, when `t` has an entry, writes `v` through it:
/// the result says whether `t` had an entry, and only then has it changed.
#[verifier::external_body]
pub(crate) fn touch_token(m: &mut DashMap<String, i64>, t: &str, v: i64) -> (r: bool)
    ensures
        r == token_times(*old(m)).contains_key(t@),
        token_times(*final(m)) == (if r {
            token_times(*old(m)).insert(t@, v)
        } else {
            token_times(*old(m))
        }),
{
    match m.get_mut(t) {
        Some(mut e) => {
            *e = v;
            true
        },
        None => false,
    }
}

/// Calls `DashMap::len`: the number of entries.
#[verifier::external_body]
pub(crate) fn token_count(m: &DashMap<String, i64>) -> (r: usize)
    ensures
        r == token_times(*m).len(),
{
    m.len()
}

/// Calls `DashMap::clear`: afterwards the map holds nothing.
#[verifier::external_body]
pub(crate) fn clear_tokens(m: &mut DashMap<String, i64>)
    ensures
        token_times(*final(m)) == no_times(),
{
    m.clear()
}

/// Whether a token last seen at `last` is still alive at `now` for a
/// time-to-live of `ttl` milliseconds.
pub fn is_fresh(now: i64, last: i64, ttl: u64) -> (r: bool)
    ensures
        r == fresh(now, last, ttl as int),
{
    (now as i128) - (last as i128) < (ttl as i128)
}

/// Calls `DashMap::retain` with a closure that keeps exactly the entries that
/// `is_fresh` accepts: afterwards the map holds the entries that were alive
/// at `now`, with their values unchanged.
#[verifier::external_body]
pub(crate) fn retain_fresh(m: &mut DashMap<String, i64>, now: i64, ttl: u64)
    ensures
        token_times(*final(m)) == keep_fresh(token_times(*old(m)), now, ttl as int),
{
    m.retain(|_, last| is_fresh(now, *last, ttl))
}

/// Calls `DashMap::iter` and collects each entry as a key and its value. Every
/// entry comes out exactly once; the order is the map's own, which depends on
/// hashing and is left unsaid.
#[verifier::external_body]
pub(crate) fn token_entries(m: &DashMap<String, i64>) -> (r: Vec<(String, i64)>)
    ensures
        r@.len() == token_times(*m).len(),
        forall|i: int|
            0 <= i < r@.len() ==> #[trigger] token_times(*m).contains_key(r@[i].0@)
                && token_times(*m)[r@[i].0@] == r@[i].1,
        forall|i: int, j: int|
            0 <= i < r@.len() && 0 <= j < r@.len() && i != j ==> #[trigger] r@[i].0@
                != #[trigger] r@[j].0@,
{
    m.iter().map(|e| (e.key().clone(), *e.value())).collect()
}

} // verus!
