use vstd::prelude::*;
use crate::text::{chars_of, str_eq};

verus! {

/// Whether `a` comes no later than `b` in the order of their characters'
/// code points, compared one by one.
pub open spec fn text_le(a: Seq<char>, b: Seq<char>) -> bool
    decreases a.len(),
{
    if a.len() == 0 {
        true
    } else if b.len() == 0 {
        false
    } else if a[0] != b[0] {
        (a[0] as int) < (b[0] as int)
    } else {
        text_le(a.drop_first(), b.drop_first())
    }
}

/// Any two texts are ordered one way or the other.
pub proof fn lemma_text_le_total(a: Seq<char>, b: Seq<char>)
    ensures
        text_le(a, b) || text_le(b, a),
    decreases a.len(),
{
    if a.len() > 0 && b.len() > 0 {
        if a[0] == b[0] {
            lemma_text_le_total(a.drop_first(), b.drop_first());
        } else {
            assert(a[0] as int != b[0] as int);
        }
    }
}

/// Every text comes no later than itself.
pub proof fn lemma_text_le_reflexive(a: Seq<char>)
    ensures
        text_le(a, a),
    decreases a.len(),
{
    if a.len() > 0 {
        lemma_text_le_reflexive(a.drop_first());
    }
}

/// The order of texts is transitive.
pub proof fn lemma_text_le_transitive(a: Seq<char>, b: Seq<char>, c: Seq<char>)
    requires
        text_le(a, b),
        text_le(b, c),
    ensures
        text_le(a, c),
    decreases a.len(),
{
    if a.len() > 0 && b.len() > 0 && c.len() > 0 && a[0] == b[0] && b[0] == c[0] {
        lemma_text_le_transitive(a.drop_first(), b.drop_first(), c.drop_first());
    }
}

/// Whether `a` comes no later than `b`; see `text_le`.
pub fn text_le_exec(a: &str, b: &str) -> (r: bool)
    ensures
        r == text_le(a@, b@),
{
    let av = chars_of(a);
    let bv = chars_of(b);
    let mut i: usize = 0;
    assert(a@.skip(0) =~= a@);
    assert(b@.skip(0) =~= b@);
    while i < av.len() && i < bv.len() && av[i] == bv[i]
        invariant
            i <= av@.len(),
            i <= bv@.len(),
            av@ == a@,
            bv@ == b@,
            text_le(a@, b@) == text_le(a@.skip(i as int), b@.skip(i as int)),
        decreases av@.len() - i,
    {
        assert(a@.skip(i as int).drop_first() =~= a@.skip(i + 1));
        assert(b@.skip(i as int).drop_first() =~= b@.skip(i + 1));
        i = i + 1;
    }
    if i == av.len() {
        true
    } else if i == bv.len() {
        false
    } else {
        av[i] < bv[i]
    }
}

/// Two texts each no later than the other are equal.
pub proof fn lemma_text_le_antisymmetric(a: Seq<char>, b: Seq<char>)
    requires
        text_le(a, b),
        text_le(b, a),
    ensures
        a == b,
    decreases a.len(),
{
    if a.len() > 0 && b.len() > 0 {
        if a[0] == b[0] {
            lemma_text_le_antisymmetric(a.drop_first(), b.drop_first());
            assert(a =~= seq![a[0]] + a.drop_first());
            assert(b =~= seq![b[0]] + b.drop_first());
        }
    } else {
        assert(a =~= b);
    }
}

/// Whether `a` comes strictly before `b`.
pub open spec fn text_lt(a: Seq<char>, b: Seq<char>) -> bool {
    text_le(a, b) && a != b
}

/// Whether `ord` lists exactly the texts of `keys`, each once, in increasing
/// order.
pub open spec fn is_token_order(ord: Seq<Seq<char>>, keys: Set<Seq<char>>) -> bool {
    &&& forall|i: int, j: int| 0 <= i < j < ord.len() ==> text_lt(#[trigger] ord[i], #[trigger] ord[j])
    &&& forall|t: Seq<char>| #[trigger] keys.contains(t) <==> ord.contains(t)
}

/// The texts of `keys` in increasing order.
pub open spec fn token_order(keys: Set<Seq<char>>) -> Seq<Seq<char>> {
    choose|ord: Seq<Seq<char>>| is_token_order(ord, keys)
}

/// There is only one increasing listing of a set of texts.
pub proof fn lemma_token_order_unique(a: Seq<Seq<char>>, b: Seq<Seq<char>>, keys: Set<Seq<char>>)
    requires
        is_token_order(a, keys),
        is_token_order(b, keys),
    ensures
        a == b,
    decreases a.len(),
{
    if a.len() == 0 {
        if b.len() > 0 {
            assert(keys.contains(b[0]));
            assert(a.contains(b[0]));
        }
        assert(a =~= b);
    } else {
        assert(keys.contains(a[0]));
        assert(b.contains(a[0]));
        assert(b.len() > 0);
        assert(keys.contains(b[0]));
        assert(a.contains(b[0]));
        let i = choose|i: int| 0 <= i < a.len() && a[i] == b[0];
        let k = choose|k: int| 0 <= k < b.len() && b[k] == a[0];
        if i > 0 {
            assert(text_lt(a[0], a[i]));
        } else {
            lemma_text_le_reflexive(a[0]);
        }
        if k > 0 {
            assert(text_lt(b[0], b[k]));
        } else {
            lemma_text_le_reflexive(b[0]);
        }
        lemma_text_le_antisymmetric(a[0], b[0]);
        let x = a[0];
        let rest_keys = keys.remove(x);
        let ra = a.drop_first();
        let rb = b.drop_first();
        assert forall|t: Seq<char>| #[trigger] rest_keys.contains(t) <==> ra.contains(t) by {
            if ra.contains(t) {
                let j = choose|j: int| 0 <= j < ra.len() && ra[j] == t;
                assert(text_lt(a[0], a[j + 1]));
                assert(a.contains(t));
            }
            if rest_keys.contains(t) {
                assert(a.contains(t));
                let j = choose|j: int| 0 <= j < a.len() && a[j] == t;
                assert(j != 0);
                assert(ra[j - 1] == t);
            }
        }
        assert forall|t: Seq<char>| #[trigger] rest_keys.contains(t) <==> rb.contains(t) by {
            if rb.contains(t) {
                let j = choose|j: int| 0 <= j < rb.len() && rb[j] == t;
                assert(text_lt(b[0], b[j + 1]));
                assert(b.contains(t));
            }
            if rest_keys.contains(t) {
                assert(b.contains(t));
                let j = choose|j: int| 0 <= j < b.len() && b[j] == t;
                assert(j != 0);
                assert(rb[j - 1] == t);
            }
        }
        assert forall|i2: int, j2: int| 0 <= i2 < j2 < ra.len() implies text_lt(#[trigger] ra[i2], #[trigger] ra[j2]) by {
            assert(text_lt(a[i2 + 1], a[j2 + 1]));
        }
        assert forall|i2: int, j2: int| 0 <= i2 < j2 < rb.len() implies text_lt(#[trigger] rb[i2], #[trigger] rb[j2]) by {
            assert(text_lt(b[i2 + 1], b[j2 + 1]));
        }
        lemma_token_order_unique(ra, rb, rest_keys);
        assert(a =~= seq![x] + ra);
        assert(b =~= seq![x] + rb);
    }
}

/// A listing in increasing order is the one `token_order` names.
pub proof fn lemma_token_order_is(ord: Seq<Seq<char>>, keys: Set<Seq<char>>)
    requires
        is_token_order(ord, keys),
    ensures
        token_order(keys) == ord,
        is_token_order(token_order(keys), keys),
{
    lemma_token_order_unique(token_order(keys), ord, keys);
}

/// The value of the first entry of `entries`, from index `i` on, whose key
/// is `t`.
pub open spec fn lookup_from(entries: Seq<(String, i64)>, t: Seq<char>, i: int) -> Option<i64>
    decreases entries.len() - i,
{
    if i < 0 || i >= entries.len() {
        None
    } else if entries[i].0@ == t {
        Some(entries[i].1)
    } else {
        lookup_from(entries, t, i + 1)
    }
}

/// The value of `t` among `entries`.
pub fn lookup_time(entries: &Vec<(String, i64)>, t: &str) -> (r: Option<i64>)
    ensures
        r == lookup_from(entries@, t@, 0),
{
    let mut i: usize = 0;
    while i < entries.len()
        invariant
            i <= entries@.len(),
            lookup_from(entries@, t@, 0) == lookup_from(entries@, t@, i as int),
        decreases entries@.len() - i,
    {
        if str_eq(entries[i].0.as_str(), t) {
            return Some(entries[i].1);
        }
        i = i + 1;
    }
    None
}

/// Whether one of the first `n` entries has the key `t`.
pub open spec fn key_among(entries: Seq<(String, i64)>, n: int, t: Seq<char>) -> bool {
    exists|k: int| 0 <= k < n && #[trigger] entries[k].0@ == t
}

/// The keys of `entries`, as a set.
pub open spec fn entry_keys(entries: Seq<(String, i64)>) -> Set<Seq<char>> {
    Set::new(|t: Seq<char>| exists|k: int| 0 <= k < entries.len() && #[trigger] entries[k].0@ == t)
}

/// A value that `lookup_from` finds is that of an entry of `t` at or after `i`.
pub proof fn lemma_lookup_from_hit(entries: Seq<(String, i64)>, t: Seq<char>, i: int)
    ensures
        lookup_from(entries, t, i) matches Some(v) ==> exists|k: int|
            i <= k < entries.len() && #[trigger] entries[k].0@ == t && entries[k].1 == v,
    decreases entries.len() - i,
{
    if i >= 0 && i < entries.len() && entries[i].0@ != t {
        lemma_lookup_from_hit(entries, t, i + 1);
    }
}

/// The first value `t` has from index `i` on, when `entries[k]` is its first
/// entry from `i` on.
proof fn lemma_lookup_from_first(entries: Seq<(String, i64)>, t: Seq<char>, i: int, k: int)
    requires
        0 <= i <= k < entries.len(),
        entries[k].0@ == t,
        forall|j: int| i <= j < k ==> entries[j].0@ != t,
    ensures
        lookup_from(entries, t, i) == Some(entries[k].1),
    decreases k - i,
{
    if i < k {
        lemma_lookup_from_first(entries, t, i + 1, k);
    }
}

/// The entries with one entry per key, keeping each key's first value, in
/// increasing order of key.
pub fn sort_entries_by_token(entries: &Vec<(String, i64)>) -> (r: Vec<(String, i64)>)
    ensures
        is_token_order(r@.map_values(|e: (String, i64)| e.0@), entry_keys(entries@)),
        forall|j: int|
            0 <= j < r@.len() ==> Some((#[trigger] r@[j]).1) == lookup_from(entries@, r@[j].0@, 0),
{
    let mut out: Vec<(String, i64)> = Vec::new();
    let mut i: usize = 0;
    while i < entries.len()
        invariant
            i <= entries@.len(),
            forall|a: int, b: int|
                0 <= a < b < out@.len() ==> text_lt(#[trigger] out@[a].0@, #[trigger] out@[b].0@),
            forall|t: Seq<char>|
                #![trigger key_among(entries@, i as int, t)]
                #![trigger key_among(out@, out@.len() as int, t)]
                key_among(entries@, i as int, t) <==> key_among(out@, out@.len() as int, t),
            forall|j: int|
                0 <= j < out@.len() ==> Some((#[trigger] out@[j]).1) == lookup_from(entries@, out@[j].0@, 0),
        decreases entries@.len() - i,
    {
        let x = &entries[i];
        let mut pos: usize = 0;
        while pos < out.len() && text_le_exec(out[pos].0.as_str(), x.0.as_str()) && !str_eq(
            out[pos].0.as_str(),
            x.0.as_str(),
        )
            invariant
                pos <= out@.len(),
                forall|k: int| 0 <= k < pos ==> text_lt(#[trigger] out@[k].0@, x.0@),
            decreases out@.len() - pos,
        {
            pos = pos + 1;
        }
        let dup = pos < out.len() && str_eq(out[pos].0.as_str(), x.0.as_str());
        let ghost before = out@;
        if !dup {
            proof {
                if pos < before.len() {
                    lemma_text_le_total(before[pos as int].0@, x.0@);
                }
                assert forall|j: int| 0 <= j < before.len() implies before[j].0@ != x.0@ by {
                    if j < pos {
                        assert(text_lt(before[j].0@, x.0@));
                    } else if j > pos {
                        assert(text_lt(before[pos as int].0@, before[j].0@));
                        if before[j].0@ == x.0@ {
                            lemma_text_le_antisymmetric(before[pos as int].0@, x.0@);
                        }
                    }
                }
                assert forall|k: int| 0 <= k < i implies entries@[k].0@ != x.0@ by {
                    if entries@[k].0@ == x.0@ {
                        assert(key_among(entries@, i as int, x.0@));
                        assert(key_among(before, before.len() as int, x.0@));
                    }
                }
                lemma_lookup_from_first(entries@, x.0@, 0, i as int);
            }
            out.insert(pos, (x.0.clone(), x.1));
            proof {
                assert(out@[pos as int].0@ == x.0@);
                assert forall|a: int, b: int| 0 <= a < b < out@.len() implies text_lt(
                    #[trigger] out@[a].0@,
                    #[trigger] out@[b].0@,
                ) by {
                    if b == pos {
                        assert(out@[a] == before[a]);
                    } else if a == pos {
                        assert(out@[b] == before[b - 1]);
                        if b - 1 > pos {
                            assert(text_lt(before[pos as int].0@, before[b - 1].0@));
                            lemma_text_le_transitive(x.0@, before[pos as int].0@, before[b - 1].0@);
                            if x.0@ == before[b - 1].0@ {
                                lemma_text_le_antisymmetric(x.0@, before[pos as int].0@);
                            }
                        }
                    } else if b < pos {
                        assert(out@[a] == before[a] && out@[b] == before[b]);
                    } else if a < pos {
                        assert(out@[a] == before[a] && out@[b] == before[b - 1]);
                        assert(text_lt(before[a].0@, x.0@));
                        if b - 1 > pos {
                            assert(text_lt(before[pos as int].0@, before[b - 1].0@));
                            lemma_text_le_transitive(x.0@, before[pos as int].0@, before[b - 1].0@);
                        }
                        lemma_text_le_transitive(before[a].0@, x.0@, before[b - 1].0@);
                        if before[a].0@ == before[b - 1].0@ {
                            lemma_text_le_antisymmetric(before[a].0@, x.0@);
                        }
                    } else {
                        assert(out@[a] == before[a - 1] && out@[b] == before[b - 1]);
                    }
                }
                assert forall|t: Seq<char>|
                    #![trigger key_among(entries@, i + 1, t)]
                    #![trigger key_among(out@, out@.len() as int, t)]
                    key_among(entries@, i + 1, t) <==> key_among(out@, out@.len() as int, t) by {
                    if key_among(entries@, i + 1, t) {
                        let k = choose|k: int| 0 <= k < i + 1 && #[trigger] entries@[k].0@ == t;
                        if k < i {
                            assert(key_among(entries@, i as int, t));
                            assert(key_among(before, before.len() as int, t));
                            let j = choose|j: int| 0 <= j < before.len() && #[trigger] before[j].0@ == t;
                            if j < pos {
                                assert(out@[j] == before[j]);
                            } else {
                                assert(out@[j + 1] == before[j]);
                            }
                        } else {
                            assert(out@[pos as int].0@ == t);
                        }
                    }
                    if key_among(out@, out@.len() as int, t) {
                        let j = choose|j: int| 0 <= j < out@.len() && #[trigger] out@[j].0@ == t;
                        if j < pos {
                            assert(out@[j] == before[j]);
                            assert(key_among(before, before.len() as int, t));
                            assert(key_among(entries@, i as int, t));
                        } else if j > pos {
                            assert(out@[j] == before[j - 1]);
                            assert(key_among(before, before.len() as int, t));
                            assert(key_among(entries@, i as int, t));
                        } else {
                            assert(entries@[i as int].0@ == t);
                        }
                    }
                }
                assert forall|j: int| 0 <= j < out@.len() implies Some((#[trigger] out@[j]).1) == lookup_from(
                    entries@,
                    out@[j].0@,
                    0,
                ) by {
                    if j < pos {
                        assert(out@[j] == before[j]);
                    } else if j > pos {
                        assert(out@[j] == before[j - 1]);
                    }
                }
            }
        } else {
            proof {
                assert forall|t: Seq<char>|
                    #![trigger key_among(entries@, i + 1, t)]
                    #![trigger key_among(out@, out@.len() as int, t)]
                    key_among(entries@, i + 1, t) <==> key_among(out@, out@.len() as int, t) by {
                    if key_among(entries@, i + 1, t) {
                        let k = choose|k: int| 0 <= k < i + 1 && #[trigger] entries@[k].0@ == t;
                        if k == i {
                            assert(out@[pos as int].0@ == t);
                        } else {
                            assert(key_among(entries@, i as int, t));
                        }
                    }
                    if key_among(out@, out@.len() as int, t) {
                        assert(key_among(entries@, i as int, t));
                    }
                }
            }
        }
        i = i + 1;
    }
    proof {
        let keys = entry_keys(entries@);
        let toks = out@.map_values(|e: (String, i64)| e.0@);
        assert forall|t: Seq<char>| #[trigger] keys.contains(t) <==> toks.contains(t) by {
            if toks.contains(t) {
                let j = choose|j: int| 0 <= j < toks.len() && toks[j] == t;
                assert(out@[j].0@ == t);
                assert(key_among(out@, out@.len() as int, t));
                assert(key_among(entries@, entries@.len() as int, t));
            }
            if keys.contains(t) {
                assert(key_among(entries@, entries@.len() as int, t));
                assert(key_among(out@, out@.len() as int, t));
                let j = choose|j: int| 0 <= j < out@.len() && #[trigger] out@[j].0@ == t;
                assert(toks[j] == t);
            }
        }
        assert forall|a: int, b: int| 0 <= a < b < toks.len() implies text_lt(#[trigger] toks[a], #[trigger] toks[b]) by {
            assert(text_lt(out@[a].0@, out@[b].0@));
        }
    }
    out
}

} // verus!
