//! The coverage table: which packet sequence first drew each response.
//!
//! The table is an ordered map from response bytes to the packet sequence
//! that was being sent when the response was first seen. It is kept as a
//! vector of entries in ascending key order, so the entry with a given rank
//! is found by index and a key by binary search. An entry, once made, is
//! never removed or changed.

use crate::packets::Packets;
use crate::random::draw_below;
use rand_xoshiro::Xoshiro256PlusPlus;
use vstd::prelude::*;

verus! {

/// The model of the table: its entries, key and value, in ascending key
/// order.
pub type Entries = Seq<(Seq<u8>, Seq<Seq<u8>>)>;

/// `a` and `b` agree on their first `k` bytes, and there `a` ends while `b`
/// goes on, or `a` has the smaller byte.
pub open spec fn precedes_at(a: Seq<u8>, b: Seq<u8>, k: int) -> bool {
    &&& 0 <= k <= a.len()
    &&& k < b.len()
    &&& forall|i: int| 0 <= i < k ==> a[i] == b[i]
    &&& k < a.len() ==> a[k] < b[k]
}

/// `a` comes before `b` in lexicographic order.
pub open spec fn lex_lt(a: Seq<u8>, b: Seq<u8>) -> bool {
    exists|k: int| #[trigger] precedes_at(a, b, k)
}

/// No byte string comes before itself.
pub proof fn lemma_lex_irreflexive(a: Seq<u8>)
    ensures
        !lex_lt(a, a),
{
}

/// Of two byte strings at most one comes before the other.
pub proof fn lemma_lex_asymmetric(a: Seq<u8>, b: Seq<u8>)
    requires
        lex_lt(a, b),
    ensures
        !lex_lt(b, a),
{
    let k = choose|k: int| #[trigger] precedes_at(a, b, k);
    assert forall|m: int| !#[trigger] precedes_at(b, a, m) by {
        if precedes_at(b, a, m) {
            if m < k {
                assert(a[m] == b[m]);
            } else if k < m {
                assert(b[k] == a[k]);
            }
        }
    }
}

/// The lexicographic order is transitive.
pub proof fn lemma_lex_transitive(a: Seq<u8>, b: Seq<u8>, c: Seq<u8>)
    requires
        lex_lt(a, b),
        lex_lt(b, c),
    ensures
        lex_lt(a, c),
{
    let k = choose|k: int| #[trigger] precedes_at(a, b, k);
    let m = choose|m: int| #[trigger] precedes_at(b, c, m);
    if k <= m {
        assert(precedes_at(a, c, k)) by {
            if k < m {
                assert(b[k] == c[k]);
            }
        }
    } else {
        assert(precedes_at(a, c, m)) by {
            assert(a[m] == b[m]);
        }
    }
}

/// Two different byte strings are ordered one way or the other.
pub proof fn lemma_lex_total(a: Seq<u8>, b: Seq<u8>)
    ensures
        a == b || lex_lt(a, b) || lex_lt(b, a),
{
    lemma_lex_total_from(a, b, 0);
}

proof fn lemma_lex_total_from(a: Seq<u8>, b: Seq<u8>, k: int)
    requires
        0 <= k <= a.len(),
        k <= b.len(),
        forall|i: int| 0 <= i < k ==> a[i] == b[i],
    ensures
        a == b || lex_lt(a, b) || lex_lt(b, a),
    decreases a.len() - k,
{
    if k == a.len() {
        if k == b.len() {
            assert(a =~= b);
        } else {
            assert(precedes_at(a, b, k));
        }
    } else if k == b.len() {
        assert(precedes_at(b, a, k));
    } else if a[k] < b[k] {
        assert(precedes_at(a, b, k));
    } else if b[k] < a[k] {
        assert(precedes_at(b, a, k));
    } else {
        lemma_lex_total_from(a, b, k + 1);
    }
}

/// How two keys stand to each other.
#[derive(Debug, Clone, Copy, PartialEq, Eq, Structural)]
pub enum KeyOrder {
    /// The first comes before the second.
    Before,
    /// They are the same bytes.
    Same,
    /// The first comes after the second.
    After,
}

/// Compares two keys lexicographically, byte by byte.
pub fn compare_keys(a: &[u8], b: &[u8]) -> (r: KeyOrder)
    ensures
        r == KeyOrder::Before <==> lex_lt(a@, b@),
        r == KeyOrder::Same <==> a@ == b@,
        r == KeyOrder::After <==> lex_lt(b@, a@),
{
    let mut i: usize = 0;
    while i < a.len() && i < b.len()
        invariant
            i <= a@.len(),
            i <= b@.len(),
            forall|j: int| 0 <= j < i ==> a@[j] == b@[j],
        decreases a@.len() - i,
    {
        if a[i] < b[i] {
            proof {
                assert(precedes_at(a@, b@, i as int));
                lemma_lex_asymmetric(a@, b@);
                lemma_lex_irreflexive(a@);
            }
            return KeyOrder::Before;
        }
        if a[i] > b[i] {
            proof {
                assert(precedes_at(b@, a@, i as int));
                lemma_lex_asymmetric(b@, a@);
                lemma_lex_irreflexive(a@);
            }
            return KeyOrder::After;
        }
        i += 1;
    }
    if i < b.len() {
        proof {
            assert(precedes_at(a@, b@, i as int));
            lemma_lex_asymmetric(a@, b@);
            lemma_lex_irreflexive(a@);
        }
        KeyOrder::Before
    } else if i < a.len() {
        proof {
            assert(precedes_at(b@, a@, i as int));
            lemma_lex_asymmetric(b@, a@);
            lemma_lex_irreflexive(a@);
        }
        KeyOrder::After
    } else {
        proof {
            assert(a@ =~= b@);
            lemma_lex_irreflexive(a@);
        }
        KeyOrder::Same
    }
}

/// The keys of `entries` ascend strictly, so no key occurs twice.
pub open spec fn ascending(entries: Entries) -> bool {
    forall|i: int, j: int|
        0 <= i < j < entries.len() ==> lex_lt((#[trigger] entries[i]).0, (#[trigger] entries[j]).0)
}

/// `key` is the key of one of `entries`.
pub open spec fn has_key(entries: Entries, key: Seq<u8>) -> bool {
    exists|i: int| 0 <= i < entries.len() && (#[trigger] entries[i]).0 == key
}

/// The number of `entries` whose key comes before `key`: the index at which
/// an entry for `key` belongs.
pub open spec fn rank_of(entries: Entries, key: Seq<u8>) -> int
    decreases entries.len(),
{
    if entries.len() == 0 {
        0
    } else {
        rank_of(entries.drop_last(), key) + if lex_lt(entries.last().0, key) {
            1int
        } else {
            0int
        }
    }
}

/// The table after `key` was seen in answer to `value`: a key that is
/// already there keeps its entry, a new one gets an entry in its place in
/// the order.
pub open spec fn observed(entries: Entries, key: Seq<u8>, value: Seq<Seq<u8>>) -> Entries {
    if has_key(entries, key) {
        entries
    } else {
        entries.insert(rank_of(entries, key), (key, value))
    }
}

/// The table after each of `keys` was seen, in turn, in answer to `value`.
pub open spec fn observed_all(entries: Entries, keys: Seq<Seq<u8>>, value: Seq<Seq<u8>>) -> Entries
    decreases keys.len(),
{
    if keys.len() == 0 {
        entries
    } else {
        observed(observed_all(entries, keys.drop_last(), value), keys.last(), value)
    }
}

/// The table after every entry of `others` was seen in turn, each key in
/// answer to its own value.
pub open spec fn merged(entries: Entries, others: Entries) -> Entries
    decreases others.len(),
{
    if others.len() == 0 {
        entries
    } else {
        observed(merged(entries, others.drop_last()), others.last().0, others.last().1)
    }
}

/// `entry` is one of `entries`.
pub open spec fn has_entry(entries: Entries, entry: (Seq<u8>, Seq<Seq<u8>>)) -> bool {
    exists|j: int| 0 <= j < entries.len() && #[trigger] entries[j] == entry
}

/// Every entry of `old` is an entry of `new`, unchanged.
pub open spec fn keeps_entries(old: Entries, new: Entries) -> bool {
    forall|i: int| 0 <= i < old.len() ==> has_entry(new, #[trigger] old[i])
}

/// Keeping entries carries over: what keeps the entries of a table keeps
/// the entries of every table that the table kept; and a table keeps its
/// own.
pub proof fn lemma_keeps_entries(first: Entries, second: Entries, third: Entries)
    requires
        keeps_entries(first, second),
        keeps_entries(second, third),
    ensures
        keeps_entries(first, third),
        keeps_entries(first, first),
{
    assert forall|i: int| 0 <= i < first.len() implies has_entry(third, #[trigger] first[i]) by {
        assert(has_entry(second, first[i]));
        let m = choose|m: int| 0 <= m < second.len() && #[trigger] second[m] == first[i];
        assert(has_entry(third, second[m]));
    }
    assert forall|i: int| 0 <= i < first.len() implies has_entry(first, #[trigger] first[i]) by {
        assert(first[i] == first[i]);
    }
}

/// Where the keys before index `p` come before `key` and the others do
/// not, `p` is the rank of `key`.
pub proof fn lemma_rank_at(entries: Entries, key: Seq<u8>, p: int)
    requires
        0 <= p <= entries.len(),
        forall|i: int| 0 <= i < p ==> lex_lt((#[trigger] entries[i]).0, key),
        forall|i: int| p <= i < entries.len() ==> !lex_lt((#[trigger] entries[i]).0, key),
    ensures
        rank_of(entries, key) == p,
    decreases entries.len(),
{
    if entries.len() > 0 {
        let front = entries.drop_last();
        let n = entries.len() - 1;
        assert(entries.last() == entries[n]);
        assert forall|i: int| 0 <= i < front.len() implies front[i] == entries[i] by {}
        if p <= n {
            lemma_rank_at(front, key, p);
        } else {
            lemma_rank_at(front, key, n);
        }
    }
}

/// The rank of a key lies within the table.
pub proof fn lemma_rank_bounds(entries: Entries, key: Seq<u8>)
    ensures
        0 <= rank_of(entries, key) <= entries.len(),
    decreases entries.len(),
{
    if entries.len() > 0 {
        lemma_rank_bounds(entries.drop_last(), key);
    }
}

/// In an ascending table the keys before the rank of `key` come before
/// `key`, and the keys from the rank on do not.
pub proof fn lemma_rank_splits(entries: Entries, key: Seq<u8>)
    requires
        ascending(entries),
    ensures
        0 <= rank_of(entries, key) <= entries.len(),
        forall|i: int| 0 <= i < rank_of(entries, key) ==> lex_lt((#[trigger] entries[i]).0, key),
        forall|i: int|
            rank_of(entries, key) <= i < entries.len() ==> !lex_lt((#[trigger] entries[i]).0, key),
    decreases entries.len(),
{
    if entries.len() > 0 {
        let front = entries.drop_last();
        let n = entries.len() - 1;
        assert(entries.last() == entries[n]);
        assert forall|i: int| 0 <= i < front.len() implies front[i] == entries[i] by {}
        assert(ascending(front)) by {
            assert forall|i: int, j: int| 0 <= i < j < front.len() implies lex_lt(
                (#[trigger] front[i]).0,
                (#[trigger] front[j]).0,
            ) by {
                assert(front[i] == entries[i]);
                assert(front[j] == entries[j]);
            }
        }
        lemma_rank_splits(front, key);
        let r = rank_of(front, key);
        if lex_lt(entries[n].0, key) {
            assert forall|i: int| 0 <= i < n implies lex_lt((#[trigger] entries[i]).0, key) by {
                lemma_lex_transitive(entries[i].0, entries[n].0, key);
            }
            if r < n {
                assert(!lex_lt(front[r].0, key));
                assert(false);
            }
        } else {
            assert forall|i: int| r <= i < entries.len() implies !lex_lt(
                (#[trigger] entries[i]).0,
                key,
            ) by {
                if i < n {
                    assert(front[i] == entries[i]);
                }
            }
        }
    }
}

/// Seeing a key keeps the table ascending, keeps every entry it had, and
/// adds one entry if the key is new and none if it is not.
pub proof fn lemma_observed(entries: Entries, key: Seq<u8>, value: Seq<Seq<u8>>)
    requires
        ascending(entries),
    ensures
        ascending(observed(entries, key, value)),
        keeps_entries(entries, observed(entries, key, value)),
        has_key(observed(entries, key, value), key),
        observed(entries, key, value).len() == entries.len() + if has_key(entries, key) {
            0int
        } else {
            1int
        },
{
    let new = observed(entries, key, value);
    if has_key(entries, key) {
        assert forall|i: int| 0 <= i < entries.len() implies has_entry(new, #[trigger] entries[i]) by {
            assert(new[i] == entries[i]);
        }
    } else {
        lemma_rank_splits(entries, key);
        let p = rank_of(entries, key);
        assert(new[p] == (key, value));
        assert forall|i: int, j: int| 0 <= i < j < new.len() implies lex_lt(
            (#[trigger] new[i]).0,
            (#[trigger] new[j]).0,
        ) by {
            if j < p {
                assert(new[i] == entries[i] && new[j] == entries[j]);
            } else if j == p {
                assert(new[i] == entries[i]);
            } else if i < p {
                assert(new[i] == entries[i] && new[j] == entries[j - 1]);
            } else if i == p {
                assert(new[j] == entries[j - 1]);
                lemma_lex_total(entries[j - 1].0, key);
            } else {
                assert(new[i] == entries[i - 1] && new[j] == entries[j - 1]);
            }
        }
        assert forall|i: int| 0 <= i < entries.len() implies has_entry(new, #[trigger] entries[i]) by {
            if i < p {
                assert(new[i] == entries[i]);
            } else {
                assert(new[i + 1] == entries[i]);
            }
        }
    }
}

/// Seeing keys in turn keeps the table ascending, keeps every entry it
/// had, and never shrinks it.
pub proof fn lemma_observed_all(entries: Entries, keys: Seq<Seq<u8>>, value: Seq<Seq<u8>>)
    requires
        ascending(entries),
    ensures
        ascending(observed_all(entries, keys, value)),
        keeps_entries(entries, observed_all(entries, keys, value)),
        entries.len() <= observed_all(entries, keys, value).len() <= entries.len() + keys.len(),
    decreases keys.len(),
{
    if keys.len() > 0 {
        let before = observed_all(entries, keys.drop_last(), value);
        lemma_observed_all(entries, keys.drop_last(), value);
        lemma_observed(before, keys.last(), value);
        let after = observed(before, keys.last(), value);
        lemma_keeps_entries(entries, before, after);
    } else {
        lemma_keeps_entries(entries, entries, entries);
    }
}

/// Merging keeps the table ascending, keeps every entry it had, and never
/// shrinks it.
pub proof fn lemma_merged(entries: Entries, others: Entries)
    requires
        ascending(entries),
    ensures
        ascending(merged(entries, others)),
        keeps_entries(entries, merged(entries, others)),
        entries.len() <= merged(entries, others).len() <= entries.len() + others.len(),
    decreases others.len(),
{
    if others.len() > 0 {
        let before = merged(entries, others.drop_last());
        lemma_merged(entries, others.drop_last());
        lemma_observed(before, others.last().0, others.last().1);
        let after = observed(before, others.last().0, others.last().1);
        lemma_keeps_entries(entries, before, after);
    } else {
        lemma_keeps_entries(entries, entries, entries);
    }
}

/// What the table holds after a key was seen: what it held, and an entry
/// for the key if it had none.
pub proof fn lemma_observed_holds(
    entries: Entries,
    key: Seq<u8>,
    value: Seq<Seq<u8>>,
    entry: (Seq<u8>, Seq<Seq<u8>>),
)
    ensures
        has_entry(observed(entries, key, value), entry) <==> has_entry(entries, entry) || (!has_key(
            entries,
            key,
        ) && entry == (key, value)),
        has_key(observed(entries, key, value), entry.0) <==> has_key(entries, entry.0) || entry.0
            == key,
{
    let new = observed(entries, key, value);
    if !has_key(entries, key) {
        lemma_rank_bounds(entries, key);
        let p = rank_of(entries, key);
        assert(new[p] == (key, value));
        if has_entry(entries, entry) {
            let i = choose|i: int| 0 <= i < entries.len() && #[trigger] entries[i] == entry;
            if i < p {
                assert(new[i] == entry);
            } else {
                assert(new[i + 1] == entry);
            }
        }
        if has_entry(new, entry) {
            let j = choose|j: int| 0 <= j < new.len() && #[trigger] new[j] == entry;
            if j < p {
                assert(entries[j] == entry);
            } else if j > p {
                assert(entries[j - 1] == entry);
            }
        }
        if has_key(entries, entry.0) {
            let i = choose|i: int| 0 <= i < entries.len() && (#[trigger] entries[i]).0 == entry.0;
            if i < p {
                assert(new[i] == entries[i]);
            } else {
                assert(new[i + 1] == entries[i]);
            }
        }
        if has_key(new, entry.0) {
            let j = choose|j: int| 0 <= j < new.len() && (#[trigger] new[j]).0 == entry.0;
            if j < p {
                assert(entries[j] == new[j]);
            } else if j > p {
                assert(entries[j - 1] == new[j]);
            }
        }
    }
}

/// What the table holds after keys were seen in turn: what it held, and
/// an entry with `value` for each of the keys that it had no entry for.
pub proof fn lemma_observed_all_holds(
    entries: Entries,
    keys: Seq<Seq<u8>>,
    value: Seq<Seq<u8>>,
    entry: (Seq<u8>, Seq<Seq<u8>>),
)
    ensures
        has_entry(observed_all(entries, keys, value), entry) <==> has_entry(entries, entry) || (
        entry.1 == value && keys.contains(entry.0) && !has_key(entries, entry.0)),
        has_key(observed_all(entries, keys, value), entry.0) <==> has_key(entries, entry.0)
            || keys.contains(entry.0),
    decreases keys.len(),
{
    if keys.len() > 0 {
        let front = keys.drop_last();
        let before = observed_all(entries, front, value);
        lemma_observed_all_holds(entries, front, value, entry);
        lemma_observed_all_holds(entries, front, value, (keys.last(), value));
        lemma_observed_holds(before, keys.last(), value, entry);
        assert(keys.contains(keys.last())) by {
            assert(keys[keys.len() - 1] == keys.last());
        }
        if front.contains(entry.0) {
            let i = choose|i: int| 0 <= i < front.len() && front[i] == entry.0;
            assert(keys[i] == entry.0);
        }
        if keys.contains(entry.0) && entry.0 != keys.last() {
            let i = choose|i: int| 0 <= i < keys.len() && keys[i] == entry.0;
            assert(front[i] == entry.0);
        }
        if front.contains(keys.last()) {
            let i = choose|i: int| 0 <= i < front.len() && front[i] == keys.last();
            assert(keys[i] == keys.last());
        }
    }
}

/// What a table holds after another was merged into it: what it held, and
/// the entries of the other for the keys that it had no entry for.
pub proof fn lemma_merged_holds(entries: Entries, others: Entries, entry: (Seq<u8>, Seq<Seq<u8>>))
    requires
        ascending(others),
    ensures
        has_entry(merged(entries, others), entry) <==> has_entry(entries, entry) || (has_entry(
            others,
            entry,
        ) && !has_key(entries, entry.0)),
        has_key(merged(entries, others), entry.0) <==> has_key(entries, entry.0) || has_key(
            others,
            entry.0,
        ),
    decreases others.len(),
{
    if others.len() > 0 {
        let front = others.drop_last();
        let n = others.len() - 1;
        let last = others.last();
        assert(last == others[n]);
        assert forall|i: int| 0 <= i < front.len() implies front[i] == others[i] by {}
        assert(ascending(front)) by {
            assert forall|i: int, j: int| 0 <= i < j < front.len() implies lex_lt(
                (#[trigger] front[i]).0,
                (#[trigger] front[j]).0,
            ) by {
                assert(front[i] == others[i]);
                assert(front[j] == others[j]);
            }
        }
        let before = merged(entries, front);
        lemma_merged_holds(entries, front, entry);
        lemma_merged_holds(entries, front, last);
        lemma_observed_holds(before, last.0, last.1, entry);
        assert(!has_key(front, last.0)) by {
            if has_key(front, last.0) {
                let i = choose|i: int| 0 <= i < front.len() && (#[trigger] front[i]).0 == last.0;
                assert(lex_lt(others[i].0, others[n].0));
                lemma_lex_irreflexive(last.0);
            }
        }
        if has_entry(front, entry) {
            let i = choose|i: int| 0 <= i < front.len() && #[trigger] front[i] == entry;
            assert(others[i] == entry);
        }
        if has_entry(others, entry) && entry != last {
            let i = choose|i: int| 0 <= i < others.len() && #[trigger] others[i] == entry;
            assert(front[i] == entry);
        }
        if has_key(front, entry.0) {
            let i = choose|i: int| 0 <= i < front.len() && (#[trigger] front[i]).0 == entry.0;
            assert(others[i].0 == entry.0);
        }
        if has_key(others, entry.0) && entry.0 != last.0 {
            let i = choose|i: int| 0 <= i < others.len() && (#[trigger] others[i]).0 == entry.0;
            assert(front[i].0 == entry.0);
        }
    }
}

/// An ascending table is determined by what it holds: two ascending
/// tables with the same entries are the same table.
pub proof fn lemma_same_entries(a: Entries, b: Entries)
    requires
        ascending(a),
        ascending(b),
        forall|entry: (Seq<u8>, Seq<Seq<u8>>)| has_entry(a, entry) <==> has_entry(b, entry),
    ensures
        a == b,
    decreases a.len(),
{
    if a.len() == 0 {
        if b.len() > 0 {
            assert(has_entry(b, b[0]));
        }
        assert(a =~= b);
    } else {
        let n = a.len() - 1;
        assert(has_entry(a, a[n]));
        let j = choose|j: int| 0 <= j < b.len() && #[trigger] b[j] == a[n];
        let m = b.len() - 1;
        assert(has_entry(b, b[m]));
        let i = choose|i: int| 0 <= i < a.len() && #[trigger] a[i] == b[m];
        if j < m {
            assert(lex_lt(b[j].0, b[m].0));
            if i < n {
                assert(lex_lt(a[i].0, a[n].0));
                lemma_lex_asymmetric(a[n].0, b[m].0);
            } else {
                lemma_lex_irreflexive(a[n].0);
            }
        }
        assert(a[n] == b[m]);
        let front_a = a.drop_last();
        let front_b = b.drop_last();
        assert forall|k: int| 0 <= k < front_a.len() implies front_a[k] == a[k] by {}
        assert forall|k: int| 0 <= k < front_b.len() implies front_b[k] == b[k] by {}
        assert(ascending(front_a)) by {
            assert forall|x: int, y: int| 0 <= x < y < front_a.len() implies lex_lt(
                (#[trigger] front_a[x]).0,
                (#[trigger] front_a[y]).0,
            ) by {
                assert(front_a[x] == a[x]);
                assert(front_a[y] == a[y]);
            }
        }
        assert(ascending(front_b)) by {
            assert forall|x: int, y: int| 0 <= x < y < front_b.len() implies lex_lt(
                (#[trigger] front_b[x]).0,
                (#[trigger] front_b[y]).0,
            ) by {
                assert(front_b[x] == b[x]);
                assert(front_b[y] == b[y]);
            }
        }
        assert forall|entry: (Seq<u8>, Seq<Seq<u8>>)| has_entry(front_a, entry) <==> has_entry(
            front_b,
            entry,
        ) by {
            if has_entry(front_a, entry) {
                let x = choose|x: int| 0 <= x < front_a.len() && #[trigger] front_a[x] == entry;
                assert(a[x] == entry);
                assert(has_entry(a, entry));
                let y = choose|y: int| 0 <= y < b.len() && #[trigger] b[y] == entry;
                if y == m {
                    assert(lex_lt(a[x].0, a[n].0));
                    lemma_lex_irreflexive(a[n].0);
                }
                assert(front_b[y] == entry);
            }
            if has_entry(front_b, entry) {
                let y = choose|y: int| 0 <= y < front_b.len() && #[trigger] front_b[y] == entry;
                assert(b[y] == entry);
                assert(has_entry(b, entry));
                let x = choose|x: int| 0 <= x < a.len() && #[trigger] a[x] == entry;
                if x == n {
                    assert(lex_lt(b[y].0, b[m].0));
                    lemma_lex_irreflexive(b[m].0);
                }
                assert(front_a[x] == entry);
            }
        }
        lemma_same_entries(front_a, front_b);
        assert(a =~= front_a.push(a[n]));
        assert(b =~= front_b.push(b[m]));
    }
}

/// A table can be rebuilt from its entries: merging an ascending table
/// into an empty one gives the table back.
pub proof fn lemma_merged_into_empty(entries: Entries)
    requires
        ascending(entries),
    ensures
        merged(Entries::empty(), entries) == entries,
{
    let rebuilt = merged(Entries::empty(), entries);
    lemma_merged(Entries::empty(), entries);
    assert forall|entry: (Seq<u8>, Seq<Seq<u8>>)| has_entry(rebuilt, entry) <==> has_entry(
        entries,
        entry,
    ) by {
        lemma_merged_holds(Entries::empty(), entries, entry);
    }
    lemma_same_entries(rebuilt, entries);
}

/// Seeing responses apart and merging is seeing them at once: where the
/// responses to one input are recorded in an empty table of their own,
/// and that table is merged into `entries`, `entries` ends up as if it
/// had recorded them itself.
pub proof fn lemma_merge_apart(entries: Entries, keys: Seq<Seq<u8>>, value: Seq<Seq<u8>>)
    requires
        ascending(entries),
    ensures
        merged(entries, observed_all(Entries::empty(), keys, value)) == observed_all(
            entries,
            keys,
            value,
        ),
{
    let apart = observed_all(Entries::empty(), keys, value);
    let together = merged(entries, apart);
    let at_once = observed_all(entries, keys, value);
    lemma_observed_all(Entries::empty(), keys, value);
    lemma_merged(entries, apart);
    lemma_observed_all(entries, keys, value);
    assert forall|entry: (Seq<u8>, Seq<Seq<u8>>)| has_entry(together, entry) <==> has_entry(
        at_once,
        entry,
    ) by {
        lemma_merged_holds(entries, apart, entry);
        lemma_observed_all_holds(Entries::empty(), keys, value, entry);
        lemma_observed_all_holds(entries, keys, value, entry);
    }
    lemma_same_entries(together, at_once);
}

/// The table as a map from each response to the packet sequence that first
/// drew it.
pub open spec fn as_map(entries: Entries) -> Map<Seq<u8>, Seq<Seq<u8>>> {
    Map::new(
        |key: Seq<u8>| has_key(entries, key),
        |key: Seq<u8>| entries[choose|i: int| 0 <= i < entries.len() && (#[trigger] entries[i]).0 == key].1,
    )
}

/// In an ascending table a key has one entry: the map holds, for the key
/// of every entry, that entry's value.
pub proof fn lemma_map_value(entries: Entries, i: int)
    requires
        ascending(entries),
        0 <= i < entries.len(),
    ensures
        as_map(entries).dom().contains(entries[i].0),
        as_map(entries)[entries[i].0] == entries[i].1,
{
    let key = entries[i].0;
    let j = choose|j: int| 0 <= j < entries.len() && (#[trigger] entries[j]).0 == key;
    if j < i {
        assert(lex_lt(entries[j].0, entries[i].0));
        lemma_lex_irreflexive(key);
    } else if i < j {
        assert(lex_lt(entries[i].0, entries[j].0));
        lemma_lex_irreflexive(key);
    }
}

/// Seeing a key is inserting into the map, unless the map has the key:
/// then the map stays as it is.
pub proof fn lemma_observed_map(entries: Entries, key: Seq<u8>, value: Seq<Seq<u8>>)
    requires
        ascending(entries),
    ensures
        as_map(observed(entries, key, value)) == if as_map(entries).dom().contains(key) {
            as_map(entries)
        } else {
            as_map(entries).insert(key, value)
        },
{
    let new = observed(entries, key, value);
    if !has_key(entries, key) {
        lemma_observed(entries, key, value);
        lemma_rank_bounds(entries, key);
        let p = rank_of(entries, key);
        let expected = as_map(entries).insert(key, value);
        assert forall|k: Seq<u8>| as_map(new).dom().contains(k) <==> expected.dom().contains(k) by {
            lemma_observed_holds(entries, key, value, (k, value));
        }
        assert forall|k: Seq<u8>| as_map(new).dom().contains(k) implies as_map(new)[k] == expected[k] by {
            let j = choose|j: int| 0 <= j < new.len() && (#[trigger] new[j]).0 == k;
            lemma_map_value(new, j);
            if j < p {
                assert(new[j] == entries[j]);
                lemma_map_value(entries, j);
            } else if j > p {
                assert(new[j] == entries[j - 1]);
                lemma_map_value(entries, j - 1);
            } else {
                assert(new[p] == (key, value));
            }
        }
        assert(as_map(new) =~= expected);
    }
}

/// The map of an ascending table has as many keys as the table has
/// entries.
pub proof fn lemma_map_len(entries: Entries)
    requires
        ascending(entries),
    ensures
        as_map(entries).dom().finite(),
        as_map(entries).dom().len() == entries.len(),
    decreases entries.len(),
{
    if entries.len() == 0 {
        assert(as_map(entries).dom() =~= Set::<Seq<u8>>::empty());
    } else {
        let front = entries.drop_last();
        let n = entries.len() - 1;
        assert forall|i: int| 0 <= i < front.len() implies front[i] == entries[i] by {}
        assert(ascending(front)) by {
            assert forall|i: int, j: int| 0 <= i < j < front.len() implies lex_lt(
                (#[trigger] front[i]).0,
                (#[trigger] front[j]).0,
            ) by {
                assert(front[i] == entries[i]);
                assert(front[j] == entries[j]);
            }
        }
        lemma_map_len(front);
        let key = entries[n].0;
        assert(!has_key(front, key)) by {
            if has_key(front, key) {
                let i = choose|i: int| 0 <= i < front.len() && (#[trigger] front[i]).0 == key;
                assert(lex_lt(entries[i].0, entries[n].0));
                lemma_lex_irreflexive(key);
            }
        }
        assert forall|k: Seq<u8>| has_key(entries, k) <==> has_key(front, k) || k == key by {
            if has_key(entries, k) && k != key {
                let i = choose|i: int| 0 <= i < entries.len() && (#[trigger] entries[i]).0 == k;
                assert(front[i].0 == k);
            }
            if has_key(front, k) {
                let i = choose|i: int| 0 <= i < front.len() && (#[trigger] front[i]).0 == k;
                assert(entries[i].0 == k);
            }
        }
        assert(as_map(entries).dom() =~= as_map(front).dom().insert(key));
    }
}

/// One entry of the table.
#[derive(Debug, PartialEq, Eq, Hash)]
struct Entry {
    key: Vec<u8>,
    value: Packets,
}

/// The coverage table.
///
/// Its view is the sequence of its entries, each a response and the packet
/// sequence that first drew it, in ascending order of the responses.
#[derive(Debug, PartialEq, Eq, Hash)]
pub struct PacketQueue {
    entries: Vec<Entry>,
}

impl View for PacketQueue {
    type V = Entries;

    closed spec fn view(&self) -> Entries {
        Seq::new(self.entries@.len(), |i: int| (self.entries@[i].key@, self.entries@[i].value@))
    }
}

impl PacketQueue {
    /// The entries of a table ascend by key.
    #[verifier::type_invariant]
    pub open spec fn inv(&self) -> bool {
        ascending(self@)
    }

    /// An empty table.
    pub fn new() -> (r: Self)
        ensures
            r@ == Entries::empty(),
    {
        let r = PacketQueue { entries: Vec::new() };
        assert(r@ =~= Entries::empty());
        r
    }

    /// The number of entries, which is the number of responses seen.
    pub fn len(&self) -> (r: usize)
        ensures
            r == self@.len(),
            r == as_map(self@).dom().len(),
    {
        proof {
            use_type_invariant(self);
            lemma_map_len(self@);
        }
        self.entries.len()
    }

    /// Whether the table has no entry.
    pub fn is_empty(&self) -> (r: bool)
        ensures
            r == (self@.len() == 0),
    {
        self.entries.len() == 0
    }

    /// The response of the entry at `index` in key order.
    pub fn key_at(&self, index: usize) -> (r: &Vec<u8>)
        requires
            index < self@.len(),
        ensures
            r@ == self@[index as int].0,
    {
        &self.entries[index].key
    }

    /// The packet sequence of the entry at `index` in key order.
    pub fn value_at(&self, index: usize) -> (r: &Packets)
        requires
            index < self@.len(),
        ensures
            r@ == self@[index as int].1,
    {
        &self.entries[index].value
    }

    /// Looks `key` up by binary search: `Ok` with the index of its entry,
    /// or `Err` with the index at which an entry for it belongs.
    pub fn position(&self, key: &[u8]) -> (r: Result<usize, usize>)
        ensures
            r is Ok <==> has_key(self@, key@),
            r matches Ok(i) ==> i < self@.len() && self@[i as int].0 == key@,
            r matches Err(p) ==> p == rank_of(self@, key@) && p <= self@.len(),
    {
        proof {
            use_type_invariant(self);
        }
        let mut lo: usize = 0;
        let mut hi: usize = self.entries.len();
        while lo < hi
            invariant
                lo <= hi <= self@.len(),
                self@.len() == self.entries@.len(),
                ascending(self@),
                forall|i: int| 0 <= i < lo ==> lex_lt((#[trigger] self@[i]).0, key@),
                forall|i: int| hi <= i < self@.len() ==> lex_lt(key@, (#[trigger] self@[i]).0),
            decreases hi - lo,
        {
            let mid = lo + (hi - lo) / 2;
            match compare_keys(self.entries[mid].key.as_slice(), key) {
                KeyOrder::Same => {
                    assert(self@[mid as int].0 == key@);
                    return Ok(mid);
                },
                KeyOrder::Before => {
                    assert forall|i: int| 0 <= i < mid + 1 implies lex_lt(
                        (#[trigger] self@[i]).0,
                        key@,
                    ) by {
                        if i < mid {
                            lemma_lex_transitive(self@[i].0, self@[mid as int].0, key@);
                        }
                    }
                    lo = mid + 1;
                },
                KeyOrder::After => {
                    assert forall|i: int| mid <= i < self@.len() implies lex_lt(
                        key@,
                        (#[trigger] self@[i]).0,
                    ) by {
                        if mid < i {
                            lemma_lex_transitive(key@, self@[mid as int].0, self@[i].0);
                        }
                    }
                    hi = mid;
                },
            }
        }
        proof {
            assert forall|i: int| lo <= i < self@.len() implies !lex_lt(
                (#[trigger] self@[i]).0,
                key@,
            ) by {
                lemma_lex_asymmetric(key@, self@[i].0);
            }
            lemma_rank_at(self@, key@, lo as int);
            assert forall|i: int| 0 <= i < self@.len() implies (#[trigger] self@[i]).0 != key@ by {
                lemma_lex_irreflexive(key@);
            }
        }
        Err(lo)
    }

    /// Whether `key` has an entry.
    pub fn contains_key(&self, key: &[u8]) -> (r: bool)
        ensures
            r == has_key(self@, key@),
    {
        self.position(key).is_ok()
    }

    /// Records that `response` was read while `input` was being sent. A
    /// response seen for the first time gets an entry with a copy of
    /// `input`, and `true` is returned; one seen before keeps the entry it
    /// has, and `false` is returned.
    pub fn observe(&mut self, response: &[u8], input: &Packets) -> (is_new: bool)
        ensures
            is_new == !has_key(old(self)@, response@),
            final(self)@ == observed(old(self)@, response@, input@),
            as_map(final(self)@) == if is_new {
                as_map(old(self)@).insert(response@, input@)
            } else {
                as_map(old(self)@)
            },
            final(self)@.len() == old(self)@.len() + if is_new {
                1int
            } else {
                0int
            },
            keeps_entries(old(self)@, final(self)@),
    {
        proof {
            use_type_invariant(&*self);
            lemma_observed(self@, response@, input@);
            lemma_observed_map(self@, response@, input@);
        }
        match self.position(response) {
            Ok(_) => false,
            Err(p) => {
                let entry = Entry { key: vstd::slice::slice_to_vec(response), value: input.clone() };
                let mut taken = PacketQueue::new();
                std::mem::swap(self, &mut taken);
                let mut entries = taken.entries;
                entries.insert(p, entry);
                proof {
                    let candidate = PacketQueue { entries };
                    assert(candidate@ =~= old(self)@.insert(p as int, (response@, input@)));
                }
                *self = PacketQueue { entries };
                true
            },
        }
    }

    /// The packet sequence that first drew `key`, if `key` was seen.
    pub fn get(&self, key: &[u8]) -> (r: Option<&Packets>)
        ensures
            r is Some <==> has_key(self@, key@),
            r matches Some(value) ==> has_entry(self@, (key@, value@)) && as_map(self@)[key@]
                == value@,
    {
        match self.position(key) {
            Ok(i) => {
                proof {
                    use_type_invariant(self);
                    lemma_map_value(self@, i as int);
                    assert(self@[i as int] == (key@, self.entries@[i as int].value@));
                }
                Some(&self.entries[i].value)
            },
            Err(_) => None,
        }
    }

    /// Takes over every entry of `other` whose key this table has not
    /// seen; the entries it has stay as they are.
    pub fn merge(&mut self, other: &PacketQueue)
        ensures
            final(self)@ == merged(old(self)@, other@),
            keeps_entries(old(self)@, final(self)@),
            old(self)@.len() <= final(self)@.len() <= old(self)@.len() + other@.len(),
    {
        proof {
            use_type_invariant(&*self);
            assert(other@.take(0) =~= Entries::empty());
        }
        let mut i: usize = 0;
        while i < other.len()
            invariant
                i <= other@.len(),
                ascending(old(self)@),
                self@ == merged(old(self)@, other@.take(i as int)),
            decreases other@.len() - i,
        {
            proof {
                assert(other@.take(i + 1).drop_last() =~= other@.take(i as int));
                assert(other@.take(i + 1).last() == other@[i as int]);
            }
            self.observe(other.key_at(i).as_slice(), other.value_at(i));
            i += 1;
        }
        proof {
            assert(other@.take(other@.len() as int) =~= other@);
            lemma_merged(old(self)@, other@);
        }
    }

    /// Draws one of the entries uniformly and returns a copy of its packet
    /// sequence.
    pub fn sample(&self, rng: &mut Xoshiro256PlusPlus) -> (r: Packets)
        requires
            self@.len() > 0,
        ensures
            exists|i: int| 0 <= i < self@.len() && r@ == (#[trigger] self@[i]).1,
    {
        let index = draw_below(rng, self.entries.len());
        let r = self.entries[index].value.clone();
        assert(r@ == self@[index as int].1);
        r
    }
}

impl Clone for PacketQueue {
    fn clone(&self) -> (r: Self)
        ensures
            r@ == self@,
    {
        proof {
            use_type_invariant(self);
        }
        let mut entries: Vec<Entry> = Vec::new();
        let mut i: usize = 0;
        while i < self.entries.len()
            invariant
                i <= self.entries@.len(),
                entries@.len() == i,
                forall|j: int|
                    0 <= j < i ==> (#[trigger] entries@[j]).key@ == self.entries@[j].key@
                        && entries@[j].value@ == self.entries@[j].value@,
            decreases self.entries@.len() - i,
        {
            let key = self.entries[i].key.clone();
            assert(key@ =~= self.entries@[i as int].key@);
            entries.push(Entry { key, value: self.entries[i].value.clone() });
            i += 1;
        }
        proof {
            let candidate = PacketQueue { entries };
            assert(candidate@ =~= self@);
        }
        PacketQueue { entries }
    }
}

impl Default for PacketQueue {
    fn default() -> (r: Self)
        ensures
            r@ == Entries::empty(),
    {
        PacketQueue::new()
    }
}

} // verus!
