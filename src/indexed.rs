//! Insertion-ordered maps from cells to values, kept in `indexmap::IndexMap`.
//! Each map is modelled by the sequence of its entries, in the map's order.
use vstd::prelude::*;
use indexmap::IndexMap;
use crate::tile::{TilePos, TileRegion};

verus! {

#[verifier::external_type_specification]
#[verifier::external_body]
#[verifier::reject_recursive_types(K)]
#[verifier::reject_recursive_types(V)]
#[verifier::reject_recursive_types(S)]
pub struct ExIndexMap<K, V, S>(IndexMap<K, V, S>);

/// The entries of a map of painted cells, in the map's order.
pub uninterp spec fn painted_entries(m: IndexMap<TilePos, TileRegion>) -> Seq<(TilePos, TileRegion)>;

/// The entries of a map of cell baselines, in the map's order; `None`
/// stands for a cell that held no tile.
pub uninterp spec fn baseline_entries(m: IndexMap<TilePos, Option<TileRegion>>) -> Seq<(TilePos, Option<TileRegion>)>;

/// The index of the entry with key `k`, if there is one.
pub open spec fn index_of<K, V>(s: Seq<(K, V)>, k: K) -> Option<int> {
    if exists|i: int| 0 <= i < s.len() && s[i].0 == k {
        Some(choose|i: int| 0 <= i < s.len() && s[i].0 == k)
    } else {
        None
    }
}

/// No key occurs twice.
pub open spec fn unique_keys<K, V>(s: Seq<(K, V)>) -> bool {
    forall|i: int, j: int|
        0 <= i < s.len() && 0 <= j < s.len() && #[trigger] s[i].0 == #[trigger] s[j].0 ==> i == j
}

/// The entries after `insert(k, v)`: an entry with key `k` keeps its place
/// and takes `v`; otherwise the pair goes last.
pub open spec fn after_insert<K, V>(s: Seq<(K, V)>, k: K, v: V) -> Seq<(K, V)> {
    match index_of(s, k) {
        Some(i) => s.update(i, (k, v)),
        None => s.push((k, v)),
    }
}

/// The entries after `shift_remove(k)`: the entry of `k` leaves and the
/// later entries move up one place, keeping their order.
pub open spec fn after_shift_remove<K, V>(s: Seq<(K, V)>, k: K) -> Seq<(K, V)> {
    match index_of(s, k) {
        Some(i) => s.remove(i),
        None => s,
    }
}

/// The value stored under `k`, if any.
pub open spec fn value_of<K, V>(s: Seq<(K, V)>, k: K) -> Option<V> {
    match index_of(s, k) {
        Some(i) => Some(s[i].1),
        None => None,
    }
}

/// The map that a sequence of entries with unique keys stands for.
pub open spec fn entries_map<K, V>(s: Seq<(K, V)>) -> Map<K, V> {
    Map::new(|k: K| index_of(s, k) is Some, |k: K| value_of(s, k).unwrap())
}

/// The value under `k` in `m`, or `None` where `k` is not a key.
pub open spec fn lookup<K, V>(m: Map<K, V>, k: K) -> Option<V> {
    if m.contains_key(k) {
        Some(m[k])
    } else {
        None
    }
}

/// With unique keys, the entry at `i` is the one found for its key.
pub proof fn lemma_index_of_unique<K, V>(s: Seq<(K, V)>, i: int)
    requires
        unique_keys(s),
        0 <= i < s.len(),
    ensures
        index_of(s, s[i].0) == Some(i),
{
    assert(s[i].0 == s[i].0);
}

/// Looking up the map is looking up the entries.
pub proof fn lemma_lookup<K, V>(s: Seq<(K, V)>, k: K)
    requires
        unique_keys(s),
    ensures
        lookup(entries_map(s), k) == value_of(s, k),
{
}

/// `insert` keeps keys unique and inserts into the map.
pub proof fn lemma_insert<K, V>(s: Seq<(K, V)>, k: K, v: V)
    requires
        unique_keys(s),
    ensures
        unique_keys(after_insert(s, k, v)),
        entries_map(after_insert(s, k, v)) == entries_map(s).insert(k, v),
{
    let t = after_insert(s, k, v);
    match index_of(s, k) {
        Some(i) => {
            assert(forall|a: int| 0 <= a < s.len() ==> #[trigger] t[a].0 == s[a].0);
            assert(unique_keys(t));
        },
        None => {
            assert(forall|a: int| 0 <= a < s.len() ==> #[trigger] t[a] == s[a]);
            assert(unique_keys(t));
        },
    }
    assert forall|q: K| #[trigger] entries_map(t).contains_key(q) == entries_map(s).insert(k, v).contains_key(q)
        && (entries_map(t).contains_key(q) ==> entries_map(t)[q] == entries_map(s).insert(k, v)[q]) by {
        if q == k {
            match index_of(s, k) {
                Some(i) => {
                    lemma_index_of_unique(t, i);
                },
                None => {
                    lemma_index_of_unique(t, s.len() as int);
                },
            }
        } else if index_of(s, q) is Some {
            let j = choose|j: int| 0 <= j < s.len() && s[j].0 == q;
            lemma_index_of_unique(s, j);
            lemma_index_of_unique(t, j);
        } else {
            if index_of(t, q) is Some {
                let j = choose|j: int| 0 <= j < t.len() && t[j].0 == q;
                assert(0 <= j < s.len() && s[j].0 == q);
            }
        }
    }
    assert(entries_map(t) =~= entries_map(s).insert(k, v));
}

/// `shift_remove` keeps keys unique and removes from the map.
pub proof fn lemma_shift_remove<K, V>(s: Seq<(K, V)>, k: K)
    requires
        unique_keys(s),
    ensures
        unique_keys(after_shift_remove(s, k)),
        entries_map(after_shift_remove(s, k)) == entries_map(s).remove(k),
{
    let t = after_shift_remove(s, k);
    match index_of(s, k) {
        Some(i) => {
            assert(forall|a: int| 0 <= a < t.len() ==> #[trigger] t[a] == (if a < i { s[a] } else { s[a + 1] }));
            assert forall|a: int, b: int|
                0 <= a < t.len() && 0 <= b < t.len() && #[trigger] t[a].0 == #[trigger] t[b].0 implies a == b by {
                let a2 = if a < i { a } else { a + 1 };
                let b2 = if b < i { b } else { b + 1 };
                assert(s[a2].0 == s[b2].0);
            }
            assert forall|q: K| #[trigger] entries_map(t).contains_key(q) == entries_map(s).remove(k).contains_key(q)
                && (entries_map(t).contains_key(q) ==> entries_map(t)[q] == entries_map(s).remove(k)[q]) by {
                if index_of(t, q) is Some {
                    let j = choose|j: int| 0 <= j < t.len() && t[j].0 == q;
                    let j2 = if j < i { j } else { j + 1 };
                    assert(s[j2].0 == q);
                    assert(j2 != i);
                    lemma_index_of_unique(s, j2);
                    lemma_index_of_unique(t, j);
                } else if index_of(s, q) is Some && q != k {
                    let j = choose|j: int| 0 <= j < s.len() && s[j].0 == q;
                    assert(j != i);
                    let j1 = if j < i { j } else { j - 1 };
                    assert(t[j1].0 == q);
                }
            }
            assert(entries_map(t) =~= entries_map(s).remove(k));
        },
        None => {
            assert(entries_map(t) =~= entries_map(s).remove(k));
        },
    }
}

/// Relies on `IndexMap::new`: a new map is empty.
#[verifier::external_body]
pub(crate) fn painted_new() -> (r: IndexMap<TilePos, TileRegion>)
    ensures
        painted_entries(r) == Seq::<(TilePos, TileRegion)>::empty(),
{
    IndexMap::new()
}

/// Relies on `IndexMap::len`: the number of entries.
#[verifier::external_body]
pub(crate) fn painted_len(m: &IndexMap<TilePos, TileRegion>) -> (r: usize)
    ensures
        r == painted_entries(*m).len(),
{
    m.len()
}

/// Relies on `IndexMap::get_index`: the entry at index `i`, in the map's order.
#[verifier::external_body]
pub(crate) fn painted_get_index(m: &IndexMap<TilePos, TileRegion>, i: usize) -> (r: Option<(TilePos, TileRegion)>)
    ensures
        r == (if i < painted_entries(*m).len() { Some(painted_entries(*m)[i as int]) } else { None }),
{
    m.get_index(i).map(|(k, v)| (*k, *v))
}

/// Relies on `IndexMap::get`: the value stored under `k`.
#[verifier::external_body]
pub(crate) fn painted_get(m: &IndexMap<TilePos, TileRegion>, k: TilePos) -> (r: Option<TileRegion>)
    ensures
        r == value_of(painted_entries(*m), k),
{
    m.get(&k).copied()
}

/// Relies on `IndexMap::insert`: an existing key keeps its place and takes
/// the new value, a new key goes last; the old value is returned.
#[verifier::external_body]
pub(crate) fn painted_insert(m: &mut IndexMap<TilePos, TileRegion>, k: TilePos, v: TileRegion) -> (r: Option<TileRegion>)
    ensures
        painted_entries(*final(m)) == after_insert(painted_entries(*old(m)), k, v),
        r == value_of(painted_entries(*old(m)), k),
{
    m.insert(k, v)
}

/// Relies on `IndexMap::shift_remove`: the entry of `k` leaves and the
/// later entries keep their order; its value is returned.
#[verifier::external_body]
pub(crate) fn painted_shift_remove(m: &mut IndexMap<TilePos, TileRegion>, k: TilePos) -> (r: Option<TileRegion>)
    ensures
        painted_entries(*final(m)) == after_shift_remove(painted_entries(*old(m)), k),
        r == value_of(painted_entries(*old(m)), k),
{
    m.shift_remove(&k)
}

/// Relies on `IndexMap::clear`: no entry is left.
#[verifier::external_body]
pub(crate) fn painted_clear(m: &mut IndexMap<TilePos, TileRegion>)
    ensures
        painted_entries(*final(m)) == Seq::<(TilePos, TileRegion)>::empty(),
{
    m.clear()
}

/// Relies on `IndexMap::new`: a new map is empty.
#[verifier::external_body]
pub(crate) fn baseline_new() -> (r: IndexMap<TilePos, Option<TileRegion>>)
    ensures
        baseline_entries(r) == Seq::<(TilePos, Option<TileRegion>)>::empty(),
{
    IndexMap::new()
}

/// Relies on `IndexMap::len`: the number of entries.
#[verifier::external_body]
pub(crate) fn baseline_len(m: &IndexMap<TilePos, Option<TileRegion>>) -> (r: usize)
    ensures
        r == baseline_entries(*m).len(),
{
    m.len()
}

/// Relies on `IndexMap::get_index`: the entry at index `i`, in the map's order.
#[verifier::external_body]
pub(crate) fn baseline_get_index(m: &IndexMap<TilePos, Option<TileRegion>>, i: usize) -> (r: Option<(TilePos, Option<TileRegion>)>)
    ensures
        r == (if i < baseline_entries(*m).len() { Some(baseline_entries(*m)[i as int]) } else { None }),
{
    m.get_index(i).map(|(k, v)| (*k, *v))
}

/// Relies on `IndexMap::contains_key`: whether `k` is a key.
#[verifier::external_body]
pub(crate) fn baseline_contains_key(m: &IndexMap<TilePos, Option<TileRegion>>, k: TilePos) -> (r: bool)
    ensures
        r == (index_of(baseline_entries(*m), k) is Some),
{
    m.contains_key(&k)
}

/// Relies on `IndexMap::insert`: an existing key keeps its place and takes
/// the new value, a new key goes last.
#[verifier::external_body]
pub(crate) fn baseline_insert(m: &mut IndexMap<TilePos, Option<TileRegion>>, k: TilePos, v: Option<TileRegion>)
    ensures
        baseline_entries(*final(m)) == after_insert(baseline_entries(*old(m)), k, v),
{
    m.insert(k, v);
}

} // verus!
