//! Walking hash maps: their keys as a list.

use std::collections::HashMap;
use std::hash::Hash;
use vstd::prelude::*;

verus! {

/// The sequence lists exactly the keys of the map, each once.
pub open spec fn lists_keys<K, V>(s: Seq<K>, m: Map<K, V>) -> bool {
    &&& s.no_duplicates()
    &&& forall|k: K| #[trigger] s.contains(k) <==> m.contains_key(k)
    &&& forall|i: int| 0 <= i < s.len() ==> m.contains_key(#[trigger] s[i])
}

/// What the first `i + 1` values of a sequence are: its first `i` values, and the next.
pub proof fn lemma_take_contains<T>(s: Seq<T>, i: int)
    requires
        0 <= i < s.len(),
    ensures
        forall|x: T| #[trigger] s.take(i + 1).contains(x) <==> x == s[i] || s.take(i).contains(x),
{
    let longer = s.take(i + 1);
    let shorter = s.take(i);
    assert forall|x: T| #[trigger] longer.contains(x) <==> x == s[i] || shorter.contains(x) by {
        if shorter.contains(x) {
            let j = choose|j: int| 0 <= j < shorter.len() && shorter[j] == x;
            assert(longer[j] == x);
        }
        if x == s[i] {
            assert(longer[i] == x);
        }
        if longer.contains(x) && x != s[i] {
            let j = choose|j: int| 0 <= j < longer.len() && longer[j] == x;
            assert(shorter[j] == x);
        }
    }
}

/// The keys of a map, each once, in no particular order.
pub fn keys_of<K: Copy + Eq + Hash, V>(m: &HashMap<K, V>) -> (keys: Vec<K>)
    requires
        vstd::std_specs::hash::obeys_key_model::<K>(),
    ensures
        lists_keys(keys@, m@),
        keys@.len() == m@.len(),
{
    broadcast use vstd::std_specs::hash::group_hash_axioms;

    let mut keys: Vec<K> = Vec::new();
    for k in it: m.keys()
        invariant
            keys@.len() == it.index(),
            forall|i: int| 0 <= i < keys@.len() ==> keys@[i] == *it.seq()[i],
            it.index() == it.seq().len() ==> keys@ =~= it.seq().unref(),
            it.seq().unref().to_set() == m@.dom(),
            it.seq().no_duplicates(),
            it.seq().len() == m@.len(),
    {
        keys.push(*k);
    }
    assert forall|k: K| #[trigger] keys@.contains(k) <==> m@.contains_key(k) by {
        assert(keys@.to_set().contains(k) <==> m@.dom().contains(k));
    }
    assert forall|i: int| 0 <= i < keys@.len() implies m@.contains_key(#[trigger] keys@[i]) by {
        assert(keys@.contains(keys@[i]));
    }
    keys
}

/// Values of a map were folded one after the other, each once, by way of these states.
pub open spec fn folded<V, A, F: Fn(A, &V) -> A>(
    m: Map<u64, V>,
    f: F,
    keys: Seq<u64>,
    states: Seq<A>,
) -> bool {
    &&& states.len() == keys.len() + 1
    &&& forall|i: int|
        0 <= i < keys.len() ==> call_ensures(
            f,
            (states[i], &m[#[trigger] keys[i]]),
            states[i + 1],
        )
}

/// Folding all values of a map from a state on may end so. The order is open.
pub open spec fn may_fold<V, A, F: Fn(A, &V) -> A>(
    m: Map<u64, V>,
    from: A,
    f: F,
    to: A,
) -> bool {
    exists|keys: Seq<u64>, states: Seq<A>|
        {
            &&& lists_keys(keys, m)
            &&& #[trigger] folded(m, f, keys, states)
            &&& states[0] == from
            &&& states.last() == to
        }
}

/// Folds all values of a map, each once, in no particular order.
pub fn fold_values<V, A, F: Fn(A, &V) -> A>(m: &HashMap<u64, V>, from: A, f: F) -> (r: A)
    requires
        forall|a: A, k: u64| m@.contains_key(k) ==> #[trigger] call_requires(f, (a, &m@[k])),
    ensures
        may_fold(m@, from, f, r),
{
    broadcast use vstd::std_specs::hash::group_hash_axioms;

    let keys = keys_of(m);
    let mut state: A = from;
    let ghost mut states: Seq<A> = seq![state];
    let mut i: usize = 0;
    while i < keys.len()
        invariant
            i <= keys.len(),
            lists_keys(keys@, m@),
            forall|a: A, k: u64| m@.contains_key(k) ==> #[trigger] call_requires(f, (a, &m@[k])),
            states.len() == i + 1,
            states[0] == from,
            states.last() == state,
            folded(m@, f, keys@.take(i as int), states),
        decreases keys.len() - i,
    {
        assert(m@.contains_key(keys@[i as int]));
        if let Some(value) = m.get(&keys[i]) {
            let ghost before = states;
            state = f(state, value);
            proof {
                states = states.push(state);
                let done = keys@.take(i + 1);
                assert forall|j: int| 0 <= j < done.len() implies call_ensures(
                    f,
                    (states[j], &m@[#[trigger] done[j]]),
                    states[j + 1],
                ) by {
                    if j < i {
                        assert(keys@.take(i as int)[j] == done[j]);
                        assert(states[j] == before[j] && states[j + 1] == before[j + 1]);
                    }
                }
            }
        }
        i = i + 1;
    }
    assert(keys@.take(i as int) =~= keys@);
    state
}

/// Folding all values of a map takes each value once: a step that counts one for each value counts
/// as many as there are.
pub proof fn law_fold_takes_each_value_once<V, F: Fn(u64, &V) -> u64>(
    m: Map<u64, V>,
    from: u64,
    f: F,
    to: u64,
)
    requires
        may_fold(m, from, f, to),
        m.dom().finite(),
        forall|a: u64, k: u64, b: u64| #[trigger]
            call_ensures(f, (a, &m[k]), b) && m.contains_key(k) ==> b == a + 1,
    ensures
        to == from + m.len(),
{
    let (keys, states) = choose|keys: Seq<u64>, states: Seq<u64>|
        {
            &&& lists_keys(keys, m)
            &&& #[trigger] folded(m, f, keys, states)
            &&& states[0] == from
            &&& states.last() == to
        };
    lemma_fold_counts(m, f, keys, states, keys.len() as int);
    keys.unique_seq_to_set();
    assert(keys.to_set() =~= m.dom()) by {
        assert forall|k: u64| keys.to_set().contains(k) <==> m.dom().contains(k) by {
            if keys.contains(k) {
                let i = choose|i: int| 0 <= i < keys.len() && keys[i] == k;
                assert(m.contains_key(keys[i]));
            }
            if m.contains_key(k) {
                assert(keys.contains(k));
            }
        }
    }
}

proof fn lemma_fold_counts<V, F: Fn(u64, &V) -> u64>(
    m: Map<u64, V>,
    f: F,
    keys: Seq<u64>,
    states: Seq<u64>,
    n: int,
)
    requires
        lists_keys(keys, m),
        folded(m, f, keys, states),
        forall|a: u64, k: u64, b: u64| #[trigger]
            call_ensures(f, (a, &m[k]), b) && m.contains_key(k) ==> b == a + 1,
        0 <= n <= keys.len(),
    ensures
        states[n] == states[0] + n,
    decreases n,
{
    if n > 0 {
        lemma_fold_counts(m, f, keys, states, n - 1);
        assert(call_ensures(f, (states[n - 1], &m[keys[n - 1]]), states[n - 1 + 1]));
        assert(m.contains_key(keys[n - 1]));
    }
}

} // verus!
