//! Sorting by rank.

use vstd::prelude::*;

verus! {

/// Values that are ordered by an integer rank.
pub trait Ranked: Copy {
    /// The rank.
    spec fn rank(self) -> int;

    /// Whether this value ranks no higher than `other`.
    fn ranks_within(&self, other: &Self) -> (r: bool)
        ensures
            r == (self.rank() <= other.rank()),
    ;
}

impl Ranked for u64 {
    open spec fn rank(self) -> int {
        self as int
    }

    fn ranks_within(&self, other: &u64) -> (r: bool) {
        *self <= *other
    }
}

/// Ranks never fall along the sequence.
pub open spec fn ascending<T: Ranked>(s: Seq<T>) -> bool {
    forall|i: int, j: int| 0 <= i <= j < s.len() ==> (#[trigger] s[i]).rank() <= (#[trigger] s[j]).rank()
}

fn merge<T: Ranked>(a: &Vec<T>, b: &Vec<T>) -> (r: Vec<T>)
    requires
        ascending(a@),
        ascending(b@),
    ensures
        ascending(r@),
        r@.to_multiset() == a@.to_multiset().add(b@.to_multiset()),
{
    let mut out: Vec<T> = Vec::new();
    let mut i: usize = 0;
    let mut j: usize = 0;
    proof {
        broadcast use vstd::seq_lib::group_to_multiset_ensures;

        assert(a@.take(0) =~= Seq::<T>::empty());
        assert(b@.take(0) =~= Seq::<T>::empty());
        assert(out@.to_multiset() =~= a@.take(0).to_multiset().add(b@.take(0).to_multiset()));
    }
    while i < a.len() || j < b.len()
        invariant
            i <= a.len(),
            j <= b.len(),
            ascending(a@),
            ascending(b@),
            ascending(out@),
            forall|x: int, y: int|
                0 <= x < out@.len() && i <= y < a@.len() ==> (#[trigger] out@[x]).rank() <= (
                #[trigger] a@[y]).rank(),
            forall|x: int, y: int|
                0 <= x < out@.len() && j <= y < b@.len() ==> (#[trigger] out@[x]).rank() <= (
                #[trigger] b@[y]).rank(),
            out@.to_multiset() == a@.take(i as int).to_multiset().add(
                b@.take(j as int).to_multiset(),
            ),
        decreases a.len() - i + b.len() - j,
    {
        broadcast use vstd::seq_lib::group_to_multiset_ensures;

        let from_a = if j >= b.len() {
            true
        } else if i >= a.len() {
            false
        } else {
            a[i].ranks_within(&b[j])
        };
        if from_a {
            assert(a@.take(i + 1) =~= a@.take(i as int).push(a@[i as int]));
            out.push(a[i]);
            i = i + 1;
        } else {
            assert(b@.take(j + 1) =~= b@.take(j as int).push(b@[j as int]));
            out.push(b[j]);
            j = j + 1;
        }
        assert(out@.to_multiset() =~= a@.take(i as int).to_multiset().add(
            b@.take(j as int).to_multiset(),
        ));
    }
    assert(a@.take(i as int) =~= a@);
    assert(b@.take(j as int) =~= b@);
    out
}

/// The same values, sorted by rank.
pub fn sorted<T: Ranked>(v: &Vec<T>) -> (r: Vec<T>)
    ensures
        ascending(r@),
        r@.to_multiset() == v@.to_multiset(),
{
    assert(v@.subrange(0, v@.len() as int) =~= v@);
    sorted_range(v, 0, v.len())
}

fn sorted_range<T: Ranked>(v: &Vec<T>, from: usize, to: usize) -> (r: Vec<T>)
    requires
        from <= to <= v@.len(),
    ensures
        ascending(r@),
        r@.to_multiset() == v@.subrange(from as int, to as int).to_multiset(),
    decreases to - from,
{
    if to - from <= 1 {
        let mut out: Vec<T> = Vec::new();
        if from < to {
            out.push(v[from]);
        }
        assert(out@ =~= v@.subrange(from as int, to as int));
        out
    } else {
        let mid: usize = from + (to - from) / 2;
        let low = sorted_range(v, from, mid);
        let high = sorted_range(v, mid, to);
        proof {
            let a = v@.subrange(from as int, mid as int);
            let b = v@.subrange(mid as int, to as int);
            vstd::seq_lib::lemma_multiset_commutative(a, b);
            assert(a + b =~= v@.subrange(from as int, to as int));
        }
        merge(&low, &high)
    }
}

/// A sequence with the values of another, each as often, has them all once where the other has.
pub proof fn lemma_same_values<T>(a: Seq<T>, b: Seq<T>)
    requires
        a.to_multiset() == b.to_multiset(),
        b.no_duplicates(),
    ensures
        a.no_duplicates(),
        a.len() == b.len(),
        forall|x: T| #[trigger] a.contains(x) <==> b.contains(x),
{
    broadcast use vstd::seq_lib::group_to_multiset_ensures;

    b.lemma_multiset_has_no_duplicates();
    a.lemma_multiset_has_no_duplicates_conv();
    assert(a.len() == a.to_multiset().len());
    assert(b.len() == b.to_multiset().len());
    assert forall|x: T| #[trigger] a.contains(x) <==> b.contains(x) by {
        assert(a.contains(x) <==> a.to_multiset().count(x) > 0);
        assert(b.contains(x) <==> b.to_multiset().count(x) > 0);
    }
}

/// Numbers ascend exactly if none is larger than one that comes after it.
pub proof fn law_numbers_ascend(s: Seq<u64>, i: int, j: int)
    ensures
        ascending(s) && 0 <= i <= j < s.len() ==> s[i] <= s[j],
        (forall|a: int, b: int| 0 <= a <= b < s.len() ==> (#[trigger] s[a]) <= (#[trigger] s[b]))
            ==> ascending(s),
{
    if ascending(s) && 0 <= i <= j < s.len() {
        assert(s[i].rank() <= s[j].rank());
    }
}

} // verus!
