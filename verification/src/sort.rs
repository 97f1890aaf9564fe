//! Stable sorting by an integer key.
use vstd::prelude::*;

verus! {

/// An item that is ordered by an integer key.
pub trait Keyed: Sized {
    /// The key that the item is ordered by.
    spec fn key(self) -> int;

    /// Reads the key.
    fn sort_key(&self) -> (k: u64)
        ensures
            k == self.key(),
    ;

    /// The same item once more.
    fn same(&self) -> (r: Self)
        ensures
            r == *self,
    ;
}

/// The keys never decrease.
pub open spec fn sorted<T: Keyed>(s: Seq<T>) -> bool {
    forall|i: int, j: int| 0 <= i <= j < s.len() ==> (#[trigger] s[i]).key() <= (#[trigger] s[j]).key()
}

/// The items with key `k`, in their order.
pub open spec fn with_key<T: Keyed>(s: Seq<T>, k: int) -> Seq<T> {
    s.filter(|x: T| x.key() == k)
}

/// `out` holds the items of `input` in key order, items of equal keys in their
/// order in `input`.
pub open spec fn stable_sort_of<T: Keyed>(out: Seq<T>, input: Seq<T>) -> bool {
    &&& sorted(out)
    &&& forall|k: int| #[trigger] with_key(out, k) == with_key(input, k)
}

proof fn lemma_with_key_push<T: Keyed>(s: Seq<T>, x: T, k: int)
    ensures
        with_key(s.push(x), k) == if x.key() == k {
            with_key(s, k).push(x)
        } else {
            with_key(s, k)
        },
{
    reveal(Seq::filter);
    assert(s.push(x).drop_last() =~= s);
}

proof fn lemma_with_key_add<T: Keyed>(a: Seq<T>, b: Seq<T>, k: int)
    ensures
        with_key(a + b, k) == with_key(a, k) + with_key(b, k),
    decreases b.len(),
{
    if b.len() == 0 {
        assert(a + b =~= a);
        reveal(Seq::filter);
        assert(with_key(a, k) + with_key(b, k) =~= with_key(a, k));
    } else {
        lemma_with_key_add(a, b.drop_last(), k);
        assert(a + b =~= (a + b.drop_last()).push(b.last()));
        lemma_with_key_push(a + b.drop_last(), b.last(), k);
        assert(b =~= b.drop_last().push(b.last()));
        lemma_with_key_push(b.drop_last(), b.last(), k);
        assert(with_key(a, k) + with_key(b, k) =~= if b.last().key() == k {
            (with_key(a, k) + with_key(b.drop_last(), k)).push(b.last())
        } else {
            with_key(a, k) + with_key(b.drop_last(), k)
        });
    }
}

proof fn lemma_with_key_none<T: Keyed>(s: Seq<T>, k: int)
    requires
        forall|i: int| 0 <= i < s.len() ==> (#[trigger] s[i]).key() != k,
    ensures
        with_key(s, k) == Seq::<T>::empty(),
    decreases s.len(),
{
    reveal(Seq::filter);
    if s.len() > 0 {
        lemma_with_key_none(s.drop_last(), k);
    }
}

proof fn lemma_with_key_count<T: Keyed>(s: Seq<T>, x: T)
    ensures
        s.to_multiset().count(x) == with_key(s, x.key()).to_multiset().count(x),
    decreases s.len(),
{
    broadcast use vstd::seq_lib::group_to_multiset_ensures;

    reveal(Seq::filter);
    if s.len() > 0 {
        lemma_with_key_count(s.drop_last(), x);
        lemma_with_key_push(s.drop_last(), s.last(), x.key());
        assert(s.drop_last().push(s.last()) =~= s);
    }
}

/// Sorting neither loses nor invents items.
pub proof fn stable_sort_is_permutation<T: Keyed>(out: Seq<T>, input: Seq<T>)
    requires
        stable_sort_of(out, input),
    ensures
        out.to_multiset() == input.to_multiset(),
        out.len() == input.len(),
        forall|x: T| #[trigger] out.contains(x) <==> input.contains(x),
{
    broadcast use vstd::seq_lib::group_to_multiset_ensures;

    assert forall|x: T| out.to_multiset().count(x) == input.to_multiset().count(x) by {
        lemma_with_key_count(out, x);
        lemma_with_key_count(input, x);
        assert(with_key(out, x.key()) == with_key(input, x.key()));
    }
    assert(out.to_multiset() =~= input.to_multiset());
    assert(out.to_multiset().len() == out.len());
    assert(input.to_multiset().len() == input.len());
    assert forall|x: T| #[trigger] out.contains(x) <==> input.contains(x) by {
        assert(out.contains(x) <==> out.to_multiset().count(x) > 0);
        assert(input.contains(x) <==> input.to_multiset().count(x) > 0);
    }
}

/// A sequence has only one stable sorting.
pub proof fn stable_sort_is_unique<T: Keyed>(a: Seq<T>, b: Seq<T>, input: Seq<T>)
    requires
        stable_sort_of(a, input),
        stable_sort_of(b, input),
    ensures
        a == b,
{
    assert forall|k: int| #[trigger] with_key(a, k) == with_key(b, k) by {
        assert(with_key(a, k) == with_key(input, k));
    }
    stable_sort_is_permutation(a, input);
    stable_sort_is_permutation(b, input);
    lemma_same_groups(a, b);
}

proof fn lemma_with_key_item<T: Keyed>(s: Seq<T>, k: int, p: int) -> (r: int)
    requires
        0 <= p < with_key(s, k).len(),
    ensures
        0 <= r < s.len(),
        s[r] == with_key(s, k)[p],
    decreases s.len(),
{
    reveal(Seq::filter);
    let rest = s.drop_last();
    lemma_with_key_push(rest, s.last(), k);
    assert(rest.push(s.last()) =~= s);
    if p < with_key(rest, k).len() {
        lemma_with_key_item(rest, k, p)
    } else {
        s.len() - 1
    }
}

/// Two items of one key stand in the same order among all items.
proof fn lemma_order_among_all<T: Keyed>(s: Seq<T>, k: int, p: int, q: int) -> (r: (int, int))
    requires
        0 <= p < q < with_key(s, k).len(),
    ensures
        0 <= r.0 < r.1 < s.len(),
        s[r.0] == with_key(s, k)[p],
        s[r.1] == with_key(s, k)[q],
    decreases s.len(),
{
    reveal(Seq::filter);
    let rest = s.drop_last();
    lemma_with_key_push(rest, s.last(), k);
    assert(rest.push(s.last()) =~= s);
    if q < with_key(rest, k).len() {
        lemma_order_among_all(rest, k, p, q)
    } else {
        let a = lemma_with_key_item(rest, k, p);
        (a, s.len() - 1)
    }
}

proof fn lemma_item_with_key<T: Keyed>(s: Seq<T>, k: int, i: int) -> (r: int)
    requires
        0 <= i < s.len(),
        s[i].key() == k,
    ensures
        0 <= r < with_key(s, k).len(),
        with_key(s, k)[r] == s[i],
    decreases s.len(),
{
    let rest = s.drop_last();
    lemma_with_key_push(rest, s.last(), k);
    assert(rest.push(s.last()) =~= s);
    if i < rest.len() {
        assert(rest[i] == s[i]);
        lemma_item_with_key(rest, k, i)
    } else {
        with_key(rest, k).len() as int
    }
}

/// Two items of one key stand in the same order among those of the key.
proof fn lemma_order_among_key<T: Keyed>(s: Seq<T>, k: int, i: int, j: int) -> (r: (int, int))
    requires
        0 <= i < j < s.len(),
        s[i].key() == k,
        s[j].key() == k,
    ensures
        0 <= r.0 < r.1 < with_key(s, k).len(),
        with_key(s, k)[r.0] == s[i],
        with_key(s, k)[r.1] == s[j],
    decreases s.len(),
{
    let rest = s.drop_last();
    lemma_with_key_push(rest, s.last(), k);
    assert(rest.push(s.last()) =~= s);
    assert(rest[i] == s[i]);
    if j < rest.len() {
        assert(rest[j] == s[j]);
        lemma_order_among_key(rest, k, i, j)
    } else {
        let p = lemma_item_with_key(rest, k, i);
        (p, with_key(rest, k).len() as int)
    }
}

/// Sorting keeps the order of items with equal keys.
pub proof fn equal_keys_keep_their_order<T: Keyed>(out: Seq<T>, input: Seq<T>, i: int, j: int)
    requires
        stable_sort_of(out, input),
        0 <= i < j < input.len(),
        input[i].key() == input[j].key(),
    ensures
        exists|a: int, b: int|
            0 <= a < b < out.len() && #[trigger] out[a] == input[i] && #[trigger] out[b]
                == input[j],
{
    let k = input[i].key();
    let (p, q) = lemma_order_among_key(input, k, i, j);
    assert(with_key(out, k) == with_key(input, k));
    let (a, b) = lemma_order_among_all(out, k, p, q);
    assert(out[a] == input[i] && out[b] == input[j]);
}

/// Sorting what is sorted changes nothing.
pub proof fn what_is_sorted_stays<T: Keyed>(out: Seq<T>, input: Seq<T>)
    requires
        stable_sort_of(out, input),
        forall|i: int, j: int|
            0 <= i <= j < input.len() ==> (#[trigger] input[i]).key() <= (#[trigger] input[j]).key(),
    ensures
        out == input,
{
    stable_sort_is_unique(out, input, input);
}

proof fn lemma_same_groups<T: Keyed>(a: Seq<T>, b: Seq<T>)
    requires
        sorted(a),
        sorted(b),
        a.len() == b.len(),
        forall|k: int| #[trigger] with_key(a, k) == with_key(b, k),
    ensures
        a == b,
    decreases a.len(),
{
    if a.len() > 0 {
        let x = a.last();
        let y = b.last();
        assert(a =~= a.drop_last().push(x));
        assert(b =~= b.drop_last().push(y));
        assert forall|k: int| #[trigger]
            with_key(a, k) == if x.key() == k {
                with_key(a.drop_last(), k).push(x)
            } else {
                with_key(a.drop_last(), k)
            } by {
            lemma_with_key_push(a.drop_last(), x, k);
        }
        assert forall|k: int| #[trigger]
            with_key(b, k) == if y.key() == k {
                with_key(b.drop_last(), k).push(y)
            } else {
                with_key(b.drop_last(), k)
            } by {
            lemma_with_key_push(b.drop_last(), y, k);
        }
        if x.key() < y.key() {
            assert forall|i: int| 0 <= i < a.len() implies (#[trigger] a[i]).key() != y.key() by {
                assert(a[i].key() <= a[a.len() - 1].key());
            }
            lemma_with_key_none(a, y.key());
            assert(with_key(a, y.key()) == with_key(b, y.key()));
            assert(with_key(b, y.key()).len() > 0);
        } else if y.key() < x.key() {
            assert forall|i: int| 0 <= i < b.len() implies (#[trigger] b[i]).key() != x.key() by {
                assert(b[i].key() <= b[b.len() - 1].key());
            }
            lemma_with_key_none(b, x.key());
            assert(with_key(a, x.key()) == with_key(b, x.key()));
            assert(with_key(a, x.key()).len() > 0);
        } else {
            assert(with_key(a, x.key()) == with_key(b, x.key()));
            assert(with_key(a, x.key()).last() == x);
            assert(with_key(b, x.key()).last() == y);
            assert forall|k: int| #[trigger]
                with_key(a.drop_last(), k) == with_key(b.drop_last(), k) by {
                assert(with_key(a, k) == with_key(b, k));
                if x.key() == k {
                    assert(with_key(a, k).drop_last() =~= with_key(a.drop_last(), k));
                    assert(with_key(b, k).drop_last() =~= with_key(b.drop_last(), k));
                }
            }
            lemma_same_groups(a.drop_last(), b.drop_last());
        }
    } else {
        assert(a =~= b);
    }
}

/// Merges two sorted sequences; among equal keys the items of `a` come first.
fn merge<T: Keyed>(a: &Vec<T>, b: &Vec<T>) -> (r: Vec<T>)
    requires
        sorted(a@),
        sorted(b@),
    ensures
        stable_sort_of(r@, a@ + b@),
{
    let mut r: Vec<T> = Vec::new();
    let mut i: usize = 0;
    let mut j: usize = 0;
    proof {
        assert(a@.take(0) + b@.take(0) =~= r@);
    }
    while i < a.len() || j < b.len()
        invariant
            i <= a.len(),
            j <= b.len(),
            sorted(a@),
            sorted(b@),
            sorted(r@),
            r.len() == i + j,
            forall|m: int, p: int|
                0 <= m < r.len() && i <= p < a.len() ==> (#[trigger] r[m]).key() <= (
                #[trigger] a[p]).key(),
            forall|m: int, p: int|
                0 <= m < r.len() && j <= p < b.len() ==> (#[trigger] r[m]).key() <= (
                #[trigger] b[p]).key(),
            forall|m: int, p: int|
                0 <= m < j && i <= p < a.len() ==> (#[trigger] b[m]).key() < (
                #[trigger] a[p]).key(),
            forall|k: int| #[trigger]
                with_key(r@, k) == with_key(a@.take(i as int) + b@.take(j as int), k),
        decreases a.len() - i + b.len() - j,
    {
        let from_a = if i < a.len() {
            if j < b.len() {
                a[i].sort_key() <= b[j].sort_key()
            } else {
                true
            }
        } else {
            false
        };
        let ghost before = r@;
        if from_a {
            let x = a[i].same();
            r.push(x);
            proof {
                assert forall|k: int| #[trigger]
                    with_key(r@, k) == with_key(a@.take(i + 1) + b@.take(j as int), k) by {
                    assert(with_key(before, k) == with_key(
                        a@.take(i as int) + b@.take(j as int),
                        k,
                    ));
                    lemma_with_key_push(before, x, k);
                    lemma_with_key_add(a@.take(i as int), b@.take(j as int), k);
                    lemma_with_key_add(a@.take(i + 1), b@.take(j as int), k);
                    assert(a@.take(i + 1) =~= a@.take(i as int).push(x));
                    lemma_with_key_push(a@.take(i as int), x, k);
                    if x.key() == k {
                        assert forall|m: int| 0 <= m < j implies (#[trigger] b@.take(
                            j as int,
                        )[m]).key() != k by {
                            assert(b@.take(j as int)[m] == b[m]);
                            assert(b[m].key() < a[i as int].key());
                        }
                        lemma_with_key_none(b@.take(j as int), k);
                        assert(with_key(a@.take(i as int), k).push(x) + Seq::<T>::empty()
                            =~= (with_key(a@.take(i as int), k) + Seq::<T>::empty()).push(x));
                    }
                }
            }
            i = i + 1;
        } else {
            let x = b[j].same();
            r.push(x);
            proof {
                assert forall|k: int| #[trigger]
                    with_key(r@, k) == with_key(a@.take(i as int) + b@.take(j + 1), k) by {
                    assert(with_key(before, k) == with_key(
                        a@.take(i as int) + b@.take(j as int),
                        k,
                    ));
                    lemma_with_key_push(before, x, k);
                    assert(a@.take(i as int) + b@.take(j + 1) =~= (a@.take(i as int) + b@.take(
                        j as int,
                    )).push(x));
                    lemma_with_key_push(a@.take(i as int) + b@.take(j as int), x, k);
                }
            }
            j = j + 1;
        }
    }
    proof {
        assert(a@.take(i as int) + b@.take(j as int) =~= a@ + b@);
    }
    r
}

fn sort_range<T: Keyed>(v: &Vec<T>, lo: usize, hi: usize) -> (r: Vec<T>)
    requires
        lo <= hi <= v.len(),
    ensures
        stable_sort_of(r@, v@.subrange(lo as int, hi as int)),
    decreases hi - lo,
{
    if hi - lo <= 1 {
        let mut r: Vec<T> = Vec::new();
        if lo < hi {
            r.push(v[lo].same());
        }
        assert(r@ =~= v@.subrange(lo as int, hi as int));
        r
    } else {
        let mid: usize = lo + (hi - lo) / 2;
        let a = sort_range(v, lo, mid);
        let b = sort_range(v, mid, hi);
        let r = merge(&a, &b);
        proof {
            let va = v@.subrange(lo as int, mid as int);
            let vb = v@.subrange(mid as int, hi as int);
            assert(v@.subrange(lo as int, hi as int) =~= va + vb);
            assert forall|k: int| #[trigger] with_key(r@, k) == with_key(va + vb, k) by {
                lemma_with_key_add(a@, b@, k);
                lemma_with_key_add(va, vb, k);
                assert(with_key(r@, k) == with_key(a@ + b@, k));
                assert(with_key(a@, k) == with_key(va, k));
                assert(with_key(b@, k) == with_key(vb, k));
            }
        }
        r
    }
}

/// Sorts by key; items of equal keys keep their order.
pub fn stable_sort<T: Keyed>(v: &Vec<T>) -> (r: Vec<T>)
    ensures
        stable_sort_of(r@, v@),
{
    let r = sort_range(v, 0, v.len());
    assert(v@.subrange(0, v@.len() as int) =~= v@);
    r
}

/// How many leading items of a sorted sequence have a key below `k`.
pub open spec fn partition_index<T: Keyed>(s: Seq<T>, k: int, r: int) -> bool {
    &&& 0 <= r <= s.len()
    &&& forall|i: int| 0 <= i < r ==> (#[trigger] s[i]).key() < k
    &&& forall|i: int| r <= i < s.len() ==> (#[trigger] s[i]).key() >= k
}

/// How many items at the front have a key below `k`, where the items are sorted.
pub open spec fn partition_at<T: Keyed>(s: Seq<T>, k: int) -> int {
    choose|r: int| partition_index(s, k, r)
}

/// There is only one place where the keys pass from below `k` to at least `k`.
pub proof fn partition_is_unique<T: Keyed>(s: Seq<T>, k: int, r: int)
    requires
        partition_index(s, k, r),
    ensures
        partition_at(s, k) == r,
{
    let p = partition_at(s, k);
    assert(partition_index(s, k, p));
    if p < r {
        assert(s[p].key() < k);
    } else if r < p {
        assert(s[r].key() < k);
    }
}

/// The index of the first item with a key of at least `k`.
pub fn partition_point<T: Keyed>(v: &Vec<T>, k: u64) -> (r: usize)
    requires
        sorted(v@),
    ensures
        partition_index(v@, k as int, r as int),
        r == partition_at(v@, k as int),
{
    let mut lo: usize = 0;
    let mut hi: usize = v.len();
    while lo < hi
        invariant
            lo <= hi <= v.len(),
            sorted(v@),
            forall|i: int| 0 <= i < lo ==> (#[trigger] v[i]).key() < k,
            forall|i: int| hi <= i < v.len() ==> (#[trigger] v[i]).key() >= k,
        decreases hi - lo,
    {
        let mid: usize = lo + (hi - lo) / 2;
        if v[mid].sort_key() < k {
            lo = mid + 1;
        } else {
            hi = mid;
        }
    }
    proof {
        partition_is_unique(v@, k as int, lo as int);
    }
    lo
}

} // verus!
