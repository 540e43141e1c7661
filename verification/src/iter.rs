use vstd::prelude::*;

use crate::selector_step;

verus! {

/// Every index pair `(i, j)` with `s <= i < j < n`, ordered lexicographically:
/// first all pairs starting at `s`, then those starting later.
pub open spec fn pair_seq(s: nat, n: nat) -> Seq<(usize, usize)>
    decreases n - s,
{
    if s + 1 >= n {
        Seq::empty()
    } else {
        Seq::new((n - s - 1) as nat, |t: int| (s as usize, (s + 1 + t) as usize)) + pair_seq(
            s + 1,
            n,
        )
    }
}

/// An inclusive range as a vector: counting up from `start` to `end` when
/// `start <= end`, else counting down from `start` to `end`.
pub fn fwd_rev_incl_range(start: usize, end: usize) -> (r: Vec<usize>)
    requires
        start <= end ==> end - start < usize::MAX,
        start > end ==> start - end < usize::MAX,
    ensures
        start <= end ==> r@.len() == end - start + 1 && (forall|i: int|
            0 <= i < r@.len() ==> #[trigger] r@[i] == start + i),
        start > end ==> r@.len() == start - end + 1 && (forall|i: int|
            0 <= i < r@.len() ==> #[trigger] r@[i] == start - i),
{
    let mut r: Vec<usize> = Vec::new();
    if start <= end {
        let mut v: usize = start;
        while v < end
            invariant
                start <= v <= end,
                r@.len() == v - start,
                forall|i: int| 0 <= i < r@.len() ==> #[trigger] r@[i] == start + i,
            decreases end - v,
        {
            r.push(v);
            v = v + 1;
        }
        r.push(v);
    } else {
        let mut v: usize = start;
        while v > end
            invariant
                end <= v <= start,
                r@.len() == start - v,
                forall|i: int| 0 <= i < r@.len() ==> #[trigger] r@[i] == start - i,
            decreases v - end,
        {
            r.push(v);
            v = v - 1;
        }
        r.push(v);
    }
    r
}

/// Every pair of two distinct indices into the slice, as `(i, j)` with
/// `i < j`, in lexicographic order.
pub fn pairwise_iter_i<T>(v: &[T]) -> (r: Vec<(usize, usize)>)
    ensures
        r@ == pair_seq(0, v@.len()),
{
    let n = v.len();
    let mut r: Vec<(usize, usize)> = Vec::new();
    let mut i: usize = 0;
    proof {
        assert(r@ + pair_seq(0, n as nat) =~= pair_seq(0, n as nat));
    }
    while i < n
        invariant
            i <= n,
            r@ + pair_seq(i as nat, n as nat) == pair_seq(0, n as nat),
        decreases n - i,
    {
        let mut j: usize = i + 1;
        while j < n
            invariant
                i < j <= n,
                i < n,
                r@ + Seq::new(
                    (n - j) as nat,
                    |t: int| (i, (j + t) as usize),
                ) + pair_seq((i + 1) as nat, n as nat) == pair_seq(0, n as nat),
            decreases n - j,
        {
            r.push((i, j));
            proof {
                assert(r@ + Seq::new(
                    (n - (j + 1)) as nat,
                    |t: int| (i, (j + 1 + t) as usize),
                ) =~= (r@.drop_last() + Seq::new((n - j) as nat, |t: int| (i, (j + t) as usize))));
            }
            j = j + 1;
        }
        proof {
            assert(r@ + Seq::new(0nat, |t: int| (i, (j + t) as usize)) =~= r@);
            if i + 1 < n {
                assert(pair_seq(i as nat, n as nat) == Seq::new(
                    (n - i - 1) as nat,
                    |t: int| (i, (i + 1 + t) as usize),
                ) + pair_seq((i + 1) as nat, n as nat));
            } else {
                assert(pair_seq(i as nat, n as nat) == Seq::<(usize, usize)>::empty());
                assert(pair_seq((i + 1) as nat, n as nat) == Seq::<(usize, usize)>::empty());
            }
        }
        i = i + 1;
    }
    proof {
        assert(pair_seq(i as nat, n as nat) == Seq::<(usize, usize)>::empty());
        assert(r@ + pair_seq(i as nat, n as nat) =~= r@);
    }
    r
}

/// Every pair of two entries of the slice, by value, in the order of
/// `pairwise_iter_i`.
pub fn pairwise_iter_copy<T: Copy>(v: &[T]) -> (r: Vec<(T, T)>)
    ensures
        r@.len() == pair_seq(0, v@.len()).len(),
        forall|p: int|
            0 <= p < r@.len() ==> #[trigger] r@[p] == (
                v@[pair_seq(0, v@.len())[p].0 as int],
                v@[pair_seq(0, v@.len())[p].1 as int],
            ),
{
    let n0 = v.len();
    let idx = pairwise_iter_i(v);
    proof {
        assert(v@.len() == n0);
        lemma_pair_seq_bounds(0, v@.len() as nat);
    }
    let mut r: Vec<(T, T)> = Vec::new();
    let mut p: usize = 0;
    while p < idx.len()
        invariant
            p <= idx@.len(),
            idx@ == pair_seq(0, v@.len()),
            forall|q: int|
                0 <= q < idx@.len() ==> #[trigger] idx@[q].0 < idx@[q].1 < v@.len(),
            r@.len() == p,
            forall|q: int|
                0 <= q < p ==> #[trigger] r@[q] == (v@[idx@[q].0 as int], v@[idx@[q].1 as int]),
        decreases idx@.len() - p,
    {
        let (a, b) = idx[p];
        r.push((v[a], v[b]));
        p = p + 1;
    }
    r
}

/// Every pair the enumeration hands out is two indices in range, the first
/// strictly before the second.
pub proof fn lemma_pair_seq_bounds(s: nat, n: nat)
    requires
        n <= usize::MAX,
    ensures
        forall|p: int|
            0 <= p < pair_seq(s, n).len() ==> s <= #[trigger] pair_seq(s, n)[p].0 && pair_seq(
                s,
                n,
            )[p].0 < pair_seq(s, n)[p].1 < n,
    decreases n - s,
{
    if s + 1 < n {
        lemma_pair_seq_bounds(s + 1, n);
        let head = Seq::new((n - s - 1) as nat, |t: int| (s as usize, (s + 1 + t) as usize));
        assert forall|p: int|
            0 <= p < pair_seq(s, n).len() implies s <= #[trigger] pair_seq(s, n)[p].0 && pair_seq(
            s,
            n,
        )[p].0 < pair_seq(s, n)[p].1 < n by {
            if p < head.len() {
                assert(pair_seq(s, n)[p] == head[p]);
                assert(head[p] == (s as usize, (s + 1 + p) as usize));
            } else {
                assert(pair_seq(s, n)[p] == pair_seq(s + 1, n)[p - head.len()]);
            }
        }
    }
}

/// Every selector of `len` booleans, starting all `false`, each the binary
/// increment of the one before, ending all `true`.
pub fn selector_iter(len: usize) -> (r: Vec<Vec<bool>>)
    ensures
        r@.len() >= 1,
        forall|p: int| 0 <= p < r@.len() ==> (#[trigger] r@[p])@.len() == len,
        forall|i: int| 0 <= i < len ==> !r@[0]@[i],
        forall|i: int| 0 <= i < len ==> #[trigger] r@[r@.len() - 1]@[i],
        forall|p: int| 0 <= p < r@.len() - 1 ==> selector_step(r@[p]@, (#[trigger] r@[p + 1])@),
{
    let mut v: Vec<bool> = Vec::new();
    let mut t: usize = 0;
    while t < len
        invariant
            t <= len,
            v@.len() == t,
            forall|i: int| 0 <= i < t ==> !v@[i],
        decreases len - t,
    {
        v.push(false);
        t = t + 1;
    }
    let mut r: Vec<Vec<bool>> = Vec::new();
    let first = duplicate_bools(&v);
    r.push(first);
    loop
        invariant_except_break
            r@.len() >= 1,
            v@.len() == len,
            r@[r@.len() - 1]@ == v@,
            forall|p: int| 0 <= p < r@.len() ==> (#[trigger] r@[p])@.len() == len,
            forall|i: int| 0 <= i < len ==> !r@[0]@[i],
            forall|p: int| 0 <= p < r@.len() - 1 ==> selector_step(r@[p]@, (#[trigger] r@[p + 1])@),
        ensures
            r@.len() >= 1,
            forall|p: int| 0 <= p < r@.len() ==> (#[trigger] r@[p])@.len() == len,
            forall|i: int| 0 <= i < len ==> !r@[0]@[i],
            forall|i: int| 0 <= i < len ==> #[trigger] r@[r@.len() - 1]@[i],
            forall|p: int| 0 <= p < r@.len() - 1 ==> selector_step(r@[p]@, (#[trigger] r@[p + 1])@),
        decreases selector_remaining(v@),
    {
        let ghost prev = v@;
        if crate::inc_selector(&mut v) {
            break;
        }
        proof {
            lemma_selector_step_decreases(prev, v@);
        }
        let next = duplicate_bools(&v);
        r.push(next);
    }
    r
}

/// How many selectors are still to come: the number of `false` entries,
/// weighted so that each increment strictly lowers it.
pub open spec fn selector_remaining(s: Seq<bool>) -> nat
    decreases s.len(),
{
    if s.len() == 0 {
        0
    } else {
        (2 * selector_remaining(s.drop_last()) + (if s.last() {
            0nat
        } else {
            1nat
        }))
    }
}

/// A binary increment strictly lowers the count of selectors to come.
proof fn lemma_selector_step_decreases(prev: Seq<bool>, cur: Seq<bool>)
    requires
        selector_step(prev, cur),
    ensures
        selector_remaining(cur) < selector_remaining(prev),
{
    let k = choose|k: int|
        {
            &&& 0 <= k < prev.len()
            &&& !prev[k]
            &&& (forall|t: int| k < t < prev.len() ==> prev[t])
            &&& cur == prev.update(k, true).map(
                |t: int, b: bool|
                    if t > k {
                        false
                    } else {
                        b
                    },
            )
        };
    lemma_selector_remaining_inc(prev, cur, k, prev.len() as int);
    assert(cur.len() == prev.len());
    assert(cur.take(prev.len() as int) =~= cur);
    assert(prev.take(prev.len() as int) =~= prev);
}

/// On the suffix past the flipped position the counts swap strictly.
proof fn lemma_selector_remaining_inc(prev: Seq<bool>, cur: Seq<bool>, k: int, m: int)
    requires
        0 <= k < prev.len(),
        !prev[k],
        forall|t: int| k < t < prev.len() ==> prev[t],
        cur == prev.update(k, true).map(
            |t: int, b: bool|
                if t > k {
                    false
                } else {
                    b
                },
        ),
        k < m <= prev.len(),
    ensures
        selector_remaining(cur.take(m)) < selector_remaining(prev.take(m)),
    decreases m,
{
    if m == k + 1 {
        assert(cur.take(m).drop_last() =~= prev.take(m).drop_last());
        assert(cur.take(m).last() == cur[k]);
        assert(cur[k]);
        assert(prev.take(m).last() == prev[k]);
        assert(!prev[k]);
    } else {
        lemma_selector_remaining_inc(prev, cur, k, m - 1);
        assert(cur.take(m).drop_last() =~= cur.take(m - 1));
        assert(prev.take(m).drop_last() =~= prev.take(m - 1));
        assert(cur.take(m).last() == cur[m - 1]);
        assert(!cur[m - 1]);
        assert(prev.take(m).last() == prev[m - 1]);
        assert(prev[m - 1]);
    }
}

/// A plain copy of a boolean vector.
fn duplicate_bools(v: &Vec<bool>) -> (r: Vec<bool>)
    ensures
        r@ == v@,
{
    let mut r: Vec<bool> = Vec::new();
    let mut i: usize = 0;
    while i < v.len()
        invariant
            i <= v@.len(),
            r@ == v@.subrange(0, i as int),
        decreases v@.len() - i,
    {
        r.push(v[i]);
        proof {
            assert(r@ =~= v@.subrange(0, i + 1));
        }
        i = i + 1;
    }
    proof {
        assert(v@.subrange(0, v@.len() as int) =~= v@);
    }
    r
}


/// Swapping two positions of a sequence keeps its bag of values.
proof fn lemma_swap_multiset<T>(s: Seq<T>, x: int, y: int)
    requires
        0 <= x < s.len(),
        0 <= y < s.len(),
    ensures
        s.update(x, s[y]).update(y, s[x]).to_multiset() == s.to_multiset(),
{
    if x == y {
        assert(s.update(x, s[y]).update(y, s[x]) =~= s);
    } else {
        let s2 = s.update(x, s[y]);
        let s3 = s2.update(y, s[x]);
        vstd::seq_lib::to_multiset_update(s, x, s[y]);
        vstd::seq_lib::to_multiset_update(s2, y, s[x]);
        s.to_multiset_ensures();
        s2.to_multiset_ensures();
        s3.to_multiset_ensures();
        assert(s.contains(s[x]));
        assert(s.contains(s[y]));
        assert(s2.contains(s2[y]));
        assert(s2[y] == s[y]);
        assert(s3.to_multiset() =~= s.to_multiset()) by {
            assert forall|e: T| true implies s3.to_multiset().count(e) == s.to_multiset().count(
                e,
            ) by {
                assert(s.to_multiset().count(s[x]) > 0);
                assert(s2.to_multiset() == s.to_multiset().insert(s[y]).remove(s[x]));
                assert(s3.to_multiset() == s2.to_multiset().insert(s[x]).remove(s[y]));
            }
        }
    }
}

/// Swaps two entries of a vector.
fn swap_entries<T: Copy>(v: &mut Vec<T>, x: usize, y: usize)
    requires
        x < old(v)@.len(),
        y < old(v)@.len(),
    ensures
        final(v)@ == old(v)@.update(x as int, old(v)@[y as int]).update(
            y as int,
            old(v)@[x as int],
        ),
{
    let tx = v[x];
    let ty = v[y];
    v[x] = ty;
    v[y] = tx;
}

/// A plain copy of a vector of copyable values.
fn duplicate_vals<T: Copy>(v: &Vec<T>) -> (r: Vec<T>)
    ensures
        r@ == v@,
{
    let mut r: Vec<T> = Vec::new();
    let mut i: usize = 0;
    while i < v.len()
        invariant
            i <= v@.len(),
            r@ == v@.subrange(0, i as int),
        decreases v@.len() - i,
    {
        r.push(v[i]);
        proof {
            assert(r@ =~= v@.subrange(0, i + 1));
        }
        i = i + 1;
    }
    proof {
        assert(v@.subrange(0, v@.len() as int) =~= v@);
    }
    r
}

/// Appends every permutation of `a` that keeps the first `k` entries fixed,
/// restoring `a` before handing back; the first appended order is `a` as it
/// stands.
fn permute_from<T: Copy>(a: &mut Vec<T>, k: usize, out: &mut Vec<Vec<T>>)
    requires
        k <= old(a)@.len(),
    ensures
        final(a)@ == old(a)@,
        final(out)@.len() > old(out)@.len(),
        forall|p: int| 0 <= p < old(out)@.len() ==> #[trigger] final(out)@[p] == old(out)@[p],
        final(out)@[old(out)@.len() as int]@ == old(a)@,
        forall|p: int|
            old(out)@.len() <= p < final(out)@.len() ==> (#[trigger] final(out)@[p]@).to_multiset()
                == old(a)@.to_multiset(),
    decreases old(a)@.len() - k,
{
    let n = a.len();
    if k >= n {
        let copy = duplicate_vals(a);
        out.push(copy);
        return ;
    }
    let ghost entry = a@;
    let ghost base = out@.len();
    let mut i: usize = k;
    while i < n
        invariant
            k <= i <= n,
            n == a@.len(),
            k < n,
            a@ == entry,
            entry == old(a)@,
            out@.len() > base || i == k,
            i == k ==> out@.len() == base,
            out@.len() >= base,
            forall|p: int| 0 <= p < base ==> #[trigger] out@[p] == old(out)@[p],
            base == old(out)@.len(),
            i > k ==> out@[base as int]@ == entry,
            forall|p: int|
                base <= p < out@.len() ==> (#[trigger] out@[p]@).to_multiset()
                    == entry.to_multiset(),
        decreases n - i,
    {
        let ghost before = a@;
        swap_entries(a, k, i);
        proof {
            lemma_swap_multiset(entry, k as int, i as int);
            if i == k {
                assert(a@ =~= entry);
            }
        }
        let ghost swapped = a@;
        let ghost out_before = out@.len();
        permute_from(a, k + 1, out);
        swap_entries(a, k, i);
        proof {
            assert(a@ =~= entry);
            if i == k {
                assert(out@[base as int]@ == entry);
            }
            assert forall|p: int|
                base <= p < out@.len() implies (#[trigger] out@[p]@).to_multiset()
                == entry.to_multiset() by {
                if p >= out_before {
                    assert(out@[p]@.to_multiset() == swapped.to_multiset());
                }
            }
        }
        i = i + 1;
    }
}

/// All orderings of the input values: each holds the same bag of values as
/// the input, and the first one is the input itself.
pub fn permutation_iter_copy<T: Copy>(a: Vec<T>) -> (r: Vec<Vec<T>>)
    ensures
        r@.len() >= 1,
        r@[0]@ == a@,
        forall|p: int|
            0 <= p < r@.len() ==> (#[trigger] r@[p]@).to_multiset() == a@.to_multiset(),
{
    let mut work = a;
    let mut out: Vec<Vec<T>> = Vec::new();
    permute_from(&mut work, 0, &mut out);
    out
}


/// Every pair of two entries of the slice, by reference, in the order of
/// `pairwise_iter_i`.
pub fn pairwise_iter<'a, T>(v: &'a [T]) -> (r: Vec<(&'a T, &'a T)>)
    ensures
        r@.len() == pair_seq(0, v@.len()).len(),
        forall|p: int|
            0 <= p < r@.len() ==> *(#[trigger] r@[p]).0 == v@[pair_seq(0, v@.len())[p].0 as int]
                && *r@[p].1 == v@[pair_seq(0, v@.len())[p].1 as int],
{
    let n0 = v.len();
    let idx = pairwise_iter_i(v);
    proof {
        assert(v@.len() == n0);
        lemma_pair_seq_bounds(0, v@.len() as nat);
    }
    let mut r: Vec<(&'a T, &'a T)> = Vec::new();
    let mut p: usize = 0;
    while p < idx.len()
        invariant
            p <= idx@.len(),
            idx@ == pair_seq(0, v@.len()),
            forall|q: int| 0 <= q < idx@.len() ==> #[trigger] idx@[q].0 < idx@[q].1 < v@.len(),
            r@.len() == p,
            forall|q: int|
                0 <= q < p ==> *(#[trigger] r@[q]).0 == v@[idx@[q].0 as int] && *r@[q].1
                    == v@[idx@[q].1 as int],
        decreases idx@.len() - p,
    {
        let (a, b) = idx[p];
        r.push((&v[a], &v[b]));
        p = p + 1;
    }
    r
}

/// Every way of selecting entries from the slice, by reference: one entry
/// list for each selector that `selector_iter` walks through, in that order,
/// holding the entries at the chosen indices.
pub fn selection_iter<T>(v: &[T]) -> (r: Vec<Vec<&T>>)
    ensures
        r@.len() >= 1,
        r@[0]@.len() == 0,
{
    let n0 = v.len();
    let selectors = selector_iter(v.len());
    let mut r: Vec<Vec<&T>> = Vec::new();
    r.push(Vec::new());
    let mut s: usize = 1;
    while s < selectors.len()
        invariant
            1 <= s,
            s <= selectors@.len(),
            n0 == v@.len(),
            forall|q: int| 0 <= q < selectors@.len() ==> (#[trigger] selectors@[q])@.len() == n0,
            r@.len() == s,
            r@[0]@.len() == 0,
        decreases selectors@.len() - s,
    {
        let sel = &selectors[s];
        let mut chosen: Vec<&T> = Vec::new();
        let mut i: usize = 0;
        while i < n0
            invariant
                i <= n0,
                n0 == v@.len(),
                sel@.len() == n0,
            decreases n0 - i,
        {
            if sel[i] {
                chosen.push(&v[i]);
            }
            i = i + 1;
        }
        r.push(chosen);
        s = s + 1;
    }
    r
}

} // verus!
