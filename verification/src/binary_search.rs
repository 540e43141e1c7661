use vstd::prelude::*;

verus! {

/// A binary search over an abstract index space: the implementor supplies
/// the probing and the bound updates, and promises that every update either
/// gives up or strictly narrows the bounds, so the search terminates.
pub trait BinarySearchable<V>: Sized {
    /// Which indices may be probed; probing may mutate state but must not
    /// change the domain.
    spec fn in_domain(&self, i: usize) -> bool;

    /// Gets the value at the given index. Called with the midpoint at the
    /// beginning of each loop round.
    fn get_val(&mut self, index: usize) -> (v: V)
        requires
            old(self).in_domain(index),
        ensures
            forall|i: usize| final(self).in_domain(i) == old(self).in_domain(i),
    ;

    /// Called right after probing the midpoint; `true` ends the search with
    /// that index and value.
    fn found_result(&mut self, val: &V, lower_bound: usize, mid_point: usize, upper_bound: usize) -> (r: bool)
        ensures
            forall|i: usize| final(self).in_domain(i) == old(self).in_domain(i),
    ;

    /// Called when the midpoint was not the result, to narrow the bounds.
    /// `true` aborts the search; otherwise the new bounds must enclose a
    /// strictly smaller, non-empty part of the old range.
    fn set_next_bounds(
        &mut self,
        val: &V,
        lower_bound: &mut usize,
        mid_point: usize,
        upper_bound: &mut usize,
    ) -> (r: bool)
        requires
            *old(lower_bound) <= mid_point < *old(upper_bound),
        ensures
            forall|i: usize| final(self).in_domain(i) == old(self).in_domain(i),
            !r ==> {
                &&& *old(lower_bound) <= *final(lower_bound)
                &&& *final(upper_bound) <= *old(upper_bound)
                &&& *final(upper_bound) - *final(lower_bound) < *old(upper_bound) - *old(
                    lower_bound,
                )
            },
    ;

    /// Probes midpoints between the bounds until `found_result` accepts one,
    /// handing back that index and its value, or until the range empties or
    /// `set_next_bounds` gives up, handing back nothing.
    fn binary_search(&mut self, lower_bound: usize, upper_bound: usize) -> (r: Option<(usize, V)>)
        requires
            forall|i: usize|
                lower_bound <= i < upper_bound ==> #[trigger] old(self).in_domain(i),
        ensures
            match r {
                Some((i, _)) => lower_bound <= i < upper_bound,
                None => true,
            },
    {
        let mut lower = lower_bound;
        let mut upper = upper_bound;
        loop
            invariant_except_break
                lower_bound <= lower,
                upper <= upper_bound,
                forall|i: usize| lower_bound <= i < upper_bound ==> #[trigger] self.in_domain(i),
            ensures
                true,
            decreases (if lower <= upper {
                upper - lower
            } else {
                0int
            }),
        {
            if upper <= lower {
                return None;
            }
            let ghost l0 = lower;
            let ghost u0 = upper;
            let mid_point = lower + (upper - lower) / 2;
            let val = self.get_val(mid_point);
            if self.found_result(&val, lower, mid_point, upper) {
                return Some((mid_point, val));
            }
            if self.set_next_bounds(&val, &mut lower, mid_point, &mut upper) {
                break;
            }
        }
        None
    }
}

/// A sorted vector searched for one target value.
pub struct BinarySearchableVec<V> {
    v: Vec<V>,
    t: V,
}

impl<V> BinarySearchableVec<V> {
    /// Wraps the haystack and the target.
    pub fn new(value: Vec<V>, target: V) -> (r: BinarySearchableVec<V>)
        ensures
            r.haystack() == value@,
            r.target() == target,
    {
        BinarySearchableVec { v: value, t: target }
    }

    /// The values searched through.
    pub closed spec fn haystack(&self) -> Seq<V> {
        self.v@
    }

    /// The value searched for.
    pub closed spec fn target(&self) -> V {
        self.t
    }
}

impl BinarySearchable<i64> for BinarySearchableVec<i64> {
    open spec fn in_domain(&self, i: usize) -> bool {
        i < self.haystack().len()
    }

    fn get_val(&mut self, index: usize) -> (v: i64)
        ensures
            forall|i: usize| final(self).in_domain(i) == old(self).in_domain(i),
            v == old(self).haystack()[index as int],
            *final(self) == *old(self),
    {
        self.v[index]
    }

    fn found_result(&mut self, val: &i64, _lower_bound: usize, _mid_point: usize, _upper_bound: usize) -> (r: bool)
        ensures
            forall|i: usize| final(self).in_domain(i) == old(self).in_domain(i),
            r == (*val == old(self).target()),
            *final(self) == *old(self),
    {
        *val == self.t
    }

    fn set_next_bounds(
        &mut self,
        val: &i64,
        lower_bound: &mut usize,
        mid_point: usize,
        upper_bound: &mut usize,
    ) -> (r: bool)
        ensures
            forall|i: usize| final(self).in_domain(i) == old(self).in_domain(i),
            *final(self) == *old(self),
            !r ==> {
                &&& *old(lower_bound) <= *final(lower_bound)
                &&& *final(upper_bound) <= *old(upper_bound)
                &&& *final(upper_bound) - *final(lower_bound) < *old(upper_bound) - *old(
                    lower_bound,
                )
            },
    {
        if *lower_bound == mid_point {
            return true;
        }
        if *val > self.t {
            *upper_bound = mid_point;
        } else if *val < self.t {
            *lower_bound = mid_point;
        } else {
            return true;
        }
        false
    }
}

} // verus!
