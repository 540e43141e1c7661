use vstd::prelude::*;

use crate::{gcd, gcd_nat, lemma_gcd_nat_divides, lemma_gcd_nat_pos};

verus! {

/// The magnitude of an integer.
pub open spec fn abs_i(x: int) -> int {
    if x < 0 {
        -x
    } else {
        x
    }
}

/// A point that can be initialized with an array of the appropriate size.
pub trait PointFromArray<T, const N: usize>: Sized {
    fn from_array(vals: [T; N]) -> Self;
}

/// A point capable of computing the Manhattan distance between itself and
/// another point of the same type.
pub trait PointManhattan<T> {
    /// The distance the implementation computes.
    spec fn manhattan_spec(&self, other: &Self) -> T;

    /// When the distance can be computed without leaving the machine
    /// integers.
    spec fn manhattan_req(&self, other: &Self) -> bool;

    /// Computes the Manhattan distance between `self` and `other`.
    fn manhattan(&self, other: &Self) -> (r: T)
        requires
            self.manhattan_req(other),
        ensures
            r == self.manhattan_spec(other),
    ;
}

/// The sum of the entry-wise distances of the first `k` coordinates.
pub open spec fn abs_diff_sum(a: Seq<i64>, b: Seq<i64>, k: int) -> int
    decreases k,
{
    if k <= 0 {
        0
    } else {
        abs_diff_sum(a, b, k - 1) + abs_i(a[k - 1] - b[k - 1])
    }
}

/// Coordinate-distance sums are sums of magnitudes, so never negative.
proof fn lemma_abs_diff_sum_nonneg(a: Seq<i64>, b: Seq<i64>, k: int)
    ensures
        0 <= abs_diff_sum(a, b, k),
    decreases k,
{
    if k > 0 {
        lemma_abs_diff_sum_nonneg(a, b, k - 1);
    }
}

/// Partial coordinate-distance sums never exceed the full sum.
proof fn lemma_abs_diff_sum_mono(a: Seq<i64>, b: Seq<i64>, k: int, n: int)
    requires
        0 <= k <= n,
    ensures
        abs_diff_sum(a, b, k) <= abs_diff_sum(a, b, n),
        0 <= abs_diff_sum(a, b, k),
    decreases n - k,
{
    lemma_abs_diff_sum_nonneg(a, b, k);
    if k < n {
        lemma_abs_diff_sum_mono(a, b, k + 1, n);
    }
}

/// N-dimensional point.
#[derive(Clone, Debug, PartialEq, Eq, Hash)]
pub struct PointNd<T: Copy, const N: usize> {
    vals: [T; N],
}

impl<T: Copy, const N: usize> View for PointNd<T, N> {
    type V = Seq<T>;

    closed spec fn view(&self) -> Seq<T> {
        self.vals@
    }
}

impl<T: Copy, const N: usize> PointNd<T, N> {
    pub fn new(vals: [T; N]) -> (r: PointNd<T, N>)
        ensures
            r@ == vals@,
    {
        PointNd { vals }
    }

    /// The coordinate along dimension `i`.
    pub fn n(&self, i: usize) -> (r: T)
        requires
            i < N,
        ensures
            r == self@[i as int],
    {
        self.vals[i]
    }
}

impl<T: Copy, const N: usize> PointFromArray<T, N> for PointNd<T, N> {
    fn from_array(vals: [T; N]) -> Self {
        Self::new(vals)
    }
}

impl<const N: usize> PointManhattan<i64> for PointNd<i64, N> {
    open spec fn manhattan_spec(&self, other: &Self) -> i64 {
        abs_diff_sum(self@, other@, N as int) as i64
    }

    open spec fn manhattan_req(&self, other: &Self) -> bool {
        &&& forall|i: int|
            0 <= i < N ==> i64::MIN < (#[trigger] self@[i]) - other@[i] <= i64::MAX
        &&& abs_diff_sum(self@, other@, N as int) <= i64::MAX
    }

    fn manhattan(&self, other: &Self) -> (r: i64) {
        let mut total: i64 = 0;
        let mut i: usize = 0;
        while i < N
            invariant
                i <= N,
                self.manhattan_req(other),
                total == abs_diff_sum(self@, other@, i as int),
            decreases N - i,
        {
            proof {
                lemma_abs_diff_sum_mono(self@, other@, i + 1, N as int);
            }
            let v_abs: i64 = if self.vals[i] > other.vals[i] {
                self.vals[i] - other.vals[i]
            } else {
                other.vals[i] - self.vals[i]
            };
            total = total + v_abs;
            i = i + 1;
        }
        total
    }
}

/// 2-dimensional point.
#[derive(Clone, Debug, PartialEq, Eq, Hash)]
pub struct Point2d<T: Copy>(PointNd<T, 2>);

impl<T: Copy> View for Point2d<T> {
    type V = Seq<T>;

    closed spec fn view(&self) -> Seq<T> {
        self.0@
    }
}

impl<T: Copy> Point2d<T> {
    pub fn new(x: T, y: T) -> (r: Point2d<T>)
        ensures
            r@ =~= seq![x, y],
    {
        Point2d(PointNd { vals: [x, y] })
    }

    pub fn x(&self) -> (r: T)
        requires
            self@.len() == 2,
        ensures
            r == self@[0],
    {
        self.0.vals[0]
    }

    pub fn y(&self) -> (r: T)
        requires
            self@.len() == 2,
        ensures
            r == self@[1],
    {
        self.0.vals[1]
    }
}

impl Point2d<i64> {
    /// The slope from `self` towards `other`; fails when the two points
    /// coincide.
    pub fn get_slope(&self, other: &Point2d<i64>) -> (r: Result<Slope, PointError>)
        requires
            i64::MIN < other@[0] - self@[0] <= i64::MAX,
            i64::MIN < other@[1] - self@[1] <= i64::MAX,
        ensures
            slope_built(r, other@[0] - self@[0], other@[1] - self@[1]),
    {
        Slope::from_points_2d(self, other)
    }
}

impl<T: Copy> PointFromArray<T, 2> for Point2d<T> {
    fn from_array(vals: [T; 2]) -> Self {
        Point2d(PointNd { vals })
    }
}

impl PointManhattan<i64> for Point2d<i64> {
    open spec fn manhattan_spec(&self, other: &Self) -> i64 {
        abs_diff_sum(self@, other@, 2) as i64
    }

    open spec fn manhattan_req(&self, other: &Self) -> bool {
        &&& forall|i: int| 0 <= i < 2 ==> i64::MIN < (#[trigger] self@[i]) - other@[i] <= i64::MAX
        &&& abs_diff_sum(self@, other@, 2) <= i64::MAX
    }

    fn manhattan(&self, other: &Self) -> (r: i64) {
        self.0.manhattan(&other.0)
    }
}

/// 3-dimensional point.
#[derive(Clone, Debug, PartialEq, Eq, Hash)]
pub struct Point3d<T: Copy>(PointNd<T, 3>);

impl<T: Copy> View for Point3d<T> {
    type V = Seq<T>;

    closed spec fn view(&self) -> Seq<T> {
        self.0@
    }
}

impl<T: Copy> Point3d<T> {
    pub fn new(x: T, y: T, z: T) -> (r: Point3d<T>)
        ensures
            r@ =~= seq![x, y, z],
    {
        Point3d(PointNd { vals: [x, y, z] })
    }

    pub fn x(&self) -> (r: T)
        requires
            self@.len() == 3,
        ensures
            r == self@[0],
    {
        self.0.vals[0]
    }

    pub fn y(&self) -> (r: T)
        requires
            self@.len() == 3,
        ensures
            r == self@[1],
    {
        self.0.vals[1]
    }

    pub fn z(&self) -> (r: T)
        requires
            self@.len() == 3,
        ensures
            r == self@[2],
    {
        self.0.vals[2]
    }
}

impl<T: Copy> PointFromArray<T, 3> for Point3d<T> {
    fn from_array(vals: [T; 3]) -> Self {
        Point3d(PointNd { vals })
    }
}

impl PointManhattan<i64> for Point3d<i64> {
    open spec fn manhattan_spec(&self, other: &Self) -> i64 {
        abs_diff_sum(self@, other@, 3) as i64
    }

    open spec fn manhattan_req(&self, other: &Self) -> bool {
        &&& forall|i: int| 0 <= i < 3 ==> i64::MIN < (#[trigger] self@[i]) - other@[i] <= i64::MAX
        &&& abs_diff_sum(self@, other@, 3) <= i64::MAX
    }

    fn manhattan(&self, other: &Self) -> (r: i64) {
        self.0.manhattan(&other.0)
    }
}

/// The failure of slope construction: both components are zero, so there is
/// no direction to reduce.
#[derive(Clone, Copy, Debug, PartialEq, Eq, Structural)]
pub enum PointError {
    ZeroSlope,
}

/// A slope between two points, kept reduced by the greatest common divisor
/// of the magnitudes of its two components.
#[derive(PartialEq, Eq, Hash, Copy, Clone, Debug)]
pub struct Slope {
    horizontal: i64,
    vertical: i64,
}

/// What slope construction from the raw components `h` and `v` hands back:
/// the components divided exactly by the gcd of their magnitudes, or the
/// degenerate-slope error when both are zero.
pub open spec fn slope_built(r: Result<Slope, PointError>, h: int, v: int) -> bool {
    match r {
        Ok(s) => {
            &&& !(h == 0 && v == 0)
            &&& s.horizontal_spec() * gcd_nat(abs_i(h) as nat, abs_i(v) as nat) == h
            &&& s.vertical_spec() * gcd_nat(abs_i(h) as nat, abs_i(v) as nat) == v
        },
        Err(e) => h == 0 && v == 0 && e == PointError::ZeroSlope,
    }
}

impl Slope {
    /// The reduced horizontal component.
    pub closed spec fn horizontal_spec(&self) -> int {
        self.horizontal as int
    }

    /// The reduced vertical component.
    pub closed spec fn vertical_spec(&self) -> int {
        self.vertical as int
    }

    /// Builds the reduced slope with the given components; fails when both
    /// are zero.
    pub fn new(horizontal: i64, vertical: i64) -> (r: Result<Slope, PointError>)
        requires
            horizontal > i64::MIN,
            vertical > i64::MIN,
        ensures
            slope_built(r, horizontal as int, vertical as int),
    {
        let ha: i64 = if horizontal < 0 {
            -horizontal
        } else {
            horizontal
        };
        let va: i64 = if vertical < 0 {
            -vertical
        } else {
            vertical
        };
        let g = gcd(ha, va);
        if g == 0 {
            proof {
                if ha > 0 || va > 0 {
                    lemma_gcd_nat_pos(ha as nat, va as nat);
                }
            }
            return Err(PointError::ZeroSlope);
        }
        let hq = ha / g;
        let vq = va / g;
        proof {
            lemma_gcd_nat_divides(ha as nat, va as nat);
            let gn = gcd_nat(ha as nat, va as nat);
            let qh = choose|q: nat| ha as nat == #[trigger] (gn * q);
            let qv = choose|q: nat| va as nat == #[trigger] (gn * q);
            vstd::arithmetic::div_mod::lemma_div_multiples_vanish(qh as int, g as int);
            vstd::arithmetic::div_mod::lemma_div_multiples_vanish(qv as int, g as int);
            assert(hq == qh);
            assert(vq == qv);
            assert(hq * g == ha) by (nonlinear_arith)
                requires
                    hq == qh,
                    ha == gn * qh,
                    g == gn,
            ;
            assert(vq * g == va) by (nonlinear_arith)
                requires
                    vq == qv,
                    va == gn * qv,
                    g == gn,
            ;
        }
        let h2: i64 = if horizontal < 0 {
            -hq
        } else {
            hq
        };
        let v2: i64 = if vertical < 0 {
            -vq
        } else {
            vq
        };
        proof {
            assert(h2 * g == horizontal) by (nonlinear_arith)
                requires
                    hq * g == ha,
                    (horizontal < 0 ==> h2 == -hq && ha == -horizontal),
                    (horizontal >= 0 ==> h2 == hq && ha == horizontal),
            ;
            assert(v2 * g == vertical) by (nonlinear_arith)
                requires
                    vq * g == va,
                    (vertical < 0 ==> v2 == -vq && va == -vertical),
                    (vertical >= 0 ==> v2 == vq && va == vertical),
            ;
        }
        Ok(Slope { horizontal: h2, vertical: v2 })
    }

    /// The slope from `pov` towards `other`; fails when the points coincide.
    pub fn from_points_2d(pov: &Point2d<i64>, other: &Point2d<i64>) -> (r: Result<
        Slope,
        PointError,
    >)
        requires
            i64::MIN < other@[0] - pov@[0] <= i64::MAX,
            i64::MIN < other@[1] - pov@[1] <= i64::MAX,
        ensures
            slope_built(r, other@[0] - pov@[0], other@[1] - pov@[1]),
    {
        Slope::new(other.x() - pov.x(), other.y() - pov.y())
    }

    pub fn horizontal(&self) -> (r: i64)
        ensures
            r == self.horizontal_spec(),
    {
        self.horizontal
    }

    pub fn vertical(&self) -> (r: i64)
        ensures
            r == self.vertical_spec(),
    {
        self.vertical
    }
}

} // verus!
