//! Verified helpers for grid puzzles, built around an exact-rational matrix
//! engine: rows and matrices of rationals with addition, scalar and matrix
//! multiplication, and Gaussian elimination to row echelon and reduced row
//! echelon form, with the echelon shape, the normalization of leaders and
//! the idempotence of the reduction proved. Around it stand smaller verified
//! utilities: binary search, direction enums, pair and selection
//! enumerators, points and slopes, a prefix tree, and padding and folding
//! helpers.

use vstd::prelude::*;

pub mod binary_search;
pub mod dir;
pub mod frac;
pub mod iter;
pub mod matrix;
pub mod option_min_max;
pub mod point;
pub mod order;
pub mod rat;
pub mod trie;

verus! {

/// Greatest common divisor of two magnitudes by the Euclidean algorithm.
pub open spec fn gcd_nat(a: nat, b: nat) -> nat
    decreases b,
{
    if b == 0 {
        a
    } else {
        gcd_nat(b, a % b)
    }
}

/// `d` divides `x` exactly.
pub open spec fn divides(d: nat, x: nat) -> bool {
    exists|q: nat| x == #[trigger] (d * q)
}

/// The greatest common divisor divides both of its arguments.
pub proof fn lemma_gcd_nat_divides(a: nat, b: nat)
    ensures
        divides(gcd_nat(a, b), a),
        divides(gcd_nat(a, b), b),
    decreases b,
{
    let g = gcd_nat(a, b);
    if b == 0 {
        assert(a == g * 1nat);
        assert(b == g * 0nat);
    } else {
        lemma_gcd_nat_divides(b, a % b);
        let q1 = choose|q: nat| b == #[trigger] (g * q);
        let q2 = choose|q: nat| a % b == #[trigger] (g * q);
        vstd::arithmetic::div_mod::lemma_fundamental_div_mod(a as int, b as int);
        let d = a as int / b as int;
        assert(d >= 0) by (nonlinear_arith)
            requires
                d == a as int / b as int,
                a >= 0,
                b > 0,
        ;
        assert(a == g * (q1 * d + q2)) by (nonlinear_arith)
            requires
                a as int == b * d + (a % b),
                b == g * q1,
                a % b == g * q2,
        ;
        assert(q1 * d + q2 >= 0) by (nonlinear_arith)
            requires
                q1 >= 0,
                d >= 0,
                q2 >= 0,
        ;
        assert(a == g * ((q1 * d + q2) as nat));
    }
}

/// The greatest common divisor of two magnitudes, not both zero, is positive.
pub proof fn lemma_gcd_nat_pos(a: nat, b: nat)
    requires
        a > 0 || b > 0,
    ensures
        gcd_nat(a, b) > 0,
    decreases b,
{
    if b > 0 {
        lemma_gcd_nat_pos(b, a % b);
    }
}

/// Greatest common divisor of two non-negative machine integers.
pub fn gcd(a: i64, b: i64) -> (r: i64)
    requires
        a >= 0,
        b >= 0,
    ensures
        r == gcd_nat(a as nat, b as nat),
    decreases b,
{
    if b == 0 {
        return a;
    }
    gcd(b, a % b)
}

/// Pads two-dimensional data with `padding` layers of `default` on every
/// side. Row `i` of the input reappears as row `padding + i`, shifted right
/// by `padding`.
pub fn pad<T: Clone + Copy>(contents: &Vec<&[T]>, padding: usize, default: T) -> (r: Vec<Vec<T>>)
    requires
        contents@.len() > 0,
        contents@.len() + 2 * padding <= usize::MAX,
        forall|i: int|
            0 <= i < contents@.len() ==> (#[trigger] contents@[i]@.len()) + 2 * padding
                <= usize::MAX,
    ensures
        r@.len() == contents@.len() + 2 * padding,
        forall|i: int|
            0 <= i < padding ==> #[trigger] r@[i]@ == Seq::new(
                (contents@[0]@.len() + 2 * padding) as nat,
                |k: int| default,
            ),
        forall|i: int|
            contents@.len() + padding <= i < r@.len() ==> #[trigger] r@[i]@ == Seq::new(
                (contents@[0]@.len() + 2 * padding) as nat,
                |k: int| default,
            ),
        forall|i: int|
            0 <= i < contents@.len() ==> #[trigger] r@[padding + i]@ == Seq::new(
                padding as nat,
                |k: int| default,
            ) + contents@[i]@ + Seq::new(padding as nat, |k: int| default),
    {
    let mut r: Vec<Vec<T>> = Vec::new();
    let blank_len = contents[0].len() + padding * 2;
    let mut i: usize = 0;
    while i < padding
        invariant
            i <= padding,
            r@.len() == i,
            blank_len == contents@[0]@.len() + 2 * padding,
            forall|j: int|
                0 <= j < i ==> #[trigger] r@[j]@ == Seq::new(blank_len as nat, |k: int| default),
        decreases padding - i,
    {
        r.push(filled(blank_len, default));
        i = i + 1;
    }
    let mut line: usize = 0;
    while line < contents.len()
        invariant
            line <= contents@.len(),
            r@.len() == padding + line,
            blank_len == contents@[0]@.len() + 2 * padding,
            forall|i2: int|
                0 <= i2 < contents@.len() ==> (#[trigger] contents@[i2]@.len()) + 2 * padding
                    <= usize::MAX,
            forall|j: int|
                0 <= j < padding ==> #[trigger] r@[j]@ == Seq::new(blank_len as nat, |k: int| default),
            forall|j: int|
                0 <= j < line ==> #[trigger] r@[padding + j]@ == Seq::new(
                    padding as nat,
                    |k: int| default,
                ) + contents@[j]@ + Seq::new(padding as nat, |k: int| default),
        decreases contents@.len() - line,
    {
        let mut row: Vec<T> = filled(padding, default);
        let src = contents[line];
        let mut k: usize = 0;
        while k < src.len()
            invariant
                k <= src@.len(),
                row@ == Seq::new(padding as nat, |t: int| default) + src@.subrange(0, k as int),
            decreases src@.len() - k,
        {
            row.push(src[k]);
            proof {
                assert(row@ =~= Seq::new(padding as nat, |t: int| default) + src@.subrange(
                    0,
                    k + 1,
                ));
            }
            k = k + 1;
        }
        let mut k2: usize = 0;
        while k2 < padding
            invariant
                k2 <= padding,
                row@ == Seq::new(padding as nat, |t: int| default) + src@ + Seq::new(
                    k2 as nat,
                    |t: int| default,
                ),
            decreases padding - k2,
        {
            row.push(default);
            proof {
                assert(row@ =~= Seq::new(padding as nat, |t: int| default) + src@ + Seq::new(
                    (k2 + 1) as nat,
                    |t: int| default,
                ));
            }
            k2 = k2 + 1;
        }
        proof {
            assert(src@.subrange(0, src@.len() as int) =~= src@);
        }
        r.push(row);
        line = line + 1;
    }
    let mut i3: usize = 0;
    while i3 < padding
        invariant
            i3 <= padding,
            r@.len() == padding + contents@.len() + i3,
            blank_len == contents@[0]@.len() + 2 * padding,
            forall|j: int|
                0 <= j < padding ==> #[trigger] r@[j]@ == Seq::new(blank_len as nat, |k: int| default),
            forall|j: int|
                0 <= j < contents@.len() ==> #[trigger] r@[padding + j]@ == Seq::new(
                    padding as nat,
                    |k: int| default,
                ) + contents@[j]@ + Seq::new(padding as nat, |k: int| default),
            forall|j: int|
                padding + contents@.len() <= j < r@.len() ==> #[trigger] r@[j]@ == Seq::new(
                    blank_len as nat,
                    |k: int| default,
                ),
        decreases padding - i3,
    {
        r.push(filled(blank_len, default));
        i3 = i3 + 1;
    }
    r
}

/// A vector of `len` copies of `default`.
fn filled<T: Copy>(len: usize, default: T) -> (r: Vec<T>)
    ensures
        r@ == Seq::new(len as nat, |k: int| default),
{
    let mut r: Vec<T> = Vec::new();
    let mut i: usize = 0;
    while i < len
        invariant
            i <= len,
            r@ == Seq::new(i as nat, |k: int| default),
        decreases len - i,
    {
        r.push(default);
        proof {
            assert(r@ =~= Seq::new((i + 1) as nat, |k: int| default));
        }
        i = i + 1;
    }
    r
}

/// The same padding as `pad`, for owned rows.
pub fn pad_vec<T: Clone + Copy>(contents: &Vec<Vec<T>>, padding: usize, default: T) -> (r: Vec<
    Vec<T>,
>)
    requires
        contents@.len() > 0,
        contents@.len() + 2 * padding <= usize::MAX,
        forall|i: int|
            0 <= i < contents@.len() ==> (#[trigger] contents@[i]@.len()) + 2 * padding
                <= usize::MAX,
    ensures
        r@.len() == contents@.len() + 2 * padding,
        forall|i: int|
            0 <= i < padding ==> #[trigger] r@[i]@ == Seq::new(
                (contents@[0]@.len() + 2 * padding) as nat,
                |k: int| default,
            ),
        forall|i: int|
            contents@.len() + padding <= i < r@.len() ==> #[trigger] r@[i]@ == Seq::new(
                (contents@[0]@.len() + 2 * padding) as nat,
                |k: int| default,
            ),
        forall|i: int|
            0 <= i < contents@.len() ==> #[trigger] r@[padding + i]@ == Seq::new(
                padding as nat,
                |k: int| default,
            ) + contents@[i]@ + Seq::new(padding as nat, |k: int| default),
{
    let mut slices: Vec<&[T]> = Vec::new();
    let mut i: usize = 0;
    while i < contents.len()
        invariant
            i <= contents@.len(),
            slices@.len() == i,
            forall|j: int| 0 <= j < i ==> #[trigger] slices@[j]@ == contents@[j]@,
        decreases contents@.len() - i,
    {
        slices.push(contents[i].as_slice());
        i = i + 1;
    }
    let r = pad(&slices, padding, default);
    proof {
        assert(slices@[0]@ == contents@[0]@);
    }
    r
}

/// Adds a signed offset to an index. The result must stay in range: a
/// negative result, or one beyond the machine's integers, is the caller's
/// error.
pub fn usize_plus_i(u: usize, i: i64) -> (r: usize)
    requires
        u <= i64::MAX,
        0 <= u + i,
        u + i <= i64::MAX,
        u + i <= usize::MAX,
    ensures
        r == u + i,
{
    let s: i64 = (u as i64) + i;
    s as usize
}

/// A one-character string holding the given byte, which must be ASCII.
/// Relies on `String::from_utf8`: a single byte under 128 decodes to the
/// character with the same code.
#[verifier::external_body]
pub fn u8_to_string(c: u8) -> (r: String)
    requires
        c < 128,
    ensures
        r@ =~= seq![c as char],
{
    String::from_utf8(vec![c]).unwrap()
}

/// Searches two-dimensional data row by row, left to right, for the first
/// entry the predicate accepts, handing back its `(x, y)` position.
pub fn position_2d<T, P: Fn(&T) -> bool>(v: &Vec<Vec<T>>, predicate: P) -> (r: Option<
    (usize, usize),
>)
    requires
        forall|t: &T| #[trigger] call_requires(predicate, (t,)),
    ensures
        match r {
            Some((x, y)) => {
                &&& 0 <= y < v@.len()
                &&& 0 <= x < v@[y as int]@.len()
                &&& call_ensures(predicate, (&v@[y as int]@[x as int],), true)
                &&& forall|y2: int, x2: int|
                    0 <= y2 < y && 0 <= x2 < v@[y2]@.len() ==> call_ensures(
                        predicate,
                        (&v@[y2]@[x2],),
                        false,
                    )
                &&& forall|x2: int|
                    0 <= x2 < x ==> call_ensures(predicate, (&v@[y as int]@[x2],), false)
            },
            None => forall|y2: int, x2: int|
                0 <= y2 < v@.len() && 0 <= x2 < v@[y2]@.len() ==> call_ensures(
                    predicate,
                    (&v@[y2]@[x2],),
                    false,
                ),
        },
{
    let mut y: usize = 0;
    while y < v.len()
        invariant
            y <= v@.len(),
            forall|t: &T| #[trigger] call_requires(predicate, (t,)),
            forall|y2: int, x2: int|
                0 <= y2 < y && 0 <= x2 < v@[y2]@.len() ==> call_ensures(
                    predicate,
                    (&v@[y2]@[x2],),
                    false,
                ),
        decreases v@.len() - y,
    {
        let row = &v[y];
        let mut x: usize = 0;
        while x < row.len()
            invariant
                x <= row@.len(),
                row == &v@[y as int],
                y < v@.len(),
                forall|t: &T| #[trigger] call_requires(predicate, (t,)),
                forall|y2: int, x2: int|
                    0 <= y2 < y && 0 <= x2 < v@[y2]@.len() ==> call_ensures(
                        predicate,
                        (&v@[y2]@[x2],),
                        false,
                    ),
                forall|x2: int|
                    0 <= x2 < x ==> call_ensures(predicate, (&v@[y as int]@[x2],), false),
            decreases row@.len() - x,
        {
            if predicate(&row[x]) {
                return Some((x, y));
            }
            x = x + 1;
        }
        y = y + 1;
    }
    None
}

/// How one increment step changes a selector: the lowest `false` with only
/// `true`s behind it becomes `true`, those behind it become `false`, and
/// everything in front is untouched.
pub open spec fn selector_step(prev: Seq<bool>, cur: Seq<bool>) -> bool {
    exists|k: int|
        {
            &&& 0 <= k < prev.len()
            &&& !prev[k]
            &&& (forall|t: int| k < t < prev.len() ==> prev[t])
            &&& cur == prev.update(k, true).map(
                |t: int, b: bool|
                    if t > k {
                        false
                    } else {
                        b
                    },
            )
        }
}

/// Increments a selector of booleans, read as a binary number with the last
/// entry lowest. Hands back `true`, changing nothing, when the selector is
/// already all `true`.
pub fn inc_selector(v: &mut Vec<bool>) -> (r: bool)
    ensures
        final(v)@.len() == old(v)@.len(),
        (forall|i: int| 0 <= i < old(v)@.len() ==> old(v)@[i]) ==> (r && final(v)@ == old(v)@),
        !(forall|i: int| 0 <= i < old(v)@.len() ==> old(v)@[i]) ==> (!r && selector_step(
            old(v)@,
            final(v)@,
        )),
{
    let mut all: bool = true;
    let mut i: usize = 0;
    while i < v.len()
        invariant
            i <= v@.len(),
            v@ == old(v)@,
            all == (forall|t: int| 0 <= t < i ==> old(v)@[t]),
        decreases v@.len() - i,
    {
        if !v[i] {
            all = false;
        }
        proof {
            if all {
                assert forall|t: int| 0 <= t < i + 1 implies old(v)@[t] by {}
            }
        }
        i = i + 1;
    }
    if all {
        return true;
    }
    let mut last: usize = v.len() - 1;
    loop
        invariant_except_break
            forall|t: int| 0 <= t <= last ==> #[trigger] v@[t] == old(v)@[t],
            forall|t: int| last < t < v@.len() ==> !v@[t],
            forall|t: int| last < t < v@.len() ==> old(v)@[t],
            exists|t: int| 0 <= t <= last && !old(v)@[t],
        invariant
            v@.len() == old(v)@.len(),
            0 <= last < v@.len(),
        ensures
            selector_step(old(v)@, v@),
            v@.len() == old(v)@.len(),
        decreases last,
    {
        let was = v[last];
        v[last] = !was;
        if !was {
            proof {
                let k = last as int;
                assert(v@ =~= old(v)@.update(k, true).map(
                    |t: int, b: bool|
                        if t > k {
                            false
                        } else {
                            b
                        },
                ));
            }
            break;
        }
        proof {
            if last == 0 {
                assert(false);
            }
        }
        last = last - 1;
    }
    false
}

/// The record of a short-circuiting fold: `accs` is the chain of
/// accumulators the closure went through over the first `k` entries, `flags`
/// the go-on answers, of which only the last may say stop.
pub open spec fn fold_trace<T, B, F: Fn(B, &T) -> (B, bool)>(
    f: F,
    v: Seq<T>,
    init: B,
    r: B,
    accs: Seq<B>,
    flags: Seq<bool>,
    k: int,
) -> bool {
    &&& 0 <= k <= v.len()
    &&& accs.len() == k + 1
    &&& flags.len() == k
    &&& accs[0] == init
    &&& r == accs[k]
    &&& (forall|t: int|
        0 <= t < k ==> call_ensures(f, (#[trigger] accs[t], &v[t]), (accs[t + 1], flags[t])))
    &&& (forall|t: int| 0 <= t < k - 1 ==> #[trigger] flags[t])
    &&& (k < v.len() ==> k > 0 && !flags[k - 1])
}

/// A short-circuiting left fold over a slice: the closure hands back the new
/// accumulator and whether to go on; the first `false` stops the scan. The
/// result is reachable from `init` by a chain of calls of the closure along
/// a prefix of the slice, every step but the last asking to go on.
pub fn fold_while<T, B, F: Fn(B, &T) -> (B, bool)>(v: &[T], init: B, f: F) -> (r: B)
    requires
        forall|b: B, t: &T| #[trigger] call_requires(f, (b, t)),
    ensures
        exists|accs: Seq<B>, flags: Seq<bool>, k: int|
            #[trigger] fold_trace(f, v@, init, r, accs, flags, k),
{
    let mut b = init;
    let mut i: usize = 0;
    let ghost mut accs: Seq<B> = seq![init];
    let ghost mut flags: Seq<bool> = Seq::empty();
    while i < v.len()
        invariant
            i <= v@.len(),
            forall|b2: B, t: &T| #[trigger] call_requires(f, (b2, t)),
            accs.len() == i + 1,
            flags.len() == i,
            accs[0] == init,
            b == accs[i as int],
            forall|t: int|
                0 <= t < i ==> call_ensures(f, (#[trigger] accs[t], &v@[t]), (accs[t + 1], flags[t])),
            forall|t: int| 0 <= t < i ==> #[trigger] flags[t],
        decreases v@.len() - i,
    {
        let (new_b, should_continue) = f(b, &v[i]);
        proof {
            accs = accs.push(new_b);
            flags = flags.push(should_continue);
        }
        b = new_b;
        if !should_continue {
            proof {
                assert(fold_trace(f, v@, init, b, accs, flags, i + 1));
            }
            return b;
        }
        i = i + 1;
    }
    proof {
        assert(fold_trace(f, v@, init, b, accs, flags, i as int));
    }
    b
}

} // verus!
