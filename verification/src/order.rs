use vstd::prelude::*;

use crate::frac::frac_is_zero;
use crate::matrix::{row_all_zero, row_leader_at, Rational};
use crate::rat::rat_model;

verus! {

/// The row comparator of the leader sort: scan the columns left to right; at
/// the first column where exactly one of the two rows is nonzero, the row
/// with the nonzero entry sorts earlier. Rows with no such column compare
/// equal, so this is the non-strict half of a weak ordering.
pub open spec fn row_le(a: Seq<Rational>, b: Seq<Rational>) -> bool
    decreases a.len(),
{
    if a.len() == 0 || b.len() == 0 {
        true
    } else if !frac_is_zero(rat_model(a[0])) && frac_is_zero(rat_model(b[0])) {
        true
    } else if frac_is_zero(rat_model(a[0])) && !frac_is_zero(rat_model(b[0])) {
        false
    } else {
        row_le(a.drop_first(), b.drop_first())
    }
}

/// Row `a` sorts no later than row `b` by leader column: a zero row never
/// precedes a nonzero one, and leader columns do not decrease.
pub open spec fn lead_le(a: Seq<Rational>, b: Seq<Rational>) -> bool {
    &&& !row_all_zero(b) ==> !row_all_zero(a)
    &&& forall|ca: int, cb: int|
        row_leader_at(a, ca) && row_leader_at(b, cb) ==> ca <= cb
}

/// Row `a` sorts strictly before row `b` by leader column whenever `b` is
/// nonzero; the strict ordering of echelon form.
pub open spec fn lead_lt(a: Seq<Rational>, b: Seq<Rational>) -> bool {
    &&& !row_all_zero(b) ==> !row_all_zero(a)
    &&& forall|ca: int, cb: int|
        row_leader_at(a, ca) && row_leader_at(b, cb) ==> ca < cb
}

/// The comparator is total: of any two equal-length rows, one sorts no later
/// than the other.
pub proof fn lemma_row_le_total(a: Seq<Rational>, b: Seq<Rational>)
    requires
        a.len() == b.len(),
    ensures
        row_le(a, b) || row_le(b, a),
    decreases a.len(),
{
    if a.len() > 0 {
        lemma_row_le_total(a.drop_first(), b.drop_first());
    }
}

/// Dropping a leading zero shifts the leader column down by one.
proof fn lemma_leader_shift(s: Seq<Rational>)
    requires
        s.len() > 0,
        frac_is_zero(rat_model(s[0])),
    ensures
        forall|c: int| row_leader_at(s, c) <==> (c >= 1 && row_leader_at(s.drop_first(), c - 1)),
        row_all_zero(s) <==> row_all_zero(s.drop_first()),
{
    let t = s.drop_first();
    assert forall|c: int| row_leader_at(s, c) implies (c >= 1 && row_leader_at(t, c - 1)) by {
        assert(t[c - 1] == s[c]);
        assert(forall|j: int| 0 <= j < c - 1 ==> #[trigger] t[j] == s[j + 1]);
    }
    assert forall|c: int| c >= 1 && row_leader_at(t, c - 1) implies row_leader_at(s, c) by {
        assert(s[c] == t[c - 1]);
        assert(forall|j: int| 1 <= j < c ==> #[trigger] s[j] == t[j - 1]);
    }
    if row_all_zero(s) {
        assert forall|j: int| 0 <= j < t.len() implies frac_is_zero(rat_model(#[trigger] t[j])) by {
            assert(t[j] == s[j + 1]);
        }
    }
    if row_all_zero(t) {
        assert forall|j: int| 0 <= j < s.len() implies frac_is_zero(rat_model(#[trigger] s[j])) by {
            if j >= 1 {
                assert(s[j] == t[j - 1]);
            }
        }
    }
}

/// A row whose first entry is nonzero has its leader there and nowhere else.
proof fn lemma_leader_head(s: Seq<Rational>)
    requires
        s.len() > 0,
        !frac_is_zero(rat_model(s[0])),
    ensures
        row_leader_at(s, 0),
        forall|c: int| row_leader_at(s, c) ==> c == 0,
        !row_all_zero(s),
{
    assert forall|c: int| row_leader_at(s, c) implies c == 0 by {
        if c > 0 {
            assert(frac_is_zero(rat_model(s[0])));
        }
    }
}

/// A row that is not all zero has a leader column.
pub proof fn lemma_has_leader(s: Seq<Rational>)
    requires
        !row_all_zero(s),
    ensures
        exists|c: int| row_leader_at(s, c),
    decreases s.len(),
{
    if s.len() > 0 {
        if !frac_is_zero(rat_model(s[0])) {
            assert(row_leader_at(s, 0));
        } else {
            lemma_leader_shift(s);
            lemma_has_leader(s.drop_first());
            let c = choose|c: int| row_leader_at(s.drop_first(), c);
            assert(row_leader_at(s, c + 1));
        }
    }
}

/// The comparator respects the leader ordering.
pub proof fn lemma_row_le_lead_le(a: Seq<Rational>, b: Seq<Rational>)
    requires
        a.len() == b.len(),
        row_le(a, b),
    ensures
        lead_le(a, b),
    decreases a.len(),
{
    if a.len() == 0 {
    } else {
        let a0z = frac_is_zero(rat_model(a[0]));
        let b0z = frac_is_zero(rat_model(b[0]));
        if !a0z && b0z {
            lemma_leader_head(a);
            assert forall|ca: int, cb: int|
                row_leader_at(a, ca) && row_leader_at(b, cb) implies ca <= cb by {
                assert(ca == 0);
            }
        } else if a0z && !b0z {
            assert(false);
        } else if !a0z && !b0z {
            lemma_leader_head(a);
            lemma_leader_head(b);
            assert forall|ca: int, cb: int|
                row_leader_at(a, ca) && row_leader_at(b, cb) implies ca <= cb by {
                assert(ca == 0);
            }
        } else {
            lemma_row_le_lead_le(a.drop_first(), b.drop_first());
            lemma_leader_shift(a);
            lemma_leader_shift(b);
            assert forall|ca: int, cb: int|
                row_leader_at(a, ca) && row_leader_at(b, cb) implies ca <= cb by {
                assert(row_leader_at(a.drop_first(), ca - 1));
                assert(row_leader_at(b.drop_first(), cb - 1));
            }
            if !row_all_zero(b) {
                assert(!row_all_zero(b.drop_first()));
            }
        }
    }
}

/// Strict leader ordering implies the comparator: the sort of a matrix in
/// echelon form finds every adjacent pair already in order.
pub proof fn lemma_lead_lt_row_le(a: Seq<Rational>, b: Seq<Rational>)
    requires
        a.len() == b.len(),
        lead_lt(a, b),
    ensures
        row_le(a, b),
    decreases a.len(),
{
    if a.len() == 0 {
    } else {
        let a0z = frac_is_zero(rat_model(a[0]));
        let b0z = frac_is_zero(rat_model(b[0]));
        if !a0z && b0z {
        } else if !a0z && !b0z {
            lemma_leader_head(a);
            lemma_leader_head(b);
            assert(false);
        } else if a0z && !b0z {
            lemma_leader_head(b);
            assert(!row_all_zero(b));
            lemma_has_leader(a);
            let ca = choose|c: int| row_leader_at(a, c);
            assert(ca >= 1) by {
                if ca == 0 {
                    assert(!frac_is_zero(rat_model(a[0])));
                }
            }
            assert(false);
        } else {
            lemma_leader_shift(a);
            lemma_leader_shift(b);
            assert forall|ca: int, cb: int|
                row_leader_at(a.drop_first(), ca) && row_leader_at(b.drop_first(), cb)
                    implies ca < cb by {
                assert(row_leader_at(a, ca + 1));
                assert(row_leader_at(b, cb + 1));
            }
            assert(lead_lt(a.drop_first(), b.drop_first()));
            lemma_lead_lt_row_le(a.drop_first(), b.drop_first());
        }
    }
}

/// The leader ordering is transitive.
pub proof fn lemma_lead_le_trans(a: Seq<Rational>, b: Seq<Rational>, c: Seq<Rational>)
    requires
        lead_le(a, b),
        lead_le(b, c),
    ensures
        lead_le(a, c),
{
    assert forall|ca: int, cc: int|
        row_leader_at(a, ca) && row_leader_at(c, cc) implies ca <= cc by {
        assert(!row_all_zero(c));
        assert(!row_all_zero(b));
        lemma_has_leader(b);
        let cb = choose|x: int| row_leader_at(b, x);
        assert(ca <= cb);
        assert(cb <= cc);
    }
}

} // verus!
