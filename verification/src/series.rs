//! The mathematical model of a reading series: sums, extrema, and windowed
//! aggregates, with the lemmas the store's proofs rest on.

use vstd::prelude::*;

use crate::reading::Reading;

verus! {

/// Sum of the stored values.
pub open spec fn sum_values(s: Seq<Reading>) -> int
    decreases s.len(),
{
    if s.len() == 0 {
        0
    } else {
        sum_values(s.drop_last()) + s.last().value
    }
}

/// Sum of the squares of the stored values.
pub open spec fn sum_squares(s: Seq<Reading>) -> int
    decreases s.len(),
{
    if s.len() == 0 {
        0
    } else {
        sum_squares(s.drop_last()) + s.last().value * s.last().value
    }
}

/// Smallest stored value; meaningful only on a non-empty series.
pub open spec fn min_value(s: Seq<Reading>) -> int
    decreases s.len(),
{
    if s.len() <= 1 {
        if s.len() == 1 {
            s[0].value as int
        } else {
            0
        }
    } else {
        let rest = min_value(s.drop_last());
        if s.last().value < rest {
            s.last().value as int
        } else {
            rest
        }
    }
}

/// Largest stored value; meaningful only on a non-empty series.
pub open spec fn max_value(s: Seq<Reading>) -> int
    decreases s.len(),
{
    if s.len() <= 1 {
        if s.len() == 1 {
            s[0].value as int
        } else {
            0
        }
    } else {
        let rest = max_value(s.drop_last());
        if s.last().value > rest {
            s.last().value as int
        } else {
            rest
        }
    }
}

/// Whether a reading falls in the closed time window `[lo, hi]`.
pub open spec fn in_window(r: Reading, lo: u64, hi: u64) -> bool {
    lo <= r.timestamp <= hi
}

/// Number of readings inside the window.
pub open spec fn win_count(s: Seq<Reading>, lo: u64, hi: u64) -> nat
    decreases s.len(),
{
    if s.len() == 0 {
        0
    } else {
        win_count(s.drop_last(), lo, hi) + if in_window(s.last(), lo, hi) {
            1nat
        } else {
            0nat
        }
    }
}

/// Smallest value inside the window; meaningful only when the window holds a
/// reading.
pub open spec fn win_min(s: Seq<Reading>, lo: u64, hi: u64) -> int
    decreases s.len(),
{
    if s.len() == 0 {
        0
    } else {
        let rest = win_min(s.drop_last(), lo, hi);
        if in_window(s.last(), lo, hi) {
            if win_count(s.drop_last(), lo, hi) == 0 || s.last().value < rest {
                s.last().value as int
            } else {
                rest
            }
        } else {
            rest
        }
    }
}

/// Largest value inside the window; meaningful only when the window holds a
/// reading.
pub open spec fn win_max(s: Seq<Reading>, lo: u64, hi: u64) -> int
    decreases s.len(),
{
    if s.len() == 0 {
        0
    } else {
        let rest = win_max(s.drop_last(), lo, hi);
        if in_window(s.last(), lo, hi) {
            if win_count(s.drop_last(), lo, hi) == 0 || s.last().value > rest {
                s.last().value as int
            } else {
                rest
            }
        } else {
            rest
        }
    }
}

/// The readings inside the closed time window `[lo, hi]`, in storage order.
pub open spec fn win_seq(s: Seq<Reading>, lo: u64, hi: u64) -> Seq<Reading>
    decreases s.len(),
{
    if s.len() == 0 {
        Seq::empty()
    } else {
        let rest = win_seq(s.drop_last(), lo, hi);
        if in_window(s.last(), lo, hi) {
            rest.push(s.last())
        } else {
            rest
        }
    }
}

/// A page of a sequence: `skip` leading elements dropped, then at most
/// `limit` taken, both clipped to what is there.
pub open spec fn paged(s: Seq<Reading>, skip: u64, limit: u64) -> Seq<Reading> {
    let sk = if skip < s.len() {
        skip as int
    } else {
        s.len() as int
    };
    let rem = s.skip(sk);
    let lim = if limit < rem.len() {
        limit as int
    } else {
        rem.len() as int
    };
    rem.take(lim)
}

/// The consumed magnitude over a window of cumulative meter totals: the span
/// between the largest and the smallest total observed there, zero when the
/// window is empty.
pub open spec fn consumed(s: Seq<Reading>, lo: u64, hi: u64) -> int {
    if win_count(s, lo, hi) == 0 {
        0
    } else {
        win_max(s, lo, hi) - win_min(s, lo, hi)
    }
}

/// Numerator of the population variance, scaled by the squared length:
/// `len * sum of squares - (sum)^2`, which is never negative.
pub open spec fn variance_num(s: Seq<Reading>) -> int {
    s.len() * sum_squares(s) - sum_values(s) * sum_values(s)
}

/// Population variance rounded down; meaningful only on a non-empty series.
pub open spec fn variance(s: Seq<Reading>) -> int
    recommends
        s.len() > 0,
{
    variance_num(s) / ((s.len() * s.len()) as int)
}

/// The day a reading falls on, counting days from the epoch.
pub open spec fn day_of(r: Reading) -> u64 {
    r.timestamp / 86400
}

/// Whether some reading of `s` falls on day `d`.
pub open spec fn has_day(s: Seq<Reading>, d: u64) -> bool {
    exists|i: int| 0 <= i < s.len() && day_of(#[trigger] s[i]) == d
}

/// Sum of the values recorded on day `d`.
pub open spec fn day_total(s: Seq<Reading>, d: u64) -> int
    decreases s.len(),
{
    if s.len() == 0 {
        0
    } else {
        day_total(s.drop_last(), d) + if day_of(s.last()) == d {
            s.last().value as int
        } else {
            0
        }
    }
}

/// A day's total lies between zero and the sum of all values.
pub proof fn lemma_day_total_le_sum(s: Seq<Reading>, d: u64)
    ensures
        0 <= day_total(s, d) <= sum_values(s),
    decreases s.len(),
{
    if s.len() > 0 {
        lemma_day_total_le_sum(s.drop_last(), d);
    }
}

/// A sum of unsigned values is never negative.
pub proof fn lemma_sum_nonneg(s: Seq<Reading>)
    ensures
        0 <= sum_values(s),
    decreases s.len(),
{
    if s.len() > 0 {
        lemma_sum_nonneg(s.drop_last());
    }
}

/// A series value-bounded by `maxv` has a sum between zero and length times
/// the bound.
pub proof fn lemma_sum_bounds(s: Seq<Reading>, maxv: u64)
    requires
        forall|i: int| 0 <= i < s.len() ==> (#[trigger] s[i]).value <= maxv,
    ensures
        0 <= sum_values(s) <= s.len() * maxv,
    decreases s.len(),
{
    if s.len() > 0 {
        lemma_sum_bounds(s.drop_last(), maxv);
        assert(s.len() * maxv == (s.len() - 1) * maxv + maxv) by (nonlinear_arith);
    }
}

/// A series value-bounded by `maxv` has a sum of squares between zero and
/// length times the squared bound.
pub proof fn lemma_sum_squares_bounds(s: Seq<Reading>, maxv: u64)
    requires
        forall|i: int| 0 <= i < s.len() ==> (#[trigger] s[i]).value <= maxv,
    ensures
        0 <= sum_squares(s) <= s.len() * (maxv * maxv),
    decreases s.len(),
{
    if s.len() > 0 {
        lemma_sum_squares_bounds(s.drop_last(), maxv);
        let v = s.last().value as int;
        assert(v * v <= maxv * maxv) by (nonlinear_arith)
            requires
                0 <= v <= maxv,
        ;
        assert(s.len() * (maxv * maxv) == (s.len() - 1) * (maxv * maxv) + maxv * maxv)
            by (nonlinear_arith);
    }
}

/// Splitting a sum at the front: the sum is the first value plus the sum of
/// the rest.
pub proof fn lemma_sum_drop_first(s: Seq<Reading>)
    requires
        s.len() > 0,
    ensures
        sum_values(s) == s[0].value + sum_values(s.drop_first()),
    decreases s.len(),
{
    if s.len() == 1 {
        assert(sum_values(s.drop_first()) == 0);
        assert(sum_values(s.drop_last()) == 0);
        assert(s.last() == s[0]);
        assert(sum_values(s) == sum_values(s.drop_last()) + s.last().value);
    } else {
        lemma_sum_drop_first(s.drop_last());
        assert(s.drop_last()[0] == s[0]);
        assert(s.drop_last().drop_first() =~= s.drop_first().drop_last());
        assert(s.drop_first().last() == s.last());
        assert(sum_values(s.drop_first()) == sum_values(s.drop_first().drop_last())
            + s.drop_first().last().value);
        assert(sum_values(s) == sum_values(s.drop_last()) + s.last().value);
        assert(sum_values(s) == s[0].value + sum_values(s.drop_first()));
    }
}

proof fn lemma_two_xy(x: int, y: int)
    ensures
        2 * x * y <= x * x + y * y,
{
    assert(2 * x * y <= x * x + y * y) by (nonlinear_arith);
}

/// For any `y`, twice the sum times `y` is at most the sum of squares plus
/// length times `y` squared: the per-element bound `2vy <= v^2 + y^2`, summed.
proof fn lemma_cross_bound(s: Seq<Reading>, y: int)
    ensures
        2 * sum_values(s) * y <= sum_squares(s) + s.len() * (y * y),
    decreases s.len(),
{
    if s.len() == 0 {
        assert(sum_values(s) == 0);
        assert(sum_squares(s) == 0);
        assert(2 * sum_values(s) * y <= sum_squares(s) + s.len() * (y * y)) by (nonlinear_arith)
            requires
                sum_values(s) == 0,
                sum_squares(s) == 0,
                s.len() == 0,
        ;
    } else {
        lemma_cross_bound(s.drop_last(), y);
        let v = s.last().value as int;
        let sp = sum_values(s.drop_last());
        let qp = sum_squares(s.drop_last());
        let n = s.len() as int;
        lemma_two_xy(v, y);
        assert(sum_values(s) == sp + v);
        assert(sum_squares(s) == qp + v * v);
        assert(2 * (sp + v) * y == 2 * sp * y + 2 * v * y) by (nonlinear_arith);
        assert((n - 1) * (y * y) + y * y == n * (y * y)) by (nonlinear_arith);
        assert(2 * sum_values(s) * y <= qp + (n - 1) * (y * y) + v * v + y * y);
        assert(qp + (n - 1) * (y * y) + v * v + y * y == sum_squares(s) + n * (y * y));
    }
}

/// The squared sum never exceeds the length times the sum of squares, so the
/// population-variance numerator is non-negative.
pub proof fn lemma_sq_sum_le(s: Seq<Reading>)
    ensures
        sum_values(s) * sum_values(s) <= s.len() * sum_squares(s),
    decreases s.len(),
{
    if s.len() == 0 {
    } else {
        let sp = sum_values(s.drop_last());
        let qp = sum_squares(s.drop_last());
        let v = s.last().value as int;
        let n = s.len() as int;
        lemma_sq_sum_le(s.drop_last());
        lemma_cross_bound(s.drop_last(), v);
        assert((sp + v) * (sp + v) == sp * sp + 2 * sp * v + v * v) by (nonlinear_arith);
        assert(2 * sp * v == 2 * sum_values(s.drop_last()) * v);
        assert(sp * sp + (qp + (n - 1) * (v * v)) + v * v <= (n - 1) * qp + qp + (n - 1) * (v * v)
            + v * v) by {
            assert(sp * sp <= (n - 1) * qp);
        }
        assert((n - 1) * qp + qp == n * qp) by (nonlinear_arith);
        assert((n - 1) * (v * v) + v * v == n * (v * v)) by (nonlinear_arith);
        assert(n * qp + n * (v * v) == n * (qp + v * v)) by (nonlinear_arith);
    }
}

} // verus!
