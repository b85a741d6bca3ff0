use vstd::arithmetic::div_mod::{lemma_fundamental_div_mod, lemma_mod_bound};
use vstd::arithmetic::mul::{lemma_mul_inequality, lemma_mul_nonnegative};
use vstd::prelude::*;

use crate::continuous_average::{spec_add, spec_average, spec_remove, total_of, valid_model};
use crate::decimal::lemma_weighted_share_le;
use crate::error::CwaError;

verus! {

/// Every weight of `ops` fits a `u64` and every value fits the decimal
/// range.
pub open spec fn ops_valid(ops: Seq<(int, int)>) -> bool {
    forall|i: int|
        0 <= i < ops.len() ==> 0 <= (#[trigger] ops[i]).0 <= u64::MAX && 0 <= ops[i].1 <= u128::MAX
}

/// The sum of the weights of `ops`.
pub open spec fn sum_weights(ops: Seq<(int, int)>) -> int
    decreases ops.len(),
{
    if ops.len() == 0 {
        0
    } else {
        sum_weights(ops.drop_last()) + ops.last().0
    }
}

/// The sum of the values of `ops`, each weighted by its weight.
pub open spec fn sum_weighted_values(ops: Seq<(int, int)>) -> int
    decreases ops.len(),
{
    if ops.len() == 0 {
        0
    } else {
        sum_weighted_values(ops.drop_last()) + ops.last().0 * ops.last().1
    }
}

/// Runs the adds of `ops` in order on an initial cell model, stopping at the
/// first error.
pub open spec fn run_adds(m: Option<(int, int)>, ops: Seq<(int, int)>) -> Result<
    Option<(int, int)>,
    CwaError,
>
    decreases ops.len(),
{
    if ops.len() == 0 {
        Ok(m)
    } else {
        match run_adds(m, ops.drop_last()) {
            Ok(m1) => spec_add(m1, ops.last().0, ops.last().1),
            Err(e) => Err(e),
        }
    }
}

/// Removes the pairs of `ops` in reverse order of their position, stopping
/// at the first error.
pub open spec fn run_removes_rev(m: Option<(int, int)>, ops: Seq<(int, int)>) -> Result<
    Option<(int, int)>,
    CwaError,
>
    decreases ops.len(),
{
    if ops.len() == 0 {
        Ok(m)
    } else {
        match spec_remove(m, ops.last().0, ops.last().1) {
            Ok(m1) => run_removes_rev(m1, ops.drop_last()),
            Err(e) => Err(e),
        }
    }
}

/// Cold start identity: the first add with positive weight into an absent
/// cell records exactly its weight and value, and the average then reads
/// back that value exactly.
pub proof fn lemma_cold_start_identity(w: int, v: int)
    requires
        1 <= w <= u64::MAX,
        0 <= v <= u128::MAX,
    ensures
        spec_add(None, w, v) == Ok::<Option<(int, int)>, CwaError>(Some((w, v))),
        spec_average(Some((w, v))) == v,
{
}

/// Zero-weight no-op: adding with weight zero succeeds and leaves any cell
/// exactly as it was.
pub proof fn lemma_zero_weight_noop(m: Option<(int, int)>, v: int)
    ensures
        spec_add(m, 0, v) == Ok::<Option<(int, int)>, CwaError>(m),
{
}

/// One successful add keeps the model well formed, adds exactly its weight
/// to the recorded total, and moves the average no further than the added
/// value: the new average lies between the old average and the value.
pub proof fn lemma_add_step(m: Option<(int, int)>, w: int, v: int)
    requires
        valid_model(m),
        0 <= w <= u64::MAX,
        0 <= v <= u128::MAX,
        spec_add(m, w, v) is Ok,
    ensures
        valid_model(spec_add(m, w, v).unwrap()),
        total_of(spec_add(m, w, v).unwrap()) == total_of(m) + w,
        w == 0 ==> spec_add(m, w, v).unwrap() == m,
        m is None && w > 0 ==> spec_add(m, w, v).unwrap() == Some((w, v)),
        m matches Some((t, a)) ==> w > 0 ==> {
            let a1 = spec_average(spec_add(m, w, v).unwrap());
            (v > a ==> a <= a1 <= v) && (v <= a ==> v <= a1 <= a)
        },
{
    if w > 0 {
        match m {
            None => {},
            Some((t, a)) => {
                let t1 = t + w;
                if v > a {
                    lemma_weighted_share_le(w, t1, v - a);
                } else {
                    lemma_weighted_share_le(w, t1, a - v);
                }
            },
        }
    }
}

/// One successful remove keeps the model well formed and subtracts exactly
/// its weight from the recorded total.
pub proof fn lemma_remove_step(m: Option<(int, int)>, w: int, v: int)
    requires
        valid_model(m),
        0 <= w,
        0 <= v,
        spec_remove(m, w, v) is Ok,
    ensures
        valid_model(spec_remove(m, w, v).unwrap()),
        total_of(spec_remove(m, w, v).unwrap()) == total_of(m) - w,
{
    match m {
        None => {},
        Some((t, a)) => {
            if w != t {
                let q = w * v / t;
                let scaled = t * (a - q);
                assert(0 <= q) by {
                    lemma_weighted_share_le(w, t, v);
                }
                assert(0 <= t * (a - q)) by (nonlinear_arith)
                    requires
                        0 < t,
                        q <= a,
                ;
                vstd::arithmetic::div_mod::lemma_div_pos_is_pos(scaled, t - w);
                vstd::arithmetic::div_mod::lemma_div_nonincreasing(scaled, t - w);
            }
        },
    }
}

/// Accounting for a run of adds: when every step succeeds the final model
/// is well formed and its total is the initial total plus the sum of the
/// weights.
pub proof fn lemma_run_adds_accounting(m: Option<(int, int)>, ops: Seq<(int, int)>)
    requires
        valid_model(m),
        ops_valid(ops),
        run_adds(m, ops) is Ok,
    ensures
        valid_model(run_adds(m, ops).unwrap()),
        total_of(run_adds(m, ops).unwrap()) == total_of(m) + sum_weights(ops),
    decreases ops.len(),
{
    if ops.len() > 0 {
        let prefix = ops.drop_last();
        assert(ops_valid(prefix)) by {
            assert(forall|i: int| 0 <= i < prefix.len() ==> prefix[i] == ops[i]);
        }
        lemma_run_adds_accounting(m, prefix);
        lemma_add_step(run_adds(m, prefix).unwrap(), ops.last().0, ops.last().1);
    }
}

/// Accounting for a reversed run of removes: when every step succeeds the
/// final model is well formed and its total is the initial total minus the
/// sum of the weights.
pub proof fn lemma_run_removes_accounting(m: Option<(int, int)>, ops: Seq<(int, int)>)
    requires
        valid_model(m),
        ops_valid(ops),
        run_removes_rev(m, ops) is Ok,
    ensures
        valid_model(run_removes_rev(m, ops).unwrap()),
        total_of(run_removes_rev(m, ops).unwrap()) == total_of(m) - sum_weights(ops),
    decreases ops.len(),
{
    if ops.len() > 0 {
        let prefix = ops.drop_last();
        assert(ops_valid(prefix)) by {
            assert(forall|i: int| 0 <= i < prefix.len() ==> prefix[i] == ops[i]);
        }
        lemma_remove_step(m, ops.last().0, ops.last().1);
        lemma_run_removes_accounting(
            spec_remove(m, ops.last().0, ops.last().1).unwrap(),
            prefix,
        );
    }
}

/// Round trip: a finite sequence of adds into an absent cell, followed by
/// removing each added pair in reverse order, ends with the cell absent
/// whenever every step succeeds.
pub proof fn lemma_round_trip(ops: Seq<(int, int)>)
    requires
        ops_valid(ops),
        run_adds(None, ops) is Ok,
        run_removes_rev(run_adds(None, ops).unwrap(), ops) is Ok,
    ensures
        run_removes_rev(run_adds(None, ops).unwrap(), ops).unwrap() is None,
{
    lemma_run_adds_accounting(None, ops);
    lemma_run_removes_accounting(run_adds(None, ops).unwrap(), ops);
}

/// The sum of the weights of a valid sequence is non-negative.
pub proof fn lemma_sum_weights_nonneg(ops: Seq<(int, int)>)
    requires
        ops_valid(ops),
    ensures
        sum_weights(ops) >= 0,
    decreases ops.len(),
{
    if ops.len() > 0 {
        let prefix = ops.drop_last();
        assert(ops_valid(prefix)) by {
            assert(forall|i: int| 0 <= i < prefix.len() ==> prefix[i] == ops[i]);
        }
        lemma_sum_weights_nonneg(prefix);
    }
}

/// Monotone total: a successful add with positive weight strictly raises
/// the recorded total, and any later successful adds keep it strictly above
/// what it was before.
pub proof fn lemma_monotone_total(
    m: Option<(int, int)>,
    w: int,
    v: int,
    later: Seq<(int, int)>,
)
    requires
        valid_model(m),
        1 <= w <= u64::MAX,
        0 <= v <= u128::MAX,
        spec_add(m, w, v) is Ok,
        ops_valid(later),
        run_adds(spec_add(m, w, v).unwrap(), later) is Ok,
    ensures
        total_of(spec_add(m, w, v).unwrap()) == total_of(m) + w > total_of(m),
        total_of(run_adds(spec_add(m, w, v).unwrap(), later).unwrap()) > total_of(m),
{
    lemma_add_step(m, w, v);
    lemma_run_adds_accounting(spec_add(m, w, v).unwrap(), later);
    lemma_sum_weights_nonneg(later);
}

/// Bound preservation: after any successful run of adds into an absent cell
/// that leaves the cell present, the average lies within every pair of
/// bounds that encloses all values added with positive weight; in
/// particular it lies between the least and the greatest live value.
pub proof fn lemma_average_bounds(ops: Seq<(int, int)>, lo: int, hi: int)
    requires
        ops_valid(ops),
        run_adds(None, ops) is Ok,
        run_adds(None, ops).unwrap() is Some,
        0 <= lo,
        hi <= u128::MAX,
        forall|i: int| 0 <= i < ops.len() && (#[trigger] ops[i]).0 > 0 ==> lo <= ops[i].1 <= hi,
    ensures
        lo <= spec_average(run_adds(None, ops).unwrap()) <= hi,
    decreases ops.len(),
{
    let prefix = ops.drop_last();
    let w = ops.last().0;
    let v = ops.last().1;
    assert(ops.len() > 0);
    assert(ops_valid(prefix)) by {
        assert(forall|i: int| 0 <= i < prefix.len() ==> prefix[i] == ops[i]);
    }
    lemma_run_adds_accounting(None, prefix);
    let before = run_adds(None, prefix).unwrap();
    lemma_add_step(before, w, v);
    match before {
        None => {},
        Some((t, a)) => {
            lemma_average_bounds(prefix, lo, hi);
        },
    }
}

/// One warm add in scaled form: the new average times the new total equals
/// the old average times the old total plus the new contribution, up to one
/// truncation remainder smaller than the new total.
proof fn lemma_add_step_scaled(t: int, a: int, w: int, v: int)
    requires
        1 <= t,
        1 <= w,
        0 <= a,
        0 <= v,
    ensures
        v > a ==> t * a + w * v - (t + w) < (t + w) * (a + w * (v - a) / (t + w)) <= t * a + w * v,
        v <= a ==> t * a + w * v <= (t + w) * (a - w * (a - v) / (t + w)) < t * a + w * v + (t + w),
{
    let t1 = t + w;
    if v > a {
        let d = w * (v - a);
        let q = d / t1;
        let r = d % t1;
        lemma_fundamental_div_mod(d, t1);
        lemma_mod_bound(d, t1);
        assert(t1 * (a + q) == t * a + w * v - r) by (nonlinear_arith)
            requires
                t1 == t + w,
                d == w * (v - a),
                d == t1 * q + r,
        ;
    } else {
        let d = w * (a - v);
        let q = d / t1;
        let r = d % t1;
        lemma_fundamental_div_mod(d, t1);
        lemma_mod_bound(d, t1);
        assert(t1 * (a - q) == t * a + w * v + r) by (nonlinear_arith)
            requires
                t1 == t + w,
                d == w * (a - v),
                d == t1 * q + r,
        ;
    }
}

/// Order independence of the final average, up to rounding: a successful
/// run of adds into an absent cell records exactly the sum of the weights
/// as its total, and an average that, scaled by that total, differs from
/// the exact weighted sum of the contributions by at most the number of
/// contributions times the total — one truncation of at most `10^-18` per
/// step. Both reference quantities depend only on the multiset of the
/// contributions, not on their order.
pub proof fn lemma_order_independence(ops: Seq<(int, int)>)
    requires
        ops_valid(ops),
        run_adds(None, ops) is Ok,
    ensures
        match run_adds(None, ops).unwrap() {
            None => sum_weights(ops) == 0 && sum_weighted_values(ops) == 0,
            Some((t, a)) => t == sum_weights(ops) && -(ops.len() * t) <= t * a
                - sum_weighted_values(ops) <= ops.len() * t,
        },
    decreases ops.len(),
{
    if ops.len() > 0 {
        let prefix = ops.drop_last();
        let w = ops.last().0;
        let v = ops.last().1;
        let n = ops.len() as int;
        assert(ops_valid(prefix)) by {
            assert(forall|i: int| 0 <= i < prefix.len() ==> prefix[i] == ops[i]);
        }
        lemma_order_independence(prefix);
        lemma_run_adds_accounting(None, prefix);
        match run_adds(None, prefix).unwrap() {
            None => {
                if w > 0 {
                    lemma_mul_nonnegative(n, w);
                }
            },
            Some((t0, a0)) => {
                let s0 = sum_weighted_values(prefix);
                if w == 0 {
                    lemma_mul_inequality(n - 1, n, t0);
                } else {
                    let t1 = t0 + w;
                    let a1 = spec_average(run_adds(None, ops).unwrap());
                    lemma_add_step_scaled(t0, a0, w, v);
                    assert(-(n * t1) <= t1 * a1 - (s0 + w * v) <= n * t1) by (nonlinear_arith)
                        requires
                            1 <= t0,
                            1 <= w,
                            1 <= n,
                            t1 == t0 + w,
                            t0 * a0 + w * v - t1 < t1 * a1 <= t0 * a0 + w * v || t0 * a0 + w * v
                                <= t1 * a1 < t0 * a0 + w * v + t1,
                            -((n - 1) * t0) <= t0 * a0 - s0 <= (n - 1) * t0,
                    ;
                }
            },
        }
    }
}

/// Removing one pair removes exactly its contribution from both reference
/// sums.
proof fn lemma_sums_remove(ops: Seq<(int, int)>, j: int)
    requires
        0 <= j < ops.len(),
    ensures
        sum_weights(ops.remove(j)) == sum_weights(ops) - ops[j].0,
        sum_weighted_values(ops.remove(j)) == sum_weighted_values(ops) - ops[j].0 * ops[j].1,
    decreases ops.len(),
{
    if j == ops.len() - 1 {
        assert(ops.remove(j) =~= ops.drop_last());
    } else {
        assert(ops.remove(j).drop_last() =~= ops.drop_last().remove(j));
        assert(ops.remove(j).last() == ops.last());
        lemma_sums_remove(ops.drop_last(), j);
    }
}

/// The reference sums are permutation invariant: two sequences made of the
/// same multiset of contributions have the same weight sum and the same
/// weighted value sum.
pub proof fn lemma_sums_permutation_invariant(ops1: Seq<(int, int)>, ops2: Seq<(int, int)>)
    requires
        ops1.to_multiset() == ops2.to_multiset(),
    ensures
        sum_weights(ops1) == sum_weights(ops2),
        sum_weighted_values(ops1) == sum_weighted_values(ops2),
    decreases ops1.len(),
{
    broadcast use vstd::seq_lib::group_to_multiset_ensures;

    assert(ops1.len() == ops1.to_multiset().len());
    assert(ops2.len() == ops2.to_multiset().len());
    if ops1.len() == 0 {
        assert(ops2.len() == 0);
    } else {
        let x = ops1.last();
        assert(ops1[ops1.len() - 1] == x);
        assert(ops1.contains(x));
        assert(ops1.to_multiset().count(x) > 0);
        assert(ops2.to_multiset().count(x) > 0);
        assert(ops2.contains(x));
        let j = choose|j: int| 0 <= j < ops2.len() && ops2[j] == x;
        assert(ops1.remove(ops1.len() - 1) =~= ops1.drop_last());
        assert(ops1.drop_last().to_multiset() =~= ops2.remove(j).to_multiset());
        lemma_sums_permutation_invariant(ops1.drop_last(), ops2.remove(j));
        lemma_sums_remove(ops2, j);
    }
}

/// Any two successful orders of the same adds into an absent cell agree:
/// both leave the cell in the same presence state, with the same total, and
/// with averages at most `2 * len` atomic units of `10^-18` apart.
pub proof fn lemma_permuted_runs_agree(ops1: Seq<(int, int)>, ops2: Seq<(int, int)>)
    requires
        ops_valid(ops1),
        ops_valid(ops2),
        ops1.to_multiset() == ops2.to_multiset(),
        run_adds(None, ops1) is Ok,
        run_adds(None, ops2) is Ok,
    ensures
        total_of(run_adds(None, ops1).unwrap()) == total_of(run_adds(None, ops2).unwrap()),
        run_adds(None, ops1).unwrap() is Some <==> run_adds(None, ops2).unwrap() is Some,
        match (run_adds(None, ops1).unwrap(), run_adds(None, ops2).unwrap()) {
            (Some((ta, a1)), Some((tb, a2))) => -(2 * ops1.len()) <= a1 - a2 <= 2 * ops1.len(),
            _ => true,
        },
{
    broadcast use vstd::seq_lib::group_to_multiset_ensures;

    lemma_order_independence(ops1);
    lemma_order_independence(ops2);
    lemma_run_adds_accounting(None, ops1);
    lemma_run_adds_accounting(None, ops2);
    lemma_sums_permutation_invariant(ops1, ops2);
    assert(ops1.len() == ops1.to_multiset().len());
    assert(ops2.len() == ops2.to_multiset().len());
    assert(ops1.len() == ops2.len());
    match (run_adds(None, ops1).unwrap(), run_adds(None, ops2).unwrap()) {
        (Some((ta, a1)), (Some((tb, a2)))) => {
            let t = ta;
            let n = ops1.len() as int;
            let s = sum_weighted_values(ops1);
            assert(-(2 * n) <= a1 - a2 <= 2 * n) by (nonlinear_arith)
                requires
                    1 <= t,
                    0 <= n,
                    -(n * t) <= t * a1 - s <= n * t,
                    -(n * t) <= t * a2 - s <= n * t,
            ;
        },
        _ => {},
    }
}

} // verus!
