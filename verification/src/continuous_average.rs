use vstd::arithmetic::div_mod::lemma_div_nonincreasing;
use vstd::prelude::*;

use crate::cell::{ScalarCell, State};
use crate::decimal::{
    lemma_div_integer_embedding, lemma_mul_integer_embedding, lemma_weighted_share_le, Decimal,
};
use crate::error::CwaError;

verus! {

/// A cell model is well formed when a present record has a positive total
/// that fits a weight, and an average whose atomics fit the decimal range.
pub open spec fn valid_model(m: Option<(int, int)>) -> bool {
    match m {
        None => true,
        Some((t, a)) => 1 <= t <= u64::MAX && 0 <= a <= u128::MAX,
    }
}

/// The recorded total weight; absence counts as zero.
pub open spec fn total_of(m: Option<(int, int)>) -> int {
    match m {
        None => 0,
        Some((t, a)) => t,
    }
}

/// What an average read returns: the recorded average, or zero on absence.
pub open spec fn spec_average(m: Option<(int, int)>) -> int {
    match m {
        None => 0,
        Some((t, a)) => a,
    }
}

/// One add step on the cell model. A zero weight changes nothing; the first
/// contribution is recorded verbatim; otherwise the average moves toward the
/// new value by the online update
/// `average + weight * (value - average) / (total + weight)`, case-split on
/// the sign of the difference and truncated toward zero at `10^-18`. Every
/// checked step that leaves the representable range yields an error.
pub open spec fn spec_add(m: Option<(int, int)>, w: int, v: int) -> Result<
    Option<(int, int)>,
    CwaError,
> {
    if w == 0 {
        Ok(m)
    } else {
        match m {
            None => Ok(Some((w, v))),
            Some((t, a)) => {
                let t1 = t + w;
                if t1 > u64::MAX {
                    Err(CwaError::ArithmeticOverflow)
                } else if v > a {
                    if w * (v - a) > u128::MAX {
                        Err(CwaError::ArithmeticOverflow)
                    } else {
                        Ok(Some((t1, a + w * (v - a) / t1)))
                    }
                } else {
                    if w * (a - v) > u128::MAX {
                        Err(CwaError::ArithmeticOverflow)
                    } else {
                        Ok(Some((t1, a - w * (a - v) / t1)))
                    }
                }
            },
        }
    }
}

/// One remove step on the cell model. Removal from absence is refused; the
/// last contribution clears the cell; otherwise the average is rebuilt as
/// `total * (average - weight * value / total) / (total - weight)`, the
/// removal inverse of the add update, with the inner quotient first and
/// every division truncated toward zero. A weight above the total, an inner
/// quotient above the average (rounding drift), and any intermediate value
/// out of range are errors.
pub open spec fn spec_remove(m: Option<(int, int)>, w: int, v: int) -> Result<
    Option<(int, int)>,
    CwaError,
> {
    match m {
        None => Err(CwaError::UnderflowOnEmpty),
        Some((t, a)) => {
            if w == t {
                Ok(None)
            } else if w > t {
                Err(CwaError::ArithmeticOverflow)
            } else if w * v > u128::MAX {
                Err(CwaError::ArithmeticOverflow)
            } else if w * v / t > a {
                Err(CwaError::ArithmeticOverflow)
            } else if t * (a - w * v / t) > u128::MAX {
                Err(CwaError::ArithmeticOverflow)
            } else {
                Ok(Some((t - w, t * (a - w * v / t) / (t - w))))
            }
        },
    }
}

/// The continuous weighted average: a handle over one scalar cell,
/// identified by a stable key under which an enclosing host may persist the
/// cell. Each operation computes first and writes at most once, so an
/// operation that fails leaves the cell exactly as it was.
pub struct ContinuousWeightedAverage<'a> {
    key: &'a str,
}

impl<'a> ContinuousWeightedAverage<'a> {
    /// The key this handle was created with.
    pub closed spec fn spec_key(&self) -> Seq<char> {
        self.key@
    }

    /// A handle over the cell stored under `key`.
    pub fn new(key: &'a str) -> (cwa: ContinuousWeightedAverage<'a>)
        ensures
            cwa.spec_key() == key@,
    {
        ContinuousWeightedAverage { key }
    }

    /// The stable key identifying the cell.
    pub fn key(&self) -> (k: &'a str)
        ensures
            k@ == self.spec_key(),
    {
        self.key
    }

    /// Records the contribution of `value` with weight `weight`, updating
    /// the stored average online exactly as `spec_add` describes. On an
    /// error the cell is untouched.
    pub fn add(&self, cell: &mut ScalarCell, weight: u64, value: Decimal) -> (r: Result<
        (),
        CwaError,
    >)
        ensures
            match r {
                Ok(_) => spec_add(old(cell)@, weight as int, value@) == Ok::<
                    Option<(int, int)>,
                    CwaError,
                >(final(cell)@),
                Err(e) => spec_add(old(cell)@, weight as int, value@) == Err::<
                    Option<(int, int)>,
                    CwaError,
                >(e) && final(cell)@ == old(cell)@,
            },
    {
        if weight == 0 {
            return Ok(());
        }
        let st = match cell.load() {
            Some(st) => st,
            None => {
                cell.store(State { total: weight, average: value });
                return Ok(());
            },
        };
        if weight > u64::MAX - st.total {
            return Err(CwaError::ArithmeticOverflow);
        }
        let total1 = st.total + weight;
        let dw = Decimal::from_integer(weight);
        let dt1 = Decimal::from_integer(total1);
        if value.gt(&st.average) {
            let delta = value.checked_sub(st.average).unwrap();
            proof {
                lemma_mul_integer_embedding(weight as int, delta@);
            }
            let scaled = match dw.checked_mul(delta) {
                Some(p) => p,
                None => {
                    return Err(CwaError::ArithmeticOverflow);
                },
            };
            proof {
                lemma_div_integer_embedding(scaled@, total1 as int);
                lemma_div_nonincreasing(scaled@, total1 as int);
            }
            let diff = scaled.checked_div(dt1).unwrap();
            proof {
                lemma_weighted_share_le(weight as int, total1 as int, delta@);
            }
            let average1 = st.average.checked_add(diff).unwrap();
            cell.store(State { total: total1, average: average1 });
            Ok(())
        } else {
            let delta = st.average.checked_sub(value).unwrap();
            proof {
                lemma_mul_integer_embedding(weight as int, delta@);
            }
            let scaled = match dw.checked_mul(delta) {
                Some(p) => p,
                None => {
                    return Err(CwaError::ArithmeticOverflow);
                },
            };
            proof {
                lemma_div_integer_embedding(scaled@, total1 as int);
                lemma_div_nonincreasing(scaled@, total1 as int);
            }
            let diff = scaled.checked_div(dt1).unwrap();
            proof {
                lemma_weighted_share_le(weight as int, total1 as int, delta@);
            }
            let average1 = st.average.checked_sub(diff).unwrap();
            cell.store(State { total: total1, average: average1 });
            Ok(())
        }
    }

    /// Withdraws the contribution of `value` with weight `weight`, the
    /// inverse of a prior `add`, exactly as `spec_remove` describes. The
    /// caller is responsible for only removing pairs it added before; the
    /// cell is cleared when the last weight leaves. On an error the cell is
    /// untouched.
    pub fn remove(&self, cell: &mut ScalarCell, weight: u64, value: Decimal) -> (r: Result<
        (),
        CwaError,
    >)
        ensures
            match r {
                Ok(_) => spec_remove(old(cell)@, weight as int, value@) == Ok::<
                    Option<(int, int)>,
                    CwaError,
                >(final(cell)@),
                Err(e) => spec_remove(old(cell)@, weight as int, value@) == Err::<
                    Option<(int, int)>,
                    CwaError,
                >(e) && final(cell)@ == old(cell)@,
            },
    {
        let st = match cell.load() {
            Some(st) => st,
            None => {
                return Err(CwaError::UnderflowOnEmpty);
            },
        };
        if weight == st.total {
            cell.clear();
            return Ok(());
        }
        if weight > st.total {
            return Err(CwaError::ArithmeticOverflow);
        }
        let total1 = st.total - weight;
        let dw = Decimal::from_integer(weight);
        let dt = Decimal::from_integer(st.total);
        let dt1 = Decimal::from_integer(total1);
        proof {
            lemma_mul_integer_embedding(weight as int, value@);
        }
        let scaled = match dw.checked_mul(value) {
            Some(p) => p,
            None => {
                return Err(CwaError::ArithmeticOverflow);
            },
        };
        proof {
            lemma_div_integer_embedding(scaled@, st.total as int);
            lemma_div_nonincreasing(scaled@, st.total as int);
        }
        let inner = scaled.checked_div(dt).unwrap();
        let kept = match st.average.checked_sub(inner) {
            Some(d) => d,
            None => {
                return Err(CwaError::ArithmeticOverflow);
            },
        };
        proof {
            lemma_mul_integer_embedding(st.total as int, kept@);
        }
        let rebuilt = match dt.checked_mul(kept) {
            Some(p) => p,
            None => {
                return Err(CwaError::ArithmeticOverflow);
            },
        };
        proof {
            lemma_div_integer_embedding(rebuilt@, total1 as int);
            lemma_div_nonincreasing(rebuilt@, total1 as int);
        }
        let average1 = rebuilt.checked_div(dt1).unwrap();
        cell.store(State { total: total1, average: average1 });
        Ok(())
    }

    /// The current average, or zero while the cell is absent. Never fails,
    /// never mutates.
    pub fn average(&self, cell: &ScalarCell) -> (r: Decimal)
        ensures
            r@ == spec_average(cell@),
    {
        match cell.load() {
            Some(st) => st.average,
            None => Decimal::zero(),
        }
    }
}

} // verus!
