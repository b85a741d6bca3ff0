use vstd::prelude::*;

use crate::cell::ScalarCell;
use crate::continuous_average::{spec_add, spec_remove, ContinuousWeightedAverage};
use crate::decimal::Decimal;
use crate::error::CwaError;

verus! {

/// An optional decimal as an optional atomics count.
pub open spec fn opt_view(o: Option<Decimal>) -> Option<int> {
    match o {
        Some(d) => Some(d@),
        None => None,
    }
}

/// One replacement on the cell model: the old contribution leaves when
/// there is one, then the new one enters when there is one. The first
/// failure wins and nothing of the replacement is kept.
pub open spec fn spec_replace(
    m: Option<(int, int)>,
    old_w: int,
    old_v: Option<int>,
    new_w: int,
    new_v: Option<int>,
) -> Result<Option<(int, int)>, CwaError> {
    let removed = match old_v {
        Some(v) => spec_remove(m, old_w, v),
        None => Ok(m),
    };
    match removed {
        Ok(m1) => match new_v {
            Some(v) => spec_add(m1, new_w, v),
            None => Ok(m1),
        },
        Err(e) => Err(e),
    }
}

/// A preference update: when the member had a recorded preference, its
/// contribution at the current weight leaves; the new preference enters at
/// the same weight.
pub open spec fn spec_set_preference(
    m: Option<(int, int)>,
    w: int,
    old_pref: Option<int>,
    pref: int,
) -> Result<Option<(int, int)>, CwaError> {
    spec_replace(m, w, old_pref, w, Some(pref))
}

/// A single-unit stake: only when the member has a recorded preference and
/// now has positive weight does its contribution move from the previous
/// weight — one less than now; nothing leaves when that is zero — to the
/// new weight.
pub open spec fn spec_stake(m: Option<(int, int)>, pref: Option<int>, w: int) -> Result<
    Option<(int, int)>,
    CwaError,
> {
    match pref {
        None => Ok(m),
        Some(p) => if w == 0 {
            Ok(m)
        } else {
            spec_replace(
                m,
                w - 1,
                if w - 1 == 0 {
                    None
                } else {
                    Some(p)
                },
                w,
                Some(p),
            )
        },
    }
}

/// An unstake of `n` tokens: only when the member has a recorded
/// preference does its contribution move from the previous weight — the
/// new weight plus `n`, which must still fit a weight — to the new weight.
pub open spec fn spec_unstake(m: Option<(int, int)>, pref: Option<int>, w: int, n: int) -> Result<
    Option<(int, int)>,
    CwaError,
> {
    match pref {
        None => Ok(m),
        Some(p) => if w + n > u64::MAX {
            Err(CwaError::ArithmeticOverflow)
        } else {
            spec_replace(m, w + n, Some(p), w, Some(p))
        },
    }
}

/// Replaces one member's contribution: removes `old_value` at `old_weight`
/// when present, then adds `new_value` at `new_weight` when present,
/// exactly as `spec_replace` describes. The cell is written only when the
/// whole replacement succeeds; on an error it is untouched.
pub fn replace(
    cwa: &ContinuousWeightedAverage,
    cell: &mut ScalarCell,
    old_weight: u64,
    old_value: Option<Decimal>,
    new_weight: u64,
    new_value: Option<Decimal>,
) -> (r: Result<(), CwaError>)
    ensures
        match r {
            Ok(_) => spec_replace(
                old(cell)@,
                old_weight as int,
                opt_view(old_value),
                new_weight as int,
                opt_view(new_value),
            ) == Ok::<Option<(int, int)>, CwaError>(final(cell)@),
            Err(e) => spec_replace(
                old(cell)@,
                old_weight as int,
                opt_view(old_value),
                new_weight as int,
                opt_view(new_value),
            ) == Err::<Option<(int, int)>, CwaError>(e) && final(cell)@ == old(cell)@,
        },
{
    let mut scratch = *cell;
    if let Some(v) = old_value {
        match cwa.remove(&mut scratch, old_weight, v) {
            Ok(_) => {},
            Err(e) => {
                return Err(e);
            },
        }
    }
    if let Some(v) = new_value {
        match cwa.add(&mut scratch, new_weight, v) {
            Ok(_) => {},
            Err(e) => {
                return Err(e);
            },
        }
    }
    *cell = scratch;
    Ok(())
}

/// Applies a member's new preference: the old preference, when recorded,
/// leaves at the member's current weight and the new one enters at the same
/// weight, exactly as `spec_set_preference` describes. On an error the cell
/// is untouched.
pub fn set_preference(
    cwa: &ContinuousWeightedAverage,
    cell: &mut ScalarCell,
    weight: u64,
    old_preference: Option<Decimal>,
    preference: Decimal,
) -> (r: Result<(), CwaError>)
    ensures
        match r {
            Ok(_) => spec_set_preference(
                old(cell)@,
                weight as int,
                opt_view(old_preference),
                preference@,
            ) == Ok::<Option<(int, int)>, CwaError>(final(cell)@),
            Err(e) => spec_set_preference(
                old(cell)@,
                weight as int,
                opt_view(old_preference),
                preference@,
            ) == Err::<Option<(int, int)>, CwaError>(e) && final(cell)@ == old(cell)@,
        },
{
    replace(cwa, cell, weight, old_preference, weight, Some(preference))
}

/// Applies a single-unit stake for a member whose weight is now `weight`,
/// exactly as `spec_stake` describes: with no recorded preference or no
/// weight nothing changes; otherwise the recorded preference moves from
/// weight `weight - 1` to `weight`. On an error the cell is untouched.
pub fn handle_stake(
    cwa: &ContinuousWeightedAverage,
    cell: &mut ScalarCell,
    preference: Option<Decimal>,
    weight: u64,
) -> (r: Result<(), CwaError>)
    ensures
        match r {
            Ok(_) => spec_stake(old(cell)@, opt_view(preference), weight as int) == Ok::<
                Option<(int, int)>,
                CwaError,
            >(final(cell)@),
            Err(e) => spec_stake(old(cell)@, opt_view(preference), weight as int) == Err::<
                Option<(int, int)>,
                CwaError,
            >(e) && final(cell)@ == old(cell)@,
        },
{
    let p = match preference {
        Some(p) => p,
        None => {
            return Ok(());
        },
    };
    if weight == 0 {
        return Ok(());
    }
    let old_weight = weight - 1;
    let old_value: Option<Decimal> = if old_weight == 0 {
        None
    } else {
        Some(p)
    };
    replace(cwa, cell, old_weight, old_value, weight, Some(p))
}

/// Applies an unstake of `unstaked` tokens for a member whose weight is now
/// `weight`, exactly as `spec_unstake` describes: with no recorded
/// preference nothing changes; otherwise the preference moves from weight
/// `weight + unstaked` to `weight`. On an error the cell is untouched.
pub fn handle_unstake(
    cwa: &ContinuousWeightedAverage,
    cell: &mut ScalarCell,
    preference: Option<Decimal>,
    weight: u64,
    unstaked: u64,
) -> (r: Result<(), CwaError>)
    ensures
        match r {
            Ok(_) => spec_unstake(old(cell)@, opt_view(preference), weight as int, unstaked as int)
                == Ok::<Option<(int, int)>, CwaError>(final(cell)@),
            Err(e) => spec_unstake(old(cell)@, opt_view(preference), weight as int, unstaked as int)
                == Err::<Option<(int, int)>, CwaError>(e) && final(cell)@ == old(cell)@,
        },
{
    let p = match preference {
        Some(p) => p,
        None => {
            return Ok(());
        },
    };
    if unstaked > u64::MAX - weight {
        return Err(CwaError::ArithmeticOverflow);
    }
    replace(cwa, cell, weight + unstaked, Some(p), weight, Some(p))
}

} // verus!
