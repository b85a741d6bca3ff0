use continuous_average::cell::{ScalarCell, State};
use continuous_average::continuous_average::ContinuousWeightedAverage;
use continuous_average::decimal::Decimal;
use continuous_average::error::CwaError;

fn render(d: Decimal) -> String {
    cosmwasm_std::Decimal::raw(d.atomics()).to_string()
}

#[test]
fn test_continuous_average() {
    let storage = &mut ScalarCell::new();
    let ave = ContinuousWeightedAverage::new("cwa");

    ave.add(storage, 4, Decimal::percent(1)).unwrap();
    let average = ave.average(storage);
    assert_eq!(average, Decimal::percent(1));

    ave.add(storage, 3, Decimal::percent(10)).unwrap();
    let average = ave.average(storage);
    assert!(render(average).starts_with("0.04857"));

    ave.add(storage, 2, Decimal::percent(8)).unwrap();
    let average = ave.average(storage);
    assert!(render(average).starts_with("0.05555"));

    ave.remove(storage, 2, Decimal::percent(8)).unwrap();
    let average = ave.average(storage);
    assert!(render(average).starts_with("0.04857"));
}

#[test]
fn updates_truncate_at_the_eighteenth_digit() {
    let cell = &mut ScalarCell::new();
    let ave = ContinuousWeightedAverage::new("cwa");
    // 0.01 exactly
    ave.add(cell, 4, Decimal::percent(1)).unwrap();
    assert_eq!(ave.average(cell).atomics(), 10_000_000_000_000_000);
    // 0.19 / 7, truncated
    ave.add(cell, 3, Decimal::percent(10)).unwrap();
    assert_eq!(ave.average(cell).atomics(), 48_571_428_571_428_571);
    // 0.35 / 9, truncated
    ave.add(cell, 2, Decimal::percent(8)).unwrap();
    assert_eq!(ave.average(cell).atomics(), 55_555_555_555_555_555);
    // the removal inverse lands back on the truncated 0.19 / 7
    ave.remove(cell, 2, Decimal::percent(8)).unwrap();
    assert_eq!(ave.average(cell).atomics(), 48_571_428_571_428_571);
}

#[test]
fn cold_start_records_value_exactly() {
    let cell = &mut ScalarCell::new();
    let ave = ContinuousWeightedAverage::new("cwa");
    let v = Decimal::from_atomics(330_000_000_000_000_007);
    ave.add(cell, 7, v).unwrap();
    assert_eq!(ave.average(cell), v);
    assert_eq!(cell.load(), Some(State { total: 7, average: v }));
}

#[test]
fn zero_weight_add_is_a_noop() {
    let ave = ContinuousWeightedAverage::new("cwa");

    let absent = &mut ScalarCell::new();
    ave.add(absent, 0, Decimal::percent(42)).unwrap();
    assert_eq!(*absent, ScalarCell::new());

    let warm = &mut ScalarCell::new();
    ave.add(warm, 5, Decimal::percent(3)).unwrap();
    let before = *warm;
    ave.add(warm, 0, Decimal::percent(99)).unwrap();
    assert_eq!(*warm, before);
}

#[test]
fn reverse_removal_empties_the_cell() {
    let cell = &mut ScalarCell::new();
    let ave = ContinuousWeightedAverage::new("cwa");
    let ops = [
        (4u64, Decimal::percent(1)),
        (3u64, Decimal::percent(10)),
        (2u64, Decimal::percent(8)),
    ];
    for (w, v) in ops.iter() {
        ave.add(cell, *w, *v).unwrap();
    }
    for (w, v) in ops.iter().rev() {
        ave.remove(cell, *w, *v).unwrap();
    }
    assert!(cell.load().is_none());
    assert_eq!(ave.average(cell), Decimal::zero());
}

#[test]
fn permuted_adds_agree_up_to_rounding() {
    let ave = ContinuousWeightedAverage::new("cwa");
    let ops = [
        (4u64, Decimal::percent(1)),
        (3u64, Decimal::percent(10)),
        (2u64, Decimal::percent(8)),
    ];
    // the exact reference: (4*1 + 3*10 + 2*8) / 9 percent
    let total: u128 = 9;
    let weighted_sum: u128 =
        4 * Decimal::percent(1).atomics() + 3 * Decimal::percent(10).atomics() + 2
            * Decimal::percent(8).atomics();
    let slack = ops.len() as u128;
    let forward = &mut ScalarCell::new();
    for (w, v) in ops.iter() {
        ave.add(forward, *w, *v).unwrap();
    }
    let backward = &mut ScalarCell::new();
    for (w, v) in ops.iter().rev() {
        ave.add(backward, *w, *v).unwrap();
    }
    let a1 = ave.average(forward).atomics();
    let a2 = ave.average(backward).atomics();
    // each order stays within `len` ulps of the reference, scaled by the total
    assert!(total * a1 <= weighted_sum + slack * total);
    assert!(weighted_sum <= total * a1 + slack * total);
    assert!(total * a2 <= weighted_sum + slack * total);
    assert!(weighted_sum <= total * a2 + slack * total);
    // so the two orders agree to within 2 * len atomic units
    assert!(a1.abs_diff(a2) <= 2 * slack);
}

#[test]
fn average_stays_within_live_bounds() {
    let cell = &mut ScalarCell::new();
    let ave = ContinuousWeightedAverage::new("cwa");
    let lo = Decimal::percent(1).atomics();
    let hi = Decimal::percent(10).atomics();
    ave.add(cell, 4, Decimal::percent(1)).unwrap();
    ave.add(cell, 3, Decimal::percent(10)).unwrap();
    ave.add(cell, 2, Decimal::percent(8)).unwrap();
    let a = ave.average(cell).atomics();
    assert!(lo <= a && a <= hi);
}

#[test]
fn total_overflow_fails_and_leaves_cell_unchanged() {
    let cell = &mut ScalarCell::new();
    let ave = ContinuousWeightedAverage::new("cwa");
    ave.add(cell, u64::MAX, Decimal::percent(50)).unwrap();
    let before = *cell;
    let err = ave.add(cell, 1, Decimal::percent(50)).unwrap_err();
    assert_eq!(err, CwaError::ArithmeticOverflow);
    assert_eq!(*cell, before);
    assert_eq!(ave.average(cell), Decimal::percent(50));
}

#[test]
fn remove_from_absent_cell_fails() {
    let cell = &mut ScalarCell::new();
    let ave = ContinuousWeightedAverage::new("cwa");
    let err = ave.remove(cell, 4, Decimal::percent(1)).unwrap_err();
    assert_eq!(err, CwaError::UnderflowOnEmpty);
    assert!(cell.load().is_none());
}

#[test]
fn remove_into_absence_reads_zero() {
    let cell = &mut ScalarCell::new();
    let ave = ContinuousWeightedAverage::new("cwa");
    ave.add(cell, 4, Decimal::percent(1)).unwrap();
    ave.remove(cell, 4, Decimal::percent(1)).unwrap();
    assert!(cell.load().is_none());
    assert_eq!(ave.average(cell), Decimal::zero());
}

#[test]
fn remove_more_weight_than_total_fails() {
    let cell = &mut ScalarCell::new();
    let ave = ContinuousWeightedAverage::new("cwa");
    ave.add(cell, 4, Decimal::percent(1)).unwrap();
    let before = *cell;
    let err = ave.remove(cell, 10, Decimal::percent(1)).unwrap_err();
    assert_eq!(err, CwaError::ArithmeticOverflow);
    assert_eq!(*cell, before);
}

#[test]
fn rounding_drift_can_fail_a_removal() {
    let cell = &mut ScalarCell::new();
    let ave = ContinuousWeightedAverage::new("cwa");
    // three atomic units at weight one, then zero at weight two: the
    // average truncates to one atomic unit
    ave.add(cell, 1, Decimal::from_atomics(3)).unwrap();
    ave.add(cell, 2, Decimal::from_atomics(0)).unwrap();
    assert_eq!(ave.average(cell), Decimal::from_atomics(1));
    // removing the first contribution twice: the second inner quotient
    // exceeds the drifted average
    ave.remove(cell, 1, Decimal::from_atomics(3)).unwrap();
    let before = *cell;
    let err = ave.remove(cell, 1, Decimal::from_atomics(3)).unwrap_err();
    assert_eq!(err, CwaError::ArithmeticOverflow);
    assert_eq!(*cell, before);
}

#[test]
fn handle_keeps_its_key() {
    let ave = ContinuousWeightedAverage::new("cwa");
    assert_eq!(ave.key(), "cwa");
}

#[test]
fn checked_mul_computes_the_scaled_product() {
    let six = Decimal::from_integer(2).checked_mul(Decimal::from_integer(3)).unwrap();
    assert_eq!(six, Decimal::from_integer(6));
    // truncation at the eighteenth digit
    let tiny = Decimal::from_atomics(1).checked_mul(Decimal::percent(50)).unwrap();
    assert_eq!(tiny, Decimal::from_atomics(0));
    // overflow is reported
    let max = Decimal::from_atomics(u128::MAX);
    assert!(max.checked_mul(max).is_none());
}

#[test]
fn checked_div_computes_the_scaled_quotient() {
    let third = Decimal::from_integer(1).checked_div(Decimal::from_integer(3)).unwrap();
    assert_eq!(third.atomics(), 333_333_333_333_333_333);
    let two = Decimal::from_integer(6).checked_div(Decimal::from_integer(3)).unwrap();
    assert_eq!(two, Decimal::from_integer(2));
    // a zero divisor and an out-of-range quotient are reported
    assert!(Decimal::from_integer(1).checked_div(Decimal::zero()).is_none());
    assert!(Decimal::from_atomics(u128::MAX).checked_div(Decimal::from_atomics(1)).is_none());
}
