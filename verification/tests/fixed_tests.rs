use touchosc_client::{remap, Fx, FX_SCALE};

fn fx(units: i64) -> Fx {
    Fx { units }
}

#[test]
fn remap_zero_payload_gives_lower_bound() {
    assert_eq!(remap(fx(0), fx(3_000_000), fx(9_000_000)), fx(3_000_000));
}

#[test]
fn remap_full_payload_gives_upper_bound() {
    assert_eq!(remap(fx(FX_SCALE), fx(3_000_000), fx(9_000_000)), fx(9_000_000));
}

#[test]
fn remap_midpoint_is_exact() {
    // 0.5 of [0, 10] is 5
    assert_eq!(remap(fx(500_000), fx(0), fx(10_000_000)), fx(5_000_000));
}

#[test]
fn remap_descending_interval() {
    // 0.25 of [10, 2] is 8
    assert_eq!(remap(fx(250_000), fx(10_000_000), fx(2_000_000)), fx(8_000_000));
}

#[test]
fn remap_extrapolates_above_one() {
    // 2.0 of [0, 10] extrapolates to 20, it does not clamp to 10
    assert_eq!(remap(fx(2_000_000), fx(0), fx(10_000_000)), fx(20_000_000));
}

#[test]
fn remap_extrapolates_below_zero() {
    // -0.5 of [0, 10] extrapolates to -5, it does not clamp to 0
    assert_eq!(remap(fx(-500_000), fx(0), fx(10_000_000)), fx(-5_000_000));
}

#[test]
fn remap_rounds_toward_zero() {
    // one millionth of [0, 0.5] is half a unit, which truncates to zero
    assert_eq!(remap(fx(1), fx(0), fx(500_000)), fx(0));
    // and the negative mirror truncates toward zero as well
    assert_eq!(remap(fx(-1), fx(0), fx(500_000)), fx(0));
}

#[test]
fn remap_saturates_at_the_representable_extremes() {
    assert_eq!(remap(fx(i64::MAX), fx(0), fx(i64::MAX)), fx(i64::MAX));
    assert_eq!(remap(fx(i64::MAX), fx(i64::MAX), fx(i64::MIN)), fx(i64::MIN));
}
