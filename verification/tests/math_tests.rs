use vordie_light::fp;

#[test]
fn pow2_small_values() {
    assert_eq!(fp::pow2_u32(0), 1);
    assert_eq!(fp::pow2_u32(1), 2);
    assert_eq!(fp::pow2_u32(5), 32);
    assert_eq!(fp::pow2_u32(31), 0x8000_0000);
}

#[test]
fn clog2_small_values() {
    assert_eq!(fp::clog2_u32(0), 0);
    assert_eq!(fp::clog2_u32(1), 0);
    assert_eq!(fp::clog2_u32(2), 1);
    assert_eq!(fp::clog2_u32(3), 2);
    assert_eq!(fp::clog2_u32(4), 2);
    assert_eq!(fp::clog2_u32(5), 3);
    assert_eq!(fp::clog2_u32(1024), 10);
    assert_eq!(fp::clog2_u32(16384), 14);
}

#[test]
fn isqrt_exact_and_floor() {
    assert_eq!(fp::isqrt_u64(0), 0);
    assert_eq!(fp::isqrt_u64(1), 1);
    assert_eq!(fp::isqrt_u64(2), 1);
    assert_eq!(fp::isqrt_u64(4), 2);
    assert_eq!(fp::isqrt_u64(10), 3);
    assert_eq!(fp::isqrt_u64(2_000_000), 1414);
    assert_eq!(fp::isqrt_u64(4_000_000), 2000);
    assert_eq!(fp::isqrt_u64(u64::MAX), 0xFFFF_FFFF);
}

#[test]
fn sine_hits_the_cardinal_points() {
    assert_eq!(fp::sin_fp(0), 0);
    assert_eq!(fp::sin_fp(fp::QUARTER_TURN), 1000);
    assert_eq!(fp::sin_fp(fp::HALF_TURN), 0);
    assert_eq!(fp::sin_fp(fp::HALF_TURN + fp::QUARTER_TURN), -1000);
}

#[test]
fn cosine_hits_the_cardinal_points() {
    assert_eq!(fp::cos_fp(0), 1000);
    assert_eq!(fp::cos_fp(fp::QUARTER_TURN), 0);
    assert_eq!(fp::cos_fp(fp::HALF_TURN), -1000);
    assert_eq!(fp::cos_fp(fp::HALF_TURN + fp::QUARTER_TURN), 0);
}

#[test]
fn sine_stays_in_range_everywhere() {
    let mut a: u32 = 0;
    while a < fp::FULL_TURN {
        let s = fp::sin_fp(a);
        assert!((-1000..=1000).contains(&s));
        a += 97;
    }
}

#[test]
fn clamp_orders_its_bounds() {
    assert_eq!(fp::clamp_i32(-5, 1, 10), 1);
    assert_eq!(fp::clamp_i32(5, 1, 10), 5);
    assert_eq!(fp::clamp_i32(50, 1, 10), 10);
}
