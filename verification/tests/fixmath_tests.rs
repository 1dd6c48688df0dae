use rogue_core::fixmath::{isqrt, normalize_fp, wander_scale, wander_term, FP, WANDER_CAP_FP};
use rogue_core::rng::random_below;

#[test]
fn isqrt_small_values() {
    assert_eq!(isqrt(0), 0);
    assert_eq!(isqrt(1), 1);
    assert_eq!(isqrt(3), 1);
    assert_eq!(isqrt(4), 2);
    assert_eq!(isqrt(8), 2);
    assert_eq!(isqrt(9), 3);
    assert_eq!(isqrt(10), 3);
    assert_eq!(isqrt(999_999), 999);
    assert_eq!(isqrt(1_000_000), 1000);
}

#[test]
fn isqrt_large_values() {
    assert_eq!(isqrt(u64::MAX), 4_294_967_295);
    assert_eq!(isqrt(2_000_000_000_000_000_000), 1_414_213_562);
}

#[test]
fn normalize_unit_axes() {
    assert_eq!(normalize_fp(3, 0), (FP, 0));
    assert_eq!(normalize_fp(0, -3), (0, -FP));
    assert_eq!(normalize_fp(0, 0), (0, 0));
}

#[test]
fn normalize_scales_to_unit_length() {
    // a 3-4-5 triangle: components 3/5 and 4/5
    assert_eq!(normalize_fp(3000, 4000), (600, 800));
    assert_eq!(normalize_fp(-3000, 4000), (-600, 800));
    // a diagonal: 1000/sqrt(2*10^6) = 1000000/1414
    assert_eq!(normalize_fp(1000, 1000), (707, 707));
}

#[test]
fn wander_scale_starts_at_zero_and_grows() {
    assert_eq!(wander_scale(0), 0);
    // 4.709 - 1 in fixed point
    assert_eq!(wander_scale(1), 3709);
    // 4.709^2 - 1: 4709 * 4709 / 1000 - 1000
    assert_eq!(wander_scale(2), 21174);
    // far past saturation
    assert_eq!(wander_scale(50), WANDER_CAP_FP - FP);
}

#[test]
fn wander_term_is_zero_while_not_stuck() {
    assert_eq!(wander_term(0, 0), 0);
    assert_eq!(wander_term(0, 1000), 0);
    assert_eq!(wander_term(0, 500), 0);
}

#[test]
fn wander_term_is_centred_and_scaled() {
    // scale 2000, draw at the extremes: 2000 * 500 / 1000 = 1000
    assert_eq!(wander_term(2000, 1000), 1000);
    assert_eq!(wander_term(2000, 0), -1000);
    assert_eq!(wander_term(2000, 500), 0);
}

#[test]
fn random_below_stays_in_range() {
    for _ in 0..200 {
        assert!(random_below(7) < 7);
        assert_eq!(random_below(1), 0);
    }
}
