use github_score::points::{
    log2_points_u64, log_magnitude_points_u64, ratio_points_u64, recency_points_u64, LOG_ONE,
};
use github_score::SCALE;

#[test]
fn ratios_are_exact_and_clamped() {
    assert_eq!(ratio_points_u64(1, 3), 333_333);
    assert_eq!(ratio_points_u64(1, 2), 500_000);
    assert_eq!(ratio_points_u64(7, 7), SCALE);
    assert_eq!(ratio_points_u64(9, 4), SCALE);
    assert_eq!(ratio_points_u64(5, 0), 0);
    assert_eq!(ratio_points_u64(0, 9), 0);
    // Capped counts are the same curve: 20 recent pushes of a cap of 100.
    assert_eq!(ratio_points_u64(20, 100), 200_000);
}

#[test]
fn log_has_exact_whole_units_on_powers_of_two() {
    assert_eq!(log2_points_u64(0), 0);
    assert_eq!(log2_points_u64(1), 0);
    assert_eq!(log2_points_u64(2), LOG_ONE);
    assert_eq!(log2_points_u64(1024), 10 * LOG_ONE);
    assert_eq!(log2_points_u64(1 << 40), 40 * LOG_ONE);
}

#[test]
fn log_grows_between_powers_of_two() {
    let a = log2_points_u64(1000);
    let b = log2_points_u64(1024);
    assert!(a < b);
    // log2(1000) is a touch under 10.
    assert!(a > 9 * LOG_ONE + LOG_ONE / 2);
}

#[test]
fn magnitude_reaches_one_at_the_reference() {
    assert_eq!(log_magnitude_points_u64(0, 1000), 0);
    assert_eq!(log_magnitude_points_u64(1000, 1000), SCALE);
    assert_eq!(log_magnitude_points_u64(2500, 1000), SCALE);
    let halfway = log_magnitude_points_u64(30, 1000);
    assert!(0 < halfway && halfway < SCALE);
}

#[test]
fn recency_decays_with_mean_age() {
    // No events earn no recency credit.
    assert_eq!(recency_points_u64(0, 0, 180), 0);
    // Mean age zero earns full credit.
    assert_eq!(recency_points_u64(0, 2, 180), SCALE);
    // Two pushes with summed age 30 days: 1 - 30/360 of the unit.
    assert_eq!(recency_points_u64(30, 2, 180), 916_667);
}
