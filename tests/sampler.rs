use marco_planet::sampler::should_emit;

#[test]
fn emits_when_time_fraction_exceeds_budget_fraction() {
    // 5/10 > 1/4
    assert!(should_emit(5, 10, 1, 4));
    // 2/10 < 1/4
    assert!(!should_emit(2, 10, 1, 4));
}

#[test]
fn equal_fractions_do_not_emit() {
    // 25/100 == 1/4
    assert!(!should_emit(25, 100, 1, 4));
    assert!(should_emit(26, 100, 1, 4));
}

#[test]
fn zero_duration_never_emits_at_start() {
    assert!(!should_emit(0, 0, 1, 1000));
    assert!(!should_emit(0, 100, 0, 1000));
}

#[test]
fn large_values_do_not_overflow() {
    assert!(should_emit(u64::MAX, u64::MAX, u64::MAX - 1, u64::MAX));
    assert!(!should_emit(u64::MAX - 1, u64::MAX, u64::MAX - 1, u64::MAX));
}
