use epoch_settlement::tally::{compute_tally, ValidatorPower, TallyResult};

fn powers(ps: &[(u64, u64)]) -> Vec<ValidatorPower> {
    ps.iter().map(|&(addr, power)| ValidatorPower { addr, power }).collect()
}

#[test]
fn test_two_thirds_exactly_passes() {
    let snapshot = powers(&[(1, 10), (2, 10), (3, 10)]);
    // 3 * 20 == 2 * 30
    assert_eq!(compute_tally(&snapshot, &vec![1, 2]), TallyResult::Passed);
}

#[test]
fn test_below_two_thirds_rejected() {
    let snapshot = powers(&[(1, 10), (2, 10), (3, 10)]);
    assert_eq!(compute_tally(&snapshot, &vec![1]), TallyResult::Rejected);
}

#[test]
fn test_votes_from_unknown_validators_carry_no_power() {
    let snapshot = powers(&[(1, 10), (2, 10), (3, 10)]);
    assert_eq!(compute_tally(&snapshot, &vec![4, 5, 6]), TallyResult::Rejected);
}

#[test]
fn test_empty_snapshot_is_unknown() {
    let snapshot: Vec<ValidatorPower> = Vec::new();
    assert_eq!(compute_tally(&snapshot, &vec![1]), TallyResult::Unknown);
}

#[test]
fn test_power_sum_overflow_is_unknown() {
    let snapshot = powers(&[(1, u64::MAX), (2, 2)]);
    assert_eq!(compute_tally(&snapshot, &vec![1, 2]), TallyResult::Unknown);
}

#[test]
fn test_threshold_scaling_overflow_is_unknown() {
    // the sum fits, but doubling the total does not
    let snapshot = powers(&[(1, u64::MAX)]);
    assert_eq!(compute_tally(&snapshot, &vec![1]), TallyResult::Unknown);
}

#[test]
fn test_single_yea_validator_passes_alone() {
    let snapshot = powers(&[(1, 30)]);
    assert_eq!(compute_tally(&snapshot, &vec![1]), TallyResult::Passed);
    assert_eq!(compute_tally(&snapshot, &vec![]), TallyResult::Rejected);
}
