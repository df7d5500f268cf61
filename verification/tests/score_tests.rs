use llmog::score::{Score, CLAMP_MILLI_TOP};
use llmog::startup::{classify_probe_status, pull_failure_fatal, ModelProbe};

#[test]
fn out_of_range_scores_clamp_to_the_range_ends() {
    // -5 colors like 0, 150 colors like 100: the color is a function of the
    // clamped thousandths alone
    assert_eq!(Score { milli: -5_000 }.clamped_milli(), Score { milli: 0 }.clamped_milli());
    assert_eq!(
        Score { milli: 150_000 }.clamped_milli(),
        Score { milli: 100_000 }.clamped_milli()
    );
    assert_eq!(Score { milli: -5_000 }.clamped_milli(), 0);
    assert_eq!(Score { milli: 150_000 }.clamped_milli(), CLAMP_MILLI_TOP);
}

#[test]
fn in_range_scores_are_unchanged_by_clamping() {
    assert_eq!(Score { milli: 0 }.clamped_milli(), 0);
    assert_eq!(Score { milli: 92_000 }.clamped_milli(), 92_000);
    assert_eq!(Score { milli: 100_000 }.clamped_milli(), 100_000);
    assert_eq!(Score { milli: 33_250 }.clamped_milli(), 33_250);
}

#[test]
fn probe_status_classification() {
    assert_eq!(classify_probe_status(200), ModelProbe::Present);
    assert_eq!(classify_probe_status(204), ModelProbe::Present);
    assert_eq!(classify_probe_status(404), ModelProbe::Absent);
    assert_eq!(classify_probe_status(500), ModelProbe::Error);
    assert_eq!(classify_probe_status(301), ModelProbe::Error);
}

#[test]
fn pull_failure_is_fatal_only_for_a_missing_model() {
    assert!(!pull_failure_fatal(true, false));
    assert!(!pull_failure_fatal(true, true));
    assert!(!pull_failure_fatal(false, false));
    assert!(pull_failure_fatal(false, true));
}
