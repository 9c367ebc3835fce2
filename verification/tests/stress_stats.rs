use imageproof::model::{VerificationClass, VerifyError};
use imageproof::stress::{
    acceptance_counts, filter_positional_args, find_config_path, stress_dataset_root, undersampled_classes,
    ConfigArg, ExpectedClass, GroupStats, StressTally, MIN_SAMPLES_PER_CLASS,
};

#[test]
fn group_stats_record_correct_match() {
    let mut stats = GroupStats::default();
    stats.record(ExpectedClass::Authentic, VerificationClass::Authentic);
    assert_eq!(stats.total, 1);
    assert_eq!(stats.matched, 1);
    assert_eq!(stats.as_authentic, 1);
}

#[test]
fn group_stats_record_mismatch() {
    let mut stats = GroupStats::default();
    stats.record(ExpectedClass::Authentic, VerificationClass::Suspicious);
    assert_eq!(stats.total, 1);
    assert_eq!(stats.matched, 0);
    assert_eq!(stats.as_suspicious, 1);
}

#[test]
fn group_stats_accuracy_calculation() {
    let mut stats = GroupStats::default();
    stats.record(ExpectedClass::Synthetic, VerificationClass::Synthetic);
    stats.record(ExpectedClass::Synthetic, VerificationClass::Authentic);
    stats.record(ExpectedClass::Synthetic, VerificationClass::Synthetic);
    stats.record(ExpectedClass::Synthetic, VerificationClass::Suspicious);
    assert_eq!(stats.total, 4);
    assert_eq!(stats.matched, 2);
}

#[test]
fn group_stats_indeterminate_not_counted_as_match() {
    let mut stats = GroupStats::default();
    stats.record(ExpectedClass::Authentic, VerificationClass::Indeterminate);
    assert_eq!(stats.total, 1);
    assert_eq!(stats.matched, 0);
    assert_eq!(stats.as_authentic, 0);
    assert_eq!(stats.as_suspicious, 0);
    assert_eq!(stats.as_synthetic, 0);
}

#[test]
fn expected_class_names() {
    assert_eq!(ExpectedClass::Authentic.folder_name(), "authentic");
    assert_eq!(ExpectedClass::Suspicious.folder_name(), "edited");
    assert_eq!(ExpectedClass::Synthetic.folder_name(), "synthetic");
    assert_eq!(ExpectedClass::Authentic.as_label(), "Authentic");
    assert_eq!(ExpectedClass::Suspicious.as_label(), "Suspicious");
    assert_eq!(ExpectedClass::Synthetic.as_label(), "Synthetic");
}

fn args(v: &[&str]) -> Vec<String> {
    v.iter().map(|s| s.to_string()).collect()
}

#[test]
fn positional_args_skip_program_and_config_pairs() {
    let a = args(&["imageproof", "--config", "cal.toml", "stress", "data"]);
    assert_eq!(filter_positional_args(&a), vec!["stress", "data"]);
    let b = args(&["imageproof", "stress", "--config", "cal.toml", "data"]);
    assert_eq!(filter_positional_args(&b), vec!["stress", "data"]);
    let c = args(&["--config", "x"]);
    assert_eq!(filter_positional_args(&c), vec!["x"]);
    let d: Vec<String> = vec![];
    assert!(filter_positional_args(&d).is_empty());
}

#[test]
fn config_path_is_found_or_missing() {
    let a = args(&["imageproof", "stress", "--config", "cal.toml"]);
    assert!(matches!(find_config_path(&a), ConfigArg::Path("cal.toml")));
    let b = args(&["imageproof", "--config"]);
    assert!(matches!(find_config_path(&b), ConfigArg::MissingPath));
    let c = args(&["imageproof", "stress", "data"]);
    assert!(matches!(find_config_path(&c), ConfigArg::Absent));
}

#[test]
fn stress_command_is_case_insensitive() {
    assert_eq!(stress_dataset_root(&vec!["STRESS", "data"]), Some("data"));
    assert_eq!(stress_dataset_root(&vec!["Stress", "data", "extra"]), Some("data"));
    assert_eq!(stress_dataset_root(&vec!["stress"]), None);
    assert_eq!(stress_dataset_root(&vec!["stresss", "data"]), None);
}

#[test]
fn tally_counts_verdicts_and_decode_failures() {
    let mut tally = StressTally::new();
    assert!(tally.record_outcome(ExpectedClass::Authentic, Ok(VerificationClass::Authentic)).is_ok());
    assert!(tally.record_outcome(ExpectedClass::Authentic, Ok(VerificationClass::Synthetic)).is_ok());
    assert!(tally.record_outcome(ExpectedClass::Suspicious, Ok(VerificationClass::Authentic)).is_ok());
    assert!(tally.record_outcome(ExpectedClass::Synthetic, Err(VerifyError::DecodeFailed)).is_ok());
    assert_eq!(
        tally.record_outcome(ExpectedClass::Synthetic, Err(VerifyError::UnsupportedFormat)),
        Err(VerifyError::UnsupportedFormat)
    );
    assert_eq!(tally.overall.total, 3);
    assert_eq!(tally.overall.matched, 1);
    assert_eq!(tally.authentic.total, 2);
    assert_eq!(tally.suspicious.total, 1);
    assert_eq!(tally.synthetic.total, 0);
    assert_eq!(tally.decode_errors, 1);

    let counts = acceptance_counts(&tally);
    assert_eq!(counts.authentic_total, 2);
    assert_eq!(counts.authentic_false_positives, 1);
    assert_eq!(counts.edited_misses, 1);
    assert_eq!(counts.synthetic_misses, 0);
    assert_eq!(
        undersampled_classes(&counts, MIN_SAMPLES_PER_CLASS),
        vec![ExpectedClass::Authentic, ExpectedClass::Suspicious, ExpectedClass::Synthetic]
    );
    assert!(undersampled_classes(&counts, 0).is_empty());
    assert_eq!(undersampled_classes(&counts, 2), vec![ExpectedClass::Suspicious, ExpectedClass::Synthetic]);
}
