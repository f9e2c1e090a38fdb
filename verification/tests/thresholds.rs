use tsmetrics::thresholds::{
    apply_cli_overrides, best_match_for_key, check_class_violations, check_function_violations, check_unknown_keys,
    edit_distance, find_best_match, merge_threshold, MetricThreshold, PartialMetricThreshold,
    Severity, ThresholdOverrides, ThresholdsConfig, KNOWN_THRESHOLD_KEYS, KNOWN_TOP_LEVEL_KEYS,
};

// ── MetricThreshold::check ─────────────────────────────────────────────────

#[test]
fn test_check_below_warning_returns_none() {
    let t = MetricThreshold::new(10, 25);
    assert_eq!(t.check(9), None);
}

#[test]
fn test_check_at_warning_returns_warning() {
    let t = MetricThreshold::new(10, 25);
    assert_eq!(t.check(10), Some(Severity::Warning));
}

#[test]
fn test_check_between_warning_and_error_returns_warning() {
    let t = MetricThreshold::new(10, 25);
    assert_eq!(t.check(20), Some(Severity::Warning));
}

#[test]
fn test_check_at_error_returns_error() {
    let t = MetricThreshold::new(10, 25);
    assert_eq!(t.check(25), Some(Severity::Error));
}

#[test]
fn test_check_above_error_returns_error() {
    let t = MetricThreshold::new(10, 25);
    assert_eq!(t.check(100), Some(Severity::Error));
}

// ── Defaults ───────────────────────────────────────────────────────────────

#[test]
fn test_default_thresholds_are_set() {
    let config = ThresholdsConfig::default();
    assert_eq!(config.cyclomatic_complexity, MetricThreshold::new(10, 25));
    assert_eq!(config.loc, MetricThreshold::new(50, 100));
    assert_eq!(config.nesting, MetricThreshold::new(3, 5));
    assert_eq!(config.params, MetricThreshold::new(4, 7));
    assert_eq!(config.wmc, MetricThreshold::new(20, 50));
    assert_eq!(config.noi, MetricThreshold::new(3, 5));
}

// ── check_function_violations ──────────────────────────────────────────────

#[test]
fn test_function_no_violations_below_thresholds() {
    let config = ThresholdsConfig::default();
    let violations = check_function_violations("fn1", "a.ts", 1, 5, 20, 2, 3, &config);
    assert!(violations.is_empty());
}

#[test]
fn test_function_cc_warning() {
    let config = ThresholdsConfig::default();
    let violations = check_function_violations("fn1", "a.ts", 1, 10, 20, 2, 3, &config);
    assert_eq!(violations.len(), 1);
    assert_eq!(violations[0].metric, "cyclomatic_complexity");
    assert_eq!(violations[0].severity, Severity::Warning);
    assert_eq!(violations[0].value, 10);
    assert_eq!(violations[0].threshold, 10);
}

#[test]
fn test_function_cc_error() {
    let config = ThresholdsConfig::default();
    let violations = check_function_violations("fn1", "a.ts", 1, 25, 20, 2, 3, &config);
    assert_eq!(violations.len(), 1);
    assert_eq!(violations[0].severity, Severity::Error);
    assert_eq!(violations[0].threshold, 25);
}

#[test]
fn test_function_multiple_violations() {
    let config = ThresholdsConfig::default();
    let violations = check_function_violations("fn1", "a.ts", 1, 10, 100, 5, 7, &config);
    assert_eq!(violations.len(), 4);
}

#[test]
fn test_function_violation_fields_populated() {
    let config = ThresholdsConfig::default();
    let violations = check_function_violations("myFunc", "src/foo.ts", 42, 30, 20, 2, 3, &config);
    assert_eq!(violations.len(), 1);
    let v = &violations[0];
    assert_eq!(v.entity, "myFunc");
    assert_eq!(v.file, "src/foo.ts");
    assert_eq!(v.line, 42);
    assert_eq!(v.metric, "cyclomatic_complexity");
    assert_eq!(v.value, 30);
    assert_eq!(v.severity, Severity::Error);
}

// ── check_class_violations ─────────────────────────────────────────────────

#[test]
fn test_class_no_violations() {
    let config = ThresholdsConfig::default();
    let violations = check_class_violations("MyClass", "a.ts", 1, 10, 1, &config);
    assert!(violations.is_empty());
}

#[test]
fn test_class_wmc_warning() {
    let config = ThresholdsConfig::default();
    let violations = check_class_violations("MyClass", "a.ts", 1, 20, 1, &config);
    assert_eq!(violations.len(), 1);
    assert_eq!(violations[0].metric, "wmc");
    assert_eq!(violations[0].severity, Severity::Warning);
}

#[test]
fn test_class_noi_error() {
    let config = ThresholdsConfig::default();
    let violations = check_class_violations("MyClass", "a.ts", 1, 10, 5, &config);
    assert_eq!(violations.len(), 1);
    assert_eq!(violations[0].metric, "noi");
    assert_eq!(violations[0].severity, Severity::Error);
}

// ── apply_cli_overrides ───────────────────────────────────────────────────

#[test]
fn test_apply_cli_overrides_changes_values() {
    let mut config = ThresholdsConfig::default();
    let overrides = ThresholdOverrides {
        cc_warning: Some(5),
        cc_error: Some(20),
        loc_warning: Some(30),
        ..ThresholdOverrides::default()
    };
    apply_cli_overrides(&mut config, &overrides).unwrap();
    assert_eq!(config.cyclomatic_complexity, MetricThreshold::new(5, 20));
    assert_eq!(config.loc.warning, 30);
    assert_eq!(config.loc.error, ThresholdsConfig::default().loc.error);
}

#[test]
fn test_apply_cli_overrides_warning_greater_than_error_fails() {
    let mut config = ThresholdsConfig::default();
    let overrides = ThresholdOverrides {
        cc_warning: Some(30),
        ..ThresholdOverrides::default()
    };
    let result = apply_cli_overrides(&mut config, &overrides);
    assert!(result.is_err());
    let msg = result.unwrap_err().message();
    assert!(msg.contains("warning") && msg.contains("error"), "msg: {}", msg);
}

#[test]
fn test_apply_cli_overrides_preserves_non_overridden_fields() {
    let mut config = ThresholdsConfig::default();
    let defaults = ThresholdsConfig::default();
    let overrides = ThresholdOverrides {
        nesting_warning: Some(2),
        nesting_error: Some(4),
        ..ThresholdOverrides::default()
    };
    apply_cli_overrides(&mut config, &overrides).unwrap();
    assert_eq!(config.nesting, MetricThreshold::new(2, 4));
    assert_eq!(config.cyclomatic_complexity, defaults.cyclomatic_complexity);
    assert_eq!(config.loc, defaults.loc);
    assert_eq!(config.params, defaults.params);
    assert_eq!(config.wmc, defaults.wmc);
    assert_eq!(config.noi, defaults.noi);
}

#[test]
fn test_apply_cli_overrides_no_overrides_is_noop() {
    let mut config = ThresholdsConfig::default();
    let defaults = ThresholdsConfig::default();
    let overrides = ThresholdOverrides::default();
    apply_cli_overrides(&mut config, &overrides).unwrap();
    assert_eq!(config.cyclomatic_complexity, defaults.cyclomatic_complexity);
    assert_eq!(config.loc, defaults.loc);
    assert_eq!(config.nesting, defaults.nesting);
    assert_eq!(config.params, defaults.params);
    assert_eq!(config.wmc, defaults.wmc);
    assert_eq!(config.noi, defaults.noi);
}

#[test]
fn apply_cli_overrides_error_names_the_metric_and_keeps_earlier_changes() {
    let mut config = ThresholdsConfig::default();
    let overrides = ThresholdOverrides {
        cc_warning: Some(4),
        wmc_warning: Some(60),
        noi_warning: Some(1),
        ..ThresholdOverrides::default()
    };
    let err = apply_cli_overrides(&mut config, &overrides).unwrap_err();
    assert_eq!(err.metric.as_deref(), Some("wmc"));
    assert_eq!(
        err.message(),
        "invalid wmc threshold after CLI overrides: warning (60) > error (50)"
    );
    assert_eq!(config.cyclomatic_complexity, MetricThreshold::new(4, 25));
    assert_eq!(config.noi, MetricThreshold::new(3, 5));
}

// ── merge_threshold ───────────────────────────────────────────────────────

#[test]
fn merge_threshold_only_warning_given() {
    let merged = merge_threshold(
        Some(PartialMetricThreshold { warning: Some(30), error: None }),
        MetricThreshold::new(50, 100),
    )
    .unwrap();
    assert_eq!(merged, MetricThreshold::new(30, 100));
}

#[test]
fn merge_threshold_missing_section_keeps_default() {
    let merged = merge_threshold(None, MetricThreshold::new(10, 25)).unwrap();
    assert_eq!(merged, MetricThreshold::new(10, 25));
}

#[test]
fn merge_threshold_inverted_levels_refused() {
    let err = merge_threshold(
        Some(PartialMetricThreshold { warning: Some(200), error: None }),
        MetricThreshold::new(50, 100),
    )
    .unwrap_err();
    assert_eq!(err.message(), "invalid threshold: warning (200) > error (100)");
}

// ── Unknown key detection ─────────────────────────────────────────────────

#[test]
fn check_unknown_keys_detects_bad_keys() {
    let found = vec!["mi-warning".to_string(), "cc-error".to_string()];
    let warnings = check_unknown_keys(&found, &KNOWN_THRESHOLD_KEYS, "threshold");
    assert_eq!(warnings.len(), 2);
    assert!(warnings[0].contains("mi-warning"));
    assert!(warnings[1].contains("cc-error"));
}

#[test]
fn check_unknown_keys_no_warnings_for_valid_keys() {
    let found = vec![
        "cyclomatic_complexity".to_string(),
        "loc".to_string(),
        "maintainability_index".to_string(),
    ];
    let warnings = check_unknown_keys(&found, &KNOWN_THRESHOLD_KEYS, "threshold");
    assert!(warnings.is_empty());
}

#[test]
fn check_unknown_keys_completely_unknown_no_suggestion() {
    let found = vec!["zzzzzzzzz".to_string()];
    let warnings = check_unknown_keys(&found, &KNOWN_THRESHOLD_KEYS, "threshold");
    assert_eq!(warnings.len(), 1);
    assert!(warnings[0].contains("unknown threshold key 'zzzzzzzzz'"));
    assert!(!warnings[0].contains("did you mean"));
}

#[test]
fn check_unknown_keys_top_level_suggestion() {
    let found = vec!["threshold".to_string(), "paths".to_string()];
    let warnings = check_unknown_keys(&found, &KNOWN_TOP_LEVEL_KEYS, "config");
    assert_eq!(warnings.len(), 1);
    assert!(warnings[0].contains("unknown config key 'threshold'"));
    assert!(warnings[0].contains("did you mean 'thresholds'"));
}

#[test]
fn find_best_match_suggests_nesting_for_nest() {
    let result = find_best_match("nest", &KNOWN_THRESHOLD_KEYS);
    assert_eq!(result, Some("nesting"));
}

#[test]
fn find_best_match_suggests_wmc_for_wmcc() {
    let result = find_best_match("wmcc", &KNOWN_THRESHOLD_KEYS);
    assert_eq!(result, Some("wmc"));
}

#[test]
fn find_best_match_suggests_params_for_param() {
    let result = find_best_match("param", &KNOWN_THRESHOLD_KEYS);
    assert_eq!(result, Some("params"));
}

#[test]
fn find_best_match_none_for_unrelated() {
    assert_eq!(find_best_match("zzzzzzzzz", &KNOWN_THRESHOLD_KEYS), None);
}

#[test]
fn edit_distance_examples() {
    assert_eq!(edit_distance(b"kitten", b"sitting"), 3);
    assert_eq!(edit_distance(b"", b"abc"), 3);
    assert_eq!(edit_distance(b"abc", b"abc"), 0);
    assert_eq!(edit_distance(b"abc", b"xyz"), 3);
}

#[test]
fn warn_unknown_yaml_keys_with_flat_threshold_format() {
    let yaml_str = r#"
paths:
  - .
thresholds:
  mi-warning: 55
  mi-error: 40
  cc-warning: 10
  cc-error: 20
"#;
    let raw: serde_yaml::Value = serde_yaml::from_str(yaml_str).unwrap();
    let mapping = raw.as_mapping().unwrap();
    let thresholds = mapping
        .iter()
        .find(|(k, _)| k.as_str() == Some("thresholds"))
        .and_then(|(_, v)| v.as_mapping())
        .unwrap();
    let keys: Vec<String> = thresholds
        .keys()
        .filter_map(|k| k.as_str().map(String::from))
        .collect();
    let warnings = check_unknown_keys(&keys, &KNOWN_THRESHOLD_KEYS, "threshold");
    assert_eq!(warnings.len(), 4, "should warn about all 4 flat keys");
}

/// Similarity 1 − distance / longer length, as the key matcher weighs it.
fn normalized_similarity(a: &str, b: &str) -> f64 {
    let (m, n) = (a.len(), b.len());
    if m == 0 && n == 0 {
        return 1.0;
    }
    1.0 - edit_distance(a.as_bytes(), b.as_bytes()) as f64 / m.max(n) as f64
}

#[test]
fn normalized_similarity_identical() {
    assert!((normalized_similarity("abc", "abc") - 1.0).abs() < f64::EPSILON);
}

#[test]
fn normalized_similarity_completely_different() {
    let score = normalized_similarity("abc", "xyz");
    assert!(score < 0.5);
}

#[test]
fn best_match_for_key_takes_the_key_as_given() {
    assert_eq!(best_match_for_key(b"nest", &KNOWN_THRESHOLD_KEYS), Some("nesting"));
    assert_eq!(best_match_for_key(b"loc", &["loc", "sloc"]), Some("loc"));
    // The key is not lowercased here: upper-case letters count as different.
    assert_eq!(best_match_for_key(b"LOC", &["loc"]), None);
    assert_eq!(best_match_for_key(b"abc", &[]), None);
    // Equally close candidates: the first wins.
    assert_eq!(best_match_for_key(b"ab", &["ax", "ay"]), Some("ax"));
}
