use tsmetrics::parse::is_tsx_path;
use tsmetrics::strset::sort_unique;
use tsmetrics::thresholds::find_best_match;

const KNOWN: [&str; 3] = ["cyclomatic_complexity", "maintainability_index", "halstead_volume"];

#[test]
fn best_match_ignores_case_and_hyphens() {
    assert_eq!(find_best_match("Cyclomatic-Complexity", &KNOWN), Some("cyclomatic_complexity"));
    assert_eq!(find_best_match("HALSTEAD-VOLUME", &KNOWN), Some("halstead_volume"));
    assert_eq!(find_best_match("zzz", &KNOWN), None);
}

#[test]
fn tsx_paths_by_extension() {
    assert!(is_tsx_path("src/App.tsx"));
    assert!(!is_tsx_path("src/app.ts"));
    assert!(!is_tsx_path("tsx"));
}

#[test]
fn sort_unique_orders_and_dedups() {
    let v: Vec<String> = ["b", "a", "c", "a", "b"].iter().map(|s| s.to_string()).collect();
    assert_eq!(sort_unique(&v), vec!["a".to_string(), "b".to_string(), "c".to_string()]);
}
