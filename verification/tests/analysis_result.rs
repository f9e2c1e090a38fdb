use tsmetrics::analysis::{class_violations, fails_on, flag_of, function_violations, AnalysisResult, FailOn};
use tsmetrics::metrics::function::FunctionMetrics;
use tsmetrics::metrics::compute_file_metrics;
use tsmetrics::parse::parse_file;
use tsmetrics::suppression::{class_suppressions, function_suppressions};
use tsmetrics::thresholds::{MetricThreshold, Severity, ThresholdsConfig, Violation};

fn file(src: &str, path: &str) -> tsmetrics::metrics::FileMetrics {
    let tree = parse_file(src, path).expect("parse failed");
    compute_file_metrics(&tree, path).expect("parse failed")
}

#[test]
fn totals_are_sums_over_added_files() {
    let mut r = AnalysisResult::new();
    let a = file("function a() { return 1; }\nfunction b() {}\n", "a.ts");
    let b = file("const f = () => 2;\n", "b.ts");
    let (la, fa) = (a.total_loc, a.function_count);
    let (lb, fb) = (b.total_loc, b.function_count);
    r.add_file(a);
    r.add_file(b);
    assert_eq!(r.total_files, 2);
    assert_eq!(r.total_loc, la + lb);
    assert_eq!(r.total_functions, fa + fb);
    assert_eq!(r.total_functions, 3);
    assert_eq!(r.files.len(), 2);
}

#[test]
fn violations_are_appended_in_order() {
    let mut r = AnalysisResult::default();
    let v = |metric: &str| Violation {
        file: "x.ts".to_string(),
        line: 1,
        entity: "f".to_string(),
        metric: metric.to_string(),
        value: 30,
        threshold: 20,
        severity: Severity::Error,
        suppressed: false,
    };
    r.add_violations(vec![v("loc")]);
    r.add_violations(vec![v("nesting"), v("params")]);
    let metrics: Vec<&str> = r.violations.iter().map(|x| x.metric.as_str()).collect();
    assert_eq!(metrics, vec!["loc", "nesting", "params"]);
    assert_eq!(r.total_files, 0);
}

#[test]
fn suppression_flags_follow_functions_and_classes() {
    let src = "// tsmetrics-disable-next-function\nfunction a() {}\nfunction b() {}\n// tsmetrics-disable-next-class\nclass C {}\nclass D {}\n";
    let tree = parse_file(src, "s.ts").expect("parse failed");
    assert_eq!(function_suppressions(&tree, tree.root()), vec![true, false]);
    assert_eq!(class_suppressions(&tree, tree.root()), vec![true, false]);
}

#[test]
fn module_directive_suppresses_every_entity() {
    let src = "// tsmetrics-disable-module\nfunction a() {}\nclass C { m() {} }\n";
    let tree = parse_file(src, "s.ts").expect("parse failed");
    assert_eq!(function_suppressions(&tree, tree.root()), vec![true, true]);
    assert_eq!(class_suppressions(&tree, tree.root()), vec![true]);
}

#[test]
fn display_filters_keep_reaching_functions_and_recount() {
    let mut r = AnalysisResult::new();
    let mut a = file("function a() { return 1; }\n", "a.ts");
    let mut b = file("function b() {}\n", "b.ts");
    a.functions = vec![
        FunctionMetrics { name: "big".to_string(), cyclomatic_complexity: 8, loc: 40, ..FunctionMetrics::default() },
        FunctionMetrics { name: "small".to_string(), cyclomatic_complexity: 1, loc: 3, ..FunctionMetrics::default() },
    ];
    b.functions = vec![FunctionMetrics { name: "tiny".to_string(), cyclomatic_complexity: 2, loc: 2, ..FunctionMetrics::default() }];
    r.add_file(a);
    r.add_file(b);
    r.apply_display_filters(Some(5), None);
    assert_eq!(r.total_functions, 1);
    assert_eq!(r.total_files, 1);
    assert_eq!(r.files[0].functions.len(), 1);
    assert_eq!(r.files[0].functions[0].name, "big");
    assert!(r.files[1].functions.is_empty());
}

#[test]
fn display_filters_absent_change_nothing() {
    let mut r = AnalysisResult::new();
    r.add_file(file("function a() {}\nfunction b() {}\n", "a.ts"));
    let before = r.clone();
    r.apply_display_filters(None, None);
    assert_eq!(r, before);
}

#[test]
fn fail_on_levels() {
    let warn = vec![(Severity::Warning, false)];
    let err_suppressed = vec![(Severity::Error, true)];
    let err = vec![(Severity::Warning, false), (Severity::Error, false)];
    assert!(fails_on(&warn, FailOn::Warning));
    assert!(!fails_on(&warn, FailOn::Error));
    assert!(!fails_on(&err_suppressed, FailOn::Warning));
    assert!(!fails_on(&err_suppressed, FailOn::Error));
    assert!(fails_on(&err, FailOn::Error));
    assert!(!fails_on(&vec![], FailOn::Warning));
}

#[test]
fn per_file_violations_carry_suppression_flags() {
    let src = "// tsmetrics-disable-next-function\nfunction a(p, q, r) { return 1; }\nfunction b(p, q, r) {}\nclass C { m() {} n() {} }\n";
    let tree = parse_file(src, "s.ts").expect("parse failed");
    let fm = compute_file_metrics(&tree, "s.ts").expect("parse failed");
    let mut th = ThresholdsConfig::default();
    th.params = MetricThreshold::new(2, 3);
    th.wmc = MetricThreshold::new(1, 5);
    let fs = function_suppressions(&tree, tree.root());
    let fv = function_violations(&fm.functions, &fs, &th);
    assert_eq!(fv.len(), 4);
    assert_eq!(fv[0].len(), 1);
    assert_eq!(fv[0][0].metric, "params");
    assert_eq!(fv[0][0].entity, "a");
    assert_eq!(fv[0][0].severity, Severity::Error);
    assert!(fv[0][0].suppressed);
    assert_eq!(fv[1][0].entity, "b");
    assert!(!fv[1][0].suppressed);
    // The methods of C take no parameters.
    assert!(fv[2].is_empty() && fv[3].is_empty());
    let cv = class_violations(&fm.classes, &class_suppressions(&tree, tree.root()), &th);
    assert_eq!(cv.len(), 1);
    assert_eq!(cv[0].len(), 1);
    assert_eq!(cv[0][0].metric, "wmc");
    assert_eq!(cv[0][0].value, 2);
    assert_eq!(cv[0][0].severity, Severity::Warning);
    assert!(!cv[0][0].suppressed);
    // Flags missing past the end count as not suppressed.
    let none = function_violations(&fm.functions, &vec![], &th);
    assert!(!none[0][0].suppressed);
    assert!(flag_of(&vec![true], 0));
    assert!(!flag_of(&vec![true], 1));
}
