use tsmetrics::metrics::class::tcc::compute_class_tcc;
use tsmetrics::metrics::class::wmc::{compute_wmc, count_methods};
use tsmetrics::metrics::function::FunctionMetrics;
use tsmetrics::metrics::module::cohesion::compute_module_cohesion;
use tsmetrics::metrics::module::purity::compute_module_purity;
use tsmetrics::parse::parse_typescript;
use tsmetrics::strategies::brain_method::{detect_brain_methods, BrainMethodConfig};
use tsmetrics::strategies::feature_envy::{detect_feature_envy, ATFD_THRESHOLD};
use tsmetrics::thresholds::{edit_distance, MetricThreshold, Severity};

fn rank(s: Option<Severity>) -> u8 {
    match s {
        None => 0,
        Some(Severity::Warning) => 1,
        Some(Severity::Error) => 2,
    }
}

#[test]
fn severity_never_drops_as_value_grows() {
    let th = MetricThreshold::new(10, 20);
    let mut last = 0;
    for v in 0..30 {
        let r = rank(th.check(v));
        assert!(r >= last);
        last = r;
    }
    assert_eq!(th.check(9), None);
    assert_eq!(th.check(10), Some(Severity::Warning));
    assert_eq!(th.check(20), Some(Severity::Error));
}

#[test]
fn class_tcc_connected_pairs_within_total() {
    let src = "class A { a() { return this.x; } b() { return this.x + this.y; } c() { return this.y; } d() { return 1; } }";
    let tree = parse_typescript(src).expect("parse failed");
    for c in compute_class_tcc(&tree, tree.root()) {
        assert!(c.connected_pairs <= c.total_pairs);
        assert_eq!(c.total_pairs, 6);
        assert_eq!(c.connected_pairs, 2);
    }
}

#[test]
fn module_cohesion_connected_pairs_within_total() {
    let src = "import { a } from './a';\nimport { b } from './b';\nexport function f() { return a(); }\nexport function g() { return a() + b(); }\nexport function h() { return 1; }\n";
    let tree = parse_typescript(src).expect("parse failed");
    let m = compute_module_cohesion(&tree);
    assert!(m.connected_pairs <= m.total_pairs);
}

#[test]
fn pure_functions_within_total() {
    let src = "function f(x: number) { return x + 1; }\nfunction g() { console.log(1); }\n";
    let tree = parse_typescript(src).expect("parse failed");
    let r = compute_module_purity(&tree, tree.root(), "m.ts");
    assert!(r.pure_functions <= r.total_functions);
    assert_eq!(r.total_functions, 2);
}

#[test]
fn raising_brain_thresholds_never_flags_more() {
    let f = |loc: usize, cc: usize, n: usize| FunctionMetrics {
        name: "f".to_string(),
        loc,
        sloc: loc,
        cyclomatic_complexity: cc,
        max_nesting: n,
        ..FunctionMetrics::default()
    };
    let fs = vec![f(100, 10, 5), f(70, 6, 4), f(20, 2, 1)];
    let lo = BrainMethodConfig { loc_threshold: 10, cc_threshold: 1, nesting_threshold: 0 };
    let hi = BrainMethodConfig::default();
    let a = detect_brain_methods(&fs, &lo).len();
    let b = detect_brain_methods(&fs, &hi).len();
    assert_eq!(a, 3);
    assert_eq!(b, 2);
    assert!(b <= a);
}

#[test]
fn envy_reports_exceed_threshold_and_local_accesses() {
    let src = "class R { g() { return a.x + a.y + a.z + b.x + b.y + b.z + this.q; } h() { return this.a; } }";
    let tree = parse_typescript(src).expect("parse failed");
    let rs = detect_feature_envy(&tree, tree.root());
    assert_eq!(rs.len(), 1);
    for r in rs {
        assert!(r.atfd > ATFD_THRESHOLD);
        assert!(r.atfd > r.local_accesses);
    }
}

#[test]
fn edit_distance_of_a_name_to_itself_is_zero() {
    assert_eq!(edit_distance(b"cyclomatic_complexity", b"cyclomatic_complexity"), 0);
    assert_eq!(edit_distance(b"", b""), 0);
}

#[test]
fn wmc_is_at_least_the_method_count() {
    let src = "class A { a() { if (x) { return 1; } return 2; } b() {} c() { return y ? 1 : 2; } }";
    let tree = parse_typescript(src).expect("parse failed");
    let c = (0..tree.node_count()).find(|&i| tree.is_kind(i, "class_declaration")).unwrap();
    let w = compute_wmc(&tree, c);
    let n = count_methods(&tree, c);
    assert_eq!(n, 3);
    assert_eq!(w, 5);
    assert!(w >= n);
}

#[test]
fn exclusions_only_grow_with_more_patterns() {
    let none: Vec<String> = vec![];
    let some = vec!["**/*.spec.ts".to_string()];
    let more = vec!["**/*.spec.ts".to_string(), "gen".to_string()];
    let comps = |v: &[&str]| v.iter().map(|s| s.to_string()).collect::<Vec<String>>();
    // Default names are excluded whatever the patterns.
    assert!(tsmetrics::utils::is_excluded_name("node_modules", &none));
    assert!(tsmetrics::utils::is_excluded_name("node_modules", &more));
    // A path excluded under some patterns stays excluded with more.
    let p = "src/a.spec.ts";
    let c = comps(&["src", "a.spec.ts"]);
    assert!(!tsmetrics::utils::is_excluded_path(p, &c, &none));
    assert!(tsmetrics::utils::is_excluded_path(p, &c, &some));
    assert!(tsmetrics::utils::is_excluded_path(p, &c, &more));
    assert!(tsmetrics::utils::is_excluded_entry("gen", "src/gen", &more));
    assert!(!tsmetrics::utils::is_excluded_entry("gen", "src/gen", &some));
}

#[test]
fn no_jsx_means_no_render_complexity() {
    let tree = tsmetrics::parse::parse_tsx("function f(a) { return a && b ? c.map(x => x) : 0; }").expect("parse failed");
    let r = tsmetrics::metrics::react::render_complexity::compute_render_complexity(&tree, tree.root());
    assert_eq!(r.total, 0);
    let with_jsx = tsmetrics::parse::parse_tsx("const v = <div>{a && <b/>}</div>;").expect("parse failed");
    let r2 = tsmetrics::metrics::react::render_complexity::compute_render_complexity(&with_jsx, with_jsx.root());
    assert_eq!(r2.total, 2);
}

#[test]
fn spread_levels_are_at_least_one() {
    let tree = tsmetrics::parse::parse_tsx("const v = <A {...p}><B {...q}><C {...r} /></B></A>;").expect("parse failed");
    let r = tsmetrics::metrics::react::prop_drilling::compute_prop_drilling(&tree, tree.root());
    assert!(!r.spread_prop_depths.is_empty());
    assert!(r.spread_prop_depths.iter().all(|&d| d >= 1));
}
