use tsmetrics::metrics::function::halstead::HalsteadMetrics;
use tsmetrics::metrics::function::maintainability::{self, MaintainabilityInputs};

/// The index as the application derives it from the verified inputs.
struct MaintainabilityMetrics {
    name: String,
    mi: f64,
    mi_raw: f64,
    halstead_volume: f64,
    cyclomatic_complexity: usize,
    loc: usize,
}

fn volume(m: &HalsteadMetrics) -> f64 {
    if m.vocabulary <= 1 {
        0.0
    } else {
        m.length as f64 * (m.vocabulary as f64).log2()
    }
}

fn index(inputs: MaintainabilityInputs) -> MaintainabilityMetrics {
    let hv = volume(&inputs.halstead);
    let ln_hv = if hv > 0.0 { hv.ln() } else { 0.0 };
    let ln_loc = (inputs.loc.max(1) as f64).ln();
    let mi_raw = 171.0 - 5.2 * ln_hv - 0.23 * inputs.cyclomatic_complexity as f64 - 16.2 * ln_loc;
    let mi = (mi_raw / 171.0 * 100.0).clamp(0.0, 100.0);
    MaintainabilityMetrics {
        name: inputs.name,
        mi,
        mi_raw,
        halstead_volume: hv,
        cyclomatic_complexity: inputs.cyclomatic_complexity,
        loc: inputs.loc,
    }
}

fn compute(src: &str) -> Vec<MaintainabilityMetrics> {
    maintainability::compute(src).expect("parse failed").into_iter().map(index).collect()
}

fn first(src: &str) -> MaintainabilityMetrics {
    let results = compute(src);
    assert!(!results.is_empty(), "No function found in: {src}");
    results.into_iter().next().unwrap()
}






// ── AST-driven integration tests ─────────────────────────────────────────

#[test]
fn simple_function_has_high_mi() {
    // A short, straight-line function with no branches should have high MI.
    let src = r#"
        function add(a: number, b: number): number {
            return a + b;
        }
    "#;
    let m = first(src);
    assert!(
        m.mi >= 60.0,
        "simple function expected MI >= 60, got {:.2}",
        m.mi
    );
}

#[test]
fn complex_function_has_lower_mi() {
    // A function with many branches, long body, and complex expressions.
    let src = r#"
        function processData(data: number[]): number {
            let result = 0;
            for (let i = 0; i < data.length; i++) {
                if (data[i] > 0) {
                    if (data[i] % 2 === 0) {
                        result += data[i] * 2;
                    } else if (data[i] % 3 === 0) {
                        result += data[i] * 3;
                    } else {
                        result += data[i];
                    }
                } else if (data[i] < -10) {
                    result -= data[i];
                } else {
                    result += data[i] > -5 ? data[i] * -1 : 0;
                }
            }
            return result;
        }
    "#;
    let m = first(src);
    assert!(
        m.mi < 70.0,
        "complex function expected MI < 70, got {:.2}",
        m.mi
    );
}

#[test]
fn empty_function_body_returns_valid_mi() {
    // Empty function: no operators, one operand (name), 1 LOC → near-maximum MI.
    let src = "function noop() {}";
    let m = first(src);
    assert!(m.mi >= 90.0, "empty function expected MI >= 90, got {:.2}", m.mi);
    assert!(m.mi <= 100.0);
}

#[test]
fn single_line_function_has_high_mi() {
    let src = "const double = (x: number) => x * 2;";
    let m = first(src);
    assert!(
        m.mi >= 60.0,
        "single-line fn expected MI >= 60, got {:.2}",
        m.mi
    );
}

#[test]
fn name_is_reported_correctly() {
    let src = "function myFunc(x: number): number { return x + 1; }";
    let m = first(src);
    assert_eq!(m.name, "myFunc");
}

#[test]
fn maintainability_multiple_functions_all_collected() {
    let src = r#"
        function foo() { return 1; }
        function bar() { return 2; }
    "#;
    let results = compute(src);
    assert_eq!(results.len(), 2);
    let names: Vec<&str> = results.iter().map(|m| m.name.as_str()).collect();
    assert!(names.contains(&"foo"));
    assert!(names.contains(&"bar"));
}

#[test]
fn mi_fields_are_consistent() {
    let src = "function f(x: number): number { return x * x; }";
    let m = first(src);
    // Recompute expected MI_raw from fields.
    let ln_hv = if m.halstead_volume > 0.0 { m.halstead_volume.ln() } else { 0.0 };
    let ln_loc = (m.loc.max(1) as f64).ln();
    let expected_raw = 171.0 - 5.2 * ln_hv - 0.23 * m.cyclomatic_complexity as f64 - 16.2 * ln_loc;
    assert!((m.mi_raw - expected_raw).abs() < 1e-9);
    let expected_mi = (expected_raw / 171.0 * 100.0).clamp(0.0, 100.0);
    assert!((m.mi - expected_mi).abs() < 1e-9);
}
