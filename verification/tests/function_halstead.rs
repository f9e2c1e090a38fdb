use tsmetrics::metrics::function::halstead::{self, FunctionHalstead, HalsteadMetrics};

fn compute(src: &str) -> Vec<FunctionHalstead> {
    halstead::compute(src).expect("parse failed")
}

/// V = N × log₂(η), 0 when the vocabulary is at most 1.
fn volume(m: &HalsteadMetrics) -> f64 {
    if m.vocabulary <= 1 {
        0.0
    } else {
        m.length as f64 * (m.vocabulary as f64).log2()
    }
}

/// Convenience: compute and return the first function's metrics.
fn first(src: &str) -> HalsteadMetrics {
    let results = compute(src);
    assert!(!results.is_empty(), "No function found in: {src}");
    results.into_iter().next().unwrap().metrics
}

#[test]
fn empty_function_has_zero_volume() {
    // noop() has one operand ("noop"), zero operators → vocabulary = 1
    // log₂(1) = 0 → volume = 0.
    let m = &first("function noop() {}");
    assert_eq!(m.total_operators, 0, "no operators in empty fn");
    assert_eq!(m.distinct_operands, 1, "only 'noop' as operand");
    assert!((volume(m) - 0.0).abs() < 1e-9);
}

#[test]
fn function_with_only_return_has_positive_volume() {
    // function f() { return 1; }
    // Operators: return(×1)  → η₁=1, N₁=1
    // Operands:  f(×1), 1(×1) → η₂=2, N₂=2
    // η=3, N=3, V = 3×log₂(3)
    let m = &first("function f() { return 1; }");
    assert_eq!(m.distinct_operators, 1);
    assert_eq!(m.distinct_operands, 2);
    assert_eq!(m.total_operators, 1);
    assert_eq!(m.total_operands, 2);
    assert_eq!(m.vocabulary, 3);
    assert_eq!(m.length, 3);
    assert!((volume(m) - 3.0 * 3_f64.log2()).abs() < 1e-9);
}

// ── named function declarations ─────────────────────────────────────────

#[test]
fn simple_addition() {
    // function add(a, b) { return a + b; }
    // Operators: return(×1), +(×1)  → η₁=2, N₁=2
    // Operands:  add(×1), a(×2), b(×2) → η₂=3, N₂=5
    // η=5, N=7, V=7×log₂(5)
    let m = &first("function add(a, b) { return a + b; }");
    assert_eq!(m.distinct_operators, 2, "return and +");
    assert_eq!(m.distinct_operands, 3, "add, a, b");
    assert_eq!(m.total_operators, 2);
    assert_eq!(m.total_operands, 5);
    assert_eq!(m.vocabulary, 5);
    assert_eq!(m.length, 7);
    assert!((volume(m) - 7.0 * 5_f64.log2()).abs() < 1e-9);
}

#[test]
fn factorial_recursive() {
    // function factorial(n) {
    //   if (n <= 1) { return 1; }
    //   return n * factorial(n - 1);
    // }
    // Operators: if(×1), <=(×1), return(×2), *(×1), -(×1) → η₁=5, N₁=6
    // Operands:  factorial(fn-name + call=×2), n(param + cond + body + arg=×4), 1(cond + ret + arg=×3)
    //            → η₂=3, N₂=9
    // η=5+3=8, N=6+9=15, V=15×log₂(8)=15×3=45
    let src = "function factorial(n) { if (n <= 1) { return 1; } return n * factorial(n - 1); }";
    let m = &first(src);
    assert_eq!(m.distinct_operators, 5, "if <= return * -");
    assert_eq!(m.distinct_operands, 3, "factorial n 1");
    assert_eq!(m.total_operators, 6);
    assert_eq!(m.total_operands, 9);
    assert!((volume(m) - 45.0).abs() < 1e-6);
}

#[test]
fn function_name_reported_correctly() {
    let results = compute("function greet(name) { return name; }");
    assert_eq!(results[0].name, "greet");
}

// ── arrow functions ─────────────────────────────────────────────────────

#[test]
fn arrow_function_concise_body() {
    // const multiply = (x, y) => x * y;
    // Arrow function node starts at "arrow_function":
    // Operators: =>(×1), *(×1)  → η₁=2, N₁=2
    // Operands:  x(×2),  y(×2)  → η₂=2, N₂=4
    // η=4, N=6, V=6×log₂(4)=12
    let src = "const multiply = (x, y) => x * y;";
    let results = compute(src);
    assert!(!results.is_empty(), "arrow function should be found");
    let m = &results[0].metrics;
    assert_eq!(m.distinct_operators, 2, "=> and *");
    assert_eq!(m.distinct_operands, 2, "x and y");
    assert_eq!(m.total_operators, 2);
    assert_eq!(m.total_operands, 4);
    assert!((volume(m) - 12.0).abs() < 1e-9);
}

#[test]
fn arrow_function_block_body() {
    // const square = (n) => { return n * n; };
    // Operators: =>(×1), return(×1), *(×1) → η₁=3, N₁=3
    // Operands:  n(×3) → η₂=1, N₂=3 ... wait
    // Actually n appears in params (×1) and body (×2) = 3 total.
    // η=4, N=6, V=6×log₂(4)=12
    let src = "const square = (n) => { return n * n; };";
    let results = compute(src);
    assert!(!results.is_empty());
    let m = &results[0].metrics;
    assert_eq!(m.distinct_operands, 1, "only 'n'");
    assert!(volume(m) > 0.0);
}

#[test]
fn arrow_function_anonymous_name() {
    let src = "const fn = () => 42;";
    let results = compute(src);
    assert!(!results.is_empty());
    assert_eq!(results[0].name, "<anonymous>");
}

// ── class methods ────────────────────────────────────────────────────────

#[test]
fn class_method_metrics() {
    // class C { add(a, b) { return a + b; } }
    // Same token set as function add(a,b) { return a+b; }
    // Operators: return(×1), +(×1) → η₁=2, N₁=2
    // Operands:  add(×1), a(×2), b(×2) → η₂=3, N₂=5
    // V = 7×log₂(5)
    let src = "class C { add(a, b) { return a + b; } }";
    let results = compute(src);
    assert!(!results.is_empty());
    let m = &results[0].metrics;
    assert_eq!(m.distinct_operators, 2);
    assert_eq!(m.distinct_operands, 3);
    assert!((volume(m) - 7.0 * 5_f64.log2()).abs() < 1e-9);
}

#[test]
fn class_method_name_reported() {
    let src = "class Calculator { multiply(x, y) { return x * y; } }";
    let results = compute(src);
    assert_eq!(results[0].name, "multiply");
}

// ── generator functions ─────────────────────────────────────────────────

#[test]
fn generator_function_counted() {
    let src = "function* counter() { yield 1; yield 2; }";
    let m = &first(src);
    // Operators: *(from function*, kind "*" matches arithmetic *)×1, yield×2
    //            → η₁=2, N₁=3
    // Operands:  counter(×1), 1(×1), 2(×1) → η₂=3, N₂=3
    // Note: the "*" in "function*" is a known token-level simplification —
    // tree-sitter emits it as kind "*", indistinguishable from multiply.
    assert_eq!(m.distinct_operators, 2, "* (generator) and yield");
    assert_eq!(m.total_operators, 3, "*(×1) + yield(×2)");
    assert_eq!(m.distinct_operands, 3);
    assert!(volume(m) > 0.0);
}

// ── multiple functions ────────────────────────────────────────────────────

#[test]
fn halstead_multiple_functions_all_collected() {
    let src = "function a() { return 1; } function b() { return 2; }";
    let results = compute(src);
    assert_eq!(results.len(), 2);
    assert_eq!(results[0].name, "a");
    assert_eq!(results[1].name, "b");
}

#[test]
fn nested_function_produces_separate_entry() {
    let src = r#"
        function outer(x) {
            function inner(y) { return y + 1; }
            return inner(x);
        }
    "#;
    let results = compute(src);
    // Both outer and inner should be entries.
    assert_eq!(results.len(), 2);
    let names: Vec<&str> = results.iter().map(|r| r.name.as_str()).collect();
    assert!(names.contains(&"outer"));
    assert!(names.contains(&"inner"));
}

#[test]
fn nested_tokens_not_double_counted() {
    // The "return" and "1" inside inner should NOT inflate outer's metrics.
    let src = r#"
        function outer() {
            function inner() { return 1; }
            return 2;
        }
    "#;
    let results = compute(src);
    let outer = results.iter().find(|r| r.name == "outer").unwrap();
    let inner = results.iter().find(|r| r.name == "inner").unwrap();

    // outer has: return(×1), 2(×1), outer(×1)  — NOT inner's tokens
    assert_eq!(outer.metrics.total_operators, 1, "outer has one return");
    // inner has: return(×1), inner(×1), 1(×1)
    assert_eq!(inner.metrics.total_operators, 1, "inner has one return");
}

// ── monotonicity ─────────────────────────────────────────────────────────

#[test]
fn more_complex_function_has_higher_volume() {
    let simple = &first("function f() { return 1; }");
    let complex = &first(
        "function g(a, b, c) { if (a > 0) { return a + b; } return b * c; }",
    );
    assert!(
        volume(complex) > volume(simple),
        "complex V={} should exceed simple V={}",
        volume(complex),
        volume(simple)
    );
}

// ── Halstead invariant ────────────────────────────────────────────────────

#[test]
fn vocabulary_equals_eta1_plus_eta2() {
    let m = &first("function add(a, b) { return a + b; }");
    assert_eq!(m.vocabulary, m.distinct_operators + m.distinct_operands);
}

#[test]
fn length_equals_n1_plus_n2() {
    let m = &first("function add(a, b) { return a + b; }");
    assert_eq!(m.length, m.total_operators + m.total_operands);
}

#[test]
fn volume_formula_holds() {
    let m = &first("function add(a, b) { return a + b; }");
    let expected = m.length as f64 * (m.vocabulary as f64).log2();
    assert!((volume(m) - expected).abs() < 1e-9);
}
