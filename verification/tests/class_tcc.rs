use tsmetrics::metrics::class::tcc::{compute_class_tcc, count_tcc_methods, tcc_pairs_fit_exec, ClassTcc};
use tsmetrics::metrics::file_pairs_fit_exec;
use tsmetrics::strset::pairs_fit_exec;
use tsmetrics::parse::parse_typescript;

fn tcc_for(src: &str) -> Vec<ClassTcc> {
    let tree = parse_typescript(src).expect("parse failed");
    compute_class_tcc(&tree, tree.root())
}

/// TCC = connected / total pairs, 1.0 with fewer than two methods.
fn tcc(c: &ClassTcc) -> f64 {
    if c.method_count <= 1 || c.total_pairs == 0 {
        1.0
    } else {
        c.connected_pairs as f64 / c.total_pairs as f64
    }
}

#[test]
fn test_fully_cohesive_class() {
    let src = r#"
class Cohesive {
private x: number;
getX(): number { return this.x; }
setX(v: number): void { this.x = v; }
doubleX(): number { return this.x * 2; }
}
"#;
    let results = tcc_for(src);
    assert_eq!(results.len(), 1);
    let c = &results[0];
    assert_eq!(c.class_name, "Cohesive");
    assert_eq!(c.method_count, 3);
    assert_eq!(c.total_pairs, 3);
    assert_eq!(c.connected_pairs, 3);
    assert!((tcc(&c) - 1.0).abs() < 1e-9, "expected TCC=1.0, got {}", tcc(&c));
}

// ── Non-cohesive (TCC = 0.0) ───────────────────────────────────────────

/// getA accesses only `a`; getB accesses only `b` — no shared field.
/// connected=0, total=1, TCC=0.0
#[test]
fn test_non_cohesive_class() {
    let src = r#"
class NonCohesive {
private a: number;
private b: number;
getA(): number { return this.a; }
getB(): number { return this.b; }
}
"#;
    let results = tcc_for(src);
    assert_eq!(results.len(), 1);
    let c = &results[0];
    assert_eq!(c.class_name, "NonCohesive");
    assert_eq!(c.method_count, 2);
    assert_eq!(c.total_pairs, 1);
    assert_eq!(c.connected_pairs, 0);
    assert!((tcc(&c) - 0.0).abs() < 1e-9, "expected TCC=0.0, got {}", tcc(&c));
}

// ── Partially cohesive (TCC = 2/3) ────────────────────────────────────

/// getX:{x}, getY:{y}, getSum:{x,y}
/// Pairs: (getX,getY) ✗  (getX,getSum) ✓  (getY,getSum) ✓
/// connected=2, total=3, TCC=2/3
#[test]
fn test_partially_cohesive_class() {
    let src = r#"
class Partial {
private x: number;
private y: number;
getX(): number { return this.x; }
getY(): number { return this.y; }
getSum(): number { return this.x + this.y; }
}
"#;
    let results = tcc_for(src);
    assert_eq!(results.len(), 1);
    let c = &results[0];
    assert_eq!(c.class_name, "Partial");
    assert_eq!(c.method_count, 3);
    assert_eq!(c.total_pairs, 3);
    assert_eq!(c.connected_pairs, 2);
    assert!(
        (tcc(&c) - 2.0 / 3.0).abs() < 1e-9,
        "expected TCC=2/3, got {}",
        tcc(&c)
    );
}

// ── Single method → TCC = 1.0 ─────────────────────────────────────────

/// A class with exactly one method has no pairs, so TCC is defined as 1.0.
#[test]
fn test_single_method_class() {
    let src = r#"
class Single {
private val: number;
getValue(): number { return this.val; }
}
"#;
    let results = tcc_for(src);
    assert_eq!(results.len(), 1);
    let c = &results[0];
    assert_eq!(c.class_name, "Single");
    assert_eq!(c.method_count, 1);
    assert_eq!(c.total_pairs, 0);
    assert_eq!(c.connected_pairs, 0);
    assert!((tcc(&c) - 1.0).abs() < 1e-9, "expected TCC=1.0, got {}", tcc(&c));
}

// ── Empty class → TCC = 1.0 ───────────────────────────────────────────

#[test]
fn tcc_test_empty_class() {
    let src = "class Empty {}";
    let results = tcc_for(src);
    assert_eq!(results.len(), 1);
    let c = &results[0];
    assert_eq!(c.method_count, 0);
    assert_eq!(c.total_pairs, 0);
    assert!((tcc(&c) - 1.0).abs() < 1e-9, "expected TCC=1.0, got {}", tcc(&c));
}

// ── Getters and setters sharing fields ────────────────────────────────

/// getter and setter both access `_count`.
/// connected=1, total=1, TCC=1.0
#[test]
fn test_getters_setters_sharing_field() {
    let src = r#"
class Counter {
private _count: number = 0;
get count(): number { return this._count; }
set count(v: number) { this._count = v; }
}
"#;
    let results = tcc_for(src);
    assert_eq!(results.len(), 1);
    let c = &results[0];
    assert_eq!(c.class_name, "Counter");
    assert_eq!(c.method_count, 2);
    assert_eq!(c.total_pairs, 1);
    assert_eq!(c.connected_pairs, 1);
    assert!((tcc(&c) - 1.0).abs() < 1e-9, "expected TCC=1.0, got {}", tcc(&c));
}

// ── Constructor participates in cohesion calculation ──────────────────

/// constructor writes `this.x`; getter reads `this.x` → connected.
/// connected=1, total=1, TCC=1.0
#[test]
fn tcc_test_constructor_counts_as_method() {
    let src = r#"
class Widget {
private x: number;
constructor(x: number) { this.x = x; }
getX(): number { return this.x; }
}
"#;
    let results = tcc_for(src);
    assert_eq!(results.len(), 1);
    let c = &results[0];
    assert_eq!(c.method_count, 2);
    assert_eq!(c.connected_pairs, 1);
    assert!((tcc(&c) - 1.0).abs() < 1e-9, "expected TCC=1.0, got {}", tcc(&c));
}

// ── Multiple classes in one file ──────────────────────────────────────

#[test]
fn tcc_test_multiple_classes_measured_independently() {
    let src = r#"
class A {
private v: number;
getV(): number { return this.v; }
setV(x: number): void { this.v = x; }
}
class B {
private p: string;
private q: string;
getP(): string { return this.p; }
getQ(): string { return this.q; }
}
"#;
    let results = tcc_for(src);
    assert_eq!(results.len(), 2);

    let a = results.iter().find(|c| c.class_name == "A").unwrap();
    assert_eq!(a.method_count, 2);
    assert_eq!(a.connected_pairs, 1);
    assert!((tcc(&a) - 1.0).abs() < 1e-9, "A: expected TCC=1.0");

    let b = results.iter().find(|c| c.class_name == "B").unwrap();
    assert_eq!(b.method_count, 2);
    assert_eq!(b.connected_pairs, 0);
    assert!((tcc(&b) - 0.0).abs() < 1e-9, "B: expected TCC=0.0");
}

#[test]
fn pair_counts_fit_checks() {
    assert!(pairs_fit_exec(0));
    assert!(pairs_fit_exec(1));
    assert!(pairs_fit_exec(65536));
    assert!(!pairs_fit_exec(usize::MAX));
    assert!(!pairs_fit_exec(1usize << (usize::BITS / 2 + 1)));
    let src = "class A { a() {} b() {} c() {} x = 1; }\nclass B {}\n";
    let tree = tsmetrics::parse::parse_typescript(src).expect("parse failed");
    let class_a = (0..tree.node_count()).find(|&i| tree.kind_of(i) == "class_declaration").expect("no class");
    assert_eq!(count_tcc_methods(&tree, class_a), 3);
    assert!(tcc_pairs_fit_exec(&tree, tree.root()));
    assert!(file_pairs_fit_exec(&tree));
}
