use tsmetrics::parse::parse_typescript;
use tsmetrics::strategies::feature_envy::{detect_feature_envy, FeatureEnvyResult};

fn detect(src: &str) -> Vec<FeatureEnvyResult> {
    let tree = parse_typescript(src).expect("parse failed");
    detect_feature_envy(&tree, tree.root())
}

fn method_names(smells: &[FeatureEnvyResult]) -> Vec<&str> {
    smells.iter().map(|s| s.method_name.as_str()).collect()
}

#[test]
fn empty_class_not_flagged() {
    let smells = detect("class Empty {}");
    assert!(smells.is_empty());
}

#[test]
fn method_with_no_accesses_not_flagged() {
    let src = r#"
class A {
doNothing(): void {}
}
"#;
    let smells = detect(src);
    assert!(smells.is_empty());
}

// ── Local-only accesses — not flagged ─────────────────────────────────────

#[test]
fn method_with_only_local_accesses_not_flagged() {
    // 7 this.x accesses, 0 foreign → not flagged
    let src = r#"
class A {
compute(): number {
    return this.a + this.b + this.c + this.d + this.e + this.f + this.g;
}
}
"#;
    let smells = detect(src);
    assert!(smells.is_empty(), "only local accesses must not be flagged");
}

// ── Feature Envy: ATFD > 5 AND atfd > local ───────────────────────────────

#[test]
fn method_with_six_foreign_and_zero_local_flagged() {
    // 6 foreign data accesses (a.x a.y a.z b.x b.y b.z), 0 local
    let src = r#"
class Report {
generate(): number {
    return a.x + a.y + a.z + b.x + b.y + b.z;
}
}
"#;
    let smells = detect(src);
    assert_eq!(
        smells.len(),
        1,
        "method with 6 foreign accesses and 0 local must be flagged"
    );
    assert_eq!(smells[0].method_name, "generate");
    assert_eq!(smells[0].atfd, 6);
    assert_eq!(smells[0].local_accesses, 0);
}

#[test]
fn method_with_six_foreign_and_fewer_local_flagged() {
    // 6 foreign, 1 local → 6 > 5 AND 6 > 1 → flagged
    let src = r#"
class Processor {
process(): void {
    const v1 = repo.data;
    const v2 = repo.status;
    const v3 = repo.count;
    const v4 = logger.level;
    const v5 = logger.enabled;
    const v6 = cache.hits;
    this.result = v1;
}
}
"#;
    let smells = detect(src);
    assert_eq!(smells.len(), 1);
    assert_eq!(smells[0].atfd, 6);
    assert_eq!(smells[0].local_accesses, 1);
}

// ── Exactly 5 foreign — not flagged (threshold is strict >) ──────────────

#[test]
fn method_with_exactly_five_foreign_not_flagged() {
    // ATFD = 5, not > 5 → not flagged
    let src = r#"
class A {
compute(): number {
    return a.x + a.y + a.z + b.x + b.y;
}
}
"#;
    let smells = detect(src);
    assert!(
        smells.is_empty(),
        "exactly 5 foreign accesses must not be flagged (threshold is > 5)"
    );
}

// ── More local than foreign — not flagged ─────────────────────────────────

#[test]
fn method_with_more_local_than_foreign_not_flagged() {
    // 6 foreign but 10 local → ATFD > 5 but atfd NOT > local → not flagged
    let src = r#"
class A {
compute(): number {
    return this.a + this.b + this.c + this.d + this.e
         + this.f + this.g + this.h + this.i + this.j
         + b.x + b.y + b.z + c.x + c.y + c.z;
}
}
"#;
    let smells = detect(src);
    assert!(
        smells.is_empty(),
        "more local than foreign accesses must not be flagged"
    );
}

// ── Equal foreign and local — not flagged (strict >) ─────────────────────

#[test]
fn method_with_equal_foreign_and_local_not_flagged() {
    // 6 foreign, 6 local → ATFD > 5 but atfd NOT > local (equal) → not flagged
    let src = r#"
class A {
compute(): number {
    return this.a + this.b + this.c + this.d + this.e + this.f
         + b.x + b.y + b.z + c.x + c.y + c.z;
}
}
"#;
    let smells = detect(src);
    assert!(
        smells.is_empty(),
        "equal foreign and local must not be flagged (strict >)"
    );
}

// ── Method calls are NOT counted as ATFD ──────────────────────────────────

#[test]
fn method_calls_not_counted_as_atfd() {
    // obj.method() calls — these are call_expressions, not data accesses
    let src = r#"
class A {
doWork(): void {
    obj.method1();
    obj.method2();
    obj.method3();
    obj.method4();
    obj.method5();
    obj.method6();
}
}
"#;
    let smells = detect(src);
    assert!(
        smells.is_empty(),
        "method calls must not count as ATFD; got {:?}",
        smells
    );
}

// ── this.method() calls NOT counted as local accesses ────────────────────

#[test]
fn this_method_calls_not_counted_as_local() {
    // this.step1() and this.step2() are calls, not data accesses
    // foreign = 6, local = 0 → 6 > 5 AND 6 > 0 → flagged
    let src = r#"
class A {
orchestrate(): void {
    this.step1();
    this.step2();
    const x = repo.a + repo.b + repo.c + repo.d + repo.e + repo.f;
}
}
"#;
    let smells = detect(src);
    assert_eq!(
        smells.len(),
        1,
        "this.method() calls must not count as local accesses"
    );
    assert_eq!(smells[0].local_accesses, 0, "no local data accesses expected");
    assert_eq!(smells[0].atfd, 6);
}

// ── Multiple methods — only guilty ones returned ──────────────────────────

#[test]
fn only_guilty_methods_returned_per_class() {
    let src = r#"
class MyClass {
clean(): void {
    this.x + this.y;
}

envious(): void {
    const v = repo.a + repo.b + repo.c + repo.d + repo.e + repo.f;
    this.x + this.y;
}
}
"#;
    let smells = detect(src);
    assert_eq!(smells.len(), 1);
    assert_eq!(smells[0].method_name, "envious");
}

// ── Multiple classes — only guilty methods returned ───────────────────────

#[test]
fn mixed_file_only_guilty_methods_returned() {
    let src = r#"
class Clean {
simple(): void {
    this.x + repo.a + repo.b;
}
}

class Smelly {
envious(): void {
    const v = repo.a + repo.b + repo.c + repo.d + repo.e + repo.f;
    this.x + this.y;
}

alsoClean(): void {
    this.a + this.b;
}
}
"#;
    let smells = detect(src);
    assert_eq!(smells.len(), 1);
    assert_eq!(smells[0].class_name, "Smelly");
    assert_eq!(smells[0].method_name, "envious");
}

// ── Abstract class methods are checked ────────────────────────────────────

#[test]
fn abstract_class_methods_checked() {
    let src = r#"
abstract class AbstractProcessor {
process(): void {
    const v = repo.a + repo.b + repo.c + repo.d + repo.e + repo.f;
}
}
"#;
    let smells = detect(src);
    assert_eq!(smells.len(), 1);
    assert_eq!(smells[0].class_name, "AbstractProcessor");
    assert_eq!(smells[0].method_name, "process");
}

// ── Fields populated correctly ─────────────────────────────────────────────

#[test]
fn feature_envy_fields_populated_correctly() {
    let src = r#"
class MyClass {
myMethod(): void {
    const a1 = repo.data;
    const a2 = repo.status;
    const a3 = cache.hits;
    const a4 = cache.misses;
    const a5 = logger.level;
    const a6 = logger.enabled;
    this.result = a1;
    this.count = a6;
}
}
"#;
    let smells = detect(src);
    assert_eq!(smells.len(), 1);
    let s = &smells[0];
    assert_eq!(s.class_name, "MyClass");
    assert_eq!(s.method_name, "myMethod");
    assert_eq!(s.atfd, 6);
    assert_eq!(s.local_accesses, 2);
    assert!(s.line > 0);
}

// ── Line number is the method declaration line ─────────────────────────────

#[test]
fn line_number_is_method_start() {
    // Line 1: empty, Line 2: class A {, Line 3: method declaration
    let src = "\nclass A {\n    envious(): void {\n        const x = r.a + r.b + r.c + r.d + r.e + r.f;\n    }\n}\n";
    let smells = detect(src);
    assert_eq!(smells.len(), 1);
    assert_eq!(smells[0].line, 3, "line should be the method declaration line");
}

// ── Empty source ───────────────────────────────────────────────────────────

#[test]
fn empty_input_returns_empty() {
    let smells = detect("");
    assert!(smells.is_empty());
}

// ── Multiple guilty methods in one class ──────────────────────────────────

#[test]
fn multiple_guilty_methods_all_reported() {
    let src = r#"
class GodClass {
methodA(): void {
    const x = a.p + a.q + a.r + b.p + b.q + b.r;
}

methodB(): void {
    const y = c.x + c.y + c.z + d.x + d.y + d.z;
}

clean(): void {
    this.data + this.count;
}
}
"#;
    let smells = detect(src);
    let names = method_names(&smells);
    assert_eq!(smells.len(), 2);
    assert!(names.contains(&"methodA"), "methodA must be flagged");
    assert!(names.contains(&"methodB"), "methodB must be flagged");
    assert!(!names.contains(&"clean"), "clean must not be flagged");
}

// ── Class expression (named) is also checked ──────────────────────────────

#[test]
fn named_class_expression_methods_checked() {
    let src = r#"
const Foo = class FooClass {
envious(): void {
    const x = r.a + r.b + r.c + r.d + r.e + r.f;
}
};
"#;
    let smells = detect(src);
    assert_eq!(smells.len(), 1);
    assert_eq!(smells[0].class_name, "FooClass");
}
