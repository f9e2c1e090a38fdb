use tsmetrics::parse::parse_typescript;
use tsmetrics::strategies::god_class::{compute_atfd, detect_god_classes, GodClassConfig, GodClassResult};
use tsmetrics::strategies::Fraction;
use tsmetrics::syntax::SyntaxTree;

fn detect(src: &str) -> Vec<GodClassResult> {
    let tree = parse_typescript(src).expect("parse failed");
    detect_god_classes(&tree, tree.root(), &GodClassConfig::default())
}

fn find_first_class(tree: &SyntaxTree) -> Option<usize> {
    (0..tree.node_count()).find(|&i| tree.is_kind_in(i, &["class_declaration", "abstract_class_declaration", "class"]))
}

fn atfd_for(src: &str) -> usize {
    let tree = parse_typescript(src).expect("parse failed");
    match find_first_class(&tree) {
        Some(cls) => compute_atfd(&tree, cls),
        None => 0,
    }
}

/// Tight Class Cohesion as the application derives it from the pair counts.
fn tcc(r: &GodClassResult) -> f64 {
    if r.tcc_total_pairs == 0 {
        1.0
    } else {
        r.tcc_connected_pairs as f64 / r.tcc_total_pairs as f64
    }
}

/// Generate source for a clearly-over-threshold God Class.
///
/// - 48 methods accessing unique `this.fN` → WMC = 54, TCC = 0.0
/// - 6 methods accessing foreign params    → ATFD = 6
fn god_class_src() -> String {
    let mut src = String::from("class GodClass {\n");
    for i in 0..48 {
        src.push_str(&format!("    m{i}(): number {{ return this.f{i}; }}\n"));
    }
    src.push_str("    fetchA(repo: any) { return repo.data; }\n");
    src.push_str("    fetchB(svc: any) { return svc.value; }\n");
    src.push_str("    fetchC(obj: any) { return obj.name; }\n");
    src.push_str("    fetchD(store: any) { return store.items; }\n");
    src.push_str("    fetchE(api: any) { return api.response; }\n");
    src.push_str("    fetchF(db: any) { return db.records; }\n");
    src.push_str("}\n");
    src
}

#[test]
fn test_atfd_no_foreign_accesses() {
    let src = r#"
class Pure {
getValue(): number { return this.value; }
setValue(v: number): void { this.value = v; }
}
"#;
    assert_eq!(atfd_for(src), 0);
}

#[test]
fn test_atfd_single_foreign_access() {
    let src = r#"
class Borrower {
process(dep: any): string { return dep.name; }
}
"#;
    assert_eq!(atfd_for(src), 1);
}

#[test]
fn test_atfd_this_not_counted() {
    let src = r#"
class Own {
greet(): string { return this.name; }
}
"#;
    assert_eq!(atfd_for(src), 0);
}

#[test]
fn test_atfd_super_not_counted() {
    let src = r#"
class Child extends Parent {
greet(): string { return super.name; }
}
"#;
    assert_eq!(atfd_for(src), 0);
}

#[test]
fn test_atfd_multiple_foreign_accesses() {
    let src = r#"
class Multi {
work(a: any, b: any, c: any): void {
    const x = a.data;
    const y = b.value;
    const z = c.name;
}
}
"#;
    assert_eq!(atfd_for(src), 3);
}

#[test]
fn test_atfd_chained_access_counted_once() {
    // `obj.a.b` → tree-sitter: (obj.a).b
    // Inner access `obj.a` (identifier base) is counted.
    // Outer access `(obj.a).b` (member_expression base) is not counted.
    let src = r#"
class Chained {
work(obj: any): any { return obj.a.b; }
}
"#;
    assert_eq!(atfd_for(src), 1);
}

#[test]
fn test_atfd_method_call_on_foreign_counted() {
    let src = r#"
class Caller {
work(svc: any): void { svc.execute(); }
}
"#;
    assert_eq!(atfd_for(src), 1);
}

// ── God Class detection tests ─────────────────────────────────────────────

// ── Clearly a God Class (all thresholds exceeded) ─────────────────────────

#[test]
fn test_clearly_a_god_class() {
    // WMC = 54 > 47, TCC = 0.0 < 0.33, ATFD = 6 > 5
    let src = god_class_src();
    let results = detect(&src);
    assert_eq!(results.len(), 1);
    assert_eq!(results[0].class_name, "GodClass");
    assert!(results[0].wmc > 47, "expected WMC > 47, got {}", results[0].wmc);
    assert!(tcc(&results[0]) < 0.33, "expected TCC < 0.33, got {}", tcc(&results[0]));
    assert!(results[0].atfd > 5, "expected ATFD > 5, got {}", results[0].atfd);
}

// ── ATFD too low — not flagged ─────────────────────────────────────────────

#[test]
fn test_not_flagged_atfd_too_low() {
    // WMC > 47, TCC < 0.33, but ATFD = 0 (no foreign accesses at all)
    let mut src = String::from("class HighWmcNoAtfd {\n");
    for i in 0..54 {
        src.push_str(&format!("    m{i}(): number {{ return this.f{i}; }}\n"));
    }
    src.push_str("}\n");
    let results = detect(&src);
    assert!(results.is_empty(), "ATFD = 0 must not be flagged");
}

// ── WMC too low — not flagged ──────────────────────────────────────────────

#[test]
fn test_not_flagged_wmc_too_low() {
    let src = r#"
class SmallClass {
getA(): number { return this.a; }
getB(): number { return this.b; }
fetchX(ext: any): any { return ext.data; }
}
"#;
    let results = detect(src);
    assert!(results.is_empty(), "WMC = 3, too low to be flagged");
}

// ── TCC too high — not flagged ─────────────────────────────────────────────

#[test]
fn test_not_flagged_tcc_too_high() {
    // All 48 methods share this.x → TCC ≈ 0.79 ≥ 0.33
    let mut src = String::from("class HighTcc {\n");
    for i in 0..48 {
        src.push_str(&format!("    m{i}(): number {{ return this.x; }}\n"));
    }
    for i in 0..6 {
        src.push_str(&format!(
            "    fetch{i}(ext: any): any {{ return ext.data; }}\n"
        ));
    }
    src.push_str("}\n");
    let results = detect(&src);
    assert!(
        results.is_empty(),
        "TCC too high (all methods share this.x)"
    );
}

// ── WMC exactly at threshold — not flagged (strict >) ─────────────────────

#[test]
fn test_wmc_exactly_at_threshold_not_flagged() {
    // 41 unique-field methods + 6 foreign-access methods = 47 total → WMC = 47 (not > 47)
    let mut src = String::from("class WmcAtThreshold {\n");
    for i in 0..41 {
        src.push_str(&format!("    m{i}(): number {{ return this.f{i}; }}\n"));
    }
    src.push_str("    fetchA(repo: any) { return repo.data; }\n");
    src.push_str("    fetchB(svc: any) { return svc.value; }\n");
    src.push_str("    fetchC(obj: any) { return obj.name; }\n");
    src.push_str("    fetchD(store: any) { return store.items; }\n");
    src.push_str("    fetchE(api: any) { return api.response; }\n");
    src.push_str("    fetchF(db: any) { return db.records; }\n");
    src.push_str("}\n");
    // WMC = 47 (= threshold, not > 47), TCC = 0.0, ATFD = 6
    let results = detect(&src);
    assert!(results.is_empty(), "WMC = 47 must not be flagged (strict >)");
}

// ── ATFD exactly at threshold — not flagged (strict >) ────────────────────

#[test]
fn test_atfd_exactly_at_threshold_not_flagged() {
    // 48 unique-field methods + 5 foreign-access methods → WMC = 53, ATFD = 5 (not > 5)
    let mut src = String::from("class AtfdAtThreshold {\n");
    for i in 0..48 {
        src.push_str(&format!("    m{i}(): number {{ return this.f{i}; }}\n"));
    }
    src.push_str("    fetchA(repo: any) { return repo.data; }\n");
    src.push_str("    fetchB(svc: any) { return svc.value; }\n");
    src.push_str("    fetchC(obj: any) { return obj.name; }\n");
    src.push_str("    fetchD(store: any) { return store.items; }\n");
    src.push_str("    fetchE(api: any) { return api.response; }\n");
    src.push_str("}\n");
    // WMC = 53, TCC = 0.0, ATFD = 5 (= threshold, not > 5)
    let results = detect(&src);
    assert!(results.is_empty(), "ATFD = 5 must not be flagged (strict >)");
}

// ── Abstract class detected as God Class ──────────────────────────────────

#[test]
fn test_abstract_class_detected_as_god_class() {
    let mut src = String::from("abstract class AbstractGod {\n");
    for i in 0..48 {
        src.push_str(&format!("    m{i}(): number {{ return this.f{i}; }}\n"));
    }
    src.push_str("    fetchA(repo: any) { return repo.data; }\n");
    src.push_str("    fetchB(svc: any) { return svc.value; }\n");
    src.push_str("    fetchC(obj: any) { return obj.name; }\n");
    src.push_str("    fetchD(store: any) { return store.items; }\n");
    src.push_str("    fetchE(api: any) { return api.response; }\n");
    src.push_str("    fetchF(db: any) { return db.records; }\n");
    src.push_str("}\n");
    let results = detect(&src);
    assert_eq!(results.len(), 1, "abstract God Class must be detected");
    assert_eq!(results[0].class_name, "AbstractGod");
}

// ── Empty source — returns empty ───────────────────────────────────────────

#[test]
fn test_empty_source_returns_empty() {
    let results = detect("");
    assert!(results.is_empty());
}

// ── Custom thresholds ──────────────────────────────────────────────────────

#[test]
fn god_class_test_custom_thresholds() {
    // Lower thresholds: WMC > 2, TCC < 1.0, ATFD > 0
    let config = GodClassConfig {
        wmc_threshold: 2,
        tcc_threshold: Fraction { num: 1, den: 1 },
        atfd_threshold: 0,
    };
    let src = r#"
class SmallGod {
getA(): number { return this.a; }
getB(): number { return this.b; }
getC(): number { return this.c; }
fetch(ext: any): any { return ext.data; }
}
"#;
    let tree = parse_typescript(src).expect("parse failed");
    let results = detect_god_classes(&tree, tree.root(), &config);
    assert_eq!(results.len(), 1);
    assert_eq!(results[0].class_name, "SmallGod");
}

// ── Result fields are populated correctly ──────────────────────────────────

#[test]
fn god_class_test_result_fields_populated_correctly() {
    let src = god_class_src();
    let tree = parse_typescript(&src).expect("parse failed");
    let results =
        detect_god_classes(&tree, tree.root(), &GodClassConfig::default());
    assert_eq!(results.len(), 1);
    let r = &results[0];
    assert_eq!(r.class_name, "GodClass");
    assert_eq!(r.line, 1); // no leading newline in god_class_src()
    assert!(r.wmc > 47);
    assert!(tcc(r) < 0.33);
    assert!(r.atfd > 5);
}
