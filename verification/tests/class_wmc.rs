use tsmetrics::metrics::class::wmc::{compute_wmc, count_methods, extract_class_name};
use tsmetrics::parse::parse_typescript;
use tsmetrics::syntax::SyntaxTree;

fn parse(source: &str) -> SyntaxTree {
    parse_typescript(source).expect("parse failed")
}

/// The first node in pre-order whose kind is one of the class kinds.
fn find_first_class(t: &SyntaxTree) -> Option<usize> {
    (0..t.node_count()).find(|&i| {
        matches!(t.kind_of(i), "class_declaration" | "abstract_class_declaration" | "class")
    })
}

#[test]
fn test_empty_class_wmc_is_zero() {
    let src = "class Empty {}";
    let tree = parse(src);
    let class = find_first_class(&tree).expect("no class found");
    assert_eq!(compute_wmc(&tree, class), 0);
}

#[test]
fn test_empty_class_method_count_is_zero() {
    let src = "class Empty {}";
    let tree = parse(src);
    let class = find_first_class(&tree).expect("no class found");
    assert_eq!(count_methods(&tree, class), 0);
}

// ── Constructor only ───────────────────────────────────────────────────────

#[test]
fn test_class_with_constructor_only_wmc_is_one() {
    // Constructor with no branches: CC = 1 (baseline), WMC = 1.
    let src = r#"
class Service {
constructor(private name: string) {
    this.name = name;
}
}
"#;
    let tree = parse(src);
    let class = find_first_class(&tree).expect("no class found");
    assert_eq!(count_methods(&tree, class), 1);
    assert_eq!(compute_wmc(&tree, class), 1);
}

// ── Simple methods ─────────────────────────────────────────────────────────

#[test]
fn test_class_with_three_simple_methods() {
    // Each method has no decision points → CC = 1 each → WMC = 3.
    let src = r#"
class Simple {
foo(): void { console.log("foo"); }
bar(): void { console.log("bar"); }
baz(): void { console.log("baz"); }
}
"#;
    let tree = parse(src);
    let class = find_first_class(&tree).expect("no class found");
    assert_eq!(count_methods(&tree, class), 3);
    assert_eq!(compute_wmc(&tree, class), 3);
}

// ── Complex methods ────────────────────────────────────────────────────────

#[test]
fn test_class_with_complex_methods() {
    // validate: 1 (base) + if(x>0) + if(x<100) = 3
    // process:  1 (base) + while = 2
    // WMC = 5
    let src = r#"
class Processor {
validate(x: number): boolean {
    if (x > 0) {
        if (x < 100) {
            return true;
        }
    }
    return false;
}
process(items: number[]): void {
    let i = 0;
    while (i < items.length) {
        i++;
    }
}
}
"#;
    let tree = parse(src);
    let class = find_first_class(&tree).expect("no class found");
    assert_eq!(count_methods(&tree, class), 2);
    assert_eq!(compute_wmc(&tree, class), 5);
}

// ── Getters and setters ────────────────────────────────────────────────────

#[test]
fn test_class_with_getters_and_setters() {
    // getter: CC = 1, setter: CC = 1 → WMC = 2.
    let src = r#"
class Counter {
private _count: number = 0;
get count(): number { return this._count; }
set count(v: number) { this._count = v; }
}
"#;
    let tree = parse(src);
    let class = find_first_class(&tree).expect("no class found");
    assert_eq!(count_methods(&tree, class), 2);
    assert_eq!(compute_wmc(&tree, class), 2);
}

// ── Nested functions do not inflate WMC ───────────────────────────────────

#[test]
fn test_nested_functions_not_counted_as_methods() {
    // Only 1 method_definition; the arrow function inside is not a class method.
    // compute: CC = 1 (base) + 1 (if) = 2
    // WMC = 2
    let src = r#"
class WithNested {
compute(x: number): number {
    const transform = (v: number) => v * 2;
    if (x > 0) {
        return transform(x);
    }
    return 0;
}
}
"#;
    let tree = parse(src);
    let class = find_first_class(&tree).expect("no class found");
    assert_eq!(count_methods(&tree, class), 1);
    assert_eq!(compute_wmc(&tree, class), 2);
}

// ── Name extraction ────────────────────────────────────────────────────────

#[test]
fn test_extract_class_name() {
    let src = "class MyClass {}";
    let tree = parse(src);
    let class = find_first_class(&tree).expect("no class found");
    assert_eq!(extract_class_name(&tree, class), "MyClass");
}

#[test]
fn test_extract_anonymous_class_name() {
    let src = "const x = class {};";
    let tree = parse(src);
    let class = find_first_class(&tree).expect("no class found");
    assert_eq!(extract_class_name(&tree, class), "<anonymous>");
}

// ── Abstract classes ───────────────────────────────────────────────────────

#[test]
fn test_abstract_class_with_abstract_methods() {
    // Two abstract methods (no body, CC = 1 each) + one concrete method (CC = 1).
    // method_count = 3, WMC = 3.
    let src = r#"
abstract class Shape {
abstract area(): number;
abstract perimeter(): number;
describe(): string { return "shape"; }
}
"#;
    let tree = parse(src);
    let class = find_first_class(&tree).expect("no class found");
    assert_eq!(count_methods(&tree, class), 3);
    assert_eq!(compute_wmc(&tree, class), 3);
}

#[test]
fn test_abstract_class_only_abstract_methods() {
    // Three abstract methods, no concrete methods.
    // method_count = 3, WMC = 3.
    let src = r#"
abstract class Animal {
abstract speak(): void;
abstract move(): void;
abstract eat(): void;
}
"#;
    let tree = parse(src);
    let class = find_first_class(&tree).expect("no class found");
    assert_eq!(count_methods(&tree, class), 3);
    assert_eq!(compute_wmc(&tree, class), 3);
}
