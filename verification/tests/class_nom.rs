use tsmetrics::metrics::class::nom::{compute_class_nom, ClassNom};
use tsmetrics::parse::parse_typescript;

fn nom_for(src: &str) -> Vec<ClassNom> {
    let tree = parse_typescript(src).expect("parse failed");
    compute_class_nom(&tree, tree.root())
}

fn first(src: &str) -> ClassNom {
    let mut v = nom_for(src);
    assert!(!v.is_empty(), "no class found");
    v.remove(0)
}

#[test]
fn test_empty_class_all_zero() {
    let c = first("class Empty {}");
    assert_eq!(c.nom, 0);
    assert_eq!(c.noam, 0);
    assert_eq!(c.noom, 0);
}

// ── Constructor counts as a method ───────────────────────────────────────

#[test]
fn nom_test_constructor_counts_as_method() {
    let src = r#"
class Service {
constructor(private name: string) {
    this.name = name;
}
}
"#;
    let c = first(src);
    assert_eq!(c.nom, 1);
    assert_eq!(c.noam, 1);
    assert_eq!(c.noom, 0);
}

// ── Regular, static, getter, setter ─────────────────────────────────────

#[test]
fn test_various_method_types() {
    let src = r#"
class Counter {
private _count: number = 0;

constructor() { this._count = 0; }
increment(): void { this._count++; }
static create(): Counter { return new Counter(); }
get count(): number { return this._count; }
set count(v: number) { this._count = v; }
}
"#;
    let c = first(src);
    assert_eq!(c.nom, 5, "constructor + regular + static + getter + setter");
    assert_eq!(c.noam, 5, "none are overrides");
    assert_eq!(c.noom, 0);
}

// ── Override methods ─────────────────────────────────────────────────────

#[test]
fn test_override_methods_counted_in_noom() {
    let src = r#"
class Animal {
speak(): string { return "..."; }
move(): void {}
}

class Dog extends Animal {
override speak(): string { return "woof"; }
override move(): void { console.log("runs"); }
fetch(): void {}
}
"#;
    let results = nom_for(src);
    assert_eq!(results.len(), 2);

    let animal = results.iter().find(|c| c.class_name == "Animal").unwrap();
    assert_eq!(animal.nom, 2);
    assert_eq!(animal.noam, 2);
    assert_eq!(animal.noom, 0);

    let dog = results.iter().find(|c| c.class_name == "Dog").unwrap();
    assert_eq!(dog.nom, 3);
    assert_eq!(dog.noom, 2, "speak + move are overrides");
    assert_eq!(dog.noam, 1, "only fetch is new");
}

// ── Class with only overrides ────────────────────────────────────────────

#[test]
fn test_only_overrides() {
    let src = r#"
class Base {
foo(): void {}
bar(): void {}
}

class Child extends Base {
override foo(): void {}
override bar(): void {}
}
"#;
    let results = nom_for(src);
    let child = results.iter().find(|c| c.class_name == "Child").unwrap();
    assert_eq!(child.nom, 2);
    assert_eq!(child.noom, 2);
    assert_eq!(child.noam, 0);
}

// ── Abstract class ───────────────────────────────────────────────────────

#[test]
fn test_abstract_class_methods() {
    let src = r#"
abstract class Shape {
abstract area(): number;
abstract perimeter(): number;
describe(): string { return "shape"; }
}
"#;
    let c = first(src);
    assert_eq!(c.nom, 3, "abstract methods count too");
    assert_eq!(c.noam, 3);
    assert_eq!(c.noom, 0);
}

// ── NOM = NOAM + NOOM identity ───────────────────────────────────────────

#[test]
fn test_nom_equals_noam_plus_noom() {
    let src = r#"
class Base {
a(): void {}
b(): void {}
c(): void {}
}

class Child extends Base {
override a(): void {}
d(): void {}
override b(): void {}
e(): void {}
}
"#;
    let results = nom_for(src);
    for c in &results {
        assert_eq!(c.nom, c.noam + c.noom, "NOM = NOAM + NOOM for {}", c.class_name);
    }
    let child = results.iter().find(|c| c.class_name == "Child").unwrap();
    assert_eq!(child.nom, 4);
    assert_eq!(child.noom, 2);
    assert_eq!(child.noam, 2);
}

// ── Multiple classes in one file ─────────────────────────────────────────

#[test]
fn nom_test_multiple_classes_independent() {
    let src = r#"
class A {
foo(): void {}
}

class B {
bar(): void {}
baz(): void {}
}
"#;
    let results = nom_for(src);
    assert_eq!(results.len(), 2);
    let a = results.iter().find(|c| c.class_name == "A").unwrap();
    assert_eq!(a.nom, 1);
    let b = results.iter().find(|c| c.class_name == "B").unwrap();
    assert_eq!(b.nom, 2);
}

// ── Line number ──────────────────────────────────────────────────────────

#[test]
fn test_line_number() {
    let src = "class Foo {\n    method(): void {}\n}";
    let c = first(src);
    assert_eq!(c.class_name, "Foo");
    assert_eq!(c.line, 1);
}
