use tsmetrics::metrics::class::woc::{compute_class_woc, ClassWoc};
use tsmetrics::parse::parse_typescript;

fn woc_for(src: &str) -> Vec<ClassWoc> {
    let tree = parse_typescript(src).expect("parse failed");
    compute_class_woc(&tree, tree.root())
}

/// WOC = public attributes / public members, 0.0 without public members.
fn woc(c: &ClassWoc) -> f64 {
    let total = c.public_attributes + c.public_methods;
    if total == 0 {
        0.0
    } else {
        c.public_attributes as f64 / total as f64
    }
}

#[test]
fn test_data_heavy_class() {
    let src = r#"
class DataDto {
public name: string;
public age: number;
public email: string;
public address: string;

public getId(): string { return this.name; }
}
"#;
    let results = woc_for(src);
    assert_eq!(results.len(), 1);
    let c = &results[0];
    assert_eq!(c.class_name, "DataDto");
    assert_eq!(c.public_attributes, 4);
    assert_eq!(c.public_methods, 1);
    assert!((woc(&c) - 0.8).abs() < 1e-9, "expected 0.8, got {}", woc(&c));
}

/// Behaviour-heavy class: no public fields, several public methods.
/// Expected WOC = 0 / (0 + 4) = 0.0
#[test]
fn test_behavior_heavy_class() {
    let src = r#"
class BehaviorService {
private _state: string;

public doA(): void {}
public doB(): void {}
public doC(): void {}
public doD(): void {}
}
"#;
    let results = woc_for(src);
    assert_eq!(results.len(), 1);
    let c = &results[0];
    assert_eq!(c.class_name, "BehaviorService");
    assert_eq!(c.public_attributes, 0);
    assert_eq!(c.public_methods, 4);
    assert!((woc(&c) - 0.0).abs() < 1e-9, "expected 0.0, got {}", woc(&c));
}

/// Balanced class: equal public fields and methods.
/// Expected WOC = 2 / (2 + 2) = 0.5
#[test]
fn test_balanced_class() {
    let src = r#"
class Balanced {
public x: number;
public y: number;

public getX(): number { return this.x; }
public getY(): number { return this.y; }
}
"#;
    let results = woc_for(src);
    assert_eq!(results.len(), 1);
    let c = &results[0];
    assert_eq!(c.class_name, "Balanced");
    assert_eq!(c.public_attributes, 2);
    assert_eq!(c.public_methods, 2);
    assert!((woc(&c) - 0.5).abs() < 1e-9, "expected 0.5, got {}", woc(&c));
}

/// Class with only getters/setters — they are methods, not attributes.
/// Expected WOC = 0 / (0 + 2) = 0.0
#[test]
fn test_only_getters_setters() {
    let src = r#"
class Accessor {
private _name: string = "";

get name(): string { return this._name; }
set name(value: string) { this._name = value; }
}
"#;
    let results = woc_for(src);
    assert_eq!(results.len(), 1);
    let c = &results[0];
    assert_eq!(c.class_name, "Accessor");
    assert_eq!(c.public_attributes, 0, "private field must not be counted");
    assert_eq!(c.public_methods, 2, "getter and setter are public methods");
    assert!((woc(&c) - 0.0).abs() < 1e-9, "expected 0.0, got {}", woc(&c));
}

/// Empty class has no public interface.
/// Expected WOC = 0.0
#[test]
fn woc_test_empty_class() {
    let src = "class Empty {}";
    let results = woc_for(src);
    assert_eq!(results.len(), 1);
    let c = &results[0];
    assert_eq!(c.class_name, "Empty");
    assert_eq!(c.public_attributes, 0);
    assert_eq!(c.public_methods, 0);
    assert!((woc(&c) - 0.0).abs() < 1e-9, "expected 0.0, got {}", woc(&c));
}

/// Implicit public (no accessibility modifier) members are counted.
#[test]
fn test_implicit_public_members() {
    let src = r#"
class Implicit {
name: string;
age: number;

greet(): string { return "hi"; }
}
"#;
    let results = woc_for(src);
    assert_eq!(results.len(), 1);
    let c = &results[0];
    assert_eq!(c.public_attributes, 2);
    assert_eq!(c.public_methods, 1);
    // WOC = 2 / 3
    assert!((woc(&c) - 2.0 / 3.0).abs() < 1e-9, "expected 2/3, got {}", woc(&c));
}

/// Private members must not inflate public counts.
#[test]
fn test_private_members_excluded() {
    let src = r#"
class Encapsulated {
private secret: string;
protected inner: number;
public label: string;

private doInternal(): void {}
public doExternal(): void {}
}
"#;
    let results = woc_for(src);
    assert_eq!(results.len(), 1);
    let c = &results[0];
    assert_eq!(c.public_attributes, 1, "only `label` is public");
    assert_eq!(c.public_methods, 1, "only `doExternal` is public");
    assert!((woc(&c) - 0.5).abs() < 1e-9, "expected 0.5, got {}", woc(&c));
}

/// Multiple classes in one file are all measured independently.
#[test]
fn test_multiple_classes() {
    let src = r#"
class A {
public x: number;
public doA(): void {}
}

class B {
public doB(): void {}
public doC(): void {}
}
"#;
    let results = woc_for(src);
    assert_eq!(results.len(), 2);

    let a = results.iter().find(|c| c.class_name == "A").unwrap();
    assert_eq!(a.public_attributes, 1);
    assert_eq!(a.public_methods, 1);
    assert!((woc(&a) - 0.5).abs() < 1e-9);

    let b = results.iter().find(|c| c.class_name == "B").unwrap();
    assert_eq!(b.public_attributes, 0);
    assert_eq!(b.public_methods, 2);
    assert!((woc(&b) - 0.0).abs() < 1e-9);
}
