use std::collections::HashMap;
use tsmetrics::metrics::class::dit::{base_name, compute_dit};
use tsmetrics::parse::parse_typescript;

fn dit_map(source: &str) -> HashMap<String, usize> {
    let tree = parse_typescript(source).expect("parse failed");
    compute_dit(&tree, tree.root())
        .into_iter()
        .map(|c| (c.name, c.dit))
        .collect()
}

#[test]
fn no_parent_dit_is_zero() {
    let m = dit_map("class A {}");
    assert_eq!(m["A"], 0);
}

#[test]
fn single_inheritance_dit_is_one() {
    let m = dit_map("class A {}\nclass B extends A {}");
    assert_eq!(m["A"], 0);
    assert_eq!(m["B"], 1);
}

#[test]
fn three_level_chain() {
    let src = "class A {}\nclass B extends A {}\nclass C extends B {}";
    let m = dit_map(src);
    assert_eq!(m["A"], 0);
    assert_eq!(m["B"], 1);
    assert_eq!(m["C"], 2);
}

#[test]
fn four_level_chain() {
    let src = "class A {}\nclass B extends A {}\nclass C extends B {}\nclass D extends C {}";
    let m = dit_map(src);
    assert_eq!(m["D"], 3);
}

// ── Built-in / external parent ────────────────────────────────────────────

#[test]
fn extends_builtin_dit_is_one() {
    // Error is a built-in; it is not declared in the file, so DIT = 1.
    let m = dit_map("class MyError extends Error {}");
    assert_eq!(m["MyError"], 1);
}

#[test]
fn extends_builtin_with_generics() {
    // Array<string> — the generic parameter must be stripped.
    let m = dit_map("class MyList extends Array<string> {}");
    assert_eq!(m["MyList"], 1);
}

// ── Multi-class files ─────────────────────────────────────────────────────

#[test]
fn multiple_independent_classes() {
    let src = "class A {}\nclass B {}\nclass C {}";
    let m = dit_map(src);
    assert_eq!(m["A"], 0);
    assert_eq!(m["B"], 0);
    assert_eq!(m["C"], 0);
}

#[test]
fn sibling_subclasses() {
    let src = "class Base {}\nclass X extends Base {}\nclass Y extends Base {}";
    let m = dit_map(src);
    assert_eq!(m["Base"], 0);
    assert_eq!(m["X"], 1);
    assert_eq!(m["Y"], 1);
}

#[test]
fn deep_hierarchy_with_branches() {
    let src = r#"
        class A {}
        class B extends A {}
        class C extends B {}
        class D extends A {}
    "#;
    let m = dit_map(src);
    assert_eq!(m["A"], 0);
    assert_eq!(m["B"], 1);
    assert_eq!(m["C"], 2);
    assert_eq!(m["D"], 1);
}

// ── Line numbers ──────────────────────────────────────────────────────────

#[test]
fn line_numbers_are_correct() {
    let src = "class A {}\nclass B extends A {}";
    let tree = parse_typescript(src).unwrap();
    let classes = compute_dit(&tree, tree.root());
    let a = classes.iter().find(|c| c.name == "A").unwrap();
    let b = classes.iter().find(|c| c.name == "B").unwrap();
    assert_eq!(a.line, 1);
    assert_eq!(b.line, 2);
}

// ── Abstract classes ──────────────────────────────────────────────────────

#[test]
fn abstract_class_no_parent() {
    let m = dit_map("abstract class A {}");
    assert_eq!(m["A"], 0);
}

#[test]
fn abstract_class_extends_concrete() {
    let src = "class Base {}\nabstract class Mid extends Base {}\nclass Leaf extends Mid {}";
    let m = dit_map(src);
    assert_eq!(m["Base"], 0);
    assert_eq!(m["Mid"], 1);
    assert_eq!(m["Leaf"], 2);
}

// ── Named class expressions ───────────────────────────────────────────────
// Regression: `const X = class Foo extends Base {}` was silently dropped
// because walk_classes only visited `class_declaration` nodes.

#[test]
fn named_class_expression_no_parent_dit_is_zero() {
    let m = dit_map("const Foo = class FooClass {}");
    assert_eq!(m.get("FooClass").copied(), Some(0));
}

#[test]
fn named_class_expression_extends_dit_is_one() {
    let src = "class Base {}\nconst Foo = class FooClass extends Base {}";
    let m = dit_map(src);
    assert_eq!(m["Base"], 0);
    assert_eq!(m["FooClass"], 1);
}

#[test]
fn named_class_expression_in_deep_chain() {
    let src = "class A {}\nclass B extends A {}\nconst C = class CClass extends B {}";
    let m = dit_map(src);
    assert_eq!(m["A"], 0);
    assert_eq!(m["B"], 1);
    assert_eq!(m["CClass"], 2);
}

#[test]
fn base_name_strips_type_arguments() {
    assert_eq!(base_name("Array<string>"), "Array");
    assert_eq!(base_name("  Base  "), "Base");
    assert_eq!(base_name("A.B"), "A.B");
}

#[test]
fn cyclic_hierarchy_uses_the_cache() {
    // A extends B, B extends A: B is resolved while A is, finds A on the way and
    // counts it 0, so B = 1 and A = 2; B then comes from the cache.
    let m = dit_map("class A extends B {}\nclass B extends A {}");
    assert_eq!(m["A"], 2);
    assert_eq!(m["B"], 1);
}
