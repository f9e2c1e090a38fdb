use tsmetrics::metrics::function::closure_depth::max_closure_depth;
use tsmetrics::parse::parse_typescript;

fn depth(src: &str) -> usize {
    let tree = parse_typescript(src).expect("parse failed");
    max_closure_depth(&tree, tree.root())
}

#[test]
fn test_no_functions_is_zero() {
    assert_eq!(depth("const x = 42;"), 0);
}

#[test]
fn test_single_function_is_one() {
    let src = "function foo() { return 1; }";
    assert_eq!(depth(src), 1);
}

#[test]
fn test_single_arrow_is_one() {
    let src = "const f = () => 1;";
    assert_eq!(depth(src), 1);
}

#[test]
fn test_two_sibling_functions_are_both_depth_one() {
    let src = "function a() {} function b() {}";
    assert_eq!(depth(src), 1);
}

#[test]
fn test_nested_function_expression_is_two() {
    let src = r#"
function outer() {
const inner = function() { return 1; };
}
"#;
    assert_eq!(depth(src), 2);
}

#[test]
fn test_nested_arrow_is_two() {
    let src = r#"
function outer() {
const inner = () => 42;
}
"#;
    assert_eq!(depth(src), 2);
}

#[test]
fn test_three_levels_deep() {
    let src = r#"
function outer() {
function middle() {
    const inner = () => 1;
}
}
"#;
    assert_eq!(depth(src), 3);
}

#[test]
fn test_method_definition_is_one() {
    let src = r#"
class Foo {
bar() { return 1; }
}
"#;
    assert_eq!(depth(src), 1);
}

#[test]
fn test_method_with_nested_arrow_is_two() {
    let src = r#"
class Foo {
bar() {
    const fn = () => 1;
}
}
"#;
    assert_eq!(depth(src), 2);
}

#[test]
fn test_deeply_nested_callbacks() {
    // Typical callback hell: 4 levels
    let src = r#"
function fetchData() {
doA(function() {
    doB(function() {
        doC(() => {});
    });
});
}
"#;
    assert_eq!(depth(src), 4);
}

#[test]
fn test_sibling_branches_max_reported() {
    // Left branch goes 3 deep, right branch goes 2 deep → max is 3
    let src = r#"
function root() {
function a() {
    const b = () => {};  // depth 3
}
const c = () => {};      // depth 2
}
"#;
    assert_eq!(depth(src), 3);
}
