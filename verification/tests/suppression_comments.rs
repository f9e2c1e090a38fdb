use tsmetrics::parse::parse_typescript;
use tsmetrics::suppression::{extract_directive, has_module_suppression, has_suppression_comment};
use tsmetrics::syntax::SyntaxTree;

/// Find the outermost nodes of the given kinds and check each for suppression.
fn find_and_check(tree: &SyntaxTree, node: usize, kinds: &[&str], keyword: &str) -> bool {
    if tree.is_kind_in(node, kinds) {
        return has_suppression_comment(tree, node, keyword);
    }
    tree.children_of(node).into_iter().any(|c| find_and_check(tree, c, kinds, keyword))
}

fn is_function_suppressed(src: &str) -> bool {
    let tree = parse_typescript(src).expect("parse failed");
    find_and_check(
        &tree,
        tree.root(),
        &["function_declaration", "arrow_function", "function_expression", "method_definition"],
        "tsmetrics-disable-next-function",
    )
}

fn is_class_suppressed(src: &str) -> bool {
    let tree = parse_typescript(src).expect("parse failed");
    find_and_check(&tree, tree.root(), &["class_declaration", "abstract_class_declaration"], "tsmetrics-disable-next-class")
}

fn is_module_suppressed(src: &str) -> bool {
    let tree = parse_typescript(src).expect("parse failed");
    has_module_suppression(&tree, tree.root())
}

#[test]
fn suppress_function_declaration() {
    assert!(is_function_suppressed(
        "// tsmetrics-disable-next-function\nfunction foo() {}"
    ));
}

#[test]
fn no_suppression_without_comment() {
    assert!(!is_function_suppressed("function foo() {}"));
}

#[test]
fn suppress_exported_function() {
    assert!(is_function_suppressed(
        "// tsmetrics-disable-next-function\nexport function foo() {}"
    ));
}

#[test]
fn suppress_const_arrow() {
    assert!(is_function_suppressed(
        "// tsmetrics-disable-next-function\nconst foo = () => {}"
    ));
}

#[test]
fn suppress_export_const_arrow() {
    assert!(is_function_suppressed(
        "// tsmetrics-disable-next-function\nexport const foo = () => {}"
    ));
}

#[test]
fn suppress_with_jsdoc_between() {
    assert!(is_function_suppressed(
        "// tsmetrics-disable-next-function\n/** JSDoc comment */\nfunction foo() {}"
    ));
}

#[test]
fn suppress_block_comment() {
    assert!(is_function_suppressed(
        "/* tsmetrics-disable-next-function */\nfunction foo() {}"
    ));
}

#[test]
fn unrelated_comment_does_not_suppress() {
    assert!(!is_function_suppressed(
        "// some other comment\nfunction foo() {}"
    ));
}

// ── Class suppression ─────────────────────────────────────────────────

#[test]
fn suppress_class_declaration() {
    assert!(is_class_suppressed(
        "// tsmetrics-disable-next-class\nclass Foo {}"
    ));
}

#[test]
fn suppress_exported_class() {
    assert!(is_class_suppressed(
        "// tsmetrics-disable-next-class\nexport class Foo {}"
    ));
}

#[test]
fn no_class_suppression_without_comment() {
    assert!(!is_class_suppressed("class Foo {}"));
}

// ── Module suppression ────────────────────────────────────────────────

#[test]
fn suppress_module() {
    assert!(is_module_suppressed(
        "// tsmetrics-disable-module\nfunction foo() {}\nclass Bar {}"
    ));
}

#[test]
fn no_module_suppression_without_comment() {
    assert!(!is_module_suppressed("function foo() {}"));
}

#[test]
fn directive_after_repeated_delimiters() {
    assert!(extract_directive("//// tsmetrics-disable-module", "tsmetrics-disable-module"));
    assert!(extract_directive("/*   tsmetrics-disable-next-class */*/", "tsmetrics-disable-next-class"));
    assert!(!extract_directive("// note: tsmetrics-disable-module", "tsmetrics-disable-module"));
    assert!(!extract_directive("// tsmetrics", "tsmetrics-disable-module"));
}

#[test]
fn decorator_between_comment_and_class_is_skipped() {
    assert!(is_class_suppressed(
        "// tsmetrics-disable-next-class\n@Component()\nclass Foo {}"
    ));
}

#[test]
fn statement_between_comment_and_function_breaks_suppression() {
    assert!(!is_function_suppressed(
        "// tsmetrics-disable-next-function\nconst x = 1;\nfunction foo() {}"
    ));
}

#[test]
fn module_directive_inside_function_is_not_top_level() {
    assert!(!is_module_suppressed("function foo() {\n// tsmetrics-disable-module\n}"));
}
