use tsmetrics::metrics::function::cyclo::cyclomatic_complexity;
use tsmetrics::parse::parse_typescript;
use tsmetrics::syntax::SyntaxTree;

fn first_of_kind(t: &SyntaxTree, kind: &str) -> Option<usize> {
    (0..t.node_count()).find(|&i| t.kind_of(i) == kind)
}

#[test]
fn cyclo_if_else_and_logical() {
    let src = "function f(a: number) { if (a > 1 && a < 5) { return 1; } else { return 2; } }";
    let t = parse_typescript(src).unwrap();
    let f = first_of_kind(&t, "function_declaration").unwrap();
    assert_eq!(cyclomatic_complexity(&t, f), 3);
}

#[test]
fn parse_tree_shape() {
    let src = "class A { m() { return this.x; } }\nconst y = 1;\n";
    let t = parse_typescript(src).unwrap();
    assert_eq!(t.kind_of(t.root()), "program");
    let kids = t.children_of(t.root());
    assert_eq!(kids.len(), 2);
    assert_eq!(t.kind_of(kids[0]), "class_declaration");
    let name = t.child_by_field_name(kids[0], "name").unwrap();
    assert_eq!(t.text_of(name), "A");
    assert_eq!(t.line_of(kids[1]), 2);
}
