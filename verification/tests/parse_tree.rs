use tsmetrics::parse::{is_tsx_path, parse_file, parse_tsx, parse_typescript};
use tsmetrics::syntax::SyntaxTree;

fn kinds(t: &SyntaxTree) -> Vec<String> {
    (0..t.node_count()).map(|i| t.kind_of(i).to_string()).collect()
}

#[test]
fn nodes_come_in_preorder_with_parents_and_fields() {
    let t = parse_typescript("let x = 1;").expect("parse failed");
    assert!(!t.tsx);
    assert_eq!(t.source, "let x = 1;");
    assert_eq!(
        kinds(&t),
        vec!["program", "lexical_declaration", "let", "variable_declarator", "identifier", "=", "number", ";"]
    );
    assert_eq!(t.parent_of(0), None);
    assert_eq!(t.parent_of(1), Some(0));
    assert_eq!(t.parent_of(2), Some(1));
    assert_eq!(t.parent_of(4), Some(3));
    assert_eq!(t.parent_of(7), Some(1));
    assert_eq!(t.nodes[0].end, 8);
    assert_eq!(t.nodes[3].end, 7);
    assert_eq!(t.child_by_field_name(3, "name"), Some(4));
    assert_eq!(t.child_by_field_name(3, "value"), Some(6));
    assert_eq!(t.text_of(4), "x");
    assert_eq!(t.text_of(1), "let x = 1;");
    assert!(t.nodes[4].named);
    assert!(!t.nodes[5].named);
}

#[test]
fn rows_and_extras_are_reported() {
    let t = parse_typescript("// note\nfunction f() {\n  return 1;\n}\n").expect("parse failed");
    let comment = (0..t.node_count()).find(|&i| t.kind_of(i) == "comment").expect("no comment");
    assert!(t.nodes[comment].extra);
    let f = (0..t.node_count()).find(|&i| t.kind_of(i) == "function_declaration").expect("no function");
    assert_eq!(t.start_row_of(f), 1);
    assert_eq!(t.end_row_of(f), 3);
    assert_eq!(t.text_of(f), "function f() {\n  return 1;\n}");
}

#[test]
fn non_ascii_text_is_cut_at_node_bounds() {
    let t = parse_typescript("const s = \"héllo\";").expect("parse failed");
    let s = (0..t.node_count()).find(|&i| t.kind_of(i) == "string").expect("no string");
    assert_eq!(t.text_of(s), "\"héllo\"");
}

#[test]
fn grammar_follows_the_extension() {
    let src = "const a = <div><span /></div>;";
    let tsx = parse_tsx(src).expect("parse failed");
    assert!(tsx.tsx);
    assert!(kinds(&tsx).iter().any(|k| k == "jsx_element"));
    let ts = parse_typescript(src).expect("parse failed");
    assert!(!kinds(&ts).iter().any(|k| k == "jsx_element"));
    assert!(parse_file(src, "view.tsx").expect("parse failed").tsx);
    assert!(!parse_file(src, "view.ts").expect("parse failed").tsx);
    assert!(is_tsx_path("a/b.tsx"));
    assert!(!is_tsx_path("a/b.ts"));
    assert!(!is_tsx_path("tsx"));
}

#[test]
fn empty_source_is_a_lone_program() {
    let t = parse_typescript("").expect("parse failed");
    assert_eq!(kinds(&t), vec!["program"]);
    assert_eq!(t.text_of(0), "");
    assert_eq!(t.nodes[0].end, 1);
}
