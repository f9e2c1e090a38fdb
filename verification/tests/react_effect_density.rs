use tsmetrics::metrics::react::effect_density::{compute_effect_density, EffectDensity};
use tsmetrics::parse::parse_typescript;
use tsmetrics::syntax::SyntaxTree;

fn find_first_function_body(tree: &SyntaxTree) -> Option<usize> {
    (0..tree.node_count())
        .filter(|&i| {
            tree.is_kind_in(i, &["function_declaration", "function_expression", "arrow_function", "method_definition"])
        })
        .find_map(|i| tree.child_by_field_name(i, "body"))
}

/// Effect calls per non-blank line, as the application derives it.
fn density(ed: &EffectDensity) -> f64 {
    if ed.component_sloc == 0 {
        0.0
    } else {
        ed.effect_count as f64 / ed.component_sloc as f64
    }
}

fn effect_density(src: &str) -> EffectDensity {
    let tree = parse_typescript(src).expect("parse failed");
    let body = find_first_function_body(&tree).expect("no function body found");
    compute_effect_density(&tree, body)
}

#[test]
fn test_no_effects_zero_density() {
    let src = r#"
function Component() {
const [x, setX] = useState(0);
return x;
}
"#;
    let ed = effect_density(src);
    assert_eq!(ed.effect_count, 0);
    assert_eq!(density(&ed), 0.0);
}

#[test]
fn test_single_effect() {
    let src = r#"
function Component() {
useEffect(() => {
    document.title = "hello";
}, []);
return null;
}
"#;
    let ed = effect_density(src);
    assert_eq!(ed.effect_count, 1);
    assert!(ed.component_sloc > 0);
    assert!(density(&ed) > 0.0);
}

#[test]
fn test_multiple_effects() {
    let src = r#"
function Dashboard() {
useEffect(() => { fetchUser(); }, []);
useEffect(() => { fetchPosts(); }, []);
useEffect(() => { fetchComments(); }, []);
return null;
}
"#;
    let ed = effect_density(src);
    assert_eq!(ed.effect_count, 3);
}

#[test]
fn effect_density_test_use_layout_effect_counted() {
    let src = r#"
function Modal() {
useLayoutEffect(() => {
    focusRef.current?.focus();
}, []);
return null;
}
"#;
    let ed = effect_density(src);
    assert_eq!(ed.effect_count, 1);
}

#[test]
fn test_effect_inside_nested_function_not_counted() {
    let src = r#"
function Component() {
const handler = () => {
    useEffect(() => {}, []);
};
return null;
}
"#;
    let ed = effect_density(src);
    // The useEffect is inside an arrow function, should not be counted
    assert_eq!(ed.effect_count, 0);
}

#[test]
fn test_density_ratio() {
    // 2 effects in a component with known SLOC
    let src = r#"function Comp() {
useEffect(() => {}, []);
useEffect(() => {}, []);
return null;
}"#;
    let ed = effect_density(src);
    assert_eq!(ed.effect_count, 2);
    assert!(ed.component_sloc > 0);
    assert!((density(&ed) - 2.0 / ed.component_sloc as f64).abs() < 1e-9);
}

#[test]
fn test_empty_function_zero_density() {
    let src = "function Comp() {}";
    let tree = parse_typescript(src).expect("parse failed");
    let body = find_first_function_body(&tree).expect("no body");
    let ed = compute_effect_density(&tree, body);
    assert_eq!(ed.effect_count, 0);
    assert_eq!(density(&ed), 0.0);
}
