use tsmetrics::metrics::react::prop_drilling::{compute_prop_drilling, PropDrillingResult};
use tsmetrics::parse::parse_tsx;

fn prop_drilling(src: &str) -> PropDrillingResult {
    let tree = parse_tsx(src).expect("parse failed");
    compute_prop_drilling(&tree, tree.root())
}

#[test]
fn test_no_jsx_no_drilling() {
    let src = "function Comp() { return null; }";
    let result = prop_drilling(src);
    assert_eq!(result.max_prop_pass_depth, 0);
    assert!(!result.has_spread_forwarding);
}

#[test]
fn test_self_closing_with_props_depth_one() {
    let src = r#"
function App() {
return <Button onClick={handler} label="click" />;
}
"#;
    let result = prop_drilling(src);
    assert_eq!(result.max_prop_pass_depth, 1);
    assert!(!result.has_spread_forwarding);
}

#[test]
fn test_nested_jsx_with_props() {
    let src = r#"
function App() {
return (
    <Layout>
        <Section>
            <Button onClick={fn} />
        </Section>
    </Layout>
);
}
"#;
    let result = prop_drilling(src);
    // Button is at depth 3 (Layout > Section > Button)
    assert!(result.max_prop_pass_depth >= 2);
}

#[test]
fn test_spread_props_detected() {
    let src = r#"
function Wrapper(props) {
return <Child {...props} />;
}
"#;
    let result = prop_drilling(src);
    assert!(result.has_spread_forwarding);
    assert!(!result.spread_prop_depths.is_empty());
}

#[test]
fn test_spread_props_at_nested_depth() {
    let src = r#"
function App() {
return (
    <Outer>
        <Inner {...forwardedProps} extra="val" />
    </Outer>
);
}
"#;
    let result = prop_drilling(src);
    assert!(result.has_spread_forwarding);
    // Inner is at depth 2
    assert!(result.spread_prop_depths.iter().any(|&d| d >= 2));
}

#[test]
fn test_no_props_no_depth() {
    let src = r#"
function App() {
return (
    <div>
        <span>text</span>
    </div>
);
}
"#;
    let result = prop_drilling(src);
    // No attributes on any element
    assert_eq!(result.max_prop_pass_depth, 0);
    assert!(!result.has_spread_forwarding);
}

#[test]
fn test_spread_depths_are_sorted() {
    let src = r#"
function App() {
return (
    <Layout>
        <Section {...sectionProps} />
        <Other {...otherProps} />
    </Layout>
);
}
"#;
    let result = prop_drilling(src);
    let depths = result.spread_prop_depths.clone();
    let mut sorted = depths.clone();
    sorted.sort();
    assert_eq!(depths, sorted);
}

#[test]
fn test_both_attrs_and_spread() {
    let src = r#"function Wrapper(props) { return <Child onClick={fn} label="hi" {...props} />; }"#;
    let result = prop_drilling(src);
    assert_eq!(result.max_prop_pass_depth, 1);
    assert!(result.has_spread_forwarding);
}

#[test]
fn prop_drilling_exact_levels() {
    let src = r#"
function App() {
    return (
        <Outer a="1">
            <Inner {...rest} />
            <Mid>
                <Deep {...x} {...y} b={2} />
            </Mid>
        </Outer>
    );
}
"#;
    let result = prop_drilling(src);
    assert_eq!(result.max_prop_pass_depth, 3);
    assert_eq!(result.spread_prop_depths, vec![2, 3, 3]);
    assert!(result.has_spread_forwarding);
}
