use tsmetrics::metrics::react::render_complexity::{compute_render_complexity, RenderComplexity};
use tsmetrics::parse::parse_tsx;

fn render_complexity(src: &str) -> RenderComplexity {
    let tree = parse_tsx(src).expect("parse failed");
    compute_render_complexity(&tree, tree.root())
}

#[test]
fn test_no_jsx_zero_complexity() {
    let src = "function pure(x: number) { return x * 2; }";
    let rc = render_complexity(src);
    assert_eq!(rc.base, 0);
    assert_eq!(rc.total, 0);
}

#[test]
fn test_simple_jsx_base_one() {
    let src = r#"
function Hello() {
return <div>hello</div>;
}
"#;
    let rc = render_complexity(src);
    assert_eq!(rc.base, 1);
    assert_eq!(rc.conditional_and_count, 0);
    assert_eq!(rc.ternary_count, 0);
    assert_eq!(rc.map_count, 0);
    assert_eq!(rc.total, 1);
}

#[test]
fn test_ternary_adds_one() {
    let src = r#"
function Comp({ show }) {
return <div>{show ? <span>yes</span> : <span>no</span>}</div>;
}
"#;
    let rc = render_complexity(src);
    assert_eq!(rc.ternary_count, 1);
    assert_eq!(rc.total, rc.base + 1);
}

#[test]
fn test_map_adds_one() {
    let src = r#"
function List({ items }) {
return (
    <ul>
        {items.map(item => <li key={item}>{item}</li>)}
    </ul>
);
}
"#;
    let rc = render_complexity(src);
    assert_eq!(rc.map_count, 1);
    assert_eq!(rc.total, rc.base + 1);
}

#[test]
fn test_multiple_conditionals() {
    let src = r#"
function Dashboard({ user, posts, comments }) {
return (
    <div>
        {user ? <UserCard user={user} /> : <Login />}
        {posts ? posts.map(p => <Post key={p.id} post={p} />) : null}
        {comments && <CommentSection comments={comments} />}
    </div>
);
}
"#;
    let rc = render_complexity(src);
    assert_eq!(rc.ternary_count, 2);
    assert_eq!(rc.map_count, 1);
    assert!(rc.total >= 4); // base + 2 ternaries + 1 map
}

#[test]
fn test_no_jsx_component_returns_null() {
    let src = r#"
function Loading() {
return null;
}
"#;
    let rc = render_complexity(src);
    assert_eq!(rc.total, 0);
}

#[test]
fn test_self_closing_jsx_base_one() {
    let src = r#"
function Icon() {
return <svg />;
}
"#;
    let rc = render_complexity(src);
    assert_eq!(rc.base, 1);
    assert_eq!(rc.total, 1);
}

#[test]
fn test_total_formula() {
    // base=1, ternary=1, map=1
    let src = r#"
function Component({ items, show }) {
return (
    <div>
        {show ? <h1>visible</h1> : null}
        {items.map(i => <span key={i}>{i}</span>)}
    </div>
);
}
"#;
    let rc = render_complexity(src);
    assert_eq!(rc.base, 1);
    assert_eq!(rc.ternary_count, 1);
    assert_eq!(rc.map_count, 1);
    assert_eq!(rc.total, 3);
}
