use tsmetrics::metrics::react::used_components::{compute_used_components, is_pascal_case, ComponentNuc};
use tsmetrics::parse::parse_tsx;

fn nuc_for(src: &str) -> Vec<ComponentNuc> {
    let tree = parse_tsx(src).expect("parse failed");
    compute_used_components(&tree, tree.root())
}

fn first(src: &str) -> ComponentNuc {
    let mut v = nuc_for(src);
    assert!(!v.is_empty(), "no component found");
    v.remove(0)
}

fn find_component<'a>(results: &'a [ComponentNuc], name: &str) -> &'a ComponentNuc {
    results
        .iter()
        .find(|c| c.component_name == name)
        .unwrap_or_else(|| panic!("component '{}' not found", name))
}

#[test]
fn test_multiple_react_components_counted() {
    let src = r#"
function Dashboard() {
  return (
<div>
  <Header />
  <Sidebar />
  <MainContent />
</div>
  );
}
"#;
    let c = first(src);
    assert_eq!(c.component_name, "Dashboard");
    assert_eq!(c.nuc, 3, "Header, Sidebar, MainContent");
}

// ── Only HTML intrinsics — NUC is zero ───────────────────────────────────

#[test]
fn test_only_html_tags_nuc_zero() {
    let src = r#"
function Layout() {
  return (
<div>
  <header><h1>Title</h1></header>
  <main><p>Body</p></main>
  <footer><span>Footer</span></footer>
</div>
  );
}
"#;
    let c = first(src);
    assert_eq!(c.component_name, "Layout");
    assert_eq!(c.nuc, 0, "all lowercase intrinsics");
}

// ── Mixed HTML and React components ──────────────────────────────────────

#[test]
fn test_mixed_html_and_components() {
    let src = r#"
function Page() {
  return (
<div>
  <Navbar />
  <main>
    <ArticleList />
  </main>
  <Footer />
</div>
  );
}
"#;
    let c = first(src);
    assert_eq!(c.component_name, "Page");
    assert_eq!(c.nuc, 3, "Navbar, ArticleList, Footer");
}

// ── No JSX at all — NUC is zero ──────────────────────────────────────────

#[test]
fn test_no_jsx_nuc_zero() {
    let src = r#"
function calculateTotal(items: number[]): number {
  return items.reduce((sum, item) => sum + item, 0);
}
"#;
    // Not a React component (lowercase name), so no entry in results.
    let v = nuc_for(src);
    assert!(v.is_empty(), "non-component function should not appear");
}

// ── Duplicate component references count only once ────────────────────────

#[test]
fn test_duplicate_refs_counted_once() {
    let src = r#"
function List() {
  return (
<ul>
  <ListItem />
  <ListItem />
  <ListItem />
</ul>
  );
}
"#;
    let c = first(src);
    assert_eq!(c.nuc, 1, "ListItem appears three times but counts once");
}

// ── Arrow function component ──────────────────────────────────────────────

#[test]
fn test_arrow_function_component() {
    let src = r#"
const Card = () => (
  <div>
<CardHeader />
<CardBody />
  </div>
);
"#;
    let c = first(src);
    assert_eq!(c.component_name, "Card");
    assert_eq!(c.nuc, 2, "CardHeader and CardBody");
}

// ── Class component (render method) ──────────────────────────────────────

#[test]
fn test_class_component_render_method() {
    let src = r#"
class UserProfile extends React.Component {
  render() {
return (
  <div>
    <Avatar />
    <UserInfo />
  </div>
);
  }
}
"#;
    let c = first(src);
    assert_eq!(c.component_name, "UserProfile");
    assert_eq!(c.nuc, 2, "Avatar and UserInfo");
}

// ── Class without render — not detected ──────────────────────────────────

#[test]
fn test_class_without_render_not_detected() {
    let src = r#"
class UtilityClass {
  static helper(): string { return "help"; }
}
"#;
    let v = nuc_for(src);
    assert!(v.is_empty(), "class without render() is not a React component");
}

// ── Multiple components in one file ──────────────────────────────────────

#[test]
fn test_multiple_components_independent() {
    let src = r#"
function Header() {
  return <nav><Logo /></nav>;
}

function Footer() {
  return <footer><CopyrightNotice /><SocialLinks /></footer>;
}
"#;
    let results = nuc_for(src);
    assert_eq!(results.len(), 2);
    assert_eq!(find_component(&results, "Header").nuc, 1);
    assert_eq!(find_component(&results, "Footer").nuc, 2);
}

// ── Self-closing and opening tags both counted ────────────────────────────

#[test]
fn test_self_closing_and_opening_tags() {
    let src = r#"
function Form() {
  return (
<FormWrapper>
  <TextInput />
  <SelectInput />
  <SubmitButton />
</FormWrapper>
  );
}
"#;
    let c = first(src);
    // FormWrapper (opening), TextInput, SelectInput, SubmitButton (all self-closing)
    assert_eq!(c.nuc, 4);
}

// ── Render callback arrow functions are traversed ─────────────────────────

#[test]
fn test_jsx_in_render_callback_counted() {
    let src = r#"
function ItemList() {
  return (
<ul>
  {items.map(item => <ListItem key={item.id} />)}
</ul>
  );
}
"#;
    let c = first(src);
    assert_eq!(c.component_name, "ItemList");
    assert_eq!(c.nuc, 1, "ListItem inside arrow callback counts");
}

// ── Nested arrow-function component JSX excluded ──────────────────────────

#[test]
fn test_nested_arrow_function_component_excluded() {
    let src = r#"
function Outer() {
  const Inner = () => <Button />;
  return <Inner />;
}
"#;
    let results = nuc_for(src);
    let outer = find_component(&results, "Outer");
    // Only <Inner /> counts for Outer; <Button /> is inside Inner's body.
    assert_eq!(outer.nuc, 1, "Inner is used by Outer; Button is not");

    let inner = find_component(&results, "Inner");
    assert_eq!(inner.nuc, 1, "Inner uses Button");
}

// ── Nested function declaration JSX excluded ──────────────────────────────

#[test]
fn test_nested_function_declaration_excluded() {
    let src = r#"
function Outer() {
  function Inner() { return <Button />; }
  return <Inner />;
}
"#;
    let results = nuc_for(src);
    let outer = find_component(&results, "Outer");
    // Only <Inner /> counts for Outer; <Button /> is inside Inner's body.
    assert_eq!(outer.nuc, 1, "Inner is used by Outer; Button is not");

    let inner = find_component(&results, "Inner");
    assert_eq!(inner.nuc, 1, "Inner uses Button");
}

// ── is_pascal_case helper ─────────────────────────────────────────────────

#[test]
fn test_is_pascal_case() {
    assert!(is_pascal_case("MyComponent"));
    assert!(is_pascal_case("Button"));
    assert!(is_pascal_case("A"));
    assert!(!is_pascal_case("div"));
    assert!(!is_pascal_case("span"));
    assert!(!is_pascal_case(""));
    assert!(!is_pascal_case("myComponent"));
}
