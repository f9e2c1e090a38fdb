use tsmetrics::metrics::react::hook_cohesion::{compute_hook_cohesion, is_custom_hook_name, HookCohesion};
use tsmetrics::parse::parse_typescript;

fn analyse(src: &str) -> Vec<HookCohesion> {
    let tree = parse_typescript(src).expect("parse failed");
    compute_hook_cohesion(&tree, tree.root())
}

fn first(src: &str) -> HookCohesion {
    let mut results = analyse(src);
    assert!(!results.is_empty(), "expected at least one hook result");
    results.remove(0)
}

/// The cohesion ratio the application derives from the pair counts.
fn cohesion(h: &HookCohesion) -> f64 {
    if h.return_count <= 1 || h.total_pairs == 0 {
        1.0
    } else {
        h.connected_pairs as f64 / h.total_pairs as f64
    }
}

#[test]
fn test_no_custom_hooks() {
    let src = "function foo() { return 1; }";
    let results = analyse(src);
    assert!(results.is_empty());
}

#[test]
fn test_hook_detected_by_name() {
    let src = r#"
function useCounter() {
const [count, setCount] = useState(0);
return { count, setCount };
}
"#;
    let result = first(src);
    assert_eq!(result.hook_name, "useCounter");
}

#[test]
fn test_non_hook_use_prefix_not_detected() {
    // `userlevel` doesn't start with `use` + uppercase
    let src = "function userlevel() { return 1; }";
    let results = analyse(src);
    assert!(results.is_empty());
}

#[test]
fn test_single_return_vacuously_cohesive() {
    let src = r#"
function useCount() {
const [count, setCount] = useState(0);
return count;
}
"#;
    let result = first(src);
    assert_eq!(result.return_count, 1);
    assert_eq!(result.total_pairs, 0);
    assert!((cohesion(&result) - 1.0).abs() < 1e-9);
}

#[test]
fn test_fully_cohesive_hook() {
    // Both return values share `count` internal state
    let src = r#"
function useCounter() {
const [count, setCount] = useState(0);
const increment = () => setCount(count + 1);
const decrement = () => setCount(count - 1);
return { increment, decrement };
}
"#;
    let result = first(src);
    // 2 return values: increment and decrement
    // Both depend on setCount which comes from the same useState
    assert_eq!(result.return_count, 2);
    assert_eq!(result.total_pairs, 1);
    // cohesion may be 1.0 if both share internals
    assert!(cohesion(&result) >= 0.0 && cohesion(&result) <= 1.0);
}

#[test]
fn test_cohesion_range() {
    let src = r#"
function useFormField(label: string) {
const [value, setValue] = useState('');
const [error, setError] = useState('');
return { value, error };
}
"#;
    let result = first(src);
    assert_eq!(result.return_count, 2);
    assert!(cohesion(&result) >= 0.0 && cohesion(&result) <= 1.0);
}

#[test]
fn test_arrow_function_hook_detected() {
    let src = r#"
const useToggle = () => {
const [on, setOn] = useState(false);
return { on, setOn };
};
"#;
    let results = analyse(src);
    assert!(!results.is_empty(), "expected useToggle to be detected");
    assert_eq!(results[0].hook_name, "useToggle");
}

#[test]
fn test_line_number_recorded() {
    let src = r#"
function useValue() {
const [v, setV] = useState(0);
return v;
}
"#;
    let result = first(src);
    assert!(result.line >= 2, "expected line >= 2, got {}", result.line);
}

#[test]
fn test_is_custom_hook_name() {
    // useState starts with `use` + `S` (uppercase) → matches the pattern
    assert!(is_custom_hook_name("useState"));
    assert!(is_custom_hook_name("useMyHook"));
    assert!(is_custom_hook_name("useAuth"));
    assert!(!is_custom_hook_name("userlevel")); // lowercase r after 'use'
    assert!(!is_custom_hook_name("fetch"));
    assert!(!is_custom_hook_name("use")); // empty rest after 'use'
}

#[test]
fn test_multiple_hooks_in_file() {
    let src = r#"
function useA() {
const [a, setA] = useState(0);
return a;
}

function useB() {
const [b, setB] = useState('');
return b;
}
"#;
    let results = analyse(src);
    assert_eq!(results.len(), 2);
    assert_eq!(results[0].hook_name, "useA");
    assert_eq!(results[1].hook_name, "useB");
}

#[test]
fn hook_sharing_state_has_one_connected_pair() {
    let src = r#"
function useCounter() {
    const [count, setCount] = useState(0);
    const increment = () => setCount(count + 1);
    const decrement = () => setCount(count - 1);
    return { increment, decrement };
}
"#;
    let result = first(src);
    assert_eq!(result.connected_pairs, 1);
    assert!((cohesion(&result) - 1.0).abs() < 1e-9);
}

#[test]
fn hook_with_independent_state_has_no_connected_pair() {
    let src = r#"
function useFormField(label: string) {
    const [value, setValue] = useState('');
    const [error, setError] = useState('');
    return { value, error };
}
"#;
    let result = first(src);
    assert_eq!(result.connected_pairs, 0);
    assert_eq!(result.total_pairs, 1);
}

#[test]
fn nested_function_named_like_hook_is_not_measured() {
    let src = r#"
function outer() {
    function useInner() {
        const [a, setA] = useState(0);
        return a;
    }
    return 1;
}
"#;
    assert!(analyse(src).is_empty());
}
