use tsmetrics::metrics::function::long_param_list::{check_long_param_list, check_with_threshold, LongParamListResult, DEFAULT_THRESHOLD};
use tsmetrics::parse::parse_typescript;
use tsmetrics::syntax::SyntaxTree;

fn find_first_function(tree: &SyntaxTree) -> Option<usize> {
    (0..tree.node_count()).find(|&i| {
        tree.is_kind_in(i, &["function_declaration", "function_expression", "arrow_function", "method_definition"])
    })
}

fn check(src: &str) -> LongParamListResult {
    let tree = parse_typescript(src).expect("parse failed");
    let func = find_first_function(&tree).expect("no function");
    check_long_param_list(&tree, func)
}

#[test]
fn test_zero_params_not_long() {
    let result = check("function foo() { return 1; }");
    assert_eq!(result.param_count, 0);
    assert!(!result.is_long);
}

#[test]
fn test_one_param_not_long() {
    let result = check("function foo(a: number) { return a; }");
    assert_eq!(result.param_count, 1);
    assert!(!result.is_long);
}

#[test]
fn test_four_params_not_long_at_default_threshold() {
    // exactly at threshold — not "long" (threshold is >4, so 4 is not long)
    let result = check("function foo(a: number, b: string, c: boolean, d: number) {}");
    assert_eq!(result.param_count, 4);
    assert!(!result.is_long, "4 params should not be long at threshold 4");
}

#[test]
fn test_five_params_is_long() {
    let result = check("function foo(a: number, b: string, c: boolean, d: number, e: string) {}");
    assert_eq!(result.param_count, 5);
    assert!(result.is_long, "5 params should be long at default threshold 4");
}

#[test]
fn test_arrow_function_with_parens() {
    let src = "const fn = (a: number, b: string, c: boolean, d: number, e: string) => a;";
    let result = check(src);
    assert_eq!(result.param_count, 5);
    assert!(result.is_long);
}

#[test]
fn test_single_param_arrow_no_parens() {
    let src = "const fn = x => x * 2;";
    let result = check(src);
    assert_eq!(result.param_count, 1);
    assert!(!result.is_long);
}

#[test]
fn test_method_definition() {
    let src = r#"
class Foo {
bar(a: number, b: string, c: boolean, d: number, e: string): void {}
}
"#;
    let result = check(src);
    assert_eq!(result.param_count, 5);
    assert!(result.is_long);
}

#[test]
fn test_custom_threshold_lower() {
    let src = "function foo(a: number, b: string, c: boolean) {}";
    let tree = parse_typescript(src).expect("parse failed");
    let func = find_first_function(&tree).unwrap();
    // With threshold of 2: 3 params > 2 → is_long
    let result = check_with_threshold(&tree, func, 2);
    assert_eq!(result.param_count, 3);
    assert!(result.is_long);
}

#[test]
fn test_custom_threshold_higher() {
    let src = "function foo(a: number, b: string, c: boolean, d: number, e: string) {}";
    let tree = parse_typescript(src).expect("parse failed");
    let func = find_first_function(&tree).unwrap();
    // With threshold of 6: 5 params ≤ 6 → not long
    let result = check_with_threshold(&tree, func, 6);
    assert_eq!(result.param_count, 5);
    assert!(!result.is_long);
}

#[test]
fn test_rest_parameter_counted() {
    let src = "function foo(a: number, b: string, ...rest: string[]) {}";
    let result = check(src);
    // 3 params total (a, b, ...rest)
    assert_eq!(result.param_count, 3);
}

#[test]
fn test_optional_parameter_counted() {
    let src = "function foo(a: number, b?: string, c?: boolean, d?: number, e?: string) {}";
    let result = check(src);
    assert_eq!(result.param_count, 5);
    assert!(result.is_long);
}

#[test]
fn test_destructured_parameter_counts_as_one() {
    // One destructured object param = 1 parameter slot
    let src = "function foo({ a, b, c, d, e }: Config) {}";
    let result = check(src);
    assert_eq!(result.param_count, 1, "destructured param is one param");
    assert!(!result.is_long);
}

#[test]
fn test_threshold_stored_in_result() {
    let result = check("function foo() {}");
    assert_eq!(result.threshold, DEFAULT_THRESHOLD);
}
