use tsmetrics::metrics::class::cbo::{compute_class_cbo, ClassCbo};
use tsmetrics::parse::parse_typescript;

fn cbo_for(src: &str) -> Vec<ClassCbo> {
    let tree = parse_typescript(src).expect("parse failed");
    compute_class_cbo(&tree, tree.root())
}

fn first(src: &str) -> ClassCbo {
    let mut v = cbo_for(src);
    assert!(!v.is_empty(), "expected at least one class");
    v.remove(0)
}

#[test]
fn test_empty_class_has_zero_cbo() {
    let src = "class Empty {}";
    let c = first(src);
    assert_eq!(c.class_name, "Empty");
    assert_eq!(c.cbo, 0);
    assert!(c.coupled_types.is_empty());
}

#[test]
fn test_class_with_only_primitives_has_zero_cbo() {
    let src = r#"
class Primitive {
    name: string;
    age: number;
    active: boolean;
    greet(prefix: string): void {}
}
"#;
    let c = first(src);
    assert_eq!(c.cbo, 0);
}

#[test]
fn test_class_extending_another_has_cbo_one() {
    let src = r#"
class Animal {}
class Dog extends Animal {}
"#;
    let results = cbo_for(src);
    let dog = results.iter().find(|c| c.class_name == "Dog").unwrap();
    assert_eq!(dog.cbo, 1);
    assert_eq!(dog.coupled_types, vec!["Animal"]);
}

#[test]
fn test_class_implementing_one_interface_has_cbo_one() {
    let src = r#"
class Task implements Runnable {}
"#;
    let c = first(src);
    assert_eq!(c.cbo, 1);
    assert_eq!(c.coupled_types, vec!["Runnable"]);
}

#[test]
fn test_class_implementing_two_interfaces_has_cbo_two() {
    let src = r#"
class Worker implements Runnable, Serializable {}
"#;
    let c = first(src);
    assert_eq!(c.cbo, 2);
    assert_eq!(c.coupled_types, vec!["Runnable", "Serializable"]);
}

#[test]
fn test_class_extending_and_implementing_has_correct_cbo() {
    let src = r#"
class Service extends BaseService implements ILogger, ICache {}
"#;
    let c = first(src);
    assert_eq!(c.cbo, 3);
    assert_eq!(c.coupled_types, vec!["BaseService", "ICache", "ILogger"]);
}

#[test]
fn test_property_typed_as_class_counts_as_coupling() {
    let src = r#"
class OrderService {
    private repo: OrderRepository;
    private logger: Logger;
}
"#;
    let c = first(src);
    assert_eq!(c.cbo, 2);
    assert_eq!(c.coupled_types, vec!["Logger", "OrderRepository"]);
}

#[test]
fn test_method_param_type_counts_as_coupling() {
    let src = r#"
class Processor {
    process(event: DomainEvent): void {}
}
"#;
    let c = first(src);
    assert_eq!(c.cbo, 1);
    assert_eq!(c.coupled_types, vec!["DomainEvent"]);
}

#[test]
fn test_method_return_type_counts_as_coupling() {
    let src = r#"
class Factory {
    create(): Widget {}
}
"#;
    let c = first(src);
    assert_eq!(c.cbo, 1);
    assert_eq!(c.coupled_types, vec!["Widget"]);
}

#[test]
fn test_method_body_references_do_not_count() {
    let src = r#"
class Service {
    run(): void {
        const dep = new HiddenDependency();
        dep.execute();
    }
}
"#;
    let c = first(src);
    assert_eq!(c.cbo, 0, "method body references should not be counted");
}

#[test]
fn test_generic_type_argument_counts_as_coupling() {
    let src = r#"
class AsyncService {
    fetch(): Promise<Result> {}
}
"#;
    let c = first(src);
    assert!(
        c.coupled_types.contains(&"Result".to_string()),
        "expected Result in coupled_types, got {:?}",
        c.coupled_types
    );
}

#[test]
fn test_self_reference_is_excluded() {
    let src = r#"
class MyClass {
    clone(): MyClass {}
}
"#;
    let c = first(src);
    assert_eq!(c.cbo, 0, "self-reference must not be counted");
}

#[test]
fn test_heavy_coupling_class() {
    let src = r#"
class OrderController extends BaseController implements IController, ILoggable {
    private repo: OrderRepository;
    private mailer: EmailService;

    create(dto: CreateOrderDto): Order {}
    cancel(id: OrderId): Result {}
}
"#;
    let c = first(src);
    assert!(c.cbo >= 9, "expected at least 9 coupled types, got {}", c.cbo);
}

#[test]
fn test_same_type_referenced_multiple_times_counted_once() {
    let src = r#"
class RepoAdapter {
    private primary: UserRepository;
    private fallback: UserRepository;
    find(id: UserId): UserRepository {}
}
"#;
    let c = first(src);
    let repo_count = c
        .coupled_types
        .iter()
        .filter(|t| t.as_str() == "UserRepository")
        .count();
    assert_eq!(repo_count, 1, "UserRepository should appear only once");
    assert_eq!(c.cbo, 2);
}

#[test]
fn test_class_name_is_extracted() {
    let src = "class PaymentGateway {}";
    let c = first(src);
    assert_eq!(c.class_name, "PaymentGateway");
}

#[test]
fn test_line_number_is_correct() {
    let src = "\n\nclass MyService {}\n";
    let c = first(src);
    assert_eq!(c.line, 3);
}

#[test]
fn cbo_test_multiple_classes_measured_independently() {
    let src = r#"
class Isolated {}

class Coupled extends Isolated implements IFoo {}
"#;
    let results = cbo_for(src);
    let isolated = results.iter().find(|c| c.class_name == "Isolated").unwrap();
    let coupled = results.iter().find(|c| c.class_name == "Coupled").unwrap();

    assert_eq!(isolated.cbo, 0);
    assert_eq!(coupled.cbo, 2);
}
