use tsmetrics::metrics::react::component_responsibility::{compute_component_responsibility, ComponentResponsibilityScore};
use tsmetrics::parse::parse_tsx;
use tsmetrics::syntax::SyntaxTree;

/// Weights of the responsibility score, as the application holds them.
struct CrsWeights {
    props: f64,
    state: f64,
    effects: f64,
    jsx: f64,
}

impl Default for CrsWeights {
    fn default() -> Self {
        CrsWeights { props: 1.0, state: 2.0, effects: 3.0, jsx: 0.5 }
    }
}

/// A counted component together with its weighted score.
struct Scored {
    prop_count: usize,
    state_count: usize,
    effect_count: usize,
    jsx_element_count: usize,
    score: f64,
}

fn scored(c: ComponentResponsibilityScore, w: &CrsWeights) -> Scored {
    let score = w.props * c.prop_count as f64
        + w.state * c.state_count as f64
        + w.effects * c.effect_count as f64
        + w.jsx * c.jsx_element_count as f64;
    Scored {
        prop_count: c.prop_count,
        state_count: c.state_count,
        effect_count: c.effect_count,
        jsx_element_count: c.jsx_element_count,
        score,
    }
}

fn find_first_function(tree: &SyntaxTree) -> Option<usize> {
    (0..tree.node_count())
        .find(|&i| tree.is_kind_in(i, &["function_declaration", "function_expression", "arrow_function"]))
}

fn crs(src: &str) -> Scored {
    let tree = parse_tsx(src).expect("parse failed");
    let component = find_first_function(&tree).expect("no function found");
    scored(compute_component_responsibility(&tree, component), &CrsWeights::default())
}

#[test]
fn test_empty_component_zero_score() {
    let src = "function Empty() { return null; }";
    let result = crs(src);
    assert_eq!(result.prop_count, 0);
    assert_eq!(result.state_count, 0);
    assert_eq!(result.effect_count, 0);
    assert_eq!(result.jsx_element_count, 0);
    assert_eq!(result.score, 0.0);
}

#[test]
fn test_props_counted() {
    let src = r#"
function Comp({ name, age, onClick }: Props) {
return null;
}
"#;
    let result = crs(src);
    // One destructured object parameter
    assert_eq!(result.prop_count, 1);
}

#[test]
fn test_state_counted() {
    let src = r#"
function Counter() {
const [count, setCount] = useState(0);
const [name, setName] = useState('');
return null;
}
"#;
    let result = crs(src);
    assert_eq!(result.state_count, 2);
}

#[test]
fn test_effects_counted() {
    let src = r#"
function App() {
useEffect(() => {}, []);
useEffect(() => {}, []);
return null;
}
"#;
    let result = crs(src);
    assert_eq!(result.effect_count, 2);
}

#[test]
fn test_jsx_elements_counted() {
    let src = r#"
function Card() {
return (
    <div>
        <h1>Title</h1>
        <p>Body</p>
    </div>
);
}
"#;
    let result = crs(src);
    // div, h1, p
    assert_eq!(result.jsx_element_count, 3);
}

#[test]
fn test_score_formula() {
    // props=1(w=1), state=2(w=2), effects=1(w=3), jsx=4(w=0.5)
    // score = 1*1 + 2*2 + 1*3 + 4*0.5 = 1 + 4 + 3 + 2 = 10
    let src = r#"
function Widget({ title }: Props) {
const [x, setX] = useState(0);
const [y, setY] = useState(0);
useEffect(() => {}, []);
return (
    <div>
        <span>{x}</span>
        <span>{y}</span>
        <button>click</button>
    </div>
);
}
"#;
    let result = crs(src);
    assert_eq!(result.prop_count, 1);
    assert_eq!(result.state_count, 2);
    assert_eq!(result.effect_count, 1);
    // div + span + span + button = 4 jsx elements
    assert_eq!(result.jsx_element_count, 4);
    let expected = 1.0 * 1.0 + 2.0 * 2.0 + 3.0 * 1.0 + 0.5 * 4.0;
    assert!((result.score - expected).abs() < 1e-9);
}

#[test]
fn test_use_reducer_counted_as_state() {
    let src = r#"
function Store() {
const [state, dispatch] = useReducer(reducer, initial);
return null;
}
"#;
    let result = crs(src);
    assert_eq!(result.state_count, 1);
}

#[test]
fn component_responsibility_test_use_layout_effect_counted() {
    let src = r#"
function Modal() {
useLayoutEffect(() => {}, []);
return null;
}
"#;
    let result = crs(src);
    assert_eq!(result.effect_count, 1);
}

#[test]
fn test_nested_effect_not_counted() {
    // useEffect inside a handler is not a direct component effect
    let src = r#"
function Component() {
const handler = () => {
    useEffect(() => {}, []);
};
return null;
}
"#;
    let result = crs(src);
    assert_eq!(result.effect_count, 0);
}

#[test]
fn test_custom_weights() {
    let src = r#"
function Comp() {
const [x, setX] = useState(0);
return null;
}
"#;
    let weights = CrsWeights {
        props: 0.0,
        state: 5.0,
        effects: 0.0,
        jsx: 0.0,
    };
    let tree = parse_tsx(src).expect("parse failed");
    let component = find_first_function(&tree).unwrap();
    let result = scored(compute_component_responsibility(&tree, component), &weights);
    assert_eq!(result.state_count, 1);
    assert!((result.score - 5.0).abs() < 1e-9);
}
