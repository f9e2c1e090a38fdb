//! Module purity: which functions of a file are free of side effects.
use crate::strset::{add_unique, contains_str, dedup, lemma_dedup_push, views};
use crate::syntax::{names, SyntaxTree};
use crate::text::{str_eq, str_in};
use crate::walk::{find_all, union_over, lemma_union_over_step, WalkPlan};
use vstd::prelude::*;

verus! {

/// Why a function is considered impure.
#[derive(Debug, Clone, PartialEq, Eq, Hash)]
pub enum ImpurityReason {
    UsesThis,
    CallsImpureApi(String),
    MutatesParameter(String),
    WritesToOuterScope(String),
    UsesAwait,
    CallsMutationMethod(String),
    UsesDeleteOperator,
}

impl ImpurityReason {
    pub open spec fn spec_description(&self) -> Seq<char> {
        match self {
            ImpurityReason::UsesThis => "accesses `this`"@,
            ImpurityReason::CallsImpureApi(name) => "calls impure API `"@ + name@ + "`"@,
            ImpurityReason::MutatesParameter(name) => "mutates parameter `"@ + name@ + "`"@,
            ImpurityReason::WritesToOuterScope(name) => "writes to outer-scope variable `"@ + name@ + "`"@,
            ImpurityReason::UsesAwait => "uses `await` (I/O by convention)"@,
            ImpurityReason::CallsMutationMethod(name) => "calls mutation method `."@ + name@ + "()`"@,
            ImpurityReason::UsesDeleteOperator => "uses `delete` operator"@,
        }
    }

    /// A short human-readable description of the reason.
    pub fn description(&self) -> (r: String)
        ensures
            r@ == self.spec_description(),
    {
        let mut s = String::new();
        match self {
            ImpurityReason::UsesThis => {
                s.append("accesses `this`");
            },
            ImpurityReason::CallsImpureApi(name) => {
                s.append("calls impure API `");
                s.append(name.as_str());
                s.append("`");
            },
            ImpurityReason::MutatesParameter(name) => {
                s.append("mutates parameter `");
                s.append(name.as_str());
                s.append("`");
            },
            ImpurityReason::WritesToOuterScope(name) => {
                s.append("writes to outer-scope variable `");
                s.append(name.as_str());
                s.append("`");
            },
            ImpurityReason::UsesAwait => {
                s.append("uses `await` (I/O by convention)");
            },
            ImpurityReason::CallsMutationMethod(name) => {
                s.append("calls mutation method `.");
                s.append(name.as_str());
                s.append("()`");
            },
            ImpurityReason::UsesDeleteOperator => {
                s.append("uses `delete` operator");
            },
        }
        proof {
            assert(s@ =~= self.spec_description());
        }
        s
    }
}

/// Purity verdict for one function.
#[derive(Debug, Clone, PartialEq, Eq)]
pub struct FunctionPurity {
    pub name: String,
    pub line: usize,
    pub is_pure: bool,
    pub reasons: Vec<ImpurityReason>,
}

/// An impurity reason as a value.
pub enum ReasonView {
    UsesThis,
    CallsImpureApi(Seq<char>),
    MutatesParameter(Seq<char>),
    WritesToOuterScope(Seq<char>),
    UsesAwait,
    CallsMutationMethod(Seq<char>),
    UsesDeleteOperator,
}

pub open spec fn reason_view(r: ImpurityReason) -> ReasonView {
    match r {
        ImpurityReason::UsesThis => ReasonView::UsesThis,
        ImpurityReason::CallsImpureApi(s) => ReasonView::CallsImpureApi(s@),
        ImpurityReason::MutatesParameter(s) => ReasonView::MutatesParameter(s@),
        ImpurityReason::WritesToOuterScope(s) => ReasonView::WritesToOuterScope(s@),
        ImpurityReason::UsesAwait => ReasonView::UsesAwait,
        ImpurityReason::CallsMutationMethod(s) => ReasonView::CallsMutationMethod(s@),
        ImpurityReason::UsesDeleteOperator => ReasonView::UsesDeleteOperator,
    }
}

pub open spec fn reasons_view(v: Seq<ImpurityReason>) -> Seq<ReasonView> {
    v.map_values(|r: ImpurityReason| reason_view(r))
}

/// Function kinds whose bodies are analysed on their own.
pub open spec fn nested_kinds() -> Seq<Seq<char>> {
    seq!["arrow_function"@, "function_expression"@, "function_declaration"@, "method_definition"@]
}

pub open spec fn impure_globals() -> Seq<Seq<char>> {
    seq!["fetch"@, "setTimeout"@, "setInterval"@, "alert"@, "prompt"@]
}

pub open spec fn mutation_methods() -> Seq<Seq<char>> {
    seq!["push"@, "splice"@, "sort"@]
}

/// Names bound by a parameter pattern: identifiers, descending through everything
/// but type annotations.
pub open spec fn pattern_names(t: SyntaxTree, n: int) -> Set<Seq<char>>
    decreases t.len() - n, 0int,
{
    if 0 <= n < t.len() {
        if t.kind(n) == "identifier"@ {
            set![t.text(n)]
        } else if t.kind(n) == "type_annotation"@ {
            Set::empty()
        } else {
            pattern_names_chain(t, n + 1, t.end(n))
        }
    } else {
        Set::empty()
    }
}

pub open spec fn pattern_names_chain(t: SyntaxTree, c: int, e: int) -> Set<Seq<char>>
    decreases t.len() - c, 1int,
{
    if t.chain_ok(c, e) {
        pattern_names(t, c).union(pattern_names_chain(t, t.end(c), e))
    } else {
        Set::empty()
    }
}

/// Names bound by one child of a `formal_parameters` node.
pub open spec fn formal_item_names(t: SyntaxTree) -> spec_fn(usize) -> Set<Seq<char>> {
    |c: usize|
        if t.kind(c as int) == "required_parameter"@ || t.kind(c as int) == "optional_parameter"@ || t.kind(c as int)
            == "rest_parameter"@ {
            match t.child_by_field(c as int, "pattern"@) {
                Some(p) => pattern_names(t, p as int),
                None => Set::empty(),
            }
        } else if t.kind(c as int) == "identifier"@ {
            set![t.text(c as int)]
        } else {
            Set::empty()
        }
}

/// The parameter names of function `f` from its children from position `c` on: the
/// first `formal_parameters` child, or for an arrow function a bare identifier.
pub open spec fn params_from(t: SyntaxTree, f: int, c: int, e: int) -> Set<Seq<char>>
    decreases e - c,
{
    if t.chain_ok(c, e) {
        if t.kind(c) == "formal_parameters"@ {
            union_over(t.children(c), formal_item_names(t))
        } else if t.kind(c) == "identifier"@ && t.kind(f) == "arrow_function"@ {
            set![t.text(c)]
        } else {
            params_from(t, f, t.end(c), e)
        }
    } else {
        Set::empty()
    }
}

pub open spec fn param_names(t: SyntaxTree, f: int) -> Set<Seq<char>> {
    params_from(t, f, f + 1, t.end(f))
}

/// The nodes below `body` that a scan reaches: nothing when `body` is itself a
/// function, else the wanted kinds outside nested functions.
pub open spec fn scan_nodes(t: SyntaxTree, body: int, want: Seq<Seq<char>>) -> Seq<usize> {
    if nested_kinds().contains(t.kind(body)) {
        seq![]
    } else {
        t.walk_node(body, 0, (want, nested_kinds(), seq![], usize::MAX as int, false, false, 0))
    }
}

pub open spec fn declaration_kinds() -> Seq<Seq<char>> {
    seq!["lexical_declaration"@, "variable_declaration"@]
}

/// Names declared by one declaration node: the patterns of its declarators.
pub open spec fn declared_by(t: SyntaxTree) -> spec_fn(usize) -> Set<Seq<char>> {
    |d: usize|
        union_over(
            t.children(d as int),
            |c: usize|
                if t.kind(c as int) == "variable_declarator"@ {
                    match t.child_by_field(c as int, "name"@) {
                        Some(n) => pattern_names(t, n as int),
                        None => Set::empty(),
                    }
                } else {
                    Set::empty()
                },
        )
}

/// Names declared in the body of function `f`, outside nested functions.
pub open spec fn local_names(t: SyntaxTree, f: int) -> Set<Seq<char>> {
    match t.child_by_field(f, "body"@) {
        Some(b) => union_over(scan_nodes(t, b as int, declaration_kinds()), declared_by(t)),
        None => Set::empty(),
    }
}

pub open spec fn field_text_or_empty(t: SyntaxTree, n: int, field: Seq<char>) -> Seq<char> {
    match t.child_by_field(n, field) {
        Some(c) => t.text(c as int),
        None => seq![],
    }
}

/// Reasons given by call expression `j`.
pub open spec fn call_reasons(t: SyntaxTree, j: int) -> Seq<ReasonView> {
    match t.child_by_field(j, "function"@) {
        Some(f) => if t.kind(f as int) == "identifier"@ {
            if impure_globals().contains(t.text(f as int)) {
                seq![ReasonView::CallsImpureApi(t.text(f as int))]
            } else {
                seq![]
            }
        } else if t.kind(f as int) == "member_expression"@ {
            let obj = field_text_or_empty(t, f as int, "object"@);
            let prop = field_text_or_empty(t, f as int, "property"@);
            (if obj == "console"@ {
                seq![ReasonView::CallsImpureApi("console."@ + prop)]
            } else if obj == "Math"@ && prop == "random"@ {
                seq![ReasonView::CallsImpureApi("Math.random"@)]
            } else if obj == "Date"@ && prop == "now"@ {
                seq![ReasonView::CallsImpureApi("Date.now"@)]
            } else {
                seq![]
            }) + (if mutation_methods().contains(prop) {
                seq![ReasonView::CallsMutationMethod(prop)]
            } else {
                seq![]
            })
        } else {
            seq![]
        },
        None => seq![],
    }
}

/// Reasons given by assignment `j`, given the parameter and local names.
pub open spec fn assignment_reasons(t: SyntaxTree, j: int, params: Set<Seq<char>>, locals: Set<Seq<char>>) -> Seq<ReasonView> {
    match t.child_by_field(j, "left"@) {
        Some(l) => if t.kind(l as int) == "member_expression"@ {
            match t.child_by_field(l as int, "object"@) {
                Some(o) => if t.kind(o as int) == "identifier"@ && params.contains(t.text(o as int)) {
                    seq![ReasonView::MutatesParameter(t.text(o as int))]
                } else {
                    seq![]
                },
                None => seq![],
            }
        } else if t.kind(l as int) == "identifier"@ {
            let name = t.text(l as int);
            if name.len() > 0 && !params.contains(name) && !locals.contains(name) {
                seq![ReasonView::WritesToOuterScope(name)]
            } else {
                seq![]
            }
        } else {
            seq![]
        },
        None => seq![],
    }
}

/// Reasons given by node `j`.
pub open spec fn node_reasons(t: SyntaxTree, j: int, params: Set<Seq<char>>, locals: Set<Seq<char>>) -> Seq<ReasonView> {
    let k = t.kind(j);
    if k == "this"@ {
        seq![ReasonView::UsesThis]
    } else if k == "await_expression"@ {
        seq![ReasonView::UsesAwait]
    } else if k == "unary_expression"@ {
        if "delete "@.is_prefix_of(t.text(j)) || t.text(j) == "delete"@ {
            seq![ReasonView::UsesDeleteOperator]
        } else {
            seq![]
        }
    } else if k == "call_expression"@ {
        call_reasons(t, j)
    } else if k == "assignment_expression"@ || k == "augmented_assignment_expression"@ {
        assignment_reasons(t, j, params, locals)
    } else {
        seq![]
    }
}

/// Reasons given by the nodes of `s`, in order, repeats included.
pub open spec fn raw_reasons(t: SyntaxTree, s: Seq<usize>, params: Set<Seq<char>>, locals: Set<Seq<char>>) -> Seq<ReasonView>
    decreases s.len(),
{
    if s.len() == 0 {
        seq![]
    } else {
        raw_reasons(t, s.drop_last(), params, locals) + node_reasons(t, s.last() as int, params, locals)
    }
}

pub open spec fn reason_kinds() -> Seq<Seq<char>> {
    seq![
        "this"@,
        "await_expression"@,
        "unary_expression"@,
        "call_expression"@,
        "assignment_expression"@,
        "augmented_assignment_expression"@,
    ]
}

/// The reasons why function `f` is impure, each once, in order of first appearance.
pub open spec fn function_reasons(t: SyntaxTree, f: int) -> Seq<ReasonView> {
    match t.child_by_field(f, "body"@) {
        Some(b) => dedup(raw_reasons(t, scan_nodes(t, b as int, reason_kinds()), param_names(t, f), local_names(t, f))),
        None => seq![],
    }
}

/// The name purity reports for function `f`: its `name` field, else the name or key
/// of the declarator, field, assignment or pair it stands in, else `<anonymous>`.
pub open spec fn purity_name(t: SyntaxTree, f: int) -> Seq<char> {
    match t.child_by_field(f, "name"@) {
        Some(n) => t.text(n as int),
        None => match t.parent(f) {
            Some(p) => {
                let k = t.kind(p as int);
                let field = if k == "variable_declarator"@ || k == "public_field_definition"@ || k
                    == "assignment_expression"@ {
                    t.child_by_field(p as int, "name"@)
                } else if k == "pair"@ {
                    t.child_by_field(p as int, "key"@)
                } else {
                    None
                };
                match field {
                    Some(n) => t.text(n as int),
                    None => "<anonymous>"@,
                }
            },
            None => "<anonymous>"@,
        },
    }
}

/// `r` is the purity verdict of function `f`.
pub open spec fn purity_of(t: SyntaxTree, f: int, r: FunctionPurity) -> bool {
    &&& r.name@ == purity_name(t, f)
    &&& r.line == t.row(f) + 1
    &&& reasons_view(r.reasons@) == function_reasons(t, f)
    &&& r.is_pure == (r.reasons@.len() == 0)
}

// ── executable part ─────────────────────────────────────────────────────

fn pattern_names_into(t: &SyntaxTree, n: usize, acc: &mut Vec<String>)
    requires
        t.wf(),
        n < t.len(),
        views(old(acc)@).no_duplicates(),
    ensures
        views(final(acc)@).no_duplicates(),
        views(final(acc)@).to_set() == views(old(acc)@).to_set().union(pattern_names(*t, n as int)),
    decreases t.len() - n,
{
    let ghost a0 = views(acc@).to_set();
    if t.is_kind(n, "identifier") {
        add_unique(acc, t.text_of(n));
        proof {
            assert(a0.insert(t.text(n as int)) =~= a0.union(set![t.text(n as int)]));
        }
    } else if t.is_kind(n, "type_annotation") {
        proof {
            assert(a0.union(Set::empty()) =~= a0);
        }
    } else {
        let e = t.nodes[n].end;
        proof {
            assert(n < t.end(n as int) <= t.len());
        }
        let mut c = n + 1;
        while c < e
            invariant
                t.wf(),
                n < t.len(),
                e == t.end(n as int),
                n < c <= e,
                views(acc@).no_duplicates(),
                views(acc@).to_set().union(pattern_names_chain(*t, c as int, e as int)) == a0.union(
                    pattern_names_chain(*t, n + 1, e as int),
                ),
            decreases e - c,
        {
            let next = t.nodes[c].end;
            let ghost before = views(acc@).to_set();
            proof {
                assert(c < t.end(c as int) <= e);
            }
            pattern_names_into(t, c, acc);
            proof {
                assert(views(acc@).to_set().union(pattern_names_chain(*t, next as int, e as int)) =~= before.union(
                    pattern_names_chain(*t, c as int, e as int),
                ));
            }
            c = next;
        }
        proof {
            assert(views(acc@).to_set().union(pattern_names_chain(*t, c as int, e as int)) =~= views(acc@).to_set());
        }
    }
}

fn formal_params_into(t: &SyntaxTree, p: usize, acc: &mut Vec<String>)
    requires
        t.wf(),
        p < t.len(),
        views(old(acc)@).no_duplicates(),
    ensures
        views(final(acc)@).no_duplicates(),
        views(final(acc)@).to_set() == views(old(acc)@).to_set().union(union_over(t.children(p as int), formal_item_names(*t))),
{
    let kids = t.children_of(p);
    proof {
        t.lemma_children_bounds(p as int);
    }
    let ghost f = formal_item_names(*t);
    let ghost a0 = views(acc@).to_set();
    let mut x: usize = 0;
    while x < kids.len()
        invariant
            t.wf(),
            p < t.len(),
            kids@ == t.children(p as int),
            forall|y: int| 0 <= y < kids@.len() ==> p < #[trigger] kids@[y] < t.end(p as int),
            t.end(p as int) <= t.len(),
            f == formal_item_names(*t),
            x <= kids@.len(),
            views(acc@).no_duplicates(),
            views(acc@).to_set() == a0.union(union_over(kids@.take(x as int), f)),
        decreases kids.len() - x,
    {
        let c = kids[x];
        proof {
            lemma_union_over_step(kids@, x as int, f);
        }
        let ghost before = views(acc@).to_set();
        if t.is_kind(c, "required_parameter") || t.is_kind(c, "optional_parameter") || t.is_kind(c, "rest_parameter") {
            match t.child_by_field_name(c, "pattern") {
                Some(pt) => {
                    proof {
                        assert(pt < t.end(c as int) <= t.len());
                    }
                    pattern_names_into(t, pt, acc);
                },
                None => {
                    proof {
                        assert(before.union(Set::empty()) =~= before);
                    }
                },
            }
        } else if t.is_kind(c, "identifier") {
            add_unique(acc, t.text_of(c));
            proof {
                assert(before.insert(t.text(c as int)) =~= before.union(set![t.text(c as int)]));
            }
        } else {
            proof {
                assert(before.union(Set::empty()) =~= before);
            }
        }
        proof {
            assert(views(acc@).to_set() =~= a0.union(union_over(kids@.take(x + 1), f)));
        }
        x = x + 1;
    }
    proof {
        assert(kids@.take(kids@.len() as int) =~= kids@);
    }
}

/// The parameter names of function `f`, each once.
pub fn collect_param_names(t: &SyntaxTree, f: usize) -> (r: Vec<String>)
    requires
        t.wf(),
        f < t.len(),
    ensures
        views(r@).no_duplicates(),
        views(r@).to_set() == param_names(*t, f as int),
{
    let mut acc: Vec<String> = Vec::new();
    proof {
        assert(views(acc@) =~= seq![]);
        assert(views(acc@).to_set() =~= Set::empty());
    }
    let arrow = t.is_kind(f, "arrow_function");
    let e = t.nodes[f].end;
    proof {
        assert(f < t.end(f as int) <= t.len());
    }
    let mut c = f + 1;
    while c < e
        invariant
            t.wf(),
            f < t.len(),
            e == t.end(f as int),
            f < c <= e,
            arrow == (t.kind(f as int) == "arrow_function"@),
            views(acc@) == Seq::<Seq<char>>::empty(),
            params_from(*t, f as int, c as int, e as int) == param_names(*t, f as int),
        decreases e - c,
    {
        let next = t.nodes[c].end;
        proof {
            assert(c < t.end(c as int) <= e);
        }
        if t.is_kind(c, "formal_parameters") {
            formal_params_into(t, c, &mut acc);
            proof {
                assert(views(acc@).to_set() =~= param_names(*t, f as int));
            }
            return acc;
        } else if arrow && t.is_kind(c, "identifier") {
            add_unique(&mut acc, t.text_of(c));
            proof {
                assert(views(acc@).to_set() =~= param_names(*t, f as int));
            }
            return acc;
        }
        c = next;
    }
    proof {
        assert(views(acc@).to_set() =~= param_names(*t, f as int));
    }
    acc
}

/// Nodes of the wanted kinds reached by a scan of `body`.
fn scan_nodes_of(t: &SyntaxTree, body: usize, want: &[&str]) -> (r: Vec<usize>)
    requires
        t.wf(),
        body < t.len(),
    ensures
        r@ == scan_nodes(*t, body as int, names(want@)),
        forall|y: int| 0 <= y < r@.len() ==> #[trigger] r@[y] < t.len(),
{
    let nested: [&str; 4] = ["arrow_function", "function_expression", "function_declaration", "method_definition"];
    let none: [&str; 0] = [];
    proof {
        assert(names(nested@) =~= nested_kinds());
        assert(names(none@) =~= seq![]);
    }
    if t.is_kind_in(body, &nested) {
        return Vec::new();
    }
    let plan = WalkPlan { want, stop: &nested, bump: &none, limit: usize::MAX, prune_wanted: false, stop_named_only: false, min_depth: 0 };
    let r = t.walk(body, 0, &plan);
    proof {
        t.lemma_walk_node(body as int, 0, plan.spec());
    }
    r
}

/// Names declared in the body of function `f` outside nested functions, each once.
pub fn collect_local_names(t: &SyntaxTree, f: usize) -> (r: Vec<String>)
    requires
        t.wf(),
        f < t.len(),
    ensures
        views(r@).no_duplicates(),
        views(r@).to_set() == local_names(*t, f as int),
{
    let mut acc: Vec<String> = Vec::new();
    proof {
        assert(views(acc@) =~= seq![]);
        assert(views(acc@).to_set() =~= Set::empty());
    }
    let body = match t.child_by_field_name(f, "body") {
        Some(b) => b,
        None => return acc,
    };
    proof {
        assert(body < t.end(f as int) <= t.len());
    }
    let want: [&str; 2] = ["lexical_declaration", "variable_declaration"];
    proof {
        assert(names(want@) =~= declaration_kinds());
    }
    let decls = scan_nodes_of(t, body, &want);
    let ghost g = declared_by(*t);
    let mut x: usize = 0;
    while x < decls.len()
        invariant
            t.wf(),
            forall|y: int| 0 <= y < decls@.len() ==> #[trigger] decls@[y] < t.len(),
            g == declared_by(*t),
            x <= decls@.len(),
            views(acc@).no_duplicates(),
            views(acc@).to_set() == union_over(decls@.take(x as int), g),
        decreases decls.len() - x,
    {
        let d = decls[x];
        proof {
            lemma_union_over_step(decls@, x as int, g);
        }
        let ghost a0 = views(acc@).to_set();
        let kids = t.children_of(d);
        proof {
            t.lemma_children_bounds(d as int);
        }
        let ghost h = |c: usize|
            if t.kind(c as int) == "variable_declarator"@ {
                match t.child_by_field(c as int, "name"@) {
                    Some(n) => pattern_names(*t, n as int),
                    None => Set::<Seq<char>>::empty(),
                }
            } else {
                Set::<Seq<char>>::empty()
            };
        proof {
            assert(g(d) == union_over(kids@, h));
        }
        let mut y: usize = 0;
        while y < kids.len()
            invariant
                t.wf(),
                d < t.len(),
                kids@ == t.children(d as int),
                forall|q: int| 0 <= q < kids@.len() ==> d < #[trigger] kids@[q] < t.end(d as int),
                t.end(d as int) <= t.len(),
                h == (|c: usize|
                    if t.kind(c as int) == "variable_declarator"@ {
                        match t.child_by_field(c as int, "name"@) {
                            Some(n) => pattern_names(*t, n as int),
                            None => Set::<Seq<char>>::empty(),
                        }
                    } else {
                        Set::<Seq<char>>::empty()
                    }),
                y <= kids@.len(),
                views(acc@).no_duplicates(),
                views(acc@).to_set() == a0.union(union_over(kids@.take(y as int), h)),
            decreases kids.len() - y,
        {
            let c = kids[y];
            proof {
                lemma_union_over_step(kids@, y as int, h);
            }
            let ghost before = views(acc@).to_set();
            if t.is_kind(c, "variable_declarator") {
                match t.child_by_field_name(c, "name") {
                    Some(n) => {
                        proof {
                            assert(n < t.end(c as int) <= t.len());
                        }
                        pattern_names_into(t, n, &mut acc);
                    },
                    None => {
                        proof {
                            assert(before.union(Set::empty()) =~= before);
                        }
                    },
                }
            } else {
                proof {
                    assert(before.union(Set::empty()) =~= before);
                }
            }
            proof {
                assert(views(acc@).to_set() =~= a0.union(union_over(kids@.take(y + 1), h)));
            }
            y = y + 1;
        }
        proof {
            assert(kids@.take(kids@.len() as int) =~= kids@);
        }
        x = x + 1;
    }
    proof {
        assert(decls@.take(decls@.len() as int) =~= decls@);
    }
    acc
}

/// The two reasons are the same.
fn reason_eq(a: &ImpurityReason, b: &ImpurityReason) -> (r: bool)
    ensures
        r == (reason_view(*a) == reason_view(*b)),
{
    match (a, b) {
        (ImpurityReason::UsesThis, ImpurityReason::UsesThis) => true,
        (ImpurityReason::UsesAwait, ImpurityReason::UsesAwait) => true,
        (ImpurityReason::UsesDeleteOperator, ImpurityReason::UsesDeleteOperator) => true,
        (ImpurityReason::CallsImpureApi(x), ImpurityReason::CallsImpureApi(y)) => str_eq(x.as_str(), y.as_str()),
        (ImpurityReason::MutatesParameter(x), ImpurityReason::MutatesParameter(y)) => str_eq(x.as_str(), y.as_str()),
        (ImpurityReason::WritesToOuterScope(x), ImpurityReason::WritesToOuterScope(y)) => str_eq(x.as_str(), y.as_str()),
        (ImpurityReason::CallsMutationMethod(x), ImpurityReason::CallsMutationMethod(y)) => str_eq(x.as_str(), y.as_str()),
        _ => false,
    }
}

/// Append `reason` unless an equal reason is already present.
fn push_unique(reasons: &mut Vec<ImpurityReason>, reason: ImpurityReason)
    ensures
        reasons_view(final(reasons)@) == if reasons_view(old(reasons)@).contains(reason_view(reason)) {
            reasons_view(old(reasons)@)
        } else {
            reasons_view(old(reasons)@).push(reason_view(reason))
        },
{
    let mut i: usize = 0;
    while i < reasons.len()
        invariant
            i <= reasons@.len(),
            forall|q: int| 0 <= q < i ==> reason_view(#[trigger] reasons@[q]) != reason_view(reason),
        decreases reasons.len() - i,
    {
        if reason_eq(&reasons[i], &reason) {
            proof {
                assert(reasons_view(reasons@)[i as int] == reason_view(reason));
            }
            return;
        }
        i = i + 1;
    }
    proof {
        assert(!reasons_view(reasons@).contains(reason_view(reason))) by {
            if reasons_view(reasons@).contains(reason_view(reason)) {
                let q = choose|q: int| 0 <= q < reasons_view(reasons@).len() && reasons_view(reasons@)[q] == reason_view(reason);
                assert(reason_view(reasons@[q]) == reason_view(reason));
            }
        }
    }
    let ghost before = reasons@;
    reasons.push(reason);
    proof {
        assert(reasons_view(reasons@) =~= reasons_view(before).push(reason_view(reason)));
    }
}

/// Add the reasons `rs` in order to `reasons`, skipping those already present.
proof fn lemma_dedup_append(s: Seq<ReasonView>, rs: Seq<ReasonView>)
    ensures
        rs.len() == 1 ==> dedup(s + rs) == (if dedup(s).contains(rs[0]) { dedup(s) } else { dedup(s).push(rs[0]) }),
{
    if rs.len() == 1 {
        assert(s + rs =~= s.push(rs[0]));
        lemma_dedup_push(s, rs[0]);
    }
}

fn field_text_or_empty_of<'a>(t: &'a SyntaxTree, n: usize, field: &str) -> (r: &'a str)
    requires
        t.wf(),
        n < t.len(),
    ensures
        r@ == field_text_or_empty(*t, n as int, field@),
{
    match t.child_by_field_name(n, field) {
        Some(c) => t.text_of(c),
        None => {
            proof {
                reveal_strlit("");
            }
            ""
        },
    }
}

/// Record the reasons of call expression `j`.
fn check_call_expression(t: &SyntaxTree, j: usize, reasons: &mut Vec<ImpurityReason>, Ghost(raw): Ghost<Seq<ReasonView>>)
    requires
        t.wf(),
        j < t.len(),
        reasons_view(old(reasons)@) == dedup(raw),
    ensures
        reasons_view(final(reasons)@) == dedup(raw + call_reasons(*t, j as int)),
{
    let globals: [&str; 5] = ["fetch", "setTimeout", "setInterval", "alert", "prompt"];
    let mutations: [&str; 3] = ["push", "splice", "sort"];
    proof {
        assert(names(globals@) =~= impure_globals());
        assert(names(mutations@) =~= mutation_methods());
        assert(raw + seq![] =~= raw);
    }
    let f = match t.child_by_field_name(j, "function") {
        Some(f) => f,
        None => return,
    };
    proof {
        assert(f < t.end(j as int) <= t.len());
    }
    if t.is_kind(f, "identifier") {
        let name = t.text_of(f);
        if str_in(name, &globals) {
            push_unique(reasons, ImpurityReason::CallsImpureApi(name.to_owned()));
            proof {
                lemma_dedup_append(raw, seq![ReasonView::CallsImpureApi(name@)]);
            }
        }
    } else if t.is_kind(f, "member_expression") {
        let obj = field_text_or_empty_of(t, f, "object");
        let prop = field_text_or_empty_of(t, f, "property");
        let ghost api: Seq<ReasonView> = if obj@ == "console"@ {
            seq![ReasonView::CallsImpureApi("console."@ + prop@)]
        } else if obj@ == "Math"@ && prop@ == "random"@ {
            seq![ReasonView::CallsImpureApi("Math.random"@)]
        } else if obj@ == "Date"@ && prop@ == "now"@ {
            seq![ReasonView::CallsImpureApi("Date.now"@)]
        } else {
            seq![]
        };
        if str_eq(obj, "console") {
            let mut full = String::new();
            full.append("console.");
            full.append(prop);
            proof {
                assert(full@ =~= "console."@ + prop@);
            }
            push_unique(reasons, ImpurityReason::CallsImpureApi(full));
            proof {
                lemma_dedup_append(raw, api);
            }
        } else if str_eq(obj, "Math") && str_eq(prop, "random") {
            push_unique(reasons, ImpurityReason::CallsImpureApi("Math.random".to_owned()));
            proof {
                lemma_dedup_append(raw, api);
            }
        } else if str_eq(obj, "Date") && str_eq(prop, "now") {
            push_unique(reasons, ImpurityReason::CallsImpureApi("Date.now".to_owned()));
            proof {
                lemma_dedup_append(raw, api);
            }
        } else {
            proof {
                assert(raw + api =~= raw);
            }
        }
        let ghost mid = raw + api;
        if str_in(prop, &mutations) {
            push_unique(reasons, ImpurityReason::CallsMutationMethod(prop.to_owned()));
            proof {
                lemma_dedup_append(mid, seq![ReasonView::CallsMutationMethod(prop@)]);
                assert(mid + seq![ReasonView::CallsMutationMethod(prop@)] =~= raw + call_reasons(*t, j as int));
            }
        } else {
            proof {
                assert(mid =~= raw + call_reasons(*t, j as int));
            }
        }
    }
}

/// Record the reasons of assignment `j`.
fn check_assignment(
    t: &SyntaxTree,
    j: usize,
    params: &Vec<String>,
    locals: &Vec<String>,
    reasons: &mut Vec<ImpurityReason>,
    Ghost(raw): Ghost<Seq<ReasonView>>,
)
    requires
        t.wf(),
        j < t.len(),
        reasons_view(old(reasons)@) == dedup(raw),
    ensures
        reasons_view(final(reasons)@) == dedup(
            raw + assignment_reasons(*t, j as int, views(params@).to_set(), views(locals@).to_set()),
        ),
{
    proof {
        assert(raw + seq![] =~= raw);
    }
    let l = match t.child_by_field_name(j, "left") {
        Some(l) => l,
        None => return,
    };
    proof {
        assert(l < t.end(j as int) <= t.len());
    }
    if t.is_kind(l, "member_expression") {
        match t.child_by_field_name(l, "object") {
            Some(o) => {
                proof {
                    assert(o < t.end(l as int) <= t.len());
                }
                if t.is_kind(o, "identifier") && contains_str(params, t.text_of(o)) {
                    push_unique(reasons, ImpurityReason::MutatesParameter(t.text_of(o).to_owned()));
                    proof {
                        lemma_dedup_append(raw, seq![ReasonView::MutatesParameter(t.text(o as int))]);
                    }
                }
            },
            None => {},
        }
    } else if t.is_kind(l, "identifier") {
        let name = t.text_of(l);
        if crate::text::first_char(name).is_some() && !contains_str(params, name) && !contains_str(locals, name) {
            push_unique(reasons, ImpurityReason::WritesToOuterScope(name.to_owned()));
            proof {
                lemma_dedup_append(raw, seq![ReasonView::WritesToOuterScope(name@)]);
            }
        }
    }
}

/// The reasons why function `f` is impure, each once, in order of first appearance.
fn scan_for_impurity(t: &SyntaxTree, f: usize) -> (r: Vec<ImpurityReason>)
    requires
        t.wf(),
        f < t.len(),
    ensures
        reasons_view(r@) == function_reasons(*t, f as int),
{
    let mut reasons: Vec<ImpurityReason> = Vec::new();
    proof {
        assert(reasons_view(reasons@) =~= seq![]);
    }
    let body = match t.child_by_field_name(f, "body") {
        Some(b) => b,
        None => return reasons,
    };
    proof {
        assert(body < t.end(f as int) <= t.len());
    }
    let params = collect_param_names(t, f);
    let locals = collect_local_names(t, f);
    let want: [&str; 6] = [
        "this",
        "await_expression",
        "unary_expression",
        "call_expression",
        "assignment_expression",
        "augmented_assignment_expression",
    ];
    proof {
        assert(names(want@) =~= reason_kinds());
    }
    let nodes = scan_nodes_of(t, body, &want);
    let ghost ps = views(params@).to_set();
    let ghost ls = views(locals@).to_set();
    let mut x: usize = 0;
    while x < nodes.len()
        invariant
            t.wf(),
            forall|y: int| 0 <= y < nodes@.len() ==> #[trigger] nodes@[y] < t.len(),
            ps == views(params@).to_set(),
            ls == views(locals@).to_set(),
            x <= nodes@.len(),
            reasons_view(reasons@) == dedup(raw_reasons(*t, nodes@.take(x as int), ps, ls)),
        decreases nodes.len() - x,
    {
        let j = nodes[x];
        let ghost raw = raw_reasons(*t, nodes@.take(x as int), ps, ls);
        proof {
            assert(nodes@.take(x + 1).drop_last() =~= nodes@.take(x as int));
            assert(raw_reasons(*t, nodes@.take(x + 1), ps, ls) == raw + node_reasons(*t, j as int, ps, ls));
            reveal_strlit("this");
            reveal_strlit("await_expression");
            reveal_strlit("unary_expression");
            reveal_strlit("call_expression");
            reveal_strlit("assignment_expression");
            reveal_strlit("augmented_assignment_expression");
            assert(raw + seq![] =~= raw);
        }
        if t.is_kind(j, "this") {
            push_unique(&mut reasons, ImpurityReason::UsesThis);
            proof {
                lemma_dedup_append(raw, seq![ReasonView::UsesThis]);
            }
        } else if t.is_kind(j, "await_expression") {
            push_unique(&mut reasons, ImpurityReason::UsesAwait);
            proof {
                lemma_dedup_append(raw, seq![ReasonView::UsesAwait]);
            }
        } else if t.is_kind(j, "unary_expression") {
            let txt = t.text_of(j);
            if crate::text::starts_with(txt, "delete ") || str_eq(txt, "delete") {
                push_unique(&mut reasons, ImpurityReason::UsesDeleteOperator);
                proof {
                    lemma_dedup_append(raw, seq![ReasonView::UsesDeleteOperator]);
                }
            }
        } else if t.is_kind(j, "call_expression") {
            check_call_expression(t, j, &mut reasons, Ghost(raw));
        } else if t.is_kind(j, "assignment_expression") || t.is_kind(j, "augmented_assignment_expression") {
            check_assignment(t, j, &params, &locals, &mut reasons, Ghost(raw));
        }
        x = x + 1;
    }
    proof {
        assert(nodes@.take(nodes@.len() as int) =~= nodes@);
    }
    reasons
}

/// The name purity reports for function `f`.
fn purity_name_of(t: &SyntaxTree, f: usize) -> (r: String)
    requires
        t.wf(),
        f < t.len(),
    ensures
        r@ == purity_name(*t, f as int),
{
    match t.child_by_field_name(f, "name") {
        Some(n) => return t.text_of(n).to_owned(),
        None => {},
    }
    match t.parent_of(f) {
        Some(p) => {
            let field = if t.is_kind(p, "variable_declarator") || t.is_kind(p, "public_field_definition")
                || t.is_kind(p, "assignment_expression") {
                t.child_by_field_name(p, "name")
            } else if t.is_kind(p, "pair") {
                t.child_by_field_name(p, "key")
            } else {
                None
            };
            match field {
                Some(n) => {
                    proof {
                        assert(n < t.end(p as int) <= t.len());
                    }
                    t.text_of(n).to_owned()
                },
                None => "<anonymous>".to_owned(),
            }
        },
        None => "<anonymous>".to_owned(),
    }
}

/// Purity summary of a module.
#[derive(Debug, Clone, PartialEq, Eq)]
pub struct ModulePurityResult {
    pub file: String,
    pub total_functions: usize,
    /// Functions found to be pure (the ratio is derived from the two counts).
    pub pure_functions: usize,
    pub functions: Vec<FunctionPurity>,
}

/// The functions of the module, in pre-order.
pub open spec fn purity_functions(t: SyntaxTree, root: int) -> Seq<usize> {
    t.walk_node(
        root,
        0,
        find_all(seq!["function_declaration"@, "function_expression"@, "arrow_function"@, "method_definition"@]),
    )
}

/// Number of pure verdicts among the first `k` of `fs`.
pub open spec fn pure_count(fs: Seq<FunctionPurity>) -> nat
    decreases fs.len(),
{
    if fs.len() == 0 {
        0
    } else {
        pure_count(fs.drop_last()) + (if fs.last().is_pure { 1nat } else { 0nat })
    }
}

/// `r` is the purity summary of the file `file` whose tree is `t`.
pub open spec fn module_purity_of(t: SyntaxTree, root: int, file: Seq<char>, r: ModulePurityResult) -> bool {
    let fs = purity_functions(t, root);
    &&& r.file@ == file
    &&& r.functions@.len() == fs.len()
    &&& forall|k: int| 0 <= k < fs.len() ==> purity_of(t, #[trigger] fs[k] as int, r.functions@[k])
    &&& r.total_functions == fs.len()
    &&& r.pure_functions == pure_count(r.functions@)
}

/// Decide the purity of every function beneath `root`.
pub fn compute_module_purity(t: &SyntaxTree, root: usize, file: &str) -> (r: ModulePurityResult)
    requires
        t.wf(),
        root < t.len(),
    ensures
        module_purity_of(*t, root as int, file@, r),
{
    let want: [&str; 4] = ["function_declaration", "function_expression", "arrow_function", "method_definition"];
    let none: [&str; 0] = [];
    proof {
        assert(names(want@) =~= seq!["function_declaration"@, "function_expression"@, "arrow_function"@, "method_definition"@]);
        assert(names(none@) =~= seq![]);
    }
    let plan = WalkPlan { want: &want, stop: &none, bump: &none, limit: usize::MAX, prune_wanted: false, stop_named_only: false, min_depth: 0 };
    let fs = t.walk(root, 0, &plan);
    proof {
        t.lemma_walk_node(root as int, 0, plan.spec());
    }
    let mut out: Vec<FunctionPurity> = Vec::new();
    let mut pure: usize = 0;
    let mut k: usize = 0;
    while k < fs.len()
        invariant
            t.wf(),
            fs@ == purity_functions(*t, root as int),
            forall|y: int| 0 <= y < fs@.len() ==> #[trigger] fs@[y] < t.len(),
            k <= fs@.len(),
            out@.len() == k,
            pure <= k,
            pure == pure_count(out@),
            forall|q: int| 0 <= q < k ==> purity_of(*t, #[trigger] fs@[q] as int, out@[q]),
        decreases fs.len() - k,
    {
        let f = fs[k];
        let reasons = scan_for_impurity(t, f);
        let is_pure = reasons.len() == 0;
        let item = FunctionPurity { name: purity_name_of(t, f), line: t.line_of(f), is_pure, reasons };
        let ghost before = out@;
        out.push(item);
        proof {
            assert(out@.drop_last() =~= before);
        }
        if is_pure {
            pure = pure + 1;
        }
        k = k + 1;
    }
    ModulePurityResult { file: file.to_owned(), total_functions: fs.len(), pure_functions: pure, functions: out }
}

impl ModulePurityResult {
    /// Positions in `functions` of the impure functions, in order.
    pub fn impure_functions(&self) -> (r: Vec<usize>)
        ensures
            forall|k: int| 0 <= k < r@.len() ==> #[trigger] r@[k] < self.functions@.len() && !self.functions@[r@[k] as int].is_pure,
            forall|i: int| 0 <= i < self.functions@.len() && !self.functions@[i].is_pure ==> r@.contains(i as usize),
            forall|a: int, b: int| 0 <= a < b < r@.len() ==> r@[a] < r@[b],
    {
        let mut out: Vec<usize> = Vec::new();
        let mut i: usize = 0;
        while i < self.functions.len()
            invariant
                i <= self.functions@.len(),
                forall|k: int| 0 <= k < out@.len() ==> #[trigger] out@[k] < i && !self.functions@[out@[k] as int].is_pure,
                forall|j: int| 0 <= j < i && !self.functions@[j].is_pure ==> out@.contains(j as usize),
                forall|a: int, b: int| 0 <= a < b < out@.len() ==> out@[a] < out@[b],
            decreases self.functions.len() - i,
        {
            if !self.functions[i].is_pure {
                let ghost before = out@;
                out.push(i);
                proof {
                    assert(out@[before.len() as int] == i);
                    assert forall|j: int| 0 <= j < i + 1 && !self.functions@[j].is_pure implies out@.contains(j as usize) by {
                        if j < i {
                            let q = choose|q: int| 0 <= q < before.len() && before[q] == j as usize;
                            assert(out@[q] == j as usize);
                        } else {
                            assert(out@[before.len() as int] == j as usize);
                        }
                    }
                }
            }
            i = i + 1;
        }
        out
    }
}

} // verus!
