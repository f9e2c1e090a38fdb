//! Custom Hook Cohesion (CHC): pairs of values a custom hook returns that depend on
//! a common piece of internal state.
//!
//! A custom hook is an outermost function named `use` followed by an upper-case
//! letter.  Its internals are the names bound by `useState`, `useReducer`,
//! `useRef`, `useMemo` and `useCallback` calls in its body; its return names are
//! the distinct names its `return` statements give (object keys, array elements
//! or a plain identifier).  A return name depends on an internal when it is one,
//! or when a declarator binding it has a value that mentions the internal.  The
//! cohesion ratio is computed by the application from the pair counts.
use super::scope_kinds;
use crate::metrics::module::cohesion::binding_names;
use crate::strset::{add_unique, contains_str, count_connected_pairs, pairs_fit, dedup, insert_unique, lemma_dedup, lemma_dedup_push, linked_from, views};
use crate::syntax::{names, SyntaxTree};
use crate::text::{char_is_uppercase, is_upper, str_in};
use crate::walk::{find_all, union_over, lemma_union_over_step, WalkPlan, PlanSpec};
use vstd::prelude::*;

verus! {

/// `name` is `use` followed by an upper-case letter and possibly more.
pub open spec fn spec_is_custom_hook(name: Seq<char>) -> bool {
    "use"@.is_prefix_of(name) && name.len() > 3 && is_upper(name[3])
}

/// `true` when `name` is `use` followed by an upper-case letter.
pub fn is_custom_hook_name(name: &str) -> (r: bool)
    ensures
        r == spec_is_custom_hook(name@),
        "use"@.is_prefix_of(name@) && name@.len() > 3 && crate::text::is_ascii_char(name@[3]) ==> (r <==> 65 <= (
        name@[3] as u32) <= 90),
{
    proof {
        reveal_strlit("use");
    }
    if !crate::text::starts_with(name, "use") {
        return false;
    }
    let cs = crate::text::chars_of(name);
    cs.len() > 3 && char_is_uppercase(cs[3])
}

/// The name of function `f`: its `name` field, else the name of the declarator it is the value of.
pub open spec fn hook_fn_name(t: SyntaxTree, f: int) -> Option<Seq<char>> {
    match t.child_by_field(f, "name"@) {
        Some(n) => Some(t.text(n as int)),
        None => match t.parent(f) {
            Some(p) => if t.kind(p as int) == "variable_declarator"@ {
                match t.child_by_field(p as int, "name"@) {
                    Some(n) => Some(t.text(n as int)),
                    None => None,
                }
            } else {
                None
            },
            None => None,
        },
    }
}

/// Outermost functions beneath `root`: those not inside another function.
pub open spec fn outer_functions(t: SyntaxTree, root: int) -> Seq<usize> {
    t.walk_node(root, 0, (scope_kinds(), seq![], scope_kinds(), 1, false, false, 0))
}

/// Walk of a hook body that does not look into functions nested in the hook.
pub open spec fn body_plan(want: Seq<Seq<char>>) -> PlanSpec {
    (want, seq![], scope_kinds(), 2, false, false, 0)
}

pub open spec fn state_hooks() -> Seq<Seq<char>> {
    seq!["useState"@, "useReducer"@, "useRef"@, "useMemo"@, "useCallback"@]
}

/// `v` calls a state hook by a plain identifier.
pub open spec fn is_state_call(t: SyntaxTree, v: int) -> bool {
    t.kind(v) == "call_expression"@ && (t.child_by_field(v, "function"@) matches Some(g) && t.kind(g as int)
        == "identifier"@ && state_hooks().contains(t.text(g as int)))
}

/// Names one declarator child of a declaration binds to state hook results.
pub open spec fn state_binding(t: SyntaxTree) -> spec_fn(usize) -> Set<Seq<char>> {
    |c: usize|
        if t.kind(c as int) == "variable_declarator"@ && (t.child_by_field(c as int, "value"@) matches Some(v)
            && is_state_call(t, v as int)) {
            match t.child_by_field(c as int, "name"@) {
                Some(n) => binding_names(t, n as int),
                None => Set::empty(),
            }
        } else {
            Set::empty()
        }
}

/// The internal state names of hook `f`.
pub open spec fn internals(t: SyntaxTree, f: int) -> Set<Seq<char>> {
    match t.child_by_field(f, "body"@) {
        Some(b) => union_over(
            t.walk_node(b as int, 1, body_plan(seq!["lexical_declaration"@, "variable_declaration"@])),
            |d: usize| union_over(t.children(d as int), state_binding(t)),
        ),
        None => Set::empty(),
    }
}

/// The concatenation of `f(x)` over the elements `x` of `s`.
pub open spec fn concat_map(s: Seq<usize>, f: spec_fn(usize) -> Seq<Seq<char>>) -> Seq<Seq<char>>
    decreases s.len(),
{
    if s.len() == 0 {
        seq![]
    } else {
        concat_map(s.drop_last(), f) + f(s.last())
    }
}

/// Names given by one child of an object in a return value.
pub open spec fn object_entry_name(t: SyntaxTree) -> spec_fn(usize) -> Seq<Seq<char>> {
    |c: usize|
        if t.kind(c as int) == "pair"@ {
            match t.child_by_field(c as int, "key"@) {
                Some(k) => seq![t.text(k as int)],
                None => seq![],
            }
        } else if t.kind(c as int) == "shorthand_property_identifier"@ {
            seq![t.text(c as int)]
        } else {
            seq![]
        }
}

/// Names given by one child of an array in a return value.
pub open spec fn array_entry_name(t: SyntaxTree) -> spec_fn(usize) -> Seq<Seq<char>> {
    |c: usize| if t.kind(c as int) == "identifier"@ { seq![t.text(c as int)] } else { seq![] }
}

/// Names given by one child of a return statement.
pub open spec fn returned_names(t: SyntaxTree) -> spec_fn(usize) -> Seq<Seq<char>> {
    |c: usize|
        if t.kind(c as int) == "object"@ {
            concat_map(t.children(c as int), object_entry_name(t))
        } else if t.kind(c as int) == "array"@ {
            concat_map(t.children(c as int), array_entry_name(t))
        } else if t.kind(c as int) == "identifier"@ {
            seq![t.text(c as int)]
        } else {
            seq![]
        }
}

/// The names the return statements of hook `f` give, in order, repeats included.
pub open spec fn raw_return_names(t: SyntaxTree, f: int) -> Seq<Seq<char>> {
    match t.child_by_field(f, "body"@) {
        Some(b) => concat_map(
            t.walk_node(b as int, 1, body_plan(seq!["return_statement"@])),
            |r: usize| concat_map(t.children(r as int), returned_names(t)),
        ),
        None => seq![],
    }
}

/// The distinct return names of hook `f`, in order of first appearance.
pub open spec fn return_names(t: SyntaxTree, f: int) -> Seq<Seq<char>> {
    dedup(raw_return_names(t, f))
}

/// Internals mentioned in the value of declarator `d` when it binds `target`.
pub open spec fn declarator_deps(t: SyntaxTree, target: Seq<char>, ints: Set<Seq<char>>) -> spec_fn(usize) -> Set<Seq<char>> {
    |d: usize|
        match (t.child_by_field(d as int, "name"@), t.child_by_field(d as int, "value"@)) {
            (Some(n), Some(v)) => if binding_names(t, n as int).contains(target) {
                union_over(
                    t.walk_node(v as int, 0, find_all(seq!["identifier"@])),
                    |j: usize| if ints.contains(t.text(j as int)) { set![t.text(j as int)] } else { Set::empty() },
                )
            } else {
                Set::empty()
            },
            _ => Set::empty(),
        }
}

/// The internals return name `target` of hook `f` depends on.
pub open spec fn return_deps(t: SyntaxTree, f: int, target: Seq<char>) -> Set<Seq<char>> {
    let ints = internals(t, f);
    match t.child_by_field(f, "body"@) {
        Some(b) => (if ints.contains(target) { set![target] } else { Set::empty() }).union(
            union_over(
                t.walk_node(b as int, 1, body_plan(seq!["variable_declarator"@])),
                declarator_deps(t, target, ints),
            ),
        ),
        None => Set::empty(),
    }
}

/// Cohesion counts of one custom hook.
#[derive(Debug, Clone, PartialEq, Eq)]
pub struct HookCohesion {
    /// Name of the custom hook function.
    pub hook_name: String,
    /// 1-based line of the hook definition.
    pub line: usize,
    /// Number of distinct return names.
    pub return_count: usize,
    /// Number of return-name pairs that share an internal state/ref.
    pub connected_pairs: usize,
    /// Total possible pairs.
    pub total_pairs: usize,
}

/// `r` measures hook `f`.
pub open spec fn hook_cohesion_of(t: SyntaxTree, f: int, r: HookCohesion) -> bool {
    let rn = return_names(t, f);
    let n = rn.len();
    &&& hook_fn_name(t, f) == Some(r.hook_name@)
    &&& r.line == t.row(f) + 1
    &&& r.return_count == n
    &&& r.total_pairs == n * (n - 1) / 2
    &&& r.connected_pairs == linked_from(rn.map_values(|x: Seq<char>| return_deps(t, f, x)), 0)
}

/// Outermost functions beneath `root` named as custom hooks.
pub open spec fn custom_hooks(t: SyntaxTree, root: int) -> Seq<usize> {
    crate::walk::select_where(
        outer_functions(t, root),
        |f: usize| hook_fn_name(t, f as int) matches Some(n) && spec_is_custom_hook(n),
    )
}

// ── executable part ─────────────────────────────────────────────────────

fn hook_fn_name_of(t: &SyntaxTree, f: usize) -> (r: Option<&str>)
    requires
        t.wf(),
        f < t.len(),
    ensures
        r matches Some(s) ==> hook_fn_name(*t, f as int) == Some(s@),
        r is None ==> hook_fn_name(*t, f as int) is None,
{
    match t.child_by_field_name(f, "name") {
        Some(n) => return Some(t.text_of(n)),
        None => {},
    }
    match t.parent_of(f) {
        Some(p) => if t.is_kind(p, "variable_declarator") {
            match t.child_by_field_name(p, "name") {
                Some(n) => Some(t.text_of(n)),
                None => None,
            }
        } else {
            None
        },
        None => None,
    }
}

fn body_walk(t: &SyntaxTree, b: usize, want: &[&str]) -> (r: Vec<usize>)
    requires
        t.wf(),
        b < t.len(),
    ensures
        r@ == t.walk_node(b as int, 1, body_plan(names(want@))),
        forall|y: int| 0 <= y < r@.len() ==> #[trigger] r@[y] < t.len(),
{
    let none: [&str; 0] = [];
    let bump: [&str; 4] = ["arrow_function", "function_expression", "function_declaration", "method_definition"];
    proof {
        assert(names(none@) =~= seq![]);
        assert(names(bump@) =~= scope_kinds());
    }
    let plan = WalkPlan { want, stop: &none, bump: &bump, limit: 2, prune_wanted: false, stop_named_only: false, min_depth: 0 };
    let r = t.walk(b, 1, &plan);
    proof {
        t.lemma_walk_node(b as int, 1, plan.spec());
    }
    r
}

fn binding_names_of(t: &SyntaxTree, n: usize) -> (r: Vec<String>)
    requires
        t.wf(),
        n < t.len(),
    ensures
        views(r@).no_duplicates(),
        views(r@).to_set() == binding_names(*t, n as int),
{
    let mut acc: Vec<String> = Vec::new();
    proof {
        assert(views(acc@) =~= seq![]);
        assert(views(acc@).to_set() =~= Set::empty());
    }
    crate::metrics::module::cohesion::binding_names_into(t, n, &mut acc);
    proof {
        assert(Set::<Seq<char>>::empty().union(binding_names(*t, n as int)) =~= binding_names(*t, n as int));
    }
    acc
}

fn is_state_call_exec(t: &SyntaxTree, v: usize) -> (r: bool)
    requires
        t.wf(),
        v < t.len(),
    ensures
        r == is_state_call(*t, v as int),
{
    let hooks: [&str; 5] = ["useState", "useReducer", "useRef", "useMemo", "useCallback"];
    proof {
        assert(names(hooks@) =~= state_hooks());
    }
    if !t.is_kind(v, "call_expression") {
        return false;
    }
    match t.child_by_field_name(v, "function") {
        Some(g) => {
            proof {
                assert(g < t.end(v as int) <= t.len());
            }
            t.is_kind(g, "identifier") && str_in(t.text_of(g), &hooks)
        },
        None => false,
    }
}

/// The internal state names of hook `f`, each once.
fn collect_internals(t: &SyntaxTree, f: usize) -> (r: Vec<String>)
    requires
        t.wf(),
        f < t.len(),
    ensures
        views(r@).no_duplicates(),
        views(r@).to_set() == internals(*t, f as int),
{
    let mut acc: Vec<String> = Vec::new();
    proof {
        assert(views(acc@) =~= seq![]);
        assert(views(acc@).to_set() =~= Set::empty());
    }
    let b = match t.child_by_field_name(f, "body") {
        Some(b) => b,
        None => return acc,
    };
    proof {
        assert(b < t.end(f as int) <= t.len());
    }
    let want: [&str; 2] = ["lexical_declaration", "variable_declaration"];
    proof {
        assert(names(want@) =~= seq!["lexical_declaration"@, "variable_declaration"@]);
    }
    let decls = body_walk(t, b, &want);
    let ghost g = |d: usize| union_over(t.children(d as int), state_binding(*t));
    let mut x: usize = 0;
    while x < decls.len()
        invariant
            t.wf(),
            forall|y: int| 0 <= y < decls@.len() ==> #[trigger] decls@[y] < t.len(),
            g == (|d: usize| union_over(t.children(d as int), state_binding(*t))),
            x <= decls@.len(),
            views(acc@).no_duplicates(),
            views(acc@).to_set() == union_over(decls@.take(x as int), g),
        decreases decls.len() - x,
    {
        let d = decls[x];
        proof {
            lemma_union_over_step(decls@, x as int, g);
        }
        let ghost a0 = views(acc@).to_set();
        let kids = t.children_of(d);
        proof {
            t.lemma_children_bounds(d as int);
        }
        let ghost h = state_binding(*t);
        let mut y: usize = 0;
        while y < kids.len()
            invariant
                t.wf(),
                d < t.len(),
                kids@ == t.children(d as int),
                forall|q: int| 0 <= q < kids@.len() ==> d < #[trigger] kids@[q] < t.end(d as int),
                t.end(d as int) <= t.len(),
                h == state_binding(*t),
                y <= kids@.len(),
                views(acc@).no_duplicates(),
                views(acc@).to_set() == a0.union(union_over(kids@.take(y as int), h)),
            decreases kids.len() - y,
        {
            let c = kids[y];
            proof {
                lemma_union_over_step(kids@, y as int, h);
            }
            let ghost before = views(acc@).to_set();
            let mut done = false;
            if t.is_kind(c, "variable_declarator") {
                match t.child_by_field_name(c, "value") {
                    Some(v) => {
                        proof {
                            assert(v < t.end(c as int) <= t.len());
                        }
                        if is_state_call_exec(t, v) {
                            match t.child_by_field_name(c, "name") {
                                Some(n) => {
                                    proof {
                                        assert(n < t.end(c as int) <= t.len());
                                    }
                                    crate::metrics::module::cohesion::binding_names_into(t, n, &mut acc);
                                    done = true;
                                },
                                None => {},
                            }
                        }
                    },
                    None => {},
                }
            }
            proof {
                if !done {
                    assert(before.union(Set::empty()) =~= before);
                }
                assert(views(acc@).to_set() =~= a0.union(union_over(kids@.take(y + 1), h)));
            }
            y = y + 1;
        }
        proof {
            assert(kids@.take(kids@.len() as int) =~= kids@);
        }
        x = x + 1;
    }
    proof {
        assert(decls@.take(decls@.len() as int) =~= decls@);
    }
    acc
}

/// Every string of `names` is the text of some node.
pub open spec fn all_texts(t: SyntaxTree) -> Seq<Seq<char>> {
    Seq::new(t.len() as nat, |i: int| t.text(i))
}

/// Append the names `f` gives for the children of `n` (`object_entry_name` when
/// `in_object`, else `array_entry_name`), keeping `raw` in step with the spec.
fn entry_names_into(t: &SyntaxTree, n: usize, in_object: bool, out: &mut Vec<String>)
    requires
        t.wf(),
        n < t.len(),
        forall|k: int| 0 <= k < old(out)@.len() ==> all_texts(*t).contains(#[trigger] old(out)@[k]@),
    ensures
        views(final(out)@) == views(old(out)@) + concat_map(
            t.children(n as int),
            if in_object { object_entry_name(*t) } else { array_entry_name(*t) },
        ),
        forall|k: int| 0 <= k < final(out)@.len() ==> all_texts(*t).contains(#[trigger] final(out)@[k]@),
{
    let kids = t.children_of(n);
    proof {
        t.lemma_children_bounds(n as int);
    }
    let ghost f = if in_object { object_entry_name(*t) } else { array_entry_name(*t) };
    let ghost base = views(out@);
    let mut x: usize = 0;
    proof {
        assert(concat_map(kids@.take(0), f) =~= seq![]);
        assert(views(out@) =~= base + concat_map(kids@.take(0), f));
    }
    while x < kids.len()
        invariant
            t.wf(),
            n < t.len(),
            kids@ == t.children(n as int),
            forall|q: int| 0 <= q < kids@.len() ==> n < #[trigger] kids@[q] < t.end(n as int),
            t.end(n as int) <= t.len(),
            f == if in_object { object_entry_name(*t) } else { array_entry_name(*t) },
            x <= kids@.len(),
            views(out@) == base + concat_map(kids@.take(x as int), f),
            forall|k: int| 0 <= k < out@.len() ==> all_texts(*t).contains(#[trigger] out@[k]@),
        decreases kids.len() - x,
    {
        let c = kids[x];
        let ghost before = out@;
        proof {
            assert(kids@.take(x + 1).drop_last() =~= kids@.take(x as int));
        }
        let mut pushed: Option<usize> = None;
        if in_object {
            if t.is_kind(c, "pair") {
                match t.child_by_field_name(c, "key") {
                    Some(k) => {
                        proof {
                            assert(k < t.end(c as int) <= t.len());
                        }
                        out.push(t.text_of(k).to_owned());
                        pushed = Some(k);
                    },
                    None => {},
                }
            } else if t.is_kind(c, "shorthand_property_identifier") {
                out.push(t.text_of(c).to_owned());
                pushed = Some(c);
            }
        } else if t.is_kind(c, "identifier") {
            out.push(t.text_of(c).to_owned());
            pushed = Some(c);
        }
        proof {
            match pushed {
                Some(j) => {
                    assert(all_texts(*t)[j as int] == t.text(j as int));
                    assert(views(out@) =~= views(before).push(t.text(j as int)));
                    assert(f(c) =~= seq![t.text(j as int)]);
                    assert forall|k: int| 0 <= k < out@.len() implies all_texts(*t).contains(#[trigger] out@[k]@) by {
                        if k < before.len() {
                            assert(out@[k] == before[k]);
                        }
                    }
                },
                None => {
                    assert(f(c) =~= seq![]);
                    assert(views(out@) =~= views(before));
                },
            }
            assert(views(out@) =~= base + concat_map(kids@.take(x + 1), f));
        }
        x = x + 1;
    }
    proof {
        assert(kids@.take(kids@.len() as int) =~= kids@);
    }
}

/// The distinct return names of hook `f`.
fn collect_return_names(t: &SyntaxTree, f: usize) -> (r: Vec<String>)
    requires
        t.wf(),
        f < t.len(),
    ensures
        views(r@) == return_names(*t, f as int),
        r@.len() <= t.len(),
{
    let mut raw: Vec<String> = Vec::new();
    proof {
        assert(views(raw@) =~= seq![]);
    }
    match t.child_by_field_name(f, "body") {
        Some(b) => {
            proof {
                assert(b < t.end(f as int) <= t.len());
            }
            let want: [&str; 1] = ["return_statement"];
            proof {
                assert(names(want@) =~= seq!["return_statement"@]);
            }
            let rets = body_walk(t, b, &want);
            let ghost g = |r: usize| concat_map(t.children(r as int), returned_names(*t));
            let mut x: usize = 0;
            proof {
                assert(concat_map(rets@.take(0), g) =~= seq![]);
            }
            while x < rets.len()
                invariant
                    t.wf(),
                    forall|y: int| 0 <= y < rets@.len() ==> #[trigger] rets@[y] < t.len(),
                    g == (|r: usize| concat_map(t.children(r as int), returned_names(*t))),
                    x <= rets@.len(),
                    views(raw@) == concat_map(rets@.take(x as int), g),
                    forall|k: int| 0 <= k < raw@.len() ==> all_texts(*t).contains(#[trigger] raw@[k]@),
                decreases rets.len() - x,
            {
                let r = rets[x];
                let ghost r0 = views(raw@);
                proof {
                    assert(rets@.take(x + 1).drop_last() =~= rets@.take(x as int));
                }
                let kids = t.children_of(r);
                proof {
                    t.lemma_children_bounds(r as int);
                }
                let ghost h = returned_names(*t);
                let mut y: usize = 0;
                proof {
                    assert(concat_map(kids@.take(0), h) =~= seq![]);
                    assert(views(raw@) =~= r0 + concat_map(kids@.take(0), h));
                }
                while y < kids.len()
                    invariant
                        t.wf(),
                        r < t.len(),
                        kids@ == t.children(r as int),
                        forall|q: int| 0 <= q < kids@.len() ==> r < #[trigger] kids@[q] < t.end(r as int),
                        t.end(r as int) <= t.len(),
                        h == returned_names(*t),
                        y <= kids@.len(),
                        views(raw@) == r0 + concat_map(kids@.take(y as int), h),
                        forall|k: int| 0 <= k < raw@.len() ==> all_texts(*t).contains(#[trigger] raw@[k]@),
                    decreases kids.len() - y,
                {
                    let c = kids[y];
                    let ghost before = views(raw@);
                    let ghost braw = raw@;
                    proof {
                        assert(kids@.take(y + 1).drop_last() =~= kids@.take(y as int));
                    }
                    if t.is_kind(c, "object") {
                        entry_names_into(t, c, true, &mut raw);
                    } else if t.is_kind(c, "array") {
                        entry_names_into(t, c, false, &mut raw);
                    } else if t.is_kind(c, "identifier") {
                        raw.push(t.text_of(c).to_owned());
                        proof {
                            assert(all_texts(*t)[c as int] == t.text(c as int));
                            assert(views(raw@) =~= before.push(t.text(c as int)));
                            assert forall|k: int| 0 <= k < raw@.len() implies all_texts(*t).contains(#[trigger] raw@[k]@) by {
                                if k < braw.len() {
                                    assert(raw@[k] == braw[k]);
                                }
                            }
                        }
                    }
                    proof {
                        reveal_strlit("object");
                        reveal_strlit("array");
                        reveal_strlit("identifier");
                        assert(views(raw@) =~= r0 + concat_map(kids@.take(y + 1), h));
                    }
                    y = y + 1;
                }
                proof {
                    assert(kids@.take(kids@.len() as int) =~= kids@);
                    assert(views(raw@) =~= concat_map(rets@.take(x + 1), g));
                }
                x = x + 1;
            }
            proof {
                assert(rets@.take(rets@.len() as int) =~= rets@);
            }
        },
        None => {},
    }
    proof {
        assert(views(raw@) == raw_return_names(*t, f as int));
    }
    let mut out: Vec<String> = Vec::new();
    let mut i: usize = 0;
    while i < raw.len()
        invariant
            i <= raw@.len(),
            views(out@) == dedup(views(raw@).take(i as int)),
            forall|k: int| 0 <= k < raw@.len() ==> all_texts(*t).contains(#[trigger] raw@[k]@),
        decreases raw.len() - i,
    {
        proof {
            assert(views(raw@).take(i + 1) =~= views(raw@).take(i as int).push(raw@[i as int]@));
            lemma_dedup_push(views(raw@).take(i as int), raw@[i as int]@);
        }
        insert_unique(&mut out, raw[i].as_str());
        i = i + 1;
    }
    proof {
        assert(views(raw@).take(raw@.len() as int) =~= views(raw@));
        lemma_dedup(views(raw@));
        let d = views(out@);
        d.unique_seq_to_set();
        assert(d.to_set().subset_of(all_texts(*t).to_set())) by {
            assert forall|x: Seq<char>| d.to_set().contains(x) implies all_texts(*t).to_set().contains(x) by {
                assert(views(raw@).contains(x));
                let k = choose|k: int| 0 <= k < views(raw@).len() && views(raw@)[k] == x;
                assert(all_texts(*t).contains(raw@[k]@));
            }
        }
        all_texts(*t).lemma_cardinality_of_set();
        vstd::set_lib::lemma_len_subset(d.to_set(), all_texts(*t).to_set());
    }
    out
}

/// The internals return name `target` of hook `f` depends on, each once.
fn resolve_return_deps(t: &SyntaxTree, f: usize, target: &str, ints: &Vec<String>) -> (r: Vec<String>)
    requires
        t.wf(),
        f < t.len(),
        views(ints@).to_set() == internals(*t, f as int),
    ensures
        views(r@).to_set() == return_deps(*t, f as int, target@),
{
    let mut acc: Vec<String> = Vec::new();
    proof {
        assert(views(acc@) =~= seq![]);
        assert(views(acc@).to_set() =~= Set::empty());
    }
    let b = match t.child_by_field_name(f, "body") {
        Some(b) => b,
        None => return acc,
    };
    proof {
        assert(b < t.end(f as int) <= t.len());
    }
    let ghost is = internals(*t, f as int);
    if contains_str(ints, target) {
        add_unique(&mut acc, target);
    }
    let ghost a0 = views(acc@).to_set();
    proof {
        assert(a0 =~= if is.contains(target@) { set![target@] } else { Set::<Seq<char>>::empty() });
    }
    let want: [&str; 1] = ["variable_declarator"];
    proof {
        assert(names(want@) =~= seq!["variable_declarator"@]);
    }
    let decls = body_walk(t, b, &want);
    let ghost g = declarator_deps(*t, target@, is);
    let mut x: usize = 0;
    while x < decls.len()
        invariant
            t.wf(),
            forall|y: int| 0 <= y < decls@.len() ==> #[trigger] decls@[y] < t.len(),
            views(ints@).to_set() == is,
            g == declarator_deps(*t, target@, is),
            x <= decls@.len(),
            views(acc@).no_duplicates(),
            views(acc@).to_set() == a0.union(union_over(decls@.take(x as int), g)),
        decreases decls.len() - x,
    {
        let d = decls[x];
        proof {
            lemma_union_over_step(decls@, x as int, g);
        }
        let ghost before = views(acc@).to_set();
        let mut done = false;
        match (t.child_by_field_name(d, "name"), t.child_by_field_name(d, "value")) {
            (Some(n), Some(v)) => {
                proof {
                    assert(n < t.end(d as int) <= t.len());
                    assert(v < t.end(d as int) <= t.len());
                }
                let bound = binding_names_of(t, n);
                if contains_str(&bound, target) {
                    let idwant: [&str; 1] = ["identifier"];
                    let none: [&str; 0] = [];
                    proof {
                        assert(names(idwant@) =~= seq!["identifier"@]);
                        assert(names(none@) =~= seq![]);
                    }
                    let plan = WalkPlan { want: &idwant, stop: &none, bump: &none, limit: usize::MAX, prune_wanted: false, stop_named_only: false, min_depth: 0 };
                    let ids = t.walk(v, 0, &plan);
                    proof {
                        t.lemma_walk_node(v as int, 0, plan.spec());
                    }
                    let ghost h = |j: usize| if is.contains(t.text(j as int)) { set![t.text(j as int)] } else { Set::<Seq<char>>::empty() };
                    let mut z: usize = 0;
                    while z < ids.len()
                        invariant
                            t.wf(),
                            forall|q: int| 0 <= q < ids@.len() ==> #[trigger] ids@[q] < t.len(),
                            views(ints@).to_set() == is,
                            h == (|j: usize| if is.contains(t.text(j as int)) { set![t.text(j as int)] } else { Set::<Seq<char>>::empty() }),
                            z <= ids@.len(),
                            views(acc@).no_duplicates(),
                            views(acc@).to_set() == before.union(union_over(ids@.take(z as int), h)),
                        decreases ids.len() - z,
                    {
                        let j = ids[z];
                        proof {
                            lemma_union_over_step(ids@, z as int, h);
                        }
                        let ghost b2 = views(acc@).to_set();
                        let txt = t.text_of(j);
                        if contains_str(ints, txt) {
                            add_unique(&mut acc, txt);
                            proof {
                                assert(b2.insert(txt@) =~= b2.union(set![txt@]));
                            }
                        } else {
                            proof {
                                assert(b2.union(Set::empty()) =~= b2);
                            }
                        }
                        proof {
                            assert(views(acc@).to_set() =~= before.union(union_over(ids@.take(z + 1), h)));
                        }
                        z = z + 1;
                    }
                    proof {
                        assert(ids@.take(ids@.len() as int) =~= ids@);
                    }
                    done = true;
                }
            },
            _ => {},
        }
        proof {
            if !done {
                assert(before.union(Set::empty()) =~= before);
            }
            assert(views(acc@).to_set() =~= a0.union(union_over(decls@.take(x + 1), g)));
        }
        x = x + 1;
    }
    proof {
        assert(decls@.take(decls@.len() as int) =~= decls@);
    }
    acc
}

#[verifier::rlimit(30)]
fn analyse_hook(t: &SyntaxTree, f: usize, name: &str) -> (r: HookCohesion)
    requires
        t.wf(),
        f < t.len(),
        hook_fn_name(*t, f as int) == Some(name@),
        pairs_fit(return_names(*t, f as int).len() as int),
    ensures
        hook_cohesion_of(*t, f as int, r),
{
    let ints = collect_internals(t, f);
    let rn = collect_return_names(t, f);
    let mut sets: Vec<Vec<String>> = Vec::new();
    let mut k: usize = 0;
    while k < rn.len()
        invariant
            t.wf(),
            f < t.len(),
            views(ints@).to_set() == internals(*t, f as int),
            views(rn@) == return_names(*t, f as int),
            k <= rn@.len(),
            sets@.len() == k,
            forall|q: int| 0 <= q < k ==> views((#[trigger] sets@[q])@).to_set() == return_deps(*t, f as int, rn@[q]@),
        decreases rn.len() - k,
    {
        let d = resolve_return_deps(t, f, rn[k].as_str(), &ints);
        sets.push(d);
        k = k + 1;
    }
    proof {
        assert(sets@.map_values(|v: Vec<String>| views(v@).to_set()) =~= return_names(*t, f as int).map_values(
            |x: Seq<char>| return_deps(*t, f as int, x),
        ));
        assert(sets@.len() == return_names(*t, f as int).len());
    }
    let n = sets.len();
    let total_pairs = if n < 2 {
        0
    } else {
        n * (n - 1) / 2
    };
    proof {
        if n < 2 {
            assert(n * (n - 1) / 2 == 0) by (nonlinear_arith)
                requires
                    n < 2,
            ;
        }
    }
    let connected_pairs = count_connected_pairs(&sets);
    HookCohesion { hook_name: name.to_owned(), line: t.line_of(f), return_count: n, connected_pairs, total_pairs }
}

/// Compute the cohesion counts of every custom hook beneath `root`, in pre-order.
pub fn compute_hook_cohesion(t: &SyntaxTree, root: usize) -> (r: Vec<HookCohesion>)
    requires
        t.wf(),
        root < t.len(),
        forall|k: int| 0 <= k < custom_hooks(*t, root as int).len() ==> pairs_fit(
            return_names(*t, #[trigger] custom_hooks(*t, root as int)[k] as int).len() as int,
        ),
    ensures
        r@.len() == custom_hooks(*t, root as int).len(),
        forall|k: int| 0 <= k < r@.len() ==> hook_cohesion_of(*t, #[trigger] custom_hooks(*t, root as int)[k] as int, r@[k]),
{
    let kinds: [&str; 4] = ["arrow_function", "function_expression", "function_declaration", "method_definition"];
    let none: [&str; 0] = [];
    proof {
        assert(names(kinds@) =~= scope_kinds());
        assert(names(none@) =~= seq![]);
    }
    let plan = WalkPlan { want: &kinds, stop: &none, bump: &kinds, limit: 1, prune_wanted: false, stop_named_only: false, min_depth: 0 };
    let fs = t.walk(root, 0, &plan);
    proof {
        t.lemma_walk_node(root as int, 0, plan.spec());
    }
    let ghost pred = |f: usize| hook_fn_name(*t, f as int) matches Some(n) && spec_is_custom_hook(n);
    let mut out: Vec<HookCohesion> = Vec::new();
    let mut x: usize = 0;
    while x < fs.len()
        invariant
            t.wf(),
            forall|k: int| 0 <= k < custom_hooks(*t, root as int).len() ==> pairs_fit(
                return_names(*t, #[trigger] custom_hooks(*t, root as int)[k] as int).len() as int,
            ),
            fs@ == outer_functions(*t, root as int),
            forall|y: int| 0 <= y < fs@.len() ==> #[trigger] fs@[y] < t.len(),
            pred == (|f: usize| hook_fn_name(*t, f as int) matches Some(n) && spec_is_custom_hook(n)),
            x <= fs@.len(),
            out@.len() == crate::walk::select_where(fs@.take(x as int), pred).len(),
            forall|k: int| 0 <= k < out@.len() ==> hook_cohesion_of(*t, #[trigger] crate::walk::select_where(fs@.take(x as int), pred)[k] as int, out@[k]),
        decreases fs.len() - x,
    {
        let f = fs[x];
        let ghost prev = crate::walk::select_where(fs@.take(x as int), pred);
        proof {
            crate::walk::lemma_count_where_step(fs@, x as int, pred);
        }
        let mut added = false;
        match hook_fn_name_of(t, f) {
            Some(name) => {
                if is_custom_hook_name(name) {
                    proof {
                        crate::walk::lemma_select_where_keeps(fs@, pred, x as int);
                        let k = choose|k: int| 0 <= k < custom_hooks(*t, root as int).len() && custom_hooks(*t, root as int)[k] == f;
                        assert(pairs_fit(return_names(*t, custom_hooks(*t, root as int)[k] as int).len() as int));
                    }
                    let h = analyse_hook(t, f, name);
                    out.push(h);
                    added = true;
                    proof {
                        assert(crate::walk::select_where(fs@.take(x + 1), pred) == prev.push(f));
                        assert forall|k: int| 0 <= k < out@.len() implies hook_cohesion_of(*t, #[trigger] crate::walk::select_where(fs@.take(x + 1), pred)[k] as int, out@[k]) by {
                            if k < prev.len() {
                                assert(crate::walk::select_where(fs@.take(x + 1), pred)[k] == prev[k]);
                            }
                        }
                    }
                }
            },
            None => {},
        }
        proof {
            if !added {
                assert(crate::walk::select_where(fs@.take(x + 1), pred) =~= prev);
            }
        }
        x = x + 1;
    }
    proof {
        assert(fs@.take(fs@.len() as int) =~= fs@);
    }
    out
}

} // verus!
