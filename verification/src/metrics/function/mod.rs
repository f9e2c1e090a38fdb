pub mod closure_depth;
pub mod cyclo;
pub mod loc;
pub mod long_param_list;
pub mod nesting;
pub mod params;
pub mod halstead;
pub mod maintainability;

use crate::metrics::react::component_responsibility::{compute_component_responsibility, responsibility_of, ComponentResponsibilityScore};
use crate::metrics::react::effect_density::{compute_effect_density, spec_component_sloc, spec_effect_count};
use crate::metrics::react::hook_complexity::{compute_hook_complexity, hook_calls};
use crate::metrics::react::prop_drilling::{compute_prop_drilling, drill_max};
use crate::metrics::react::render_complexity::{compute_render_complexity, render_of, RenderComplexity};
use crate::syntax::{names, SyntaxTree};
use crate::text::{decimal, sloc_from, usize_to_string};
use crate::walk::{find_all, WalkPlan};
use halstead::{compute_for_node, compute_for_node_filtered, halstead_of, logic_halstead_of, HalsteadMetrics};
use vstd::prelude::*;

verus! {

/// Kinds of the functions that are measured.
pub open spec fn measured_kinds() -> Seq<Seq<char>> {
    seq!["function_declaration"@, "function_expression"@, "arrow_function"@, "method_definition"@]
}

/// Parent kinds through which a name is looked for one level further up.
pub open spec fn transparent_kinds() -> Seq<Seq<char>> {
    seq!["as_expression"@, "type_assertion"@, "satisfies_expression"@, "parenthesized_expression"@, "non_null_expression"@]
}

/// Text of the `field` child of `p`, if it has one.
pub open spec fn field_text(t: SyntaxTree, p: int, field: Seq<char>) -> Option<Seq<char>> {
    match t.child_by_field(p, field) {
        Some(n) => Some(t.text(n as int)),
        None => None,
    }
}

/// Number of named children, from position `c` on, before child `target`.
pub open spec fn named_before(t: SyntaxTree, c: int, e: int, target: int) -> nat
    decreases e - c,
{
    if t.chain_ok(c, e) && c != target {
        (if t.named(c) { 1nat } else { 0nat }) + named_before(t, t.end(c), e, target)
    } else {
        0
    }
}

/// The callee of call `call` as a name: `obj.prop` for member calls (`?` for a missing
/// part), else the callee's text.
pub open spec fn callee_name(t: SyntaxTree, f: int) -> Seq<char> {
    if t.kind(f) == "member_expression"@ {
        let obj = match field_text(t, f, "object"@) {
            Some(s) => s,
            None => "?"@,
        };
        let prop = match field_text(t, f, "property"@) {
            Some(s) => s,
            None => "?"@,
        };
        obj + "."@ + prop
    } else {
        t.text(f)
    }
}

/// Name of function `f` passed as an argument in the argument list `args`:
/// `callee[callback@i]`, `i` being its position among the named arguments.
pub open spec fn callback_name(t: SyntaxTree, f: int, args: int) -> Option<Seq<char>> {
    match t.parent(args) {
        Some(call) => if t.kind(call as int) == "call_expression"@ {
            match t.child_by_field(call as int, "function"@) {
                Some(g) => Some(
                    callee_name(t, g as int) + "[callback@"@ + decimal(named_before(t, args + 1, t.end(args), f))
                        + "]"@,
                ),
                None => None,
            }
        } else {
            None
        },
        None => None,
    }
}

/// A name for node `j` taken from where it stands: the variable, field, key or
/// assignment target it is bound to, the call it is a callback of, or a default export.
pub open spec fn inferred_name(t: SyntaxTree, j: int) -> Option<Seq<char>>
    decreases j,
{
    match t.parent(j) {
        None => None,
        Some(p) => {
            let k = t.kind(p as int);
            if k == "variable_declarator"@ || k == "public_field_definition"@ {
                field_text(t, p as int, "name"@)
            } else if k == "pair"@ {
                field_text(t, p as int, "key"@)
            } else if k == "assignment_expression"@ {
                match t.child_by_field(p as int, "left"@) {
                    Some(l) => if t.kind(l as int) == "member_expression"@ {
                        field_text(t, l as int, "property"@)
                    } else {
                        Some(t.text(l as int))
                    },
                    None => None,
                }
            } else if k == "arguments"@ {
                callback_name(t, j, p as int)
            } else if k == "export_statement"@ {
                Some("<default export>"@)
            } else if transparent_kinds().contains(k) && p < j && j >= 0 {
                inferred_name(t, p as int)
            } else {
                None
            }
        },
    }
}

/// The name of function `j`: its `name` field, else a name inferred from its
/// context, else `<anonymous>`.
pub open spec fn function_name(t: SyntaxTree, j: int) -> Seq<char> {
    match field_text(t, j, "name"@) {
        Some(s) => s,
        None => match inferred_name(t, j) {
            Some(s) => s,
            None => "<anonymous>"@,
        },
    }
}

fn field_text_of<'a>(t: &'a SyntaxTree, p: usize, field: &str) -> (r: Option<&'a str>)
    requires
        t.wf(),
        p < t.len(),
    ensures
        r matches Some(s) ==> field_text(*t, p as int, field@) == Some(s@),
        r is None ==> field_text(*t, p as int, field@) is None,
{
    match t.child_by_field_name(p, field) {
        Some(n) => Some(t.text_of(n)),
        None => None,
    }
}

fn callback_name_of(t: &SyntaxTree, f: usize, args: usize) -> (r: Option<String>)
    requires
        t.wf(),
        args < t.len(),
    ensures
        r matches Some(s) ==> callback_name(*t, f as int, args as int) == Some(s@),
        r is None ==> callback_name(*t, f as int, args as int) is None,
{
    let call = match t.parent_of(args) {
        Some(c) => c,
        None => return None,
    };
    if !t.is_kind(call, "call_expression") {
        return None;
    }
    let g = match t.child_by_field_name(call, "function") {
        Some(g) => g,
        None => return None,
    };
    proof {
        assert(g < t.end(call as int) <= t.len());
    }
    let e = t.nodes[args].end;
    proof {
        assert(args < t.end(args as int) <= t.len());
    }
    let mut c = args + 1;
    let mut idx: usize = 0;
    while c < e && c != f
        invariant
            t.wf(),
            args < t.len(),
            e == t.end(args as int),
            args < c <= e,
            idx + named_before(*t, c as int, e as int, f as int) == named_before(*t, args + 1, e as int, f as int),
            idx <= c - args - 1,
        decreases e - c,
    {
        let next = t.nodes[c].end;
        proof {
            assert(c < t.end(c as int) <= e);
        }
        if t.nodes[c].named {
            idx = idx + 1;
        }
        c = next;
    }
    let mut s = String::new();
    if t.is_kind(g, "member_expression") {
        let obj = match field_text_of(t, g, "object") {
            Some(o) => o,
            None => "?",
        };
        let prop = match field_text_of(t, g, "property") {
            Some(o) => o,
            None => "?",
        };
        s.append(obj);
        s.append(".");
        s.append(prop);
    } else {
        s.append(t.text_of(g));
    }
    let n = usize_to_string(idx);
    s.append("[callback@");
    s.append(n.as_str());
    s.append("]");
    proof {
        assert(named_before(*t, c as int, e as int, f as int) == 0);
        assert(s@ =~= callback_name(*t, f as int, args as int).unwrap());
    }
    Some(s)
}

/// A name for node `j` inferred from its context, if there is one.
pub fn infer_name_from_parent(t: &SyntaxTree, j: usize) -> (r: Option<String>)
    requires
        t.wf(),
        j < t.len(),
    ensures
        r matches Some(s) ==> inferred_name(*t, j as int) == Some(s@),
        r is None ==> inferred_name(*t, j as int) is None,
    decreases j,
{
    let p = match t.parent_of(j) {
        Some(p) => p,
        None => return None,
    };
    if t.is_kind(p, "variable_declarator") || t.is_kind(p, "public_field_definition") {
        match field_text_of(t, p, "name") {
            Some(s) => Some(s.to_owned()),
            None => None,
        }
    } else if t.is_kind(p, "pair") {
        match field_text_of(t, p, "key") {
            Some(s) => Some(s.to_owned()),
            None => None,
        }
    } else if t.is_kind(p, "assignment_expression") {
        match t.child_by_field_name(p, "left") {
            Some(l) => {
                proof {
                    assert(l < t.end(p as int) <= t.len());
                }
                if t.is_kind(l, "member_expression") {
                    match field_text_of(t, l, "property") {
                        Some(s) => Some(s.to_owned()),
                        None => None,
                    }
                } else {
                    Some(t.text_of(l).to_owned())
                }
            },
            None => None,
        }
    } else if t.is_kind(p, "arguments") {
        callback_name_of(t, j, p)
    } else if t.is_kind(p, "export_statement") {
        Some("<default export>".to_owned())
    } else {
        let transparent: [&str; 5] = [
            "as_expression",
            "type_assertion",
            "satisfies_expression",
            "parenthesized_expression",
            "non_null_expression",
        ];
        proof {
            assert(names(transparent@) =~= transparent_kinds());
        }
        if t.is_kind_in(p, &transparent) {
            infer_name_from_parent(t, p)
        } else {
            None
        }
    }
}

/// The name of function `j`.
pub fn extract_function_name(t: &SyntaxTree, j: usize) -> (r: String)
    requires
        t.wf(),
        j < t.len(),
    ensures
        r@ == function_name(*t, j as int),
{
    match field_text_of(t, j, "name") {
        Some(s) => s.to_owned(),
        None => match infer_name_from_parent(t, j) {
            Some(s) => s,
            None => "<anonymous>".to_owned(),
        },
    }
}

/// Per-function metrics (integer measurements; ratios and volumes are derived from them).
#[derive(Debug, Clone, PartialEq, Eq, Default)]
pub struct FunctionMetrics {
    pub name: String,
    pub file: String,
    pub line: usize,
    pub loc: usize,
    pub sloc: usize,
    pub cyclomatic_complexity: usize,
    pub max_nesting: usize,
    pub param_count: usize,
    /// Halstead counts of the function.
    pub halstead: HalsteadMetrics,
    /// Halstead counts of the function without its JSX markup.
    pub halstead_logic: HalsteadMetrics,
    pub closure_depth: usize,
    pub hook_count: usize,
    /// Effect hook calls of the body (0 without a body).
    pub effect_count: usize,
    /// Non-blank lines of the body (0 without a body).
    pub effect_sloc: usize,
    pub render: RenderComplexity,
    pub prop_drilling_depth: usize,
    pub responsibility: ComponentResponsibilityScore,
}

/// `m` holds the metrics of function `j` of the file `file`.
pub open spec fn function_metrics_of(t: SyntaxTree, j: int, file: Seq<char>, m: FunctionMetrics) -> bool {
    &&& m.name@ == function_name(t, j)
    &&& m.file@ == file
    &&& m.line == t.row(j) + 1
    &&& m.loc == loc::spec_loc(t, j)
    &&& m.sloc == sloc_from(t.text(j), 0)
    &&& m.cyclomatic_complexity == cyclo::spec_cyclomatic(t, j)
    &&& m.max_nesting == t.max_depth(j, 0, nesting::nesting_kinds())
    &&& m.param_count == params::spec_param_count(t, j)
    &&& halstead_of(t, j, m.halstead)
    &&& logic_halstead_of(t, j, m.halstead_logic)
    &&& m.closure_depth == t.max_depth(j, 0, closure_depth::function_kinds())
    &&& m.hook_count == hook_calls(t, j).len()
    &&& match t.child_by_field(j, "body"@) {
        Some(b) => m.effect_count == spec_effect_count(t, b as int) && m.effect_sloc == spec_component_sloc(t, b as int),
        None => m.effect_count == 0 && m.effect_sloc == 0,
    }
    &&& render_of(t, j, m.render)
    &&& m.prop_drilling_depth == drill_max(t, j, 0)
    &&& responsibility_of(t, j, m.responsibility)
}

/// Measure function `j` of the file `file`.
pub fn measure_function(t: &SyntaxTree, j: usize, file: &str) -> (r: FunctionMetrics)
    requires
        t.wf(),
        j < t.len(),
    ensures
        function_metrics_of(*t, j as int, file@, r),
{
    let name = extract_function_name(t, j);
    let line = t.line_of(j);
    let (effect_count, effect_sloc) = match t.child_by_field_name(j, "body") {
        Some(b) => {
            proof {
                assert(b < t.end(j as int) <= t.len());
            }
            let ed = compute_effect_density(t, b);
            (ed.effect_count, ed.component_sloc)
        },
        None => (0, 0),
    };
    let hooks = compute_hook_complexity(t, j);
    FunctionMetrics {
        name,
        file: file.to_owned(),
        line,
        loc: loc::count_loc(t, j),
        sloc: loc::count_sloc(t, j),
        cyclomatic_complexity: cyclo::cyclomatic_complexity(t, j),
        max_nesting: nesting::max_nesting(t, j),
        param_count: params::param_count(t, j),
        halstead: compute_for_node(t, j),
        halstead_logic: compute_for_node_filtered(t, j),
        closure_depth: closure_depth::max_closure_depth(t, j),
        hook_count: hooks.hook_count,
        effect_count,
        effect_sloc,
        render: compute_render_complexity(t, j),
        prop_drilling_depth: compute_prop_drilling(t, j).max_prop_pass_depth,
        responsibility: compute_component_responsibility(t, j),
    }
}

/// The functions beneath `root`, in pre-order (nested ones included).
pub open spec fn function_nodes(t: SyntaxTree, root: int) -> Seq<usize> {
    t.walk_node(root, 0, find_all(measured_kinds()))
}

/// Extract all function nodes beneath `root` and compute their metrics, in pre-order.
pub fn extract_functions(t: &SyntaxTree, root: usize, file: &str) -> (r: Vec<FunctionMetrics>)
    requires
        t.wf(),
        root < t.len(),
    ensures
        r@.len() == function_nodes(*t, root as int).len(),
        forall|k: int| 0 <= k < r@.len() ==> function_metrics_of(*t, #[trigger] function_nodes(*t, root as int)[k] as int, file@, r@[k]),
{
    let want: [&str; 4] = ["function_declaration", "function_expression", "arrow_function", "method_definition"];
    let none: [&str; 0] = [];
    proof {
        assert(names(want@) =~= measured_kinds());
        assert(names(none@) =~= seq![]);
    }
    let plan = WalkPlan { want: &want, stop: &none, bump: &none, limit: usize::MAX, prune_wanted: false, stop_named_only: false, min_depth: 0 };
    let fs = t.walk(root, 0, &plan);
    proof {
        t.lemma_walk_node(root as int, 0, plan.spec());
    }
    let mut out: Vec<FunctionMetrics> = Vec::new();
    let mut k: usize = 0;
    while k < fs.len()
        invariant
            t.wf(),
            fs@ == function_nodes(*t, root as int),
            forall|y: int| 0 <= y < fs@.len() ==> #[trigger] fs@[y] < t.len(),
            k <= fs@.len(),
            out@.len() == k,
            forall|q: int| 0 <= q < k ==> function_metrics_of(*t, #[trigger] fs@[q] as int, file@, out@[q]),
        decreases fs.len() - k,
    {
        let m = measure_function(t, fs[k], file);
        out.push(m);
        k = k + 1;
    }
    out
}

} // verus!
