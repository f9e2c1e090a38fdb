//! Halstead operator and operand counts.
//!
//! The volume `N * log2(n)` is a floating-point quantity and is derived from
//! these counts by the application.
use crate::parse::{parse_succeeds, parse_typescript, parsed_from, ParseError};
use crate::strset::{dedup, insert_unique, lemma_dedup, views};
use crate::syntax::{names, SyntaxTree};
use crate::walk::{select_where, WalkPlan};
use vstd::prelude::*;

verus! {

pub open spec fn operator_kinds() -> Seq<Seq<char>> {
    seq![
        "+"@, "-"@, "*"@, "/"@, "%"@, "**"@,
        "==="@, "!=="@, "=="@, "!="@,
        "<"@, ">"@, "<="@, ">="@,
        "&&"@, "||"@, "??"@, "!"@,
        "&"@, "|"@, "^"@, "~"@, "<<"@, ">>"@, ">>>"@,
        "="@, "+="@, "-="@, "*="@, "/="@, "%="@, "**="@,
        "&&="@, "||="@, "??="@, "&="@, "|="@, "^="@, "<<="@, ">>="@, ">>>="@,
        "++"@, "--"@,
        "."@, "?."@,
        "..."@,
        "=>"@,
        "if"@, "else"@, "while"@, "for"@, "in"@, "of"@,
        "switch"@, "case"@, "default"@,
        "return"@, "new"@, "typeof"@, "instanceof"@, "delete"@, "void"@,
        "await"@, "yield"@,
        "throw"@, "break"@, "continue"@,
        "?"@,
    ]
}

pub open spec fn operand_kinds() -> Seq<Seq<char>> {
    seq![
        "identifier"@,
        "property_identifier"@,
        "shorthand_property_identifier"@,
        "shorthand_property_identifier_pattern"@,
        "private_property_identifier"@,
        "number"@,
        "string"@,
        "template_string"@,
        "true"@,
        "false"@,
        "null"@,
        "regex"@,
        "this"@,
        "super"@,
    ]
}

/// Kinds of (named) function nodes whose bodies are measured on their own.
pub open spec fn halstead_function_kinds() -> Seq<Seq<char>> {
    seq![
        "function_declaration"@,
        "function"@,
        "arrow_function"@,
        "generator_function"@,
        "generator_function_declaration"@,
        "method_definition"@,
    ]
}

/// JSX kinds left out of the logic-only counts.
pub open spec fn jsx_markup_kinds() -> Seq<Seq<char>> {
    seq!["jsx_element"@, "jsx_self_closing_element"@, "jsx_fragment"@]
}

/// The operator and operand tokens of `node`: operator and operand nodes are taken
/// whole (nothing below them is looked at), and named nodes of the kinds in `stops`
/// below `node` are left out with their subtrees.
pub open spec fn tokens_without(t: SyntaxTree, node: int, stops: Seq<Seq<char>>) -> Seq<usize> {
    t.walk_node(node, 0, (operator_kinds() + operand_kinds(), stops, seq![], usize::MAX as int, true, true, 0))
}

/// The operator and operand tokens of `node`, leaving named nested functions out.
pub open spec fn halstead_tokens(t: SyntaxTree, node: int) -> Seq<usize> {
    tokens_without(t, node, halstead_function_kinds())
}

pub open spec fn is_operator_fn(t: SyntaxTree) -> spec_fn(usize) -> bool {
    |j: usize| operator_kinds().contains(t.kind(j as int))
}

/// The operator tokens among `toks`.
pub open spec fn operators_of(t: SyntaxTree, toks: Seq<usize>) -> Seq<usize> {
    select_where(toks, is_operator_fn(t))
}

/// The operand tokens among `toks`.
pub open spec fn operands_of(t: SyntaxTree, toks: Seq<usize>) -> Seq<usize> {
    select_where(toks, |j: usize| !operator_kinds().contains(t.kind(j as int)))
}

/// Halstead counts of a piece of code.
#[derive(Debug, Clone, Copy, PartialEq, Eq, Default)]
pub struct HalsteadMetrics {
    /// n1: distinct operator kinds.
    pub distinct_operators: usize,
    /// n2: distinct operand texts.
    pub distinct_operands: usize,
    /// N1: operator occurrences.
    pub total_operators: usize,
    /// N2: operand occurrences.
    pub total_operands: usize,
    /// n = n1 + n2.
    pub vocabulary: usize,
    /// N = N1 + N2.
    pub length: usize,
}

/// `m` holds the Halstead counts of the tokens `toks`.
pub open spec fn counts_of(t: SyntaxTree, toks: Seq<usize>, m: HalsteadMetrics) -> bool {
    let ops = operators_of(t, toks);
    let opnds = operands_of(t, toks);
    &&& m.total_operators == ops.len()
    &&& m.total_operands == opnds.len()
    &&& m.distinct_operators == dedup(ops.map_values(|j: usize| t.kind(j as int))).len()
    &&& m.distinct_operands == dedup(opnds.map_values(|j: usize| t.text(j as int))).len()
    &&& m.vocabulary == m.distinct_operators + m.distinct_operands
    &&& m.length == m.total_operators + m.total_operands
}

/// The Halstead counts of `node`, leaving nested named functions out.
pub open spec fn halstead_of(t: SyntaxTree, node: int, m: HalsteadMetrics) -> bool {
    counts_of(t, halstead_tokens(t, node), m)
}

/// The Halstead counts of `node` without JSX markup, leaving nested named functions out.
pub open spec fn logic_halstead_of(t: SyntaxTree, node: int, m: HalsteadMetrics) -> bool {
    counts_of(t, tokens_without(t, node, halstead_function_kinds() + jsx_markup_kinds()), m)
}

/// Halstead counts of the code of `node`, leaving nested named functions out.
pub fn compute_for_node(t: &SyntaxTree, node: usize) -> (r: HalsteadMetrics)
    requires
        t.wf(),
        node < t.len(),
    ensures
        halstead_of(*t, node as int, r),
{
    let stop: [&str; 6] = [
        "function_declaration",
        "function",
        "arrow_function",
        "generator_function",
        "generator_function_declaration",
        "method_definition",
    ];
    proof {
        assert(names(stop@) =~= halstead_function_kinds());
    }
    counts_without(t, node, &stop)
}

/// Halstead counts of the logic of `node`: JSX elements, self-closing elements and
/// fragments are left out with everything inside them, as are nested named functions.
pub fn compute_for_node_filtered(t: &SyntaxTree, node: usize) -> (r: HalsteadMetrics)
    requires
        t.wf(),
        node < t.len(),
    ensures
        logic_halstead_of(*t, node as int, r),
{
    let stop: [&str; 9] = [
        "function_declaration",
        "function",
        "arrow_function",
        "generator_function",
        "generator_function_declaration",
        "method_definition",
        "jsx_element",
        "jsx_self_closing_element",
        "jsx_fragment",
    ];
    proof {
        assert(names(stop@) =~= halstead_function_kinds() + jsx_markup_kinds());
    }
    counts_without(t, node, &stop)
}

/// Halstead counts of the tokens of `node`, leaving out named nodes of the kinds in `stop`.
fn counts_without(t: &SyntaxTree, node: usize, stop: &[&str]) -> (r: HalsteadMetrics)
    requires
        t.wf(),
        node < t.len(),
    ensures
        counts_of(*t, tokens_without(*t, node as int, names(stop@)), r),
{
    let ops: [&str; 68] = [
        "+", "-", "*", "/", "%", "**",
        "===", "!==", "==", "!=",
        "<", ">", "<=", ">=",
        "&&", "||", "??", "!",
        "&", "|", "^", "~", "<<", ">>", ">>>",
        "=", "+=", "-=", "*=", "/=", "%=", "**=",
        "&&=", "||=", "??=", "&=", "|=", "^=", "<<=", ">>=", ">>>=",
        "++", "--",
        ".", "?.",
        "...",
        "=>",
        "if", "else", "while", "for", "in", "of",
        "switch", "case", "default",
        "return", "new", "typeof", "instanceof", "delete", "void",
        "await", "yield",
        "throw", "break", "continue",
        "?",
    ];
    let want: [&str; 82] = [
        "+", "-", "*", "/", "%", "**",
        "===", "!==", "==", "!=",
        "<", ">", "<=", ">=",
        "&&", "||", "??", "!",
        "&", "|", "^", "~", "<<", ">>", ">>>",
        "=", "+=", "-=", "*=", "/=", "%=", "**=",
        "&&=", "||=", "??=", "&=", "|=", "^=", "<<=", ">>=", ">>>=",
        "++", "--",
        ".", "?.",
        "...",
        "=>",
        "if", "else", "while", "for", "in", "of",
        "switch", "case", "default",
        "return", "new", "typeof", "instanceof", "delete", "void",
        "await", "yield",
        "throw", "break", "continue",
        "?",
        "identifier",
        "property_identifier",
        "shorthand_property_identifier",
        "shorthand_property_identifier_pattern",
        "private_property_identifier",
        "number",
        "string",
        "template_string",
        "true",
        "false",
        "null",
        "regex",
        "this",
        "super",
    ];
    let bump: [&str; 0] = [];
    proof {
        assert(names(ops@) =~= operator_kinds());
        assert(names(want@) =~= operator_kinds() + operand_kinds());
        assert(names(bump@) =~= seq![]);
    }
    let plan = WalkPlan {
        want: &want,
        stop: stop,
        bump: &bump,
        limit: usize::MAX,
        prune_wanted: true,
        stop_named_only: true,
        min_depth: 0,
    };
    let toks = t.walk(node, 0, &plan);
    proof {
        t.lemma_walk_node(node as int, 0, plan.spec());
    }
    let ghost is_op = is_operator_fn(*t);
    let ghost is_opnd = |j: usize| !operator_kinds().contains(t.kind(j as int));
    let mut op_kinds: Vec<String> = Vec::new();
    let mut opnd_texts: Vec<String> = Vec::new();
    let mut n_ops: usize = 0;
    let mut n_opnds: usize = 0;
    let mut x: usize = 0;
    while x < toks.len()
        invariant
            t.wf(),
            toks@ == tokens_without(*t, node as int, names(stop@)),
            names(ops@) == operator_kinds(),
            is_op == is_operator_fn(*t),
            is_opnd == (|j: usize| !operator_kinds().contains(t.kind(j as int))),
            forall|y: int| 0 <= y < toks@.len() ==> #[trigger] toks@[y] < t.len(),
            x <= toks@.len(),
            n_ops + n_opnds == x,
            n_ops == select_where(toks@.take(x as int), is_op).len(),
            n_opnds == select_where(toks@.take(x as int), is_opnd).len(),
            views(op_kinds@) == dedup(select_where(toks@.take(x as int), is_op).map_values(|j: usize| t.kind(j as int))),
            views(opnd_texts@) == dedup(select_where(toks@.take(x as int), is_opnd).map_values(|j: usize| t.text(j as int))),
        decreases toks.len() - x,
    {
        let j = toks[x];
        proof {
            crate::walk::lemma_count_where_step(toks@, x as int, is_op);
            crate::walk::lemma_count_where_step(toks@, x as int, is_opnd);
        }
        if t.is_kind_in(j, &ops) {
            proof {
                let before = select_where(toks@.take(x as int), is_op);
                assert(before.push(j).map_values(|j: usize| t.kind(j as int)) =~= before.map_values(|j: usize| t.kind(j as int)).push(t.kind(j as int)));
                crate::strset::lemma_dedup_push(before.map_values(|j: usize| t.kind(j as int)), t.kind(j as int));
                assert(select_where(toks@.take(x + 1), is_op) =~= before.push(j));
            }
            insert_unique(&mut op_kinds, t.kind_of(j));
            n_ops = n_ops + 1;
        } else {
            proof {
                let before = select_where(toks@.take(x as int), is_opnd);
                assert(before.push(j).map_values(|j: usize| t.text(j as int)) =~= before.map_values(|j: usize| t.text(j as int)).push(t.text(j as int)));
                crate::strset::lemma_dedup_push(before.map_values(|j: usize| t.text(j as int)), t.text(j as int));
                assert(select_where(toks@.take(x + 1), is_opnd) =~= before.push(j));
            }
            insert_unique(&mut opnd_texts, t.text_of(j));
            n_opnds = n_opnds + 1;
        }
        x = x + 1;
    }
    proof {
        assert(toks@.take(toks@.len() as int) =~= toks@);
        lemma_dedup(select_where(toks@, is_op).map_values(|j: usize| t.kind(j as int)));
        lemma_dedup(select_where(toks@, is_opnd).map_values(|j: usize| t.text(j as int)));
        crate::walk::lemma_count_where_le(toks@, is_op);
        crate::walk::lemma_count_where_le(toks@, is_opnd);
        t.lemma_walk_len(node as int, 0, plan.spec());
    }
    let distinct_operators = op_kinds.len();
    let distinct_operands = opnd_texts.len();
    HalsteadMetrics {
        distinct_operators,
        distinct_operands,
        total_operators: n_ops,
        total_operands: n_opnds,
        vocabulary: distinct_operators + distinct_operands,
        length: n_ops + n_opnds,
    }
}

/// Halstead counts of one function.
#[derive(Debug, Clone, PartialEq, Eq)]
pub struct FunctionHalstead {
    pub name: String,
    pub metrics: HalsteadMetrics,
}

/// Named function nodes of the tree, in pre-order (nested ones included).
pub open spec fn halstead_functions(t: SyntaxTree) -> Seq<usize> {
    select_where(t.walk_node(0, 0, crate::walk::find_all(halstead_function_kinds())), |j: usize| t.named(j as int))
}

/// `r` holds one entry per named function of `t`, in pre-order, each with the
/// function's name (or `<anonymous>`) and its Halstead counts.
pub open spec fn functions_measured(t: SyntaxTree, r: Seq<FunctionHalstead>) -> bool {
    let fs = halstead_functions(t);
    &&& r.len() == fs.len()
    &&& forall|k: int| 0 <= k < r.len() ==> {
        &&& (#[trigger] r[k]).name@ == t.display_name(fs[k] as int)
        &&& halstead_of(t, fs[k] as int, r[k].metrics)
    }
}

/// Halstead counts of every named function of a tree, in pre-order.
pub fn compute_in_tree(t: &SyntaxTree) -> (r: Vec<FunctionHalstead>)
    requires
        t.wf(),
    ensures
        functions_measured(*t, r@),
{
    let want: [&str; 6] = [
        "function_declaration",
        "function",
        "arrow_function",
        "generator_function",
        "generator_function_declaration",
        "method_definition",
    ];
    let none: [&str; 0] = [];
    proof {
        assert(names(want@) =~= halstead_function_kinds());
        assert(names(none@) =~= seq![]);
    }
    let plan = WalkPlan { want: &want, stop: &none, bump: &none, limit: usize::MAX, prune_wanted: false, stop_named_only: false, min_depth: 0 };
    let all = t.walk(0, 0, &plan);
    proof {
        t.lemma_walk_node(0, 0, plan.spec());
    }
    let ghost pred = |j: usize| t.named(j as int);
    let mut out: Vec<FunctionHalstead> = Vec::new();
    let mut x: usize = 0;
    while x < all.len()
        invariant
            t.wf(),
            all@ == t.walk_node(0, 0, crate::walk::find_all(halstead_function_kinds())),
            forall|y: int| 0 <= y < all@.len() ==> #[trigger] all@[y] < t.len(),
            pred == (|j: usize| t.named(j as int)),
            x <= all@.len(),
            out@.len() == select_where(all@.take(x as int), pred).len(),
            forall|k: int| 0 <= k < out@.len() ==> {
                &&& (#[trigger] out@[k]).name@ == t.display_name(select_where(all@.take(x as int), pred)[k] as int)
                &&& halstead_of(*t, select_where(all@.take(x as int), pred)[k] as int, out@[k].metrics)
            },
        decreases all.len() - x,
    {
        let j = all[x];
        let ghost prev = select_where(all@.take(x as int), pred);
        proof {
            crate::walk::lemma_count_where_step(all@, x as int, pred);
        }
        if t.nodes[j].named {
            let name = t.display_name_of(j);
            let metrics = compute_for_node(t, j);
            out.push(FunctionHalstead { name, metrics });
            proof {
                assert(select_where(all@.take(x + 1), pred) == prev.push(j));
                assert forall|k: int| 0 <= k < out@.len() implies {
                    &&& (#[trigger] out@[k]).name@ == t.display_name(select_where(all@.take(x + 1), pred)[k] as int)
                    &&& halstead_of(*t, select_where(all@.take(x + 1), pred)[k] as int, out@[k].metrics)
                } by {
                    if k < prev.len() {
                        assert(select_where(all@.take(x + 1), pred)[k] == prev[k]);
                    }
                }
            }
        } else {
            proof {
                assert(select_where(all@.take(x + 1), pred) =~= prev);
            }
        }
        x = x + 1;
    }
    proof {
        assert(all@.take(all@.len() as int) =~= all@);
    }
    out
}

/// Parse TypeScript `source` and compute the Halstead counts of every named function in it.
pub fn compute(source: &str) -> (r: Result<Vec<FunctionHalstead>, ParseError>)
    ensures
        r is Ok <==> parse_succeeds(source@, false),
        r matches Ok(v) ==> exists|t: SyntaxTree| t.wf() && parsed_from(t, source@, false) && functions_measured(t, v@),
{
    match parse_typescript(source) {
        Ok(t) => {
            let v = compute_in_tree(&t);
            Ok(v)
        },
        Err(e) => Err(e),
    }
}

} // verus!
