//! Properties that say what the measurements are for, stated over all inputs:
//! comment lines are no code, a bare arrow parameter is a prop, the module
//! directive works from any top-level comment, a function's own names are never
//! outer-scope writes, and foreign accesses inside callbacks still count.
use crate::metrics::module::purity::{
    function_reasons, local_names, node_reasons, param_names, purity_of, raw_reasons, reasons_view, FunctionPurity,
    ReasonView,
};
use crate::metrics::react::component_responsibility::{props_in_chain, responsibility_of, ComponentResponsibilityScore};
use crate::strategies::god_class::{foreign_base, method_access_plan};
use crate::strset::{dedup, lemma_dedup};
use crate::suppression::{entity_suppressed, has_directive, module_suppressed};
use crate::syntax::SyntaxTree;
use crate::text::{first_non_ws, is_ws, line_end, lemma_line_end, significant_line, sloc_from};
use crate::walk::count_where;
use vstd::prelude::*;

verus! {

// ── significant lines ───────────────────────────────────────────────────

/// `s2` is `s` followed by a line break and more text.
spec fn extends_by_line(s: Seq<char>, s2: Seq<char>) -> bool {
    &&& s2.len() > s.len()
    &&& s2[s.len() as int] == '\n'
    &&& forall|i: int| 0 <= i < s.len() ==> s2[i] == #[trigger] s[i]
}

proof fn lemma_line_end_extends(s: Seq<char>, s2: Seq<char>, p: int)
    requires
        extends_by_line(s, s2),
        0 <= p <= s.len(),
    ensures
        line_end(s2, p) == line_end(s, p),
    decreases s.len() - p,
{
    if p < s.len() {
        assert(s2[p] == s[p]);
        if s[p] != '\n' {
            lemma_line_end_extends(s, s2, p + 1);
        }
    }
}

proof fn lemma_first_non_ws_extends(s: Seq<char>, s2: Seq<char>, p: int, e: int)
    requires
        extends_by_line(s, s2),
        0 <= p,
        e <= s.len(),
    ensures
        first_non_ws(s2, p, e) == first_non_ws(s, p, e),
    decreases e - p,
{
    if p < e {
        assert(s2[p] == s[p]);
        lemma_first_non_ws_extends(s, s2, p + 1, e);
    }
}

/// The lines of `s` keep their significance in `s2`; what `s2` adds are the lines
/// after the new line break.
proof fn lemma_sloc_extends(s: Seq<char>, s2: Seq<char>, p: int)
    requires
        extends_by_line(s, s2),
        0 <= p <= s.len(),
    ensures
        sloc_from(s2, p) == sloc_from(s, p) + sloc_from(s2, s.len() + 1int),
    decreases s.len() - p,
{
    lemma_line_end(s2, p);
    if p == s.len() {
        assert(line_end(s2, p) == p);
        assert(first_non_ws(s2, p, p) == p);
        assert(!significant_line(s2, p, p));
    } else {
        lemma_line_end(s, p);
        lemma_line_end_extends(s, s2, p);
        let e = line_end(s, p);
        lemma_first_non_ws_extends(s, s2, p, e);
        crate::text::lemma_first_non_ws(s, p, e);
        let f = first_non_ws(s, p, e);
        if f < e {
            assert(s2[f] == s[f]);
            if f + 1 < e {
                assert(s2[f + 1] == s[f + 1]);
            }
        }
        assert(significant_line(s2, p, e) == significant_line(s, p, e));
        if e < s.len() {
            lemma_sloc_extends(s, s2, e + 1);
        }
    }
}

/// A line that holds no line break reaches to the end of the text.
proof fn lemma_line_end_last(s: Seq<char>, p: int)
    requires
        0 <= p <= s.len(),
        forall|i: int| p <= i < s.len() ==> s[i] != '\n',
    ensures
        line_end(s, p) == s.len(),
    decreases s.len() - p,
{
    if p < s.len() {
        lemma_line_end_last(s, p + 1);
    }
}

/// Appending one line (no line break in it) to a text adds one significant line
/// when that line is significant, none otherwise.
proof fn lemma_append_line(s: Seq<char>, l: Seq<char>)
    requires
        !l.contains('\n'),
    ensures
        ({
            let s2 = s + seq!['\n'] + l;
            sloc_from(s2, 0) == sloc_from(s, 0) + (if significant_line(s2, s.len() + 1int, s2.len() as int) {
                1nat
            } else {
                0nat
            })
        }),
{
    let s2 = s + seq!['\n'] + l;
    let a: int = s.len() as int + 1;
    assert(extends_by_line(s, s2));
    lemma_sloc_extends(s, s2, 0);
    assert forall|i: int| a <= i < s2.len() implies s2[i] != '\n' by {
        assert(s2[i] == l[i - a]);
    }
    if a < s2.len() {
        lemma_line_end_last(s2, a);
        assert(sloc_from(s2, s2.len() + 1int) == 0);
    }
}

/// White space (without line breaks) from position `a` on, up to `a + n`, is skipped.
proof fn lemma_skip_pad(s: Seq<char>, a: int, n: int, e: int)
    requires
        0 <= a,
        0 <= n,
        a + n <= e <= s.len(),
        forall|i: int| a <= i < a + n ==> is_ws(#[trigger] s[i]),
        a + n < e ==> !is_ws(s[a + n]),
    ensures
        first_non_ws(s, a, e) == a + n,
    decreases n,
{
    if n > 0 {
        lemma_skip_pad(s, a + 1, n - 1, e);
    }
}

/// White space that is not a line break.
pub open spec fn blank(pad: Seq<char>) -> bool {
    forall|i: int| 0 <= i < pad.len() ==> is_ws(#[trigger] pad[i]) && pad[i] != '\n'
}

/// Appending a comment line (`//`, `/*` or `*` after optional indentation) to a text
/// never changes its count of significant lines: comment lines are not code.
pub proof fn law_comment_line_adds_no_sloc(s: Seq<char>, pad: Seq<char>, marker: Seq<char>, rest: Seq<char>)
    requires
        blank(pad),
        marker == seq!['/', '/'] || marker == seq!['/', '*'] || marker == seq!['*'],
        !rest.contains('\n'),
    ensures
        sloc_from(s + seq!['\n'] + (pad + marker + rest), 0) == sloc_from(s, 0),
{
    let l = pad + marker + rest;
    let s2 = s + seq!['\n'] + l;
    let a: int = s.len() as int + 1;
    assert(!l.contains('\n')) by {
        if l.contains('\n') {
            let i = choose|i: int| 0 <= i < l.len() && l[i] == '\n';
            if i < pad.len() {
                assert(l[i] == pad[i]);
            } else if i < pad.len() + marker.len() {
                assert(l[i] == marker[i - pad.len()]);
            } else {
                assert(l[i] == rest[i - pad.len() - marker.len()]);
            }
        }
    }
    lemma_append_line(s, l);
    let f = a + pad.len();
    assert forall|i: int| a <= i < f implies is_ws(#[trigger] s2[i]) by {
        assert(s2[i] == pad[i - a]);
    }
    assert(s2[f] == marker[0]);
    assert(!is_ws(marker[0]));
    lemma_skip_pad(s2, a, pad.len() as int, s2.len() as int);
    if marker.len() == 2 {
        assert(s2[f + 1] == marker[1]);
    }
    assert(!significant_line(s2, a, s2.len() as int));
}

/// Appending a blank line never changes the count of significant lines.
pub proof fn law_blank_line_adds_no_sloc(s: Seq<char>, pad: Seq<char>)
    requires
        blank(pad),
    ensures
        sloc_from(s + seq!['\n'] + pad, 0) == sloc_from(s, 0),
{
    let s2 = s + seq!['\n'] + pad;
    let a: int = s.len() as int + 1;
    assert(!pad.contains('\n')) by {
        if pad.contains('\n') {
            let i = choose|i: int| 0 <= i < pad.len() && pad[i] == '\n';
        }
    }
    lemma_append_line(s, pad);
    assert forall|i: int| a <= i < s2.len() implies is_ws(#[trigger] s2[i]) by {
        assert(s2[i] == pad[i - a]);
    }
    lemma_skip_pad(s2, a, pad.len() as int, s2.len() as int);
    assert(!significant_line(s2, a, s2.len() as int));
}

/// Appending a line whose first character after indentation is neither `/` nor `*`
/// adds exactly one significant line: it is code.
pub proof fn law_code_line_adds_one_sloc(s: Seq<char>, pad: Seq<char>, first: char, rest: Seq<char>)
    requires
        blank(pad),
        !is_ws(first),
        first != '/',
        first != '*',
        !rest.contains('\n'),
    ensures
        sloc_from(s + seq!['\n'] + (pad + seq![first] + rest), 0) == sloc_from(s, 0) + 1,
{
    let l = pad + seq![first] + rest;
    let s2 = s + seq!['\n'] + l;
    let a: int = s.len() as int + 1;
    assert(is_ws('\n'));
    assert(!l.contains('\n')) by {
        if l.contains('\n') {
            let i = choose|i: int| 0 <= i < l.len() && l[i] == '\n';
            if i < pad.len() {
                assert(l[i] == pad[i]);
            } else if i == pad.len() {
                assert(l[i] == first);
            } else {
                assert(l[i] == rest[i - pad.len() - 1]);
            }
        }
    }
    lemma_append_line(s, l);
    let f = a + pad.len();
    assert forall|i: int| a <= i < f implies is_ws(#[trigger] s2[i]) by {
        assert(s2[i] == pad[i - a]);
    }
    assert(s2[f] == first);
    lemma_skip_pad(s2, a, pad.len() as int, s2.len() as int);
    assert(significant_line(s2, a, s2.len() as int));
}

/// A line that starts (after indentation) with `/` followed by something other than
/// `/` and `*` (a regular expression, a division) is code: appending it adds one
/// significant line.
pub proof fn law_slash_code_line_adds_one_sloc(s: Seq<char>, pad: Seq<char>, second: char, rest: Seq<char>)
    requires
        blank(pad),
        second != '/',
        second != '*',
        second != '\n',
        !rest.contains('\n'),
    ensures
        sloc_from(s + seq!['\n'] + (pad + seq!['/', second] + rest), 0) == sloc_from(s, 0) + 1,
{
    let l = pad + seq!['/', second] + rest;
    let s2 = s + seq!['\n'] + l;
    let a: int = s.len() as int + 1;
    assert(!l.contains('\n')) by {
        if l.contains('\n') {
            let i = choose|i: int| 0 <= i < l.len() && l[i] == '\n';
            if i < pad.len() {
                assert(l[i] == pad[i]);
            } else if i == pad.len() {
                assert(l[i] == '/');
            } else if i == pad.len() + 1 {
                assert(l[i] == second);
            } else {
                assert(l[i] == rest[i - pad.len() - 2]);
            }
        }
    }
    lemma_append_line(s, l);
    let f = a + pad.len();
    assert forall|i: int| a <= i < f implies is_ws(#[trigger] s2[i]) by {
        assert(s2[i] == pad[i - a]);
    }
    assert(s2[f] == '/' && s2[f + 1] == second);
    assert(!is_ws('/'));
    lemma_skip_pad(s2, a, pad.len() as int, s2.len() as int);
    assert(significant_line(s2, a, s2.len() as int));
}

// ── props of a component ───────────────────────────────────────────────

/// An arrow function whose parameter is one bare identifier (`props => …`) has
/// exactly one prop.
pub proof fn law_bare_arrow_parameter_is_one_prop(t: SyntaxTree, node: int, r: ComponentResponsibilityScore)
    requires
        t.wf(),
        0 <= node < t.len(),
        t.kind(node) == "arrow_function"@,
        node + 1 < t.end(node),
        t.kind(node + 1) == "identifier"@,
        responsibility_of(t, node, r),
    ensures
        r.prop_count == 1,
{
    reveal_strlit("identifier");
    reveal_strlit("formal_parameters");
    assert(node + 1 < t.end(node + 1) <= t.end(node));
    assert(t.chain_ok(node + 1, t.end(node)));
    assert("identifier"@.len() != "formal_parameters"@.len());
    assert(t.kind(node + 1) != "formal_parameters"@);
}

proof fn lemma_no_parameter_list(t: SyntaxTree, node: int, c: int, e: int)
    requires
        t.wf(),
        t.kind(node) != "arrow_function"@,
        forall|k: int| 0 <= k < t.chain(c, e).len() ==> t.kind(#[trigger] t.chain(c, e)[k] as int) != "formal_parameters"@,
    ensures
        props_in_chain(t, node, c, e) == 0,
    decreases e - c,
{
    if t.chain_ok(c, e) {
        assert(t.chain(c, e)[0] == c as usize);
        assert forall|k: int| 0 <= k < t.chain(t.end(c), e).len() implies t.kind(
            #[trigger] t.chain(t.end(c), e)[k] as int,
        ) != "formal_parameters"@ by {
            assert(t.chain(c, e)[k + 1] == t.chain(t.end(c), e)[k]);
        }
        lemma_no_parameter_list(t, node, t.end(c), e);
    }
}

/// A component that is not an arrow function and has no parameter list has no props
/// (its name, for one, is no prop).
pub proof fn law_no_parameter_list_no_props(t: SyntaxTree, node: int, r: ComponentResponsibilityScore)
    requires
        t.wf(),
        0 <= node < t.len(),
        t.kind(node) != "arrow_function"@,
        forall|k: int| 0 <= k < t.children(node).len() ==> t.kind(#[trigger] t.children(node)[k] as int) != "formal_parameters"@,
        responsibility_of(t, node, r),
    ensures
        r.prop_count == 0,
{
    let ch = t.chain(node + 1, t.end(node));
    assert(t.children(node) == ch);
    assert forall|k: int| 0 <= k < ch.len() implies t.kind(#[trigger] ch[k] as int) != "formal_parameters"@ by {
        assert(t.children(node)[k] == ch[k]);
    }
    lemma_no_parameter_list(t, node, node + 1, t.end(node));
}

// ── module suppression ─────────────────────────────────────────────────

/// A top-level comment carrying `tsmetrics-disable-module` suppresses the module
/// wherever it stands among the top-level children (after a licence header, after
/// the imports, …).
pub proof fn law_module_directive_anywhere(t: SyntaxTree, root: int, k: int)
    requires
        t.wf(),
        0 <= root < t.len(),
        0 <= k < t.children(root).len(),
        t.kind(t.children(root)[k] as int) == "comment"@,
        has_directive(t.text(t.children(root)[k] as int), "tsmetrics-disable-module"@),
    ensures
        module_suppressed(t, root),
        forall|n: int, keyword: Seq<char>| #[trigger] entity_suppressed(t, root, n, keyword),
{
}

// ── purity ─────────────────────────────────────────────────────────────

proof fn lemma_raw_reason_source(
    t: SyntaxTree,
    s: Seq<usize>,
    params: Set<Seq<char>>,
    locals: Set<Seq<char>>,
    x: ReasonView,
)
    requires
        raw_reasons(t, s, params, locals).contains(x),
    ensures
        exists|i: int| 0 <= i < s.len() && node_reasons(t, #[trigger] s[i] as int, params, locals).contains(x),
    decreases s.len(),
{
    if s.len() > 0 {
        let a = raw_reasons(t, s.drop_last(), params, locals);
        let b = node_reasons(t, s.last() as int, params, locals);
        let q = choose|q: int| 0 <= q < (a + b).len() && (a + b)[q] == x;
        if q < a.len() {
            assert(a[q] == x);
            lemma_raw_reason_source(t, s.drop_last(), params, locals, x);
            let i = choose|i: int| 0 <= i < s.drop_last().len() && node_reasons(t, #[trigger] s.drop_last()[i] as int, params, locals).contains(x);
            assert(s[i] == s.drop_last()[i]);
        } else {
            assert(b[q - a.len()] == x);
            assert(s[s.len() - 1] == s.last());
        }
    }
}

/// A node that reports a write to outer-scope `n` writes a name that is neither a
/// parameter nor a local.
proof fn lemma_outer_write_source(t: SyntaxTree, j: int, params: Set<Seq<char>>, locals: Set<Seq<char>>, n: Seq<char>)
    requires
        node_reasons(t, j, params, locals).contains(ReasonView::WritesToOuterScope(n)),
    ensures
        !params.contains(n),
        !locals.contains(n),
{
    let v = node_reasons(t, j, params, locals);
    let q = choose|q: int| 0 <= q < v.len() && v[q] == ReasonView::WritesToOuterScope(n);
    assert(v[q] == ReasonView::WritesToOuterScope(n));
}

/// A node that reports a mutated parameter `n` mutates one of the parameters.
proof fn lemma_mutated_parameter_source(t: SyntaxTree, j: int, params: Set<Seq<char>>, locals: Set<Seq<char>>, n: Seq<char>)
    requires
        node_reasons(t, j, params, locals).contains(ReasonView::MutatesParameter(n)),
    ensures
        params.contains(n),
{
    let v = node_reasons(t, j, params, locals);
    let q = choose|q: int| 0 <= q < v.len() && v[q] == ReasonView::MutatesParameter(n);
    assert(v[q] == ReasonView::MutatesParameter(n));
}

/// A function is never found to write to an outer-scope variable named like one of
/// its own parameters or locals: writing `x = 0` to a parameter `x` keeps it pure.
pub proof fn law_outer_writes_are_not_own_names(t: SyntaxTree, f: int, r: FunctionPurity, n: Seq<char>)
    requires
        purity_of(t, f, r),
        reasons_view(r.reasons@).contains(ReasonView::WritesToOuterScope(n)),
    ensures
        !param_names(t, f).contains(n),
        !local_names(t, f).contains(n),
{
    let x = ReasonView::WritesToOuterScope(n);
    match t.child_by_field(f, "body"@) {
        Some(b) => {
            let raw = raw_reasons(
                t,
                crate::metrics::module::purity::scan_nodes(t, b as int, crate::metrics::module::purity::reason_kinds()),
                param_names(t, f),
                local_names(t, f),
            );
            assert(function_reasons(t, f) == dedup(raw));
            lemma_dedup(raw);
            assert(raw.contains(x));
            lemma_raw_reason_source(
                t,
                crate::metrics::module::purity::scan_nodes(t, b as int, crate::metrics::module::purity::reason_kinds()),
                param_names(t, f),
                local_names(t, f),
                x,
            );
            let s = crate::metrics::module::purity::scan_nodes(t, b as int, crate::metrics::module::purity::reason_kinds());
            let i = choose|i: int| 0 <= i < s.len() && node_reasons(t, #[trigger] s[i] as int, param_names(t, f), local_names(t, f)).contains(x);
            lemma_outer_write_source(t, s[i] as int, param_names(t, f), local_names(t, f), n);
        },
        None => {
            assert(function_reasons(t, f) == Seq::<ReasonView>::empty());
        },
    }
}

/// A function is only found to mutate parameters it declares.
pub proof fn law_mutated_parameters_are_parameters(t: SyntaxTree, f: int, r: FunctionPurity, n: Seq<char>)
    requires
        purity_of(t, f, r),
        reasons_view(r.reasons@).contains(ReasonView::MutatesParameter(n)),
    ensures
        param_names(t, f).contains(n),
{
    let x = ReasonView::MutatesParameter(n);
    match t.child_by_field(f, "body"@) {
        Some(b) => {
            let sn = crate::metrics::module::purity::scan_nodes(t, b as int, crate::metrics::module::purity::reason_kinds());
            let raw = raw_reasons(t, sn, param_names(t, f), local_names(t, f));
            assert(function_reasons(t, f) == dedup(raw));
            lemma_dedup(raw);
            assert(raw.contains(x));
            lemma_raw_reason_source(t, sn, param_names(t, f), local_names(t, f), x);
            let i = choose|i: int| 0 <= i < sn.len() && node_reasons(t, #[trigger] sn[i] as int, param_names(t, f), local_names(t, f)).contains(x);
            lemma_mutated_parameter_source(t, sn[i] as int, param_names(t, f), local_names(t, f), n);
        },
        None => {
            assert(function_reasons(t, f) == Seq::<ReasonView>::empty());
        },
    }
}

// ── foreign data accesses ──────────────────────────────────────────────

/// Foreign accesses found from node `j` when counting ATFD.
pub open spec fn foreign_accesses(t: SyntaxTree, j: int) -> nat {
    count_where(t.walk_node(j, 0, method_access_plan()), foreign_base(t))
}

proof fn lemma_count_where_concat(a: Seq<usize>, b: Seq<usize>, pred: spec_fn(usize) -> bool)
    ensures
        count_where(a + b, pred) == count_where(a, pred) + count_where(b, pred),
    decreases b.len(),
{
    if b.len() > 0 {
        lemma_count_where_concat(a, b.drop_last(), pred);
        assert((a + b).drop_last() =~= a + b.drop_last());
        assert((a + b).last() == b.last());
    } else {
        assert(a + b =~= a);
    }
}

proof fn lemma_chain_covers(t: SyntaxTree, c0: int, e: int, c: int)
    requires
        t.wf(),
        0 <= c < t.len(),
        t.chain(c0, e).contains(c as usize),
        !method_access_plan().1.contains(t.kind(c)),
    ensures
        count_where(t.walk_node(c, 0, method_access_plan()), foreign_base(t)) <= count_where(
            t.walk_chain(c0, e, 0, method_access_plan()),
            foreign_base(t),
        ),
    decreases e - c0,
{
    let p = method_access_plan();
    if t.chain_ok(c0, e) {
        let head = if t.stops(c0, p) { seq![] } else { t.walk_node(c0, 0, p) };
        let tail = t.walk_chain(t.end(c0), e, 0, p);
        lemma_count_where_concat(head, tail, foreign_base(t));
        let ch = t.chain(c0, e);
        let k = choose|k: int| 0 <= k < ch.len() && ch[k] == c as usize;
        if k == 0 {
            assert(ch[0] == c0 as usize);
            assert(c == c0);
        } else {
            assert(t.chain(t.end(c0), e)[k - 1] == c as usize);
            lemma_chain_covers(t, t.end(c0), e, c);
        }
    } else {
        assert(t.chain(c0, e) =~= Seq::<usize>::empty());
    }
}

/// Everything counted as a foreign access from a child of `j` is counted from `j`
/// too, unless the child is a nested class: an access moved into an arrow-function
/// callback, a nested block or any other non-class child still counts.
pub proof fn law_foreign_accesses_reach_children(t: SyntaxTree, j: int, c: int)
    requires
        t.wf(),
        0 <= j < t.len(),
        0 <= c < t.len(),
        t.children(j).contains(c as usize),
        t.kind(c) != "class_declaration"@,
        t.kind(c) != "abstract_class_declaration"@,
        t.kind(c) != "class"@,
    ensures
        foreign_accesses(t, c) <= foreign_accesses(t, j),
{
    let p = method_access_plan();
    let stops = p.1;
    assert(!stops.contains(t.kind(c))) by {
        if stops.contains(t.kind(c)) {
            let i = choose|i: int| 0 <= i < stops.len() && stops[i] == t.kind(c);
            assert(i == 0 || i == 1 || i == 2);
        }
    }
    lemma_chain_covers(t, j + 1, t.end(j), c);
    let head: Seq<usize> = if t.selects(j, 0, p) { seq![j as usize] } else { seq![] };
    let rest = t.walk_chain(j + 1, t.end(j), 0, p);
    assert(t.walk_node(j, 0, p) == head + rest);
    lemma_count_where_concat(head, rest, foreign_base(t));
}

/// A member expression whose base is a plain identifier other than `this` and
/// `super` is itself one foreign access.
pub proof fn law_foreign_access_counts_itself(t: SyntaxTree, j: int)
    requires
        t.wf(),
        0 <= j < t.len(),
        t.kind(j) == "member_expression"@,
        foreign_base(t)(j as usize),
    ensures
        foreign_accesses(t, j) >= 1,
{
    let p = method_access_plan();
    assert(p.0[0] == "member_expression"@);
    assert(t.selects(j, 0, p));
    let head: Seq<usize> = seq![j as usize];
    let rest = t.walk_chain(j + 1, t.end(j), 0, p);
    assert(t.walk_node(j, 0, p) == head + rest);
    lemma_count_where_concat(head, rest, foreign_base(t));
    assert(head.drop_last() =~= Seq::<usize>::empty());
}

} // verus!
