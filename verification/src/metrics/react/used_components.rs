//! Number of Used Components (NUC): distinct React components a component renders.
//!
//! A component is a function declaration with a PascalCase name, an arrow
//! function or function expression assigned to a PascalCase variable, or a class
//! with a `render()` method.  Its NUC is the number of distinct PascalCase JSX tag
//! names in its render scope; HTML intrinsics (lower-case tags) do not count.
//! The walk does not enter nested function declarations, function expressions,
//! or arrow functions assigned to a PascalCase variable, but it does enter inline
//! callbacks such as the argument of `.map(…)`.
use crate::metrics::class::{class_name, class_name_of};
use crate::strset::{insert_unique, views};
use crate::syntax::{names, SyntaxTree};
use crate::walk::{find_all, lemma_count_where_step, select_where, WalkPlan};
use vstd::prelude::*;

verus! {

/// `s` starts with an ASCII upper-case letter.
pub open spec fn is_pascal(s: Seq<char>) -> bool {
    s.len() > 0 && 'A' <= s[0] && s[0] <= 'Z'
}

/// Returns `true` when `name` starts with an ASCII uppercase letter (PascalCase
/// React convention).
pub fn is_pascal_case(name: &str) -> (r: bool)
    ensures
        r == is_pascal(name@),
{
    match crate::text::first_char(name) {
        Some(c) => 'A' <= c && c <= 'Z',
        None => false,
    }
}

/// Node `j` has a `name` field whose text is PascalCase.
pub open spec fn pascal_named(t: SyntaxTree, j: int) -> bool {
    t.child_by_field(j, "name"@) matches Some(n) && is_pascal(t.text(n as int))
}

/// The first `method_definition` named `render` among the children from position `c` on.
pub open spec fn render_method_in(t: SyntaxTree, c: int, e: int) -> Option<usize>
    decreases e - c,
{
    if t.chain_ok(c, e) {
        if t.kind(c) == "method_definition"@ && (t.child_by_field(c, "name"@) matches Some(n) && t.text(
            n as int,
        ) == "render"@) {
            Some(c as usize)
        } else {
            render_method_in(t, t.end(c), e)
        }
    } else {
        None
    }
}

/// The body of the `render()` method of class `cls`, if it has one.
pub open spec fn render_body(t: SyntaxTree, cls: int) -> Option<usize> {
    match t.child_by_field(cls, "body"@) {
        Some(b) => match render_method_in(t, b + 1, t.end(b as int)) {
            Some(m) => t.child_by_field(m as int, "body"@),
            None => None,
        },
        None => None,
    }
}

/// Kinds at which a component can be declared.
pub open spec fn site_kinds() -> Seq<Seq<char>> {
    seq!["function_declaration"@, "variable_declarator"@, "class_declaration"@, "class"@]
}

/// The component declared at node `j`: its name and the node whose JSX it renders.
pub open spec fn component_at(t: SyntaxTree, j: int) -> Option<(Seq<char>, usize)> {
    if t.kind(j) == "function_declaration"@ {
        match t.child_by_field(j, "name"@) {
            Some(n) => if is_pascal(t.text(n as int)) { Some((t.text(n as int), j as usize)) } else { None },
            None => None,
        }
    } else if t.kind(j) == "variable_declarator"@ {
        match (t.child_by_field(j, "name"@), t.child_by_field(j, "value"@)) {
            (Some(n), Some(v)) => if is_pascal(t.text(n as int)) && (t.kind(v as int) == "arrow_function"@
                || t.kind(v as int) == "function_expression"@) {
                Some((t.text(n as int), v))
            } else {
                None
            },
            _ => None,
        }
    } else if t.kind(j) == "class_declaration"@ || t.kind(j) == "class"@ {
        match render_body(t, j) {
            Some(b) => Some((class_name(t, j), b)),
            None => None,
        }
    } else {
        None
    }
}

/// Node `j` (not the start of a walk) is a nested component definition the walk skips.
pub open spec fn skipped(t: SyntaxTree, j: int) -> bool {
    t.kind(j) == "function_declaration"@ || t.kind(j) == "function_expression"@ || (t.kind(j)
        == "arrow_function"@ && (t.parent(j) matches Some(p) && t.kind(p as int) == "variable_declarator"@
        && pascal_named(t, p as int)))
}

/// The component name node `j` refers to, when it is a JSX tag with a PascalCase name.
pub open spec fn own_ref(t: SyntaxTree, j: int) -> Set<Seq<char>> {
    if (t.kind(j) == "jsx_opening_element"@ || t.kind(j) == "jsx_self_closing_element"@) && pascal_named(t, j) {
        set![t.text(t.child_by_field(j, "name"@).unwrap() as int)]
    } else {
        Set::empty()
    }
}

/// Component names referenced in the subtree of `j`; `top` marks the start of the walk.
pub open spec fn refs_node(t: SyntaxTree, j: int, top: bool) -> Set<Seq<char>>
    decreases t.len() - j, 0int,
{
    if 0 <= j < t.len() {
        if !top && skipped(t, j) {
            Set::empty()
        } else {
            own_ref(t, j).union(refs_chain(t, j + 1, t.end(j)))
        }
    } else {
        Set::empty()
    }
}

pub open spec fn refs_chain(t: SyntaxTree, c: int, e: int) -> Set<Seq<char>>
    decreases t.len() - c, 1int,
{
    if t.chain_ok(c, e) {
        refs_node(t, c, false).union(refs_chain(t, t.end(c), e))
    } else {
        Set::empty()
    }
}

/// NUC result for a single React component.
#[derive(Debug, Clone, PartialEq, Eq)]
pub struct ComponentNuc {
    /// Component name, or `<anonymous>` when unnamed.
    pub component_name: String,
    /// 1-based line where the component starts.
    pub line: usize,
    /// Number of distinct React component references used in the render output.
    pub nuc: usize,
}

/// `r` measures the component declared at `j`.
pub open spec fn nuc_of(t: SyntaxTree, j: int, r: ComponentNuc) -> bool {
    component_at(t, j) matches Some(c) && r.component_name@ == c.0 && r.line == t.row(j) + 1 && r.nuc
        == refs_node(t, c.1 as int, true).len()
}

/// Nodes declaring components beneath `root`, in pre-order.
pub open spec fn component_sites(t: SyntaxTree, root: int) -> Seq<usize> {
    select_where(t.walk_node(root, 0, find_all(site_kinds())), |j: usize| component_at(t, j as int) is Some)
}

fn pascal_named_exec(t: &SyntaxTree, j: usize) -> (r: bool)
    requires
        t.wf(),
        j < t.len(),
    ensures
        r == pascal_named(*t, j as int),
{
    match t.child_by_field_name(j, "name") {
        Some(n) => is_pascal_case(t.text_of(n)),
        None => false,
    }
}

fn find_render_body(t: &SyntaxTree, cls: usize) -> (r: Option<usize>)
    requires
        t.wf(),
        cls < t.len(),
    ensures
        r == render_body(*t, cls as int),
        r matches Some(b) ==> b < t.len(),
{
    let body = match t.child_by_field_name(cls, "body") {
        Some(b) => b,
        None => return None,
    };
    proof {
        assert(body < t.end(cls as int) <= t.len());
    }
    let e = t.nodes[body].end;
    proof {
        assert(body < t.end(body as int) <= t.len());
    }
    let mut c = body + 1;
    while c < e
        invariant
            t.wf(),
            body < t.len(),
            e == t.end(body as int),
            body < c <= e <= t.len(),
            cls < t.len(),
            t.child_by_field(cls as int, "body"@) == Some(body),
            render_method_in(*t, c as int, e as int) == render_method_in(*t, body + 1, e as int),
        decreases e - c,
    {
        let next = t.nodes[c].end;
        proof {
            assert(c < t.end(c as int));
            assert(t.end(c as int) <= t.end(body as int));
        }
        if t.is_kind(c, "method_definition") {
            let is_render = match t.child_by_field_name(c, "name") {
                Some(n) => crate::text::str_eq(t.text_of(n), "render"),
                None => false,
            };
            if is_render {
                let r = t.child_by_field_name(c, "body");
                proof {
                    assert(render_method_in(*t, c as int, e as int) == Some(c));
                    assert(render_body(*t, cls as int) == t.child_by_field(c as int, "body"@));
                    if let Some(b) = r {
                        assert(b < t.end(c as int));
                    }
                }
                return r;
            }
        }
        c = next;
    }
    None
}

fn is_skipped(t: &SyntaxTree, j: usize) -> (r: bool)
    requires
        t.wf(),
        j < t.len(),
    ensures
        r == skipped(*t, j as int),
{
    if t.is_kind(j, "function_declaration") || t.is_kind(j, "function_expression") {
        return true;
    }
    if !t.is_kind(j, "arrow_function") {
        return false;
    }
    match t.parent_of(j) {
        Some(p) => t.is_kind(p, "variable_declarator") && pascal_named_exec(t, p),
        None => false,
    }
}

fn refs_into(t: &SyntaxTree, j: usize, top: bool, acc: &mut Vec<String>)
    requires
        t.wf(),
        j < t.len(),
        views(old(acc)@).no_duplicates(),
    ensures
        views(final(acc)@).to_set() == views(old(acc)@).to_set().union(refs_node(*t, j as int, top)),
        views(final(acc)@).no_duplicates(),
    decreases t.len() - j,
{
    let ghost a0 = views(acc@).to_set();
    if !top && is_skipped(t, j) {
        proof {
            assert(a0.union(Set::empty()) =~= a0);
        }
        return;
    }
    if t.is_kind(j, "jsx_opening_element") || t.is_kind(j, "jsx_self_closing_element") {
        match t.child_by_field_name(j, "name") {
            Some(n) => {
                let txt = t.text_of(n);
                if is_pascal_case(txt) {
                    let ghost before = views(acc@);
                    insert_unique(acc, txt);
                    proof {
                        if !before.contains(txt@) {
                            assert(before.push(txt@).to_set() =~= before.to_set().insert(txt@)) by {
                                vstd::seq::Seq::<Seq<char>>::lemma_to_set_insert_commutes(before, txt@);
                                assert(before + seq![txt@] =~= before.push(txt@));
                            }
                            assert(views(acc@).no_duplicates()) by {
                                assert forall|a: int, b: int| 0 <= a < b < views(acc@).len() implies views(acc@)[a] != views(acc@)[b] by {
                                    if b == before.len() {
                                        assert(before.contains(before[a]));
                                    }
                                }
                            }
                        }
                    }
                }
            },
            None => {},
        }
    }
    let ghost a1 = views(acc@).to_set();
    proof {
        assert(a1 =~= a0.union(own_ref(*t, j as int)));
    }
    let e = t.nodes[j].end;
    proof {
        assert(j < t.end(j as int) <= t.len());
    }
    let mut c = j + 1;
    while c < e
        invariant
            t.wf(),
            j < t.len(),
            e == t.end(j as int),
            j < c <= e,
            views(acc@).no_duplicates(),
            views(acc@).to_set().union(refs_chain(*t, c as int, e as int)) == a1.union(
                refs_chain(*t, j + 1, e as int),
            ),
        decreases e - c,
    {
        let next = t.nodes[c].end;
        let ghost before = views(acc@).to_set();
        proof {
            assert(c < t.end(c as int) <= e);
        }
        refs_into(t, c, false, acc);
        proof {
            assert(views(acc@).to_set().union(refs_chain(*t, next as int, e as int)) =~= before.union(
                refs_chain(*t, c as int, e as int),
            ));
        }
        c = next;
    }
    proof {
        assert(views(acc@).to_set().union(refs_chain(*t, c as int, e as int)) =~= views(acc@).to_set());
        assert(views(acc@).to_set() =~= a0.union(refs_node(*t, j as int, top)));
    }
}

/// Count distinct PascalCase JSX tag references in the render scope starting at `root`.
pub fn count_jsx_component_refs(t: &SyntaxTree, root: usize) -> (r: usize)
    requires
        t.wf(),
        root < t.len(),
    ensures
        r == refs_node(*t, root as int, true).len(),
{
    let mut acc: Vec<String> = Vec::new();
    proof {
        assert(views(acc@) =~= seq![]);
    }
    refs_into(t, root, true, &mut acc);
    proof {
        views(acc@).unique_seq_to_set();
        assert(views(acc@).to_set() =~= refs_node(*t, root as int, true));
    }
    acc.len()
}

/// The component declared at node `j`, if any: its name and the node whose JSX it renders.
fn component_site(t: &SyntaxTree, j: usize) -> (r: Option<(String, usize)>)
    requires
        t.wf(),
        j < t.len(),
    ensures
        r is Some <==> component_at(*t, j as int) is Some,
        r matches Some(p) ==> component_at(*t, j as int) == Some((p.0@, p.1)) && p.1 < t.len(),
{
    if t.is_kind(j, "function_declaration") {
        match t.child_by_field_name(j, "name") {
            Some(n) => {
                let txt = t.text_of(n);
                if is_pascal_case(txt) {
                    Some((txt.to_owned(), j))
                } else {
                    None
                }
            },
            None => None,
        }
    } else if t.is_kind(j, "variable_declarator") {
        match (t.child_by_field_name(j, "name"), t.child_by_field_name(j, "value")) {
            (Some(n), Some(v)) => {
                let txt = t.text_of(n);
                if is_pascal_case(txt) && (t.is_kind(v, "arrow_function") || t.is_kind(v, "function_expression")) {
                    proof {
                        assert(v < t.end(j as int) <= t.len());
                    }
                    Some((txt.to_owned(), v))
                } else {
                    None
                }
            },
            _ => None,
        }
    } else if t.is_kind(j, "class_declaration") || t.is_kind(j, "class") {
        match find_render_body(t, j) {
            Some(b) => Some((class_name_of(t, j), b)),
            None => None,
        }
    } else {
        None
    }
}

/// Compute NUC for every React component found beneath `root`, in pre-order.
#[verifier::rlimit(30)]
pub fn compute_used_components(t: &SyntaxTree, root: usize) -> (r: Vec<ComponentNuc>)
    requires
        t.wf(),
        root < t.len(),
    ensures
        r@.len() == component_sites(*t, root as int).len(),
        forall|k: int| 0 <= k < r@.len() ==> nuc_of(*t, #[trigger] component_sites(*t, root as int)[k] as int, r@[k]),
{
    let want: [&str; 4] = ["function_declaration", "variable_declarator", "class_declaration", "class"];
    let none: [&str; 0] = [];
    proof {
        assert(names(want@) =~= site_kinds());
        assert(names(none@) =~= seq![]);
    }
    let plan = WalkPlan {
        want: &want,
        stop: &none,
        bump: &none,
        limit: usize::MAX,
        prune_wanted: false,
        stop_named_only: false,
        min_depth: 0,
    };
    let all = t.walk(root, 0, &plan);
    proof {
        t.lemma_walk_node(root as int, 0, plan.spec());
    }
    let ghost pred = |j: usize| component_at(*t, j as int) is Some;
    let mut out: Vec<ComponentNuc> = Vec::new();
    let mut x: usize = 0;
    while x < all.len()
        invariant
            t.wf(),
            all@ == t.walk_node(root as int, 0, find_all(site_kinds())),
            forall|y: int| 0 <= y < all@.len() ==> #[trigger] all@[y] < t.len(),
            pred == (|j: usize| component_at(*t, j as int) is Some),
            x <= all@.len(),
            out@.len() == select_where(all@.take(x as int), pred).len(),
            forall|k: int| 0 <= k < out@.len() ==> nuc_of(*t, #[trigger] select_where(all@.take(x as int), pred)[k] as int, out@[k]),
        decreases all.len() - x,
    {
        let j = all[x];
        proof {
            lemma_count_where_step(all@, x as int, pred);
        }
        let ghost prev = select_where(all@.take(x as int), pred);
        match component_site(t, j) {
            Some((name, body)) => {
                let nuc = count_jsx_component_refs(t, body);
                let line = t.line_of(j);
                let item = ComponentNuc { component_name: name, line, nuc };
                proof {
                    assert(nuc_of(*t, j as int, item));
                    assert(select_where(all@.take(x + 1), pred) == prev.push(j));
                }
                out.push(item);
                proof {
                    assert forall|k: int| 0 <= k < out@.len() implies nuc_of(*t, #[trigger] select_where(all@.take(x + 1), pred)[k] as int, out@[k]) by {
                        if k < prev.len() {
                            assert(select_where(all@.take(x + 1), pred)[k] == prev[k]);
                        }
                    }
                }
            },
            None => {
                proof {
                    assert(select_where(all@.take(x + 1), pred) =~= prev);
                }
            },
        }
        x = x + 1;
    }
    proof {
        assert(all@.take(all@.len() as int) =~= all@);
    }
    out
}

} // verus!
