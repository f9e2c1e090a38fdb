//! Tight Class Cohesion (TCC): method pairs of a class that share an instance field.
//!
//! Two methods are directly connected when both access some field through
//! `this.field` (anywhere in the method, nested functions included).  With N
//! methods there are N·(N−1)/2 pairs; TCC is the share of connected pairs, 1 for
//! a class with fewer than two methods, and is computed by the application from
//! the counts.
use super::{class_name, class_name_of, classes_in, find_classes};
use super::nom::members;
use super::rfc::is_method_def;
use crate::strset::{count_connected_pairs, insert_unique, linked_from, pairs_fit, pairs_fit_exec, views};
use crate::syntax::{names, SyntaxTree};
use crate::walk::{find_all, lemma_count_where_step, select_where, union_over, lemma_union_over_step, WalkPlan};
use vstd::prelude::*;

verus! {

/// The field that member expression `j` reads from `this`, if it does.
pub open spec fn this_field(t: SyntaxTree, j: int) -> Set<Seq<char>> {
    match (t.child_by_field(j, "object"@), t.child_by_field(j, "property"@)) {
        (Some(o), Some(p)) => if t.kind(o as int) == "this"@ { set![t.text(p as int)] } else { Set::empty() },
        _ => Set::empty(),
    }
}

/// Fields accessed through `this` in the subtree of `m`.
pub open spec fn this_fields(t: SyntaxTree, m: int) -> Set<Seq<char>> {
    union_over(t.walk_node(m, 0, find_all(seq!["member_expression"@])), |j: usize| this_field(t, j as int))
}

/// The methods of class `c`, in order.
pub open spec fn class_methods(t: SyntaxTree, c: int) -> Seq<usize> {
    select_where(members(t, c), is_method_def(t))
}

/// The field sets of the methods of class `c`.
pub open spec fn method_field_sets(t: SyntaxTree, c: int) -> Seq<Set<Seq<char>>> {
    class_methods(t, c).map_values(|m: usize| this_fields(t, m as int))
}

/// Tight Class Cohesion counts for a single class.
#[derive(Debug, Clone, PartialEq, Eq)]
pub struct ClassTcc {
    /// Name of the class (`<anonymous>` if unnamed).
    pub class_name: String,
    /// 1-based line where the class starts.
    pub line: usize,
    /// Total number of methods (constructor and accessors included).
    pub method_count: usize,
    /// Number of method pairs that share at least one `this.field` access.
    pub connected_pairs: usize,
    /// Total number of method pairs: method_count * (method_count - 1) / 2.
    pub total_pairs: usize,
}

/// `r` is the TCC measurement of class `c`.
pub open spec fn tcc_of(t: SyntaxTree, c: int, r: ClassTcc) -> bool {
    let n = class_methods(t, c).len();
    &&& r.class_name@ == class_name(t, c)
    &&& r.line == t.row(c) + 1
    &&& r.method_count == n
    &&& r.total_pairs == n * (n - 1) / 2
    &&& r.connected_pairs == linked_from(method_field_sets(t, c), 0)
}

/// Classes measured by TCC: declarations and class expressions.
pub open spec fn tcc_classes(t: SyntaxTree, root: int) -> Seq<usize> {
    classes_in(t, root, seq!["class_declaration"@], seq!["class"@])
}

/// Distinct property names of `this.<name>` expressions within `m`.
pub fn this_field_accesses(t: &SyntaxTree, m: usize) -> (r: Vec<String>)
    requires
        t.wf(),
        m < t.len(),
    ensures
        views(r@).no_duplicates(),
        views(r@).to_set() == this_fields(*t, m as int),
{
    let want: [&str; 1] = ["member_expression"];
    let none: [&str; 0] = [];
    proof {
        assert(names(want@) =~= seq!["member_expression"@]);
        assert(names(none@) =~= seq![]);
    }
    let plan = WalkPlan { want: &want, stop: &none, bump: &none, limit: usize::MAX, prune_wanted: false, stop_named_only: false, min_depth: 0 };
    let ms = t.walk(m, 0, &plan);
    proof {
        t.lemma_walk_node(m as int, 0, plan.spec());
    }
    let ghost f = |j: usize| this_field(*t, j as int);
    let mut acc: Vec<String> = Vec::new();
    proof {
        assert(views(acc@) =~= seq![]);
        assert(views(acc@).to_set() =~= Set::empty());
    }
    let mut x: usize = 0;
    while x < ms.len()
        invariant
            t.wf(),
            forall|y: int| 0 <= y < ms@.len() ==> #[trigger] ms@[y] < t.len(),
            f == (|j: usize| this_field(*t, j as int)),
            x <= ms@.len(),
            views(acc@).no_duplicates(),
            views(acc@).to_set() == union_over(ms@.take(x as int), f),
        decreases ms.len() - x,
    {
        let j = ms[x];
        proof {
            lemma_union_over_step(ms@, x as int, f);
        }
        let ghost before = views(acc@);
        match (t.child_by_field_name(j, "object"), t.child_by_field_name(j, "property")) {
            (Some(o), Some(p)) => {
                proof {
                    assert(o < t.end(j as int) <= t.len());
                }
                if t.is_kind(o, "this") {
                    let txt = t.text_of(p);
                    insert_unique(&mut acc, txt);
                    proof {
                        if !before.contains(txt@) {
                            vstd::seq::Seq::<Seq<char>>::lemma_to_set_insert_commutes(before, txt@);
                            assert(before + seq![txt@] =~= before.push(txt@));
                            assert forall|a: int, b: int| 0 <= a < b < views(acc@).len() implies views(acc@)[a] != views(acc@)[b] by {
                                if b == before.len() {
                                    assert(before.contains(before[a]));
                                }
                            }
                        }
                        assert(views(acc@).to_set() =~= union_over(ms@.take(x + 1), f));
                    }
                } else {
                    proof {
                        assert(views(acc@).to_set() =~= union_over(ms@.take(x + 1), f));
                    }
                }
            },
            _ => {
                proof {
                    assert(views(acc@).to_set() =~= union_over(ms@.take(x + 1), f));
                }
            },
        }
        x = x + 1;
    }
    proof {
        assert(ms@.take(ms@.len() as int) =~= ms@);
    }
    acc
}

/// Measure the TCC pair counts of class `c`.
#[verifier::rlimit(30)]
pub fn compute_tcc_for_class(t: &SyntaxTree, c: usize) -> (r: ClassTcc)
    requires
        t.wf(),
        c < t.len(),
        pairs_fit(class_methods(*t, c as int).len() as int),
    ensures
        tcc_of(*t, c as int, r),
{
    let ms: Vec<usize> = match t.child_by_field_name(c, "body") {
        Some(b) => {
            proof {
                assert(b < t.end(c as int) <= t.len());
                t.lemma_children_bounds(b as int);
                t.lemma_chain_len(b + 1, t.end(b as int));
            }
            t.children_of(b)
        },
        None => Vec::new(),
    };
    proof {
        assert forall|k: int| 0 <= k < ms@.len() implies #[trigger] ms@[k] < t.len() by {
            if let Some(b) = t.child_by_field(c as int, "body"@) {
                assert(b < t.end(c as int) <= t.len());
            }
        }
        assert(ms@.len() <= t.len());
    }
    let mut fields: Vec<Vec<String>> = Vec::new();
    let ghost methods_seen: Seq<usize> = seq![];
    let mut x: usize = 0;
    while x < ms.len()
        invariant
            t.wf(),
            ms@ == members(*t, c as int),
            forall|k: int| 0 <= k < ms@.len() ==> #[trigger] ms@[k] < t.len(),
            ms@.len() <= t.len(),
            x <= ms@.len(),
            fields@.len() <= x,
            fields@.len() == select_where(ms@.take(x as int), is_method_def(*t)).len(),
            forall|k: int| 0 <= k < fields@.len() ==> views((#[trigger] fields@[k])@).to_set() == this_fields(
                *t,
                select_where(ms@.take(x as int), is_method_def(*t))[k] as int,
            ),
        decreases ms.len() - x,
    {
        let m = ms[x];
        let ghost prev = select_where(ms@.take(x as int), is_method_def(*t));
        proof {
            lemma_count_where_step(ms@, x as int, is_method_def(*t));
        }
        if t.is_kind(m, "method_definition") {
            let fm = this_field_accesses(t, m);
            fields.push(fm);
            proof {
                assert(select_where(ms@.take(x + 1), is_method_def(*t)) == prev.push(m));
                assert forall|k: int| 0 <= k < fields@.len() implies views((#[trigger] fields@[k])@).to_set() == this_fields(
                    *t,
                    select_where(ms@.take(x + 1), is_method_def(*t))[k] as int,
                ) by {
                    if k < prev.len() {
                        assert(select_where(ms@.take(x + 1), is_method_def(*t))[k] == prev[k]);
                    }
                }
            }
        } else {
            proof {
                assert(select_where(ms@.take(x + 1), is_method_def(*t)) =~= prev);
            }
        }
        x = x + 1;
    }
    proof {
        assert(ms@.take(ms@.len() as int) =~= ms@);
        assert(fields@.map_values(|v: Vec<String>| views(v@).to_set()) =~= method_field_sets(*t, c as int));
        assert(fields@.len() == class_methods(*t, c as int).len());
    }
    let n = fields.len();
    let total_pairs = if n < 2 {
        0
    } else {
        n * (n - 1) / 2
    };
    proof {
        if n < 2 {
            assert(n * (n - 1) / 2 == 0) by (nonlinear_arith)
                requires
                    n < 2,
            ;
        }
    }
    let connected_pairs = count_connected_pairs(&fields);
    ClassTcc { class_name: class_name_of(t, c), line: t.line_of(c), method_count: n, connected_pairs, total_pairs }
}

/// Compute the TCC counts of every class found beneath `root`, in pre-order.
pub fn compute_class_tcc(t: &SyntaxTree, root: usize) -> (r: Vec<ClassTcc>)
    requires
        t.wf(),
        root < t.len(),
        tcc_pairs_fit(*t, root as int),
    ensures
        r@.len() == tcc_classes(*t, root as int).len(),
        forall|k: int| 0 <= k < r@.len() ==> tcc_of(*t, #[trigger] tcc_classes(*t, root as int)[k] as int, r@[k]),
{
    let always: [&str; 1] = ["class_declaration"];
    let with_body: [&str; 1] = ["class"];
    proof {
        assert(names(always@) =~= seq!["class_declaration"@]);
        assert(names(with_body@) =~= seq!["class"@]);
    }
    let classes = find_classes(t, root, &always, &with_body);
    let mut out: Vec<ClassTcc> = Vec::new();
    let mut k: usize = 0;
    while k < classes.len()
        invariant
            t.wf(),
            classes@ == tcc_classes(*t, root as int),
            forall|q: int| 0 <= q < classes@.len() ==> pairs_fit(class_methods(*t, #[trigger] classes@[q] as int).len() as int),
            forall|q: int| 0 <= q < classes@.len() ==> #[trigger] classes@[q] < t.len(),
            k <= classes@.len(),
            out@.len() == k,
            forall|q: int| 0 <= q < k ==> tcc_of(*t, #[trigger] classes@[q] as int, out@[q]),
        decreases classes.len() - k,
    {
        out.push(compute_tcc_for_class(t, classes[k]));
        k = k + 1;
    }
    out
}

/// The number of methods of class `c` whose pairs TCC counts.
pub fn count_tcc_methods(t: &SyntaxTree, c: usize) -> (r: usize)
    requires
        t.wf(),
        c < t.len(),
    ensures
        r == class_methods(*t, c as int).len(),
{
    let ms: Vec<usize> = match t.child_by_field_name(c, "body") {
        Some(b) => {
            proof {
                assert(b < t.end(c as int) <= t.len());
                t.lemma_children_bounds(b as int);
                t.lemma_chain_len(b + 1, t.end(b as int));
            }
            t.children_of(b)
        },
        None => Vec::new(),
    };
    proof {
        assert forall|k: int| 0 <= k < ms@.len() implies #[trigger] ms@[k] < t.len() by {
            if let Some(b) = t.child_by_field(c as int, "body"@) {
                assert(b < t.end(c as int) <= t.len());
            }
        }
    }
    let mut count: usize = 0;
    let mut x: usize = 0;
    while x < ms.len()
        invariant
            t.wf(),
            ms@ == members(*t, c as int),
            forall|k: int| 0 <= k < ms@.len() ==> #[trigger] ms@[k] < t.len(),
            x <= ms@.len(),
            count <= x,
            count == select_where(ms@.take(x as int), is_method_def(*t)).len(),
        decreases ms.len() - x,
    {
        let m = ms[x];
        proof {
            lemma_count_where_step(ms@, x as int, is_method_def(*t));
        }
        if t.is_kind(m, "method_definition") {
            count = count + 1;
        }
        x = x + 1;
    }
    proof {
        assert(ms@.take(ms@.len() as int) =~= ms@);
    }
    count
}

/// Every class measured by TCC beneath `root` has method pairs that fit in a `usize`.
pub open spec fn tcc_pairs_fit(t: SyntaxTree, root: int) -> bool {
    forall|k: int| 0 <= k < tcc_classes(t, root).len() ==> pairs_fit(
        class_methods(t, #[trigger] tcc_classes(t, root)[k] as int).len() as int,
    )
}

/// `true` when every class measured by TCC beneath `root` has method pairs that fit in a `usize`.
pub fn tcc_pairs_fit_exec(t: &SyntaxTree, root: usize) -> (r: bool)
    requires
        t.wf(),
        root < t.len(),
    ensures
        r == tcc_pairs_fit(*t, root as int),
{
    let always: [&str; 1] = ["class_declaration"];
    let with_body: [&str; 1] = ["class"];
    proof {
        assert(names(always@) =~= seq!["class_declaration"@]);
        assert(names(with_body@) =~= seq!["class"@]);
    }
    let classes = find_classes(t, root, &always, &with_body);
    let mut k: usize = 0;
    while k < classes.len()
        invariant
            t.wf(),
            classes@ == tcc_classes(*t, root as int),
            forall|q: int| 0 <= q < classes@.len() ==> #[trigger] classes@[q] < t.len(),
            k <= classes@.len(),
            forall|q: int| 0 <= q < k ==> pairs_fit(class_methods(*t, #[trigger] classes@[q] as int).len() as int),
        decreases classes.len() - k,
    {
        let n = count_tcc_methods(t, classes[k]);
        if !pairs_fit_exec(n) {
            return false;
        }
        k = k + 1;
    }
    true
}

} // verus!
