//! Response For Class (RFC): methods of a class plus the distinct callees of its methods.
//!
//! RFC = NOM + |RS|, where NOM counts the `method_definition` members of the class
//! body and RS is the set of callee texts found in the method bodies: the
//! `function` field of each call expression and the `constructor` field of each
//! `new` expression.  `this.foo` and `foo` are different callees.
use super::{class_name, class_name_of, find_classes};
use super::nom::members;
use crate::strset::{insert_unique, views};
use crate::syntax::{names, SyntaxTree};
use crate::walk::{count_where, find_all, lemma_count_where_step, union_over, lemma_union_over_step, WalkPlan};
use vstd::prelude::*;

verus! {

/// The callee text of a call or `new` expression `j`, if it has one.
pub open spec fn callee_text(t: SyntaxTree, j: int) -> Set<Seq<char>> {
    let field = if t.kind(j) == "call_expression"@ { "function"@ } else { "constructor"@ };
    match t.child_by_field(j, field) {
        Some(f) => set![t.text(f as int)],
        None => Set::empty(),
    }
}

/// Callees found in the subtree of `n`.
pub open spec fn callees_in(t: SyntaxTree, n: int) -> Set<Seq<char>> {
    union_over(t.walk_node(n, 0, find_all(seq!["call_expression"@, "new_expression"@])), |j: usize| callee_text(t, j as int))
}

/// Callees found in the body of member `m`, when it is a method definition.
pub open spec fn method_callees(t: SyntaxTree) -> spec_fn(usize) -> Set<Seq<char>> {
    |m: usize|
        if t.kind(m as int) == "method_definition"@ {
            match t.child_by_field(m as int, "body"@) {
                Some(b) => callees_in(t, b as int),
                None => Set::empty(),
            }
        } else {
            Set::empty()
        }
}

/// The response set of class `c`.
pub open spec fn response_set(t: SyntaxTree, c: int) -> Set<Seq<char>> {
    union_over(members(t, c), method_callees(t))
}

pub open spec fn is_method_def(t: SyntaxTree) -> spec_fn(usize) -> bool {
    |m: usize| t.kind(m as int) == "method_definition"@
}

/// RFC (Response For Class) metric for a single class.
#[derive(Debug, Clone, PartialEq, Eq)]
pub struct ClassRfc {
    /// Name of the class (`<anonymous>` if unnamed).
    pub class_name: String,
    /// Line number where the class starts (1-based).
    pub line: usize,
    /// Number of methods defined in the class (NOM component).
    pub nom: usize,
    /// Number of unique callees found across all method bodies (|RS| component).
    pub unique_callees: usize,
    /// RFC = nom + unique_callees.
    pub rfc: usize,
}

/// `r` is the RFC measurement of class `c`.
pub open spec fn rfc_of(t: SyntaxTree, c: int, r: ClassRfc) -> bool {
    &&& r.class_name@ == class_name(t, c)
    &&& r.line == t.row(c) + 1
    &&& r.nom == count_where(members(t, c), is_method_def(t))
    &&& r.unique_callees == response_set(t, c).len()
    &&& r.rfc == r.nom + r.unique_callees
}

fn callees_into(t: &SyntaxTree, n: usize, acc: &mut Vec<String>)
    requires
        t.wf(),
        n < t.len(),
        views(old(acc)@).no_duplicates(),
    ensures
        views(final(acc)@).no_duplicates(),
        views(final(acc)@).to_set() == views(old(acc)@).to_set().union(callees_in(*t, n as int)),
        final(acc)@.len() <= old(acc)@.len() + t.end(n as int) - n,
{
    let want: [&str; 2] = ["call_expression", "new_expression"];
    let none: [&str; 0] = [];
    proof {
        assert(names(want@) =~= seq!["call_expression"@, "new_expression"@]);
        assert(names(none@) =~= seq![]);
    }
    let plan = WalkPlan { want: &want, stop: &none, bump: &none, limit: usize::MAX, prune_wanted: false, stop_named_only: false, min_depth: 0 };
    let calls = t.walk(n, 0, &plan);
    proof {
        t.lemma_walk_node(n as int, 0, plan.spec());
        t.lemma_walk_len(n as int, 0, plan.spec());
    }
    let ghost f = |j: usize| callee_text(*t, j as int);
    let ghost len0 = acc@.len();
    let ghost a0 = views(acc@).to_set();
    let mut x: usize = 0;
    while x < calls.len()
        invariant
            t.wf(),
            forall|y: int| 0 <= y < calls@.len() ==> #[trigger] calls@[y] < t.len(),
            f == (|j: usize| callee_text(*t, j as int)),
            x <= calls@.len(),
            views(acc@).no_duplicates(),
            views(acc@).to_set() == a0.union(union_over(calls@.take(x as int), f)),
            acc@.len() <= len0 + x,
        decreases calls.len() - x,
    {
        let j = calls[x];
        proof {
            lemma_union_over_step(calls@, x as int, f);
        }
        let field = if t.is_kind(j, "call_expression") {
            "function"
        } else {
            "constructor"
        };
        proof {
            reveal_strlit("function");
            reveal_strlit("constructor");
        }
        let ghost before = views(acc@);
        match t.child_by_field_name(j, field) {
            Some(g) => {
                let txt = t.text_of(g);
                insert_unique(acc, txt);
                proof {
                    if !before.contains(txt@) {
                        vstd::seq::Seq::<Seq<char>>::lemma_to_set_insert_commutes(before, txt@);
                        assert(before + seq![txt@] =~= before.push(txt@));
                        assert forall|a: int, b: int| 0 <= a < b < views(acc@).len() implies views(acc@)[a] != views(acc@)[b] by {
                            if b == before.len() {
                                assert(before.contains(before[a]));
                            }
                        }
                    }
                    assert(views(acc@).to_set() =~= a0.union(union_over(calls@.take(x + 1), f)));
                }
            },
            None => {
                proof {
                    assert(views(acc@).to_set() =~= a0.union(union_over(calls@.take(x + 1), f)));
                }
            },
        }
        x = x + 1;
    }
    proof {
        assert(calls@.take(calls@.len() as int) =~= calls@);
    }
}

fn measure_class(t: &SyntaxTree, c: usize) -> (r: ClassRfc)
    requires
        t.wf(),
        c < t.len(),
    ensures
        rfc_of(*t, c as int, r),
{
    let name = class_name_of(t, c);
    let line = t.line_of(c);
    let body = t.child_by_field_name(c, "body");
    let ghost lo: int = 0;
    let ghost hi: int = 0;
    let ms: Vec<usize> = match body {
        Some(b) => {
            proof {
                assert(b < t.end(c as int) <= t.len());
                assert(b < t.end(b as int));
                t.lemma_children_bounds(b as int);
                assert forall|k: int| b + 1 <= k < t.end(b as int) implies #[trigger] t.end(k) <= t.end(b as int) by {}
                t.lemma_chain_next(b + 1, t.end(b as int));
                lo = b + 1;
                hi = t.end(b as int);
            }
            t.children_of(b)
        },
        None => Vec::new(),
    };
    proof {
        assert forall|k: int| 0 <= k < ms@.len() implies #[trigger] ms@[k] < t.len() by {
            if let Some(b) = body {
                assert(b < t.end(c as int) <= t.len());
            }
        }
        if ms@.len() == 0 && body is Some {
            let b = body.unwrap() as int;
            if b + 1 < t.end(b) {
                assert(t.chain_ok(b + 1, t.end(b)));
            }
        }
    }
    let mut acc: Vec<String> = Vec::new();
    proof {
        assert(views(acc@) =~= seq![]);
        assert(views(acc@).to_set() =~= Set::empty());
    }
    let mut nom: usize = 0;
    let mut x: usize = 0;
    let ghost pos: int = lo;
    while x < ms.len()
        invariant
            t.wf(),
            ms@ == members(*t, c as int),
            forall|k: int| 0 <= k < ms@.len() ==> #[trigger] ms@[k] < t.len(),
            forall|k: int| 0 <= k < ms@.len() ==> lo <= #[trigger] ms@[k] < hi,
            forall|k: int| 0 <= k < ms@.len() - 1 ==> #[trigger] ms@[k + 1] == t.end(ms@[k] as int),
            ms@.len() > 0 ==> ms@[0] == lo && t.end(ms@.last() as int) == hi,
            0 <= lo <= hi <= t.len(),
            x <= ms@.len(),
            pos == if x < ms@.len() { ms@[x as int] as int } else { hi },
            nom <= x,
            nom == count_where(ms@.take(x as int), is_method_def(*t)),
            views(acc@).no_duplicates(),
            views(acc@).to_set() == union_over(ms@.take(x as int), method_callees(*t)),
            nom + acc@.len() <= pos - lo,
        decreases ms.len() - x,
    {
        let m = ms[x];
        proof {
            lemma_union_over_step(ms@, x as int, method_callees(*t));
            lemma_count_where_step(ms@, x as int, is_method_def(*t));
            assert(m < t.end(m as int) <= t.len());
        }
        let ghost before = views(acc@).to_set();
        if t.is_kind(m, "method_definition") {
            nom = nom + 1;
            match t.child_by_field_name(m, "body") {
                Some(b) => {
                    proof {
                        assert(b < t.end(m as int) <= t.len());
                        assert(t.end(b as int) <= t.end(m as int));
                    }
                    callees_into(t, b, &mut acc);
                },
                None => {
                    proof {
                        assert(before.union(Set::empty()) =~= before);
                    }
                },
            }
        } else {
            proof {
                assert(before.union(Set::empty()) =~= before);
            }
        }
        proof {
            pos = if x + 1 < ms@.len() { ms@[x + 1] as int } else { hi };
        }
        x = x + 1;
    }
    proof {
        assert(ms@.take(ms@.len() as int) =~= ms@);
        views(acc@).unique_seq_to_set();
    }
    let unique_callees = acc.len();
    ClassRfc { class_name: name, line, nom, unique_callees, rfc: nom + unique_callees }
}

/// Classes measured by RFC: declarations, abstract declarations and class expressions.
pub open spec fn rfc_classes(t: SyntaxTree, root: int) -> Seq<usize> {
    super::classes_in(t, root, seq!["class_declaration"@, "abstract_class_declaration"@], seq!["class"@])
}

/// Compute RFC for every class found beneath `root`, in pre-order.
pub fn compute_class_rfc(t: &SyntaxTree, root: usize) -> (r: Vec<ClassRfc>)
    requires
        t.wf(),
        root < t.len(),
    ensures
        r@.len() == rfc_classes(*t, root as int).len(),
        forall|k: int| 0 <= k < r@.len() ==> rfc_of(*t, #[trigger] rfc_classes(*t, root as int)[k] as int, r@[k]),
{
    let always: [&str; 2] = ["class_declaration", "abstract_class_declaration"];
    let with_body: [&str; 1] = ["class"];
    proof {
        assert(names(always@) =~= seq!["class_declaration"@, "abstract_class_declaration"@]);
        assert(names(with_body@) =~= seq!["class"@]);
    }
    let classes = find_classes(t, root, &always, &with_body);
    let mut out: Vec<ClassRfc> = Vec::new();
    let mut k: usize = 0;
    while k < classes.len()
        invariant
            t.wf(),
            classes@ == rfc_classes(*t, root as int),
            forall|q: int| 0 <= q < classes@.len() ==> #[trigger] classes@[q] < t.len(),
            k <= classes@.len(),
            out@.len() == k,
            forall|q: int| 0 <= q < k ==> rfc_of(*t, #[trigger] classes@[q] as int, out@[q]),
        decreases classes.len() - k,
    {
        out.push(measure_class(t, classes[k]));
        k = k + 1;
    }
    out
}

} // verus!
