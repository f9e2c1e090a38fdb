//! Feature Envy: a method more interested in other objects' data than in its own.
//!
//! A method is flagged when its foreign data accesses (ATFD: `obj.x` with `obj`
//! a plain identifier) exceed the threshold and outnumber its own `this.x`
//! accesses.  Accesses that are the callee of a call (`obj.m()`, `this.m()`)
//! are method calls, not data accesses, and are not counted.
use crate::metrics::class::{class_name, class_name_of, classes_in, find_classes};
use crate::metrics::class::nom::members;
use crate::syntax::{names, SyntaxTree};
use crate::walk::{count_where, find_all, lemma_count_where_step, select_where, WalkPlan};
use vstd::prelude::*;

verus! {

/// A method must access more than this many foreign attributes to envy.
pub const ATFD_THRESHOLD: usize = 5;

/// A method exhibiting Feature Envy.
#[derive(Debug, Clone, PartialEq, Eq)]
pub struct FeatureEnvyResult {
    /// Name of the method (`<anonymous>` without a name).
    pub method_name: String,
    /// Name of the class that contains the method.
    pub class_name: String,
    /// 1-based line of the method.
    pub line: usize,
    /// Foreign attribute accesses (ATFD).
    pub atfd: usize,
    /// Own `this.x` attribute accesses.
    pub local_accesses: usize,
}

/// Node `j` is the callee of the call expression it hangs from.
pub open spec fn is_callee(t: SyntaxTree, j: int) -> bool {
    match t.parent(j) {
        Some(p) => t.kind(p as int) == "call_expression"@ && t.child_by_field(p as int, "function"@) == Some(
            j as usize,
        ),
        None => false,
    }
}

/// Member expression `j` reads or writes an attribute of an object of kind `kind`.
pub open spec fn data_access(t: SyntaxTree, kind: Seq<char>) -> spec_fn(usize) -> bool {
    |j: usize|
        !is_callee(t, j as int) && (t.child_by_field(j as int, "object"@) matches Some(o) && t.kind(o as int) == kind)
}

/// The member expressions of the subtree of `n`, in pre-order.
pub open spec fn member_exprs(t: SyntaxTree, n: int) -> Seq<usize> {
    t.walk_node(n, 0, find_all(seq!["member_expression"@]))
}

/// Foreign data accesses (ATFD) in the subtree of `n`.
pub open spec fn spec_atfd(t: SyntaxTree, n: int) -> nat {
    count_where(member_exprs(t, n), data_access(t, "identifier"@))
}

/// Own `this` data accesses in the subtree of `n`.
pub open spec fn spec_local(t: SyntaxTree, n: int) -> nat {
    count_where(member_exprs(t, n), data_access(t, "this"@))
}

/// Member `m` is a method definition whose body envies foreign data.
pub open spec fn is_envious(t: SyntaxTree) -> spec_fn(usize) -> bool {
    |m: usize|
        t.kind(m as int) == "method_definition"@ && (t.child_by_field(m as int, "body"@) matches Some(b)
            && spec_atfd(t, b as int) > ATFD_THRESHOLD && spec_atfd(t, b as int) > spec_local(t, b as int))
}

/// Classes searched: declarations, abstract declarations and class expressions.
pub open spec fn envy_classes(t: SyntaxTree, root: int) -> Seq<usize> {
    classes_in(t, root, seq!["class_declaration"@, "abstract_class_declaration"@], seq!["class"@])
}

/// The envious methods of class `c`, each paired with `c`.
pub open spec fn class_envy(t: SyntaxTree, c: usize) -> Seq<(usize, usize)> {
    select_where(members(t, c as int), is_envious(t)).map_values(|m: usize| (c, m))
}

/// The (class, method) pairs of envious methods of the classes `cs`, in order.
pub open spec fn envy_pairs(t: SyntaxTree, cs: Seq<usize>) -> Seq<(usize, usize)>
    decreases cs.len(),
{
    if cs.len() == 0 {
        seq![]
    } else {
        envy_pairs(t, cs.drop_last()) + class_envy(t, cs.last())
    }
}

/// `r` reports method `m` of class `c`.
pub open spec fn envy_of(t: SyntaxTree, c: int, m: int, r: FeatureEnvyResult) -> bool {
    &&& r.method_name@ == t.display_name(m)
    &&& r.class_name@ == class_name(t, c)
    &&& r.line == t.row(m) + 1
    &&& match t.child_by_field(m, "body"@) {
        Some(b) => r.atfd == spec_atfd(t, b as int) && r.local_accesses == spec_local(t, b as int),
        None => false,
    }
}

/// The `(atfd, local)` data access counts of the subtree of `n`.
fn count_accesses(t: &SyntaxTree, n: usize) -> (r: (usize, usize))
    requires
        t.wf(),
        n < t.len(),
    ensures
        r.0 == spec_atfd(*t, n as int),
        r.1 == spec_local(*t, n as int),
{
    let want: [&str; 1] = ["member_expression"];
    let none: [&str; 0] = [];
    proof {
        assert(names(want@) =~= seq!["member_expression"@]);
        assert(names(none@) =~= seq![]);
    }
    let plan = WalkPlan { want: &want, stop: &none, bump: &none, limit: usize::MAX, prune_wanted: false, stop_named_only: false, min_depth: 0 };
    let es = t.walk(n, 0, &plan);
    proof {
        t.lemma_walk_node(n as int, 0, plan.spec());
        reveal_strlit("call_expression");
        reveal_strlit("this");
        reveal_strlit("identifier");
    }
    let ghost fp = data_access(*t, "identifier"@);
    let ghost lp = data_access(*t, "this"@);
    let mut foreign: usize = 0;
    let mut local: usize = 0;
    let mut x: usize = 0;
    while x < es.len()
        invariant
            t.wf(),
            es@ == member_exprs(*t, n as int),
            forall|y: int| 0 <= y < es@.len() ==> #[trigger] es@[y] < t.len(),
            fp == data_access(*t, "identifier"@),
            lp == data_access(*t, "this"@),
            x <= es@.len(),
            foreign == count_where(es@.take(x as int), fp),
            local == count_where(es@.take(x as int), lp),
            foreign <= x,
            local <= x,
        decreases es.len() - x,
    {
        let j = es[x];
        proof {
            lemma_count_where_step(es@, x as int, fp);
            lemma_count_where_step(es@, x as int, lp);
        }
        let callee = match t.parent_of(j) {
            Some(p) => t.is_kind(p, "call_expression") && t.child_by_field_name(p, "function") == Some(j),
            None => false,
        };
        if !callee {
            match t.child_by_field_name(j, "object") {
                Some(o) => {
                    if t.is_kind(o, "this") {
                        proof {
                            reveal_strlit("this");
                            reveal_strlit("identifier");
                            assert("this"@.len() == 4);
                            assert("identifier"@.len() == 10);
                            assert(!fp(j));
                        }
                        local = local + 1;
                    } else if t.is_kind(o, "identifier") {
                        proof {
                            assert(fp(j));
                        }
                        foreign = foreign + 1;
                    } else {
                        proof {
                            assert(!fp(j));
                        }
                    }
                },
                None => {},
            }
        }
        x = x + 1;
    }
    proof {
        assert(es@.take(es@.len() as int) =~= es@);
    }
    (foreign, local)
}

/// The envious methods of class `c`, in order.
fn envy_in_class(t: &SyntaxTree, c: usize) -> (r: Vec<FeatureEnvyResult>)
    requires
        t.wf(),
        c < t.len(),
    ensures
        r@.len() == class_envy(*t, c).len(),
        forall|q: int| 0 <= q < r@.len() ==> envy_of(*t, c as int, #[trigger] class_envy(*t, c)[q].1 as int, r@[q]),
{
    proof {
        reveal_strlit("method_definition");
    }
    let ghost pred = is_envious(*t);
    let ms: Vec<usize> = match t.child_by_field_name(c, "body") {
        Some(b) => {
            proof {
                assert(b < t.end(c as int) <= t.len());
                t.lemma_children_bounds(b as int);
            }
            t.children_of(b)
        },
        None => Vec::new(),
    };
    proof {
        assert(ms@ =~= members(*t, c as int));
        if let Some(b) = t.child_by_field(c as int, "body"@) {
            assert forall|q: int| 0 <= q < ms@.len() implies #[trigger] ms@[q] < t.len() by {
                assert(ms@[q] < t.end(b as int) <= t.len());
            }
        }
    }
    let cname = class_name_of(t, c);
    let mut out: Vec<FeatureEnvyResult> = Vec::new();
    let mut x: usize = 0;
    while x < ms.len()
        invariant
            t.wf(),
            c < t.len(),
            cname@ == class_name(*t, c as int),
            ms@ == members(*t, c as int),
            forall|q: int| 0 <= q < ms@.len() ==> #[trigger] ms@[q] < t.len(),
            pred == is_envious(*t),
            x <= ms@.len(),
            out@.len() == select_where(ms@.take(x as int), pred).len(),
            forall|q: int|
                0 <= q < out@.len() ==> envy_of(*t, c as int, #[trigger] select_where(ms@.take(x as int), pred)[q] as int, out@[q]),
        decreases ms.len() - x,
    {
        let m = ms[x];
        proof {
            lemma_count_where_step(ms@, x as int, pred);
        }
        let ghost sel = select_where(ms@.take(x as int), pred);
        let ghost before = out@;
        let mut added = false;
        if t.is_kind(m, "method_definition") {
            match t.child_by_field_name(m, "body") {
                Some(b) => {
                    proof {
                        assert(b < t.end(m as int) <= t.len());
                    }
                    let (atfd, local) = count_accesses(t, b);
                    if atfd > ATFD_THRESHOLD && atfd > local {
                        out.push(
                            FeatureEnvyResult {
                                method_name: t.display_name_of(m),
                                class_name: cname.clone(),
                                line: t.line_of(m),
                                atfd,
                                local_accesses: local,
                            },
                        );
                        added = true;
                    }
                },
                None => {},
            }
        }
        proof {
            if added {
                assert(pred(m));
                assert(select_where(ms@.take(x + 1), pred) == sel.push(m));
                assert forall|q: int|
                    0 <= q < out@.len() implies envy_of(*t, c as int, #[trigger] select_where(ms@.take(x + 1), pred)[q] as int, out@[q]) by {
                    if q < sel.len() {
                        assert(out@[q] == before[q]);
                        assert(select_where(ms@.take(x + 1), pred)[q] == sel[q]);
                    }
                }
            } else {
                assert(!pred(m));
                assert(select_where(ms@.take(x + 1), pred) =~= sel);
            }
        }
        x = x + 1;
    }
    proof {
        assert(ms@.take(ms@.len() as int) =~= ms@);
    }
    out
}

/// Report every method of every class beneath `root` whose foreign data accesses
/// exceed [`ATFD_THRESHOLD`] and outnumber its own, in pre-order.
pub fn detect_feature_envy(t: &SyntaxTree, root: usize) -> (r: Vec<FeatureEnvyResult>)
    requires
        t.wf(),
        root < t.len(),
    ensures
        r@.len() == envy_pairs(*t, envy_classes(*t, root as int)).len(),
        forall|k: int|
            0 <= k < r@.len() ==> envy_of(
                *t,
                #[trigger] envy_pairs(*t, envy_classes(*t, root as int))[k].0 as int,
                envy_pairs(*t, envy_classes(*t, root as int))[k].1 as int,
                r@[k],
            ),
{
    let always: [&str; 2] = ["class_declaration", "abstract_class_declaration"];
    let with_body: [&str; 1] = ["class"];
    proof {
        assert(names(always@) =~= seq!["class_declaration"@, "abstract_class_declaration"@]);
        assert(names(with_body@) =~= seq!["class"@]);
    }
    let cs = find_classes(t, root, &always, &with_body);
    let mut out: Vec<FeatureEnvyResult> = Vec::new();
    let mut k: usize = 0;
    while k < cs.len()
        invariant
            t.wf(),
            cs@ == envy_classes(*t, root as int),
            forall|q: int| 0 <= q < cs@.len() ==> #[trigger] cs@[q] < t.len(),
            k <= cs@.len(),
            out@.len() == envy_pairs(*t, cs@.take(k as int)).len(),
            forall|q: int|
                0 <= q < out@.len() ==> envy_of(
                    *t,
                    #[trigger] envy_pairs(*t, cs@.take(k as int))[q].0 as int,
                    envy_pairs(*t, cs@.take(k as int))[q].1 as int,
                    out@[q],
                ),
        decreases cs.len() - k,
    {
        let c = cs[k];
        let ghost done = envy_pairs(*t, cs@.take(k as int));
        let ghost before = out@;
        proof {
            assert(cs@.take(k + 1).drop_last() =~= cs@.take(k as int));
            assert(envy_pairs(*t, cs@.take(k + 1)) == done + class_envy(*t, c));
        }
        let mut found = envy_in_class(t, c);
        let ghost fv = found@;
        out.append(&mut found);
        proof {
            let ce = class_envy(*t, c);
            assert(out@ == before + fv);
            assert forall|q: int| 0 <= q < out@.len() implies envy_of(
                *t,
                #[trigger] (done + ce)[q].0 as int,
                (done + ce)[q].1 as int,
                out@[q],
            ) by {
                if q >= done.len() {
                    let i = q - done.len();
                    assert((done + ce)[q] == ce[i]);
                    assert(ce[i].0 == c);
                    assert(out@[q] == fv[i]);
                } else {
                    assert((done + ce)[q] == done[q]);
                    assert(out@[q] == before[q]);
                }
            }
        }
        k = k + 1;
    }
    proof {
        assert(cs@.take(cs@.len() as int) =~= cs@);
    }
    out
}

} // verus!
