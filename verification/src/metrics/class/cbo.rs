//! Coupling Between Objects (CBO): distinct types a class is structurally coupled to.
//!
//! A class is coupled to a type it extends, implements, or names in a property
//! type, a method parameter type or a method return type.  Method bodies are not
//! looked at, and the class is not coupled to itself.  Primitive types are
//! `predefined_type` nodes and never count.
use super::{class_name, class_name_of, classes_in, find_classes};
use crate::strset::{sort_unique, sorted_strict, views};
use crate::syntax::{names, SyntaxTree};
use crate::walk::{add_texts, texts_of, union_over, PlanSpec, WalkPlan};
use vstd::prelude::*;

verus! {

/// Walk that takes type identifiers whole.
pub open spec fn type_id_plan() -> PlanSpec {
    (seq!["type_identifier"@], seq![], seq![], usize::MAX as int, true, false, 0)
}

/// Walk that takes identifiers and type identifiers whole.
pub open spec fn heritage_plan() -> PlanSpec {
    (seq!["type_identifier"@, "identifier"@], seq![], seq![], usize::MAX as int, true, false, 0)
}

/// Type identifiers named in the subtree of `n`.
pub open spec fn type_ids_in(t: SyntaxTree, n: int) -> Set<Seq<char>> {
    texts_of(t, t.walk_node(n, 0, type_id_plan())).to_set()
}

/// Names in a heritage clause: `extends X` gives an identifier, `implements Y` a type identifier.
pub open spec fn heritage_names(t: SyntaxTree, h: int) -> Set<Seq<char>> {
    texts_of(t, t.walk_node(h, 0, heritage_plan())).to_set()
}

pub open spec fn field_kinds() -> Seq<Seq<char>> {
    seq!["public_field_definition"@, "property_signature"@]
}

pub open spec fn method_kinds() -> Seq<Seq<char>> {
    seq!["method_definition"@, "method_signature"@, "abstract_method_signature"@, "constructor_type"@]
}

pub open spec fn signature_kinds() -> Seq<Seq<char>> {
    seq!["formal_parameters"@, "type_annotation"@]
}

/// Types named by one part of a method: its parameters or return type annotation.
pub open spec fn signature_part(t: SyntaxTree) -> spec_fn(usize) -> Set<Seq<char>> {
    |c: usize| if signature_kinds().contains(t.kind(c as int)) { type_ids_in(t, c as int) } else { Set::empty() }
}

/// Types named by one member of a class body.
pub open spec fn member_types(t: SyntaxTree, m: int) -> Set<Seq<char>> {
    if field_kinds().contains(t.kind(m)) {
        match t.child_by_field(m, "type"@) {
            Some(ty) => type_ids_in(t, ty as int),
            None => Set::empty(),
        }
    } else if method_kinds().contains(t.kind(m)) {
        union_over(t.children(m), signature_part(t))
    } else {
        Set::empty()
    }
}

/// Types named by one child of a class: its heritage clause or its body.
pub open spec fn class_part(t: SyntaxTree) -> spec_fn(usize) -> Set<Seq<char>> {
    |ch: usize|
        if t.kind(ch as int) == "class_heritage"@ {
            heritage_names(t, ch as int)
        } else if t.kind(ch as int) == "class_body"@ {
            union_over(t.children(ch as int), |m: usize| member_types(t, m as int))
        } else {
            Set::empty()
        }
}

/// The types class `c` is coupled to.
pub open spec fn coupled_set(t: SyntaxTree, c: int) -> Set<Seq<char>> {
    union_over(t.children(c), class_part(t)).remove(class_name(t, c))
}

/// Coupling Between Objects of one class.
#[derive(Debug, Clone, PartialEq, Eq)]
pub struct ClassCbo {
    /// Class name, or `<anonymous>` for unnamed class expressions.
    pub class_name: String,
    /// Line number where the class starts (1-based).
    pub line: usize,
    /// Distinct type names this class is coupled to, in increasing order.
    pub coupled_types: Vec<String>,
    /// CBO = number of distinct coupled types.
    pub cbo: usize,
}

/// `r` is the CBO measurement of class `c`.
pub open spec fn cbo_of(t: SyntaxTree, c: int, r: ClassCbo) -> bool {
    &&& r.class_name@ == class_name(t, c)
    &&& r.line == t.row(c) + 1
    &&& views(r.coupled_types@).to_set() == coupled_set(t, c)
    &&& sorted_strict(views(r.coupled_types@))
    &&& r.cbo == r.coupled_types@.len()
    &&& r.cbo == coupled_set(t, c).len()
}

fn walk_texts_into(t: &SyntaxTree, n: usize, want: &[&str], acc: &mut Vec<String>)
    requires
        t.wf(),
        n < t.len(),
    ensures
        views(final(acc)@).to_set() == views(old(acc)@).to_set().union(
            texts_of(*t, t.walk_node(n as int, 0, (names(want@), seq![], seq![], usize::MAX as int, true, false, 0))).to_set(),
        ),
{
    let none: [&str; 0] = [];
    let plan = WalkPlan {
        want,
        stop: &none,
        bump: &none,
        limit: usize::MAX,
        prune_wanted: true,
        stop_named_only: false,
        min_depth: 0,
    };
    proof {
        assert(names(none@) =~= seq![]);
    }
    let w = t.walk(n, 0, &plan);
    proof {
        t.lemma_walk_node(n as int, 0, plan.spec());
    }
    add_texts(t, &w, acc);
}

fn type_ids_into(t: &SyntaxTree, n: usize, acc: &mut Vec<String>)
    requires
        t.wf(),
        n < t.len(),
    ensures
        views(final(acc)@).to_set() == views(old(acc)@).to_set().union(type_ids_in(*t, n as int)),
{
    let want: [&str; 1] = ["type_identifier"];
    proof {
        assert(names(want@) =~= seq!["type_identifier"@]);
    }
    walk_texts_into(t, n, &want, acc);
}

fn member_types_into(t: &SyntaxTree, m: usize, acc: &mut Vec<String>)
    requires
        t.wf(),
        m < t.len(),
    ensures
        views(final(acc)@).to_set() == views(old(acc)@).to_set().union(member_types(*t, m as int)),
{
    let fields: [&str; 2] = ["public_field_definition", "property_signature"];
    let methods: [&str; 4] = ["method_definition", "method_signature", "abstract_method_signature", "constructor_type"];
    let sig: [&str; 2] = ["formal_parameters", "type_annotation"];
    proof {
        assert(names(fields@) =~= field_kinds());
        assert(names(methods@) =~= method_kinds());
        assert(names(sig@) =~= signature_kinds());
    }
    if t.is_kind_in(m, &fields) {
        match t.child_by_field_name(m, "type") {
            Some(ty) => type_ids_into(t, ty, acc),
            None => {
                proof {
                    assert(views(acc@).to_set().union(Set::empty()) =~= views(acc@).to_set());
                }
            },
        }
    } else if t.is_kind_in(m, &methods) {
        let parts = t.children_of(m);
        proof {
            t.lemma_children_bounds(m as int);
        }
        let ghost start = views(acc@).to_set();
        let mut z: usize = 0;
        while z < parts.len()
            invariant
                t.wf(),
                parts@ == t.children(m as int),
                forall|y: int| 0 <= y < parts@.len() ==> #[trigger] parts@[y] < t.len(),
                names(sig@) == signature_kinds(),
                z <= parts@.len(),
                views(acc@).to_set() == start.union(union_over(parts@.take(z as int), signature_part(*t))),
            decreases parts.len() - z,
        {
            let part = parts[z];
            proof {
                crate::walk::lemma_union_over_step(parts@, z as int, signature_part(*t));
                assert(parts@[z as int] < t.len());
            }
            if t.is_kind_in(part, &sig) {
                type_ids_into(t, part, acc);
            }
            proof {
                assert(views(acc@).to_set() =~= start.union(union_over(parts@.take(z + 1), signature_part(*t))));
            }
            z = z + 1;
        }
        proof {
            assert(parts@.take(parts@.len() as int) =~= parts@);
        }
    } else {
        proof {
            assert(views(acc@).to_set().union(Set::empty()) =~= views(acc@).to_set());
        }
    }
}

fn class_part_into(t: &SyntaxTree, ch: usize, acc: &mut Vec<String>)
    requires
        t.wf(),
        ch < t.len(),
    ensures
        views(final(acc)@).to_set() == views(old(acc)@).to_set().union(class_part(*t)(ch)),
{
    if t.is_kind(ch, "class_heritage") {
        let want: [&str; 2] = ["type_identifier", "identifier"];
        proof {
            assert(names(want@) =~= seq!["type_identifier"@, "identifier"@]);
        }
        walk_texts_into(t, ch, &want, acc);
    } else if t.is_kind(ch, "class_body") {
        let members = t.children_of(ch);
        proof {
            t.lemma_children_bounds(ch as int);
        }
        let ghost f = |m: usize| member_types(*t, m as int);
        let ghost start = views(acc@).to_set();
        let mut y: usize = 0;
        while y < members.len()
            invariant
                t.wf(),
                members@ == t.children(ch as int),
                forall|q: int| 0 <= q < members@.len() ==> #[trigger] members@[q] < t.len(),
                f == (|m: usize| member_types(*t, m as int)),
                y <= members@.len(),
                views(acc@).to_set() == start.union(union_over(members@.take(y as int), f)),
            decreases members.len() - y,
        {
            proof {
                crate::walk::lemma_union_over_step(members@, y as int, f);
                assert(members@[y as int] < t.len());
            }
            member_types_into(t, members[y], acc);
            proof {
                assert(views(acc@).to_set() =~= start.union(union_over(members@.take(y + 1), f)));
            }
            y = y + 1;
        }
        proof {
            assert(members@.take(members@.len() as int) =~= members@);
        }
    } else {
        proof {
            assert(views(acc@).to_set().union(Set::empty()) =~= views(acc@).to_set());
        }
    }
}

/// The strings of `v` other than `name`.
fn without(v: &Vec<String>, name: &str) -> (r: Vec<String>)
    ensures
        views(r@).to_set() == views(v@).to_set().remove(name@),
{
    let mut out: Vec<String> = Vec::new();
    let mut i: usize = 0;
    while i < v.len()
        invariant
            i <= v@.len(),
            views(out@).to_set() == views(v@.take(i as int)).to_set().remove(name@),
        decreases v.len() - i,
    {
        proof {
            assert(views(v@.take(i + 1)) =~= views(v@.take(i as int)) + seq![v@[i as int]@]);
            vstd::seq::Seq::<Seq<char>>::lemma_to_set_insert_commutes(views(v@.take(i as int)), v@[i as int]@);
        }
        if !crate::text::str_eq(v[i].as_str(), name) {
            let ghost before = views(out@);
            out.push(v[i].clone());
            proof {
                assert(views(out@) =~= before + seq![v@[i as int]@]);
                vstd::seq::Seq::<Seq<char>>::lemma_to_set_insert_commutes(before, v@[i as int]@);
                assert(views(out@).to_set() =~= views(v@.take(i + 1)).to_set().remove(name@));
            }
        } else {
            proof {
                assert(views(out@).to_set() =~= views(v@.take(i + 1)).to_set().remove(name@));
            }
        }
        i = i + 1;
    }
    proof {
        assert(v@.take(v@.len() as int) =~= v@);
    }
    out
}

fn measure_class(t: &SyntaxTree, c: usize) -> (r: ClassCbo)
    requires
        t.wf(),
        c < t.len(),
    ensures
        cbo_of(*t, c as int, r),
{
    let name = class_name_of(t, c);
    let line = t.line_of(c);
    let kids = t.children_of(c);
    proof {
        t.lemma_children_bounds(c as int);
    }
    let mut acc: Vec<String> = Vec::new();
    let mut x: usize = 0;
    while x < kids.len()
        invariant
            t.wf(),
            kids@ == t.children(c as int),
            forall|q: int| 0 <= q < kids@.len() ==> #[trigger] kids@[q] < t.len(),
            x <= kids@.len(),
            views(acc@).to_set() == union_over(kids@.take(x as int), class_part(*t)),
        decreases kids.len() - x,
    {
        proof {
            crate::walk::lemma_union_over_step(kids@, x as int, class_part(*t));
            assert(kids@[x as int] < t.len());
        }
        class_part_into(t, kids[x], &mut acc);
        x = x + 1;
    }
    proof {
        assert(kids@.take(kids@.len() as int) =~= kids@);
    }
    let others = without(&acc, name.as_str());
    let coupled_types = sort_unique(&others);
    let cbo = coupled_types.len();
    ClassCbo { class_name: name, line, coupled_types, cbo }
}

/// Class declarations and class expressions found beneath `root`, in pre-order.
pub open spec fn cbo_classes(t: SyntaxTree, root: int) -> Seq<usize> {
    classes_in(t, root, seq!["class_declaration"@], seq!["class"@])
}

/// Compute CBO for every class found beneath `root`.
pub fn compute_class_cbo(t: &SyntaxTree, root: usize) -> (r: Vec<ClassCbo>)
    requires
        t.wf(),
        root < t.len(),
    ensures
        r@.len() == cbo_classes(*t, root as int).len(),
        forall|k: int| 0 <= k < r@.len() ==> cbo_of(*t, #[trigger] cbo_classes(*t, root as int)[k] as int, r@[k]),
{
    let always: [&str; 1] = ["class_declaration"];
    let with_body: [&str; 1] = ["class"];
    proof {
        assert(names(always@) =~= seq!["class_declaration"@]);
        assert(names(with_body@) =~= seq!["class"@]);
    }
    let classes = find_classes(t, root, &always, &with_body);
    let mut out: Vec<ClassCbo> = Vec::new();
    let mut k: usize = 0;
    while k < classes.len()
        invariant
            t.wf(),
            classes@ == cbo_classes(*t, root as int),
            forall|q: int| 0 <= q < classes@.len() ==> #[trigger] classes@[q] < t.len(),
            k <= classes@.len(),
            out@.len() == k,
            forall|q: int| 0 <= q < k ==> cbo_of(*t, #[trigger] classes@[q] as int, out@[q]),
        decreases classes.len() - k,
    {
        let m = measure_class(t, classes[k]);
        out.push(m);
        k = k + 1;
    }
    out
}

} // verus!
