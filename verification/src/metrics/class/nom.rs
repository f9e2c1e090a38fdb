//! Number of Methods (NOM), of Added Methods (NOAM) and of Overriding Methods (NOOM).
//!
//! NOM counts the `method_definition` and `abstract_method_signature` members of
//! a class body (constructor, accessors and static methods included).  NOOM counts
//! the method definitions that carry the `override` modifier; NOAM the others, so
//! that NOM = NOAM + NOOM.
use super::{class_name, class_name_of, classes_in, find_classes};
use crate::strset::{insert_unique, views};
use crate::syntax::{names, SyntaxTree};
use crate::walk::{count_where, lemma_count_where_step, union_over, lemma_union_over_step};
use vstd::prelude::*;

verus! {

/// The members of class `c`: the children of its `body` field.
pub open spec fn members(t: SyntaxTree, c: int) -> Seq<usize> {
    match t.child_by_field(c, "body"@) {
        Some(b) => t.children(b as int),
        None => seq![],
    }
}

/// Member `m` carries the `override` modifier.
pub open spec fn has_override(t: SyntaxTree, m: int) -> bool {
    t.first_child_of_kind(m, "override_modifier"@) is Some
}

/// Member `m` is a method: a definition or an abstract signature.
pub open spec fn is_method_member(t: SyntaxTree) -> spec_fn(usize) -> bool {
    |m: usize| t.kind(m as int) == "method_definition"@ || t.kind(m as int) == "abstract_method_signature"@
}

/// Member `m` is a method definition with the `override` modifier.
pub open spec fn is_override_member(t: SyntaxTree) -> spec_fn(usize) -> bool {
    |m: usize| t.kind(m as int) == "method_definition"@ && has_override(t, m as int)
}

pub open spec fn spec_nom(t: SyntaxTree, c: int) -> nat {
    count_where(members(t, c), is_method_member(t))
}

pub open spec fn spec_noom(t: SyntaxTree, c: int) -> nat {
    count_where(members(t, c), is_override_member(t))
}

/// NOM/NOAM/NOOM metrics for a single class.
#[derive(Debug, Clone, PartialEq, Eq)]
pub struct ClassNom {
    /// Name of the class (`<anonymous>` if unnamed).
    pub class_name: String,
    /// Line number where the class starts (1-based).
    pub line: usize,
    /// Total methods (NOM).
    pub nom: usize,
    /// Methods added by this class (NOAM).
    pub noam: usize,
    /// Methods overriding a parent (NOOM).
    pub noom: usize,
}

/// `r` is the NOM measurement of class `c`.
pub open spec fn nom_of(t: SyntaxTree, c: int, r: ClassNom) -> bool {
    &&& r.class_name@ == class_name(t, c)
    &&& r.line == t.row(c) + 1
    &&& r.nom == spec_nom(t, c)
    &&& r.noom == spec_noom(t, c)
    &&& r.noam + r.noom == r.nom
}

/// Classes measured by NOM: declarations, abstract declarations and class expressions.
pub open spec fn nom_classes(t: SyntaxTree, root: int) -> Seq<usize> {
    classes_in(t, root, seq!["class_declaration"@, "abstract_class_declaration"@], seq!["class"@])
}

/// Overriding methods never outnumber methods.
pub proof fn lemma_noom_le_nom(t: SyntaxTree, s: Seq<usize>)
    ensures
        count_where(s, is_override_member(t)) <= count_where(s, is_method_member(t)),
    decreases s.len(),
{
    if s.len() > 0 {
        lemma_noom_le_nom(t, s.drop_last());
    }
}

/// Children of the `body` field of `c`, with what the walk needs to know of them.
fn member_nodes(t: &SyntaxTree, c: usize) -> (r: Vec<usize>)
    requires
        t.wf(),
        c < t.len(),
    ensures
        r@ == members(*t, c as int),
        forall|k: int| 0 <= k < r@.len() ==> #[trigger] r@[k] < t.len(),
{
    match t.child_by_field_name(c, "body") {
        Some(b) => {
            proof {
                assert(b < t.end(c as int) <= t.len());
                t.lemma_children_bounds(b as int);
            }
            t.children_of(b)
        },
        None => Vec::new(),
    }
}

/// Returns `true` when member `m` carries an explicit `override` modifier.
pub fn has_override_modifier(t: &SyntaxTree, m: usize) -> (r: bool)
    requires
        t.wf(),
        m < t.len(),
    ensures
        r == has_override(*t, m as int),
{
    t.child_of_kind(m, "override_modifier").is_some()
}

fn measure_class(t: &SyntaxTree, c: usize) -> (r: ClassNom)
    requires
        t.wf(),
        c < t.len(),
    ensures
        nom_of(*t, c as int, r),
{
    let ms = member_nodes(t, c);
    let mut nom: usize = 0;
    let mut noom: usize = 0;
    let mut x: usize = 0;
    while x < ms.len()
        invariant
            t.wf(),
            forall|k: int| 0 <= k < ms@.len() ==> #[trigger] ms@[k] < t.len(),
            x <= ms@.len(),
            nom == count_where(ms@.take(x as int), is_method_member(*t)),
            noom == count_where(ms@.take(x as int), is_override_member(*t)),
            nom <= x,
            noom <= nom,
        decreases ms.len() - x,
    {
        let m = ms[x];
        proof {
            lemma_count_where_step(ms@, x as int, is_method_member(*t));
            lemma_count_where_step(ms@, x as int, is_override_member(*t));
        }
        if t.is_kind(m, "method_definition") {
            nom = nom + 1;
            if has_override_modifier(t, m) {
                noom = noom + 1;
            }
        } else if t.is_kind(m, "abstract_method_signature") {
            nom = nom + 1;
        }
        x = x + 1;
    }
    proof {
        assert(ms@.take(ms@.len() as int) =~= ms@);
    }
    ClassNom { class_name: class_name_of(t, c), line: t.line_of(c), nom, noam: nom - noom, noom }
}

/// Compute NOM/NOAM/NOOM for every class found beneath `root`, in pre-order.
pub fn compute_class_nom(t: &SyntaxTree, root: usize) -> (r: Vec<ClassNom>)
    requires
        t.wf(),
        root < t.len(),
    ensures
        r@.len() == nom_classes(*t, root as int).len(),
        forall|k: int| 0 <= k < r@.len() ==> nom_of(*t, #[trigger] nom_classes(*t, root as int)[k] as int, r@[k]),
{
    let always: [&str; 2] = ["class_declaration", "abstract_class_declaration"];
    let with_body: [&str; 1] = ["class"];
    proof {
        assert(names(always@) =~= seq!["class_declaration"@, "abstract_class_declaration"@]);
        assert(names(with_body@) =~= seq!["class"@]);
    }
    let classes = find_classes(t, root, &always, &with_body);
    let mut out: Vec<ClassNom> = Vec::new();
    let mut k: usize = 0;
    while k < classes.len()
        invariant
            t.wf(),
            classes@ == nom_classes(*t, root as int),
            forall|q: int| 0 <= q < classes@.len() ==> #[trigger] classes@[q] < t.len(),
            k <= classes@.len(),
            out@.len() == k,
            forall|q: int| 0 <= q < k ==> nom_of(*t, #[trigger] classes@[q] as int, out@[q]),
        decreases classes.len() - k,
    {
        out.push(measure_class(t, classes[k]));
        k = k + 1;
    }
    out
}

/// The name of member `m` when it is an abstract method signature with a name.
pub open spec fn abstract_name(t: SyntaxTree) -> spec_fn(usize) -> Set<Seq<char>> {
    |m: usize|
        if t.kind(m as int) == "abstract_method_signature"@ && t.child_by_field(m as int, "name"@) is Some {
            set![t.text(t.child_by_field(m as int, "name"@).unwrap() as int)]
        } else {
            Set::empty()
        }
}

/// The name of member `m` when it is a method definition without `override`, with a name.
pub open spec fn plain_method_name(t: SyntaxTree) -> spec_fn(usize) -> Set<Seq<char>> {
    |m: usize|
        if t.kind(m as int) == "method_definition"@ && !has_override(t, m as int) && t.child_by_field(
            m as int,
            "name"@,
        ) is Some {
            set![t.text(t.child_by_field(m as int, "name"@).unwrap() as int)]
        } else {
            Set::empty()
        }
}

/// Names of the abstract methods class `c` declares.
pub open spec fn abstract_names(t: SyntaxTree, c: int) -> Set<Seq<char>> {
    union_over(members(t, c), abstract_name(t))
}

/// Names of the concrete methods of class `c` without `override`.
pub open spec fn plain_method_names(t: SyntaxTree, c: int) -> Set<Seq<char>> {
    union_over(members(t, c), plain_method_name(t))
}

/// Add the name of member `m` to `acc` when `abstract_only` and it is a named abstract
/// signature, or when not `abstract_only` and it is a named method without `override`.
fn add_member_name(t: &SyntaxTree, m: usize, abstract_only: bool, acc: &mut Vec<String>)
    requires
        t.wf(),
        m < t.len(),
        views(old(acc)@).no_duplicates(),
    ensures
        views(final(acc)@).no_duplicates(),
        views(final(acc)@).to_set() == views(old(acc)@).to_set().union(
            if abstract_only { abstract_name(*t)(m) } else { plain_method_name(*t)(m) },
        ),
{
    let wanted = if abstract_only {
        t.is_kind(m, "abstract_method_signature")
    } else {
        t.is_kind(m, "method_definition") && !has_override_modifier(t, m)
    };
    let ghost a0 = views(acc@);
    if wanted {
        match t.child_by_field_name(m, "name") {
            Some(n) => {
                let txt = t.text_of(n);
                insert_unique(acc, txt);
                proof {
                    if !a0.contains(txt@) {
                        vstd::seq::Seq::<Seq<char>>::lemma_to_set_insert_commutes(a0, txt@);
                        assert(a0 + seq![txt@] =~= a0.push(txt@));
                        assert forall|a: int, b: int| 0 <= a < b < views(acc@).len() implies views(acc@)[a] != views(acc@)[b] by {
                            if b == a0.len() {
                                assert(a0.contains(a0[a]));
                            }
                        }
                    }
                    assert(views(acc@).to_set() =~= a0.to_set().union(set![txt@]));
                }
            },
            None => {
                proof {
                    assert(a0.to_set().union(Set::empty()) =~= a0.to_set());
                }
            },
        }
    } else {
        proof {
            assert(a0.to_set().union(Set::empty()) =~= a0.to_set());
        }
    }
}

fn member_names(t: &SyntaxTree, c: usize, abstract_only: bool) -> (r: Vec<String>)
    requires
        t.wf(),
        c < t.len(),
    ensures
        views(r@).no_duplicates(),
        views(r@).to_set() == if abstract_only { abstract_names(*t, c as int) } else { plain_method_names(*t, c as int) },
{
    let ms = member_nodes(t, c);
    let ghost f = if abstract_only { abstract_name(*t) } else { plain_method_name(*t) };
    let mut acc: Vec<String> = Vec::new();
    proof {
        assert(views(acc@) =~= seq![]);
        assert(views(acc@).to_set() =~= Set::empty());
    }
    let mut x: usize = 0;
    while x < ms.len()
        invariant
            t.wf(),
            forall|k: int| 0 <= k < ms@.len() ==> #[trigger] ms@[k] < t.len(),
            f == if abstract_only { abstract_name(*t) } else { plain_method_name(*t) },
            x <= ms@.len(),
            views(acc@).no_duplicates(),
            views(acc@).to_set() == union_over(ms@.take(x as int), f),
        decreases ms.len() - x,
    {
        proof {
            lemma_union_over_step(ms@, x as int, f);
        }
        add_member_name(t, ms[x], abstract_only, &mut acc);
        x = x + 1;
    }
    proof {
        assert(ms@.take(ms@.len() as int) =~= ms@);
    }
    acc
}

/// The names declared as abstract methods in class `c`, each once.
pub fn abstract_method_names(t: &SyntaxTree, c: usize) -> (r: Vec<String>)
    requires
        t.wf(),
        c < t.len(),
    ensures
        views(r@).no_duplicates(),
        views(r@).to_set() == abstract_names(*t, c as int),
{
    member_names(t, c, true)
}

/// The names of concrete methods of class `c` that do not carry `override`, each once.
pub fn concrete_non_override_method_names(t: &SyntaxTree, c: usize) -> (r: Vec<String>)
    requires
        t.wf(),
        c < t.len(),
    ensures
        views(r@).no_duplicates(),
        views(r@).to_set() == plain_method_names(*t, c as int),
{
    member_names(t, c, false)
}

/// Per-class data needed to find implicit overrides.
#[derive(Debug, Clone, PartialEq, Eq)]
pub struct ClassMethodInfo {
    /// Class name.
    pub class_name: String,
    /// Names of abstract methods declared in this class, each once.
    pub abstract_method_names: Vec<String>,
    /// Names of concrete methods that do not carry `override`, each once.
    pub concrete_non_override_names: Vec<String>,
}

/// `r` describes the methods of class `c`.
pub open spec fn method_info_of(t: SyntaxTree, c: int, r: ClassMethodInfo) -> bool {
    &&& r.class_name@ == class_name(t, c)
    &&& views(r.abstract_method_names@).no_duplicates()
    &&& views(r.abstract_method_names@).to_set() == abstract_names(t, c)
    &&& views(r.concrete_non_override_names@).no_duplicates()
    &&& views(r.concrete_non_override_names@).to_set() == plain_method_names(t, c)
}

/// Collect the method information of every class beneath `root`, in pre-order.
pub fn collect_class_method_info(t: &SyntaxTree, root: usize) -> (r: Vec<ClassMethodInfo>)
    requires
        t.wf(),
        root < t.len(),
    ensures
        r@.len() == nom_classes(*t, root as int).len(),
        forall|k: int| 0 <= k < r@.len() ==> method_info_of(*t, #[trigger] nom_classes(*t, root as int)[k] as int, r@[k]),
{
    let always: [&str; 2] = ["class_declaration", "abstract_class_declaration"];
    let with_body: [&str; 1] = ["class"];
    proof {
        assert(names(always@) =~= seq!["class_declaration"@, "abstract_class_declaration"@]);
        assert(names(with_body@) =~= seq!["class"@]);
    }
    let classes = find_classes(t, root, &always, &with_body);
    let mut out: Vec<ClassMethodInfo> = Vec::new();
    let mut k: usize = 0;
    while k < classes.len()
        invariant
            t.wf(),
            classes@ == nom_classes(*t, root as int),
            forall|q: int| 0 <= q < classes@.len() ==> #[trigger] classes@[q] < t.len(),
            k <= classes@.len(),
            out@.len() == k,
            forall|q: int| 0 <= q < k ==> method_info_of(*t, #[trigger] classes@[q] as int, out@[q]),
        decreases classes.len() - k,
    {
        let c = classes[k];
        out.push(
            ClassMethodInfo {
                class_name: class_name_of(t, c),
                abstract_method_names: abstract_method_names(t, c),
                concrete_non_override_names: concrete_non_override_method_names(t, c),
            },
        );
        k = k + 1;
    }
    out
}

/// Classes looked at for abstract methods: abstract declarations, and declarations
/// or expressions with a body.
pub open spec fn abstract_candidates(t: SyntaxTree, root: int) -> Seq<usize> {
    classes_in(t, root, seq!["abstract_class_declaration"@], seq!["class_declaration"@, "class"@])
}

/// The map from class name to abstract method names built by visiting `cs` in order:
/// each class that declares abstract methods sets its name's entry.
pub open spec fn abstract_map(t: SyntaxTree, cs: Seq<usize>) -> Map<Seq<char>, Set<Seq<char>>>
    decreases cs.len(),
{
    if cs.len() == 0 {
        Map::empty()
    } else {
        let m = abstract_map(t, cs.drop_last());
        let c = cs.last() as int;
        if abstract_names(t, c).len() > 0 {
            m.insert(class_name(t, c), abstract_names(t, c))
        } else {
            m
        }
    }
}

/// The entries of `v` as a map from the first string to the set of the second's strings.
pub open spec fn entries_agree(v: Seq<(String, Vec<String>)>, m: Map<Seq<char>, Set<Seq<char>>>) -> bool {
    &&& forall|k: int| 0 <= k < v.len() ==> m.dom().contains((#[trigger] v[k]).0@) && m[v[k].0@] == views(v[k].1@).to_set()
    &&& forall|key: Seq<char>| #[trigger] m.dom().contains(key) ==> exists|k: int| 0 <= k < v.len() && v[k].0@ == key
    &&& forall|a: int, b: int| 0 <= a < b < v.len() ==> (#[trigger] v[a]).0@ != (#[trigger] v[b]).0@
}

/// Position of the entry of `v` whose key is `key`.
fn find_key(v: &Vec<(String, Vec<String>)>, key: &str) -> (r: Option<usize>)
    ensures
        r matches Some(i) ==> i < v@.len() && v@[i as int].0@ == key@,
        r is None ==> forall|q: int| 0 <= q < v@.len() ==> (#[trigger] v@[q]).0@ != key@,
{
    let mut i: usize = 0;
    while i < v.len()
        invariant
            i <= v@.len(),
            forall|q: int| 0 <= q < i ==> (#[trigger] v@[q]).0@ != key@,
        decreases v.len() - i,
    {
        if crate::text::str_eq(v[i].0.as_str(), key) {
            return Some(i);
        }
        i = i + 1;
    }
    None
}

/// Map each class declaring abstract methods to the names of those methods (a class
/// seen later under the same name replaces an earlier one).
pub fn collect_abstract_methods_by_class(t: &SyntaxTree, root: usize) -> (r: Vec<(String, Vec<String>)>)
    requires
        t.wf(),
        root < t.len(),
    ensures
        entries_agree(r@, abstract_map(*t, abstract_candidates(*t, root as int))),
        forall|k: int| 0 <= k < r@.len() ==> views((#[trigger] r@[k]).1@).no_duplicates(),
{
    let always: [&str; 1] = ["abstract_class_declaration"];
    let with_body: [&str; 2] = ["class_declaration", "class"];
    proof {
        assert(names(always@) =~= seq!["abstract_class_declaration"@]);
        assert(names(with_body@) =~= seq!["class_declaration"@, "class"@]);
    }
    let classes = find_classes(t, root, &always, &with_body);
    let mut out: Vec<(String, Vec<String>)> = Vec::new();
    let mut k: usize = 0;
    while k < classes.len()
        invariant
            t.wf(),
            classes@ == abstract_candidates(*t, root as int),
            forall|q: int| 0 <= q < classes@.len() ==> #[trigger] classes@[q] < t.len(),
            k <= classes@.len(),
            entries_agree(out@, abstract_map(*t, classes@.take(k as int))),
            forall|q: int| 0 <= q < out@.len() ==> views((#[trigger] out@[q]).1@).no_duplicates(),
        decreases classes.len() - k,
    {
        let c = classes[k];
        let ns = abstract_method_names(t, c);
        proof {
            assert(classes@.take(k + 1).drop_last() =~= classes@.take(k as int));
            views(ns@).unique_seq_to_set();
        }
        let ghost m0 = abstract_map(*t, classes@.take(k as int));
        if ns.len() > 0 {
            let name = class_name_of(t, c);
            let ghost key = name@;
            let ghost m1 = m0.insert(key, views(ns@).to_set());
            let pos = find_key(&out, name.as_str());
            let ghost before = out@;
            if let Some(i) = pos {
                out.set(i, (name, ns));
                proof {
                    assert forall|q: int| 0 <= q < out@.len() implies views((#[trigger] out@[q]).1@).no_duplicates() by {
                        if q != i {
                            assert(out@[q] == before[q]);
                        }
                    }
                    assert forall|kk: Seq<char>| #[trigger] m1.dom().contains(kk) implies exists|q: int| 0 <= q < out@.len() && out@[q].0@ == kk by {
                        if kk != key {
                            let q = choose|q: int| 0 <= q < before.len() && before[q].0@ == kk;
                            assert(out@[q] == before[q]);
                        } else {
                            assert(out@[i as int].0@ == kk);
                        }
                    }
                    assert forall|a: int, b: int| 0 <= a < b < out@.len() implies (#[trigger] out@[a]).0@ != (#[trigger] out@[b]).0@ by {
                        if a != i && b != i {
                            assert(out@[a] == before[a] && out@[b] == before[b]);
                        } else if a == i {
                            assert(out@[b] == before[b]);
                            assert(before[a].0@ == key);
                        } else {
                            assert(out@[a] == before[a]);
                            assert(before[b].0@ == key);
                        }
                    }
                    assert forall|q: int| 0 <= q < out@.len() implies m1.dom().contains((#[trigger] out@[q]).0@) && m1[out@[q].0@] == views(out@[q].1@).to_set() by {
                        if q != i {
                            assert(out@[q] == before[q]);
                            assert(before[q].0@ != before[i as int].0@);
                        }
                    }
                }
            } else {
                out.push((name, ns));
                proof {
                    assert forall|q: int| 0 <= q < out@.len() implies views((#[trigger] out@[q]).1@).no_duplicates() by {
                        if q < before.len() {
                            assert(out@[q] == before[q]);
                        }
                    }
                    assert forall|kk: Seq<char>| #[trigger] m1.dom().contains(kk) implies exists|q: int| 0 <= q < out@.len() && out@[q].0@ == kk by {
                        if kk != key {
                            let q = choose|q: int| 0 <= q < before.len() && before[q].0@ == kk;
                            assert(out@[q] == before[q]);
                        } else {
                            assert(out@[before.len() as int].0@ == kk);
                        }
                    }
                    assert forall|a: int, b: int| 0 <= a < b < out@.len() implies (#[trigger] out@[a]).0@ != (#[trigger] out@[b]).0@ by {
                        if b < before.len() {
                            assert(out@[a] == before[a] && out@[b] == before[b]);
                        } else {
                            assert(out@[a] == before[a]);
                        }
                    }
                    assert forall|q: int| 0 <= q < out@.len() implies m1.dom().contains((#[trigger] out@[q]).0@) && m1[out@[q].0@] == views(out@[q].1@).to_set() by {
                        if q < before.len() {
                            assert(out@[q] == before[q]);
                        }
                    }
                }
            }
            proof {
                assert(abstract_map(*t, classes@.take(k + 1)) == m1);
            }
        } else {
            proof {
                assert(abstract_map(*t, classes@.take(k + 1)) == m0);
            }
        }
        k = k + 1;
    }
    proof {
        assert(classes@.take(classes@.len() as int) =~= classes@);
    }
    out
}

} // verus!
