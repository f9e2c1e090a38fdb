//! Depth of Inheritance Tree (DIT) of the classes declared in a file.
//!
//! A class without `extends` has DIT 0; a class that extends another has one more
//! than its parent, a parent not declared in the file counting 0.  Parent names
//! are the text of the `extends` clause up to any type arguments.  Depths
//! are computed with a cache of the names already resolved and a guard against
//! cycles: a name met again while its own depth is being computed counts 0.
use super::{classes_in, find_classes};
use crate::syntax::{names, SyntaxTree};
use crate::text::{before_char, str_eq, trimmed, trimmed_before};
use vstd::prelude::*;

verus! {

broadcast use vstd::set::group_set_axioms;

/// A class of the file: its name, its parent's name and its line.
pub type RawClass = (Seq<char>, Option<Seq<char>>, int);

/// Strip generic type arguments from a name, e.g. `Array<string>` gives `Array`.
pub open spec fn base_of(text: Seq<char>) -> Seq<char> {
    trimmed(before_char(text, '<'))
}

/// Strip generic type arguments from a name, e.g. `Array<string>` gives `Array`.
pub fn base_name(text: &str) -> (r: String)
    ensures
        r@ == base_of(text@),
{
    trimmed_before(text, '<')
}

/// The first child from position `c` on that is neither the `extends` keyword nor an extra node.
pub open spec fn first_real_child(t: SyntaxTree, c: int, e: int) -> Option<usize>
    decreases e - c,
{
    if t.chain_ok(c, e) {
        if t.kind(c) != "extends"@ && !t.nodes@[c].extra {
            Some(c as usize)
        } else {
            first_real_child(t, t.end(c), e)
        }
    } else {
        None
    }
}

/// The parent named by `extends` clause `x`: its `value` field, else its first real child.
pub open spec fn extends_target(t: SyntaxTree, x: int) -> Option<Seq<char>> {
    match t.child_by_field(x, "value"@) {
        Some(v) => Some(base_of(t.text(v as int))),
        None => match first_real_child(t, x + 1, t.end(x)) {
            Some(c) => Some(base_of(t.text(c as int))),
            None => None,
        },
    }
}

/// The parent from the children of a class from position `c` on: the first
/// `extends_clause`, directly or inside a `class_heritage`.
pub open spec fn extends_in_chain(t: SyntaxTree, c: int, e: int) -> Option<Seq<char>>
    decreases e - c,
{
    if t.chain_ok(c, e) {
        if t.kind(c) == "class_heritage"@ {
            match t.first_child_of_kind(c, "extends_clause"@) {
                Some(x) => extends_target(t, x as int),
                None => extends_in_chain(t, t.end(c), e),
            }
        } else if t.kind(c) == "extends_clause"@ {
            extends_target(t, c)
        } else {
            extends_in_chain(t, t.end(c), e)
        }
    } else {
        None
    }
}

/// The name of the parent class of class `c`, if it extends one.
pub open spec fn parent_name(t: SyntaxTree, c: int) -> Option<Seq<char>> {
    extends_in_chain(t, c + 1, t.end(c))
}

/// Classes looked at: declarations, abstract declarations and class expressions.
pub open spec fn dit_classes(t: SyntaxTree, root: int) -> Seq<usize> {
    classes_in(t, root, seq!["class_declaration"@, "abstract_class_declaration"@], seq!["class"@])
}

/// The named classes of `cs`, in order, with parent and line.
pub open spec fn raw_classes(t: SyntaxTree, cs: Seq<usize>) -> Seq<RawClass>
    decreases cs.len(),
{
    if cs.len() == 0 {
        seq![]
    } else {
        let c = cs.last() as int;
        raw_classes(t, cs.drop_last()) + match t.child_by_field(c, "name"@) {
            Some(n) => seq![(t.text(n as int), parent_name(t, c), t.row(c) + 1)],
            None => seq![],
        }
    }
}

/// What the file says of `name`: `Some(parent)` for the last class of that name.
pub open spec fn lookup(raw: Seq<RawClass>, name: Seq<char>) -> Option<Option<Seq<char>>>
    decreases raw.len(),
{
    if raw.len() == 0 {
        None
    } else if raw.last().0 == name {
        Some(raw.last().1)
    } else {
        lookup(raw.drop_last(), name)
    }
}

/// The names of the classes and of their parents.
pub open spec fn mentioned(raw: Seq<RawClass>) -> Seq<Seq<char>>
    decreases raw.len(),
{
    if raw.len() == 0 {
        seq![]
    } else {
        mentioned(raw.drop_last()) + seq![raw.last().0] + match raw.last().1 {
            Some(p) => seq![p],
            None => seq![],
        }
    }
}

/// The class names of `raw`.
pub open spec fn class_names(raw: Seq<RawClass>) -> Seq<Seq<char>> {
    raw.map_values(|e: RawClass| e.0)
}

/// The depth of `name` and the cache after computing it, given the cache and the
/// names whose depth is being computed.
pub open spec fn resolve(
    raw: Seq<RawClass>,
    name: Seq<char>,
    cache: Map<Seq<char>, nat>,
    visiting: Seq<Seq<char>>,
) -> (nat, Map<Seq<char>, nat>)
    decreases raw.len() - visiting.len(),
{
    if cache.dom().contains(name) {
        (cache[name], cache)
    } else if visiting.contains(name) {
        (0, cache)
    } else {
        match lookup(raw, name) {
            Some(Some(p)) => if visiting.len() < raw.len() {
                let (pd, c2) = resolve(raw, p, cache, visiting.push(name));
                (pd + 1, c2.insert(name, pd + 1))
            } else {
                (0, cache.insert(name, 0))
            },
            _ => (0, cache.insert(name, 0)),
        }
    }
}

/// The depths of the first `k` classes of `raw`, resolved in order with one cache.
pub open spec fn depths(raw: Seq<RawClass>, k: int) -> (Seq<nat>, Map<Seq<char>, nat>)
    decreases k,
{
    if k <= 0 {
        (seq![], Map::empty())
    } else {
        let (ds, cache) = depths(raw, k - 1);
        let (d, c2) = resolve(raw, raw[k - 1].0, cache, seq![]);
        (ds.push(d), c2)
    }
}

/// The inheritance depth of one class.
#[derive(Debug, Clone, PartialEq, Eq)]
pub struct ClassDit {
    /// Class name.
    pub name: String,
    /// DIT value: 0 for root classes, 1 for direct subclasses, etc.
    pub dit: usize,
    /// Line where the class is declared (1-based).
    pub line: usize,
}

/// The vector `v` holds the entries of the map `m`, each key once.
pub open spec fn cache_agrees(v: Seq<(String, usize)>, m: Map<Seq<char>, nat>) -> bool {
    &&& forall|k: int| 0 <= k < v.len() ==> m.dom().contains((#[trigger] v[k]).0@) && m[v[k].0@] == v[k].1
    &&& forall|key: Seq<char>| #[trigger] m.dom().contains(key) ==> exists|k: int| 0 <= k < v.len() && v[k].0@ == key
    &&& forall|a: int, b: int| 0 <= a < b < v.len() ==> (#[trigger] v[a]).0@ != (#[trigger] v[b]).0@
}

/// The spec view of the exec class list.
pub open spec fn raw_view(v: Seq<(String, Option<String>, usize)>) -> Seq<RawClass> {
    v.map_values(
        |e: (String, Option<String>, usize)|
            (
                e.0@,
                match e.1 {
                    Some(p) => Some(p@),
                    None => None,
                },
                e.2 as int,
            ),
    )
}

/// Cache keys are mentioned names and values are at most the number of keys.
pub open spec fn cache_ok(raw: Seq<RawClass>, m: Map<Seq<char>, nat>) -> bool {
    &&& m.dom().subset_of(mentioned(raw).to_set())
    &&& m.dom().finite()
    &&& forall|k: Seq<char>| #[trigger] m.dom().contains(k) ==> m[k] <= m.dom().len()
}

/// The names being resolved are distinct class names.
pub open spec fn visiting_ok(raw: Seq<RawClass>, visiting: Seq<Seq<char>>) -> bool {
    &&& visiting.no_duplicates()
    &&& forall|x: int| 0 <= x < visiting.len() ==> class_names(raw).contains(#[trigger] visiting[x])
}

proof fn lemma_lookup_some(raw: Seq<RawClass>, name: Seq<char>)
    requires
        lookup(raw, name) is Some,
    ensures
        class_names(raw).contains(name),
        lookup(raw, name) matches Some(Some(p)) ==> mentioned(raw).contains(p),
        mentioned(raw).contains(name),
    decreases raw.len(),
{
    if raw.last().0 == name {
        assert(class_names(raw)[raw.len() - 1] == name);
        let m0 = mentioned(raw.drop_last());
        assert(mentioned(raw)[m0.len() as int] == name);
        if let Some(p) = raw.last().1 {
            assert(mentioned(raw)[m0.len() as int + 1] == p);
        }
    } else {
        lemma_lookup_some(raw.drop_last(), name);
        let i = choose|i: int| 0 <= i < class_names(raw.drop_last()).len() && class_names(raw.drop_last())[i] == name;
        assert(class_names(raw)[i] == name);
        let m0 = mentioned(raw.drop_last());
        let j = choose|j: int| 0 <= j < m0.len() && m0[j] == name;
        assert(mentioned(raw)[j] == name);
        if let Some(Some(p)) = lookup(raw, name) {
            let q = choose|q: int| 0 <= q < m0.len() && m0[q] == p;
            assert(mentioned(raw)[q] == p);
        }
    }
}

proof fn lemma_mentioned_names(raw: Seq<RawClass>, k: int)
    requires
        0 <= k < raw.len(),
    ensures
        mentioned(raw).contains(raw[k].0),
    decreases raw.len(),
{
    let m0 = mentioned(raw.drop_last());
    if k == raw.len() - 1 {
        assert(mentioned(raw)[m0.len() as int] == raw[k].0);
    } else {
        lemma_mentioned_names(raw.drop_last(), k);
        let j = choose|j: int| 0 <= j < m0.len() && m0[j] == raw[k].0;
        assert(mentioned(raw)[j] == raw[k].0);
    }
}

proof fn lemma_mentioned_len(raw: Seq<RawClass>)
    ensures
        mentioned(raw).len() <= 2 * raw.len(),
        mentioned(raw).to_set().finite(),
        mentioned(raw).to_set().len() <= 2 * raw.len(),
    decreases raw.len(),
{
    if raw.len() > 0 {
        lemma_mentioned_len(raw.drop_last());
    }
    mentioned(raw).lemma_cardinality_of_set();
}

/// Visiting names are distinct class names, so there are at most as many as classes.
proof fn lemma_visiting_len(raw: Seq<RawClass>, visiting: Seq<Seq<char>>)
    requires
        visiting_ok(raw, visiting),
    ensures
        visiting.len() <= raw.len(),
{
    visiting.unique_seq_to_set();
    class_names(raw).lemma_cardinality_of_set();
    assert(visiting.to_set().subset_of(class_names(raw).to_set()));
    vstd::set_lib::lemma_len_subset(visiting.to_set(), class_names(raw).to_set());
}

/// What resolving keeps: the cache grows, stays well-formed, names being resolved
/// stay out of it, and the depth is at most the number of cached names.
proof fn lemma_resolve(raw: Seq<RawClass>, name: Seq<char>, cache: Map<Seq<char>, nat>, visiting: Seq<Seq<char>>)
    requires
        cache_ok(raw, cache),
        mentioned(raw).contains(name),
    ensures
        cache_ok(raw, resolve(raw, name, cache, visiting).1),
        cache.dom().subset_of(resolve(raw, name, cache, visiting).1.dom()),
        forall|k: Seq<char>| #[trigger] cache.dom().contains(k) ==> resolve(raw, name, cache, visiting).1[k] == cache[k],
        forall|x: int| 0 <= x < visiting.len() && !cache.dom().contains(#[trigger] visiting[x]) ==> !resolve(raw, name, cache, visiting).1.dom().contains(visiting[x]),
        resolve(raw, name, cache, visiting).0 <= resolve(raw, name, cache, visiting).1.dom().len(),
    decreases raw.len() - visiting.len(),
{
    if cache.dom().contains(name) {
    } else if visiting.contains(name) {
    } else {
        lemma_mentioned_len(raw);
        match lookup(raw, name) {
            Some(Some(p)) => {
                lemma_lookup_some(raw, name);
                if visiting.len() < raw.len() {
                    let v2 = visiting.push(name);
                    lemma_resolve(raw, p, cache, v2);
                    let (pd, c2) = resolve(raw, p, cache, v2);
                    assert(v2[visiting.len() as int] == name);
                    assert(!c2.dom().contains(name));
                    let c3 = c2.insert(name, pd + 1);
                    assert(c3.dom() == c2.dom().insert(name));
                    assert(c3.dom().len() == c2.dom().len() + 1);
                    vstd::set_lib::lemma_len_subset(c3.dom(), mentioned(raw).to_set());
                    assert forall|x: int| 0 <= x < visiting.len() && !cache.dom().contains(#[trigger] visiting[x]) implies !c3.dom().contains(visiting[x]) by {
                        assert(v2[x] == visiting[x]);
                        assert(visiting[x] != name);
                    }
                } else {
                    let c3 = cache.insert(name, 0);
                    assert(c3.dom() == cache.dom().insert(name));
                }
            },
            _ => {
                let c3 = cache.insert(name, 0);
                assert(c3.dom() == cache.dom().insert(name));
                assert(c3.dom().len() == cache.dom().len() + 1);
            },
        }
    }
}

/// Index of the entry of `cache` with key `key`.
fn find_cached(cache: &Vec<(String, usize)>, key: &str) -> (r: Option<usize>)
    ensures
        r matches Some(i) ==> i < cache@.len() && cache@[i as int].0@ == key@,
        r is None ==> forall|q: int| 0 <= q < cache@.len() ==> (#[trigger] cache@[q]).0@ != key@,
{
    let mut i: usize = 0;
    while i < cache.len()
        invariant
            i <= cache@.len(),
            forall|q: int| 0 <= q < i ==> (#[trigger] cache@[q]).0@ != key@,
        decreases cache.len() - i,
    {
        if str_eq(cache[i].0.as_str(), key) {
            return Some(i);
        }
        i = i + 1;
    }
    None
}

/// What the class list says of `name` (the last class of that name).
fn lookup_exec<'a>(raw: &'a Vec<(String, Option<String>, usize)>, name: &str) -> (r: Option<&'a Option<String>>)
    ensures
        r is Some <==> lookup(raw_view(raw@), name@) is Some,
        r matches Some(p) ==> lookup(raw_view(raw@), name@) == Some(match *p {
            Some(s) => Some(s@),
            None => None,
        }),
{
    let mut i = raw.len();
    proof {
        assert(raw_view(raw@).take(raw@.len() as int) =~= raw_view(raw@));
    }
    while i > 0
        invariant
            i <= raw@.len(),
            lookup(raw_view(raw@), name@) == lookup(raw_view(raw@).take(i as int), name@),
        decreases i,
    {
        proof {
            assert(raw_view(raw@).take(i as int).drop_last() =~= raw_view(raw@).take(i - 1));
        }
        if str_eq(raw[i - 1].0.as_str(), name) {
            return Some(&raw[i - 1].1);
        }
        i = i - 1;
    }
    None
}

/// Add `key` with `value` to a cache that does not hold `key`.
fn cache_insert(cache: &mut Vec<(String, usize)>, key: &str, value: usize, Ghost(m): Ghost<Map<Seq<char>, nat>>)
    requires
        cache_agrees(old(cache)@, m),
        !m.dom().contains(key@),
    ensures
        cache_agrees(final(cache)@, m.insert(key@, value as nat)),
{
    let ghost before = cache@;
    cache.push((key.to_owned(), value));
    proof {
        let m2 = m.insert(key@, value as nat);
        assert forall|k: int| 0 <= k < cache@.len() implies m2.dom().contains((#[trigger] cache@[k]).0@) && m2[cache@[k].0@] == cache@[k].1 by {
            if k < before.len() {
                assert(cache@[k] == before[k]);
            }
        }
        assert forall|kk: Seq<char>| #[trigger] m2.dom().contains(kk) implies exists|q: int| 0 <= q < cache@.len() && cache@[q].0@ == kk by {
            if kk != key@ {
                let q = choose|q: int| 0 <= q < before.len() && before[q].0@ == kk;
                assert(cache@[q] == before[q]);
            } else {
                assert(cache@[before.len() as int].0@ == kk);
            }
        }
        assert forall|a: int, b: int| 0 <= a < b < cache@.len() implies (#[trigger] cache@[a]).0@ != (#[trigger] cache@[b]).0@ by {
            if b < before.len() {
                assert(cache@[a] == before[a] && cache@[b] == before[b]);
            } else {
                assert(cache@[a] == before[a]);
            }
        }
    }
}

/// A cache without repeated names holds as many entries as its map has names.
proof fn lemma_cache_len(v: Seq<(String, usize)>, m: Map<Seq<char>, nat>)
    requires
        cache_agrees(v, m),
    ensures
        m.dom().finite(),
        m.dom().len() == v.len(),
{
    let keys = v.map_values(|e: (String, usize)| e.0@);
    assert forall|a: int, b: int| 0 <= a < b < keys.len() implies keys[a] != keys[b] by {
        assert(keys[a] == v[a].0@ && keys[b] == v[b].0@);
    }
    assert(keys.no_duplicates());
    keys.unique_seq_to_set();
    assert forall|key: Seq<char>| m.dom().contains(key) <==> keys.to_set().contains(key) by {
        if m.dom().contains(key) {
            let k = choose|k: int| 0 <= k < v.len() && v[k].0@ == key;
            assert(keys[k] == key);
        }
        if keys.to_set().contains(key) {
            let k = choose|k: int| 0 <= k < keys.len() && keys[k] == key;
            assert(m.dom().contains(v[k].0@));
        }
    }
    assert(m.dom() =~= keys.to_set());
}

/// Resolve the depth of `name`, memoising results and guarding against cycles; a name
/// that no class of the file declares has depth 0.
fn resolve_dit(
    raw: &Vec<(String, Option<String>, usize)>,
    name: &str,
    cache: &mut Vec<(String, usize)>,
    visiting: &mut Vec<String>,
    Ghost(m): Ghost<Map<Seq<char>, nat>>,
) -> (r: usize)
    requires
        cache_agrees(old(cache)@, m),
        cache_ok(raw_view(raw@), m),
        visiting_ok(raw_view(raw@), old(visiting)@.map_values(|s: String| s@)),
    ensures
        ({
            let (d, m2) = resolve(raw_view(raw@), name@, m, old(visiting)@.map_values(|s: String| s@));
            r == d && cache_agrees(final(cache)@, m2)
        }),
        final(visiting)@.map_values(|s: String| s@) == old(visiting)@.map_values(|s: String| s@),
    decreases raw@.len() - old(visiting)@.len(),
{
    let ghost rv = raw_view(raw@);
    let ghost vis = visiting@.map_values(|s: String| s@);
    proof {
        lemma_mentioned_len(rv);
        vstd::set_lib::lemma_len_subset(m.dom(), mentioned(rv).to_set());
        if mentioned(rv).contains(name@) {
            lemma_resolve(rv, name@, m, vis);
            vstd::set_lib::lemma_len_subset(resolve(rv, name@, m, vis).1.dom(), mentioned(rv).to_set());
        }
    }
    match find_cached(cache, name) {
        Some(i) => {
            proof {
                assert(m.dom().contains(name@));
            }
            return cache[i].1;
        },
        None => {
            proof {
                if m.dom().contains(name@) {
                    let q = choose|q: int| 0 <= q < cache@.len() && cache@[q].0@ == name@;
                }
            }
        },
    }
    let mut seen = false;
    let mut x: usize = 0;
    while x < visiting.len()
        invariant
            x <= visiting@.len(),
            vis == visiting@.map_values(|s: String| s@),
            seen == exists|q: int| 0 <= q < x && vis[q] == name@,
        decreases visiting.len() - x,
    {
        proof {
            assert(vis[x as int] == visiting@[x as int]@);
        }
        if str_eq(visiting[x].as_str(), name) {
            seen = true;
        }
        x = x + 1;
    }
    if seen {
        proof {
            assert(vis.contains(name@));
        }
        return 0;
    }
    proof {
        assert(!vis.contains(name@));
    }
    match lookup_exec(raw, name) {
        Some(Some(p)) => {
            proof {
                lemma_lookup_some(rv, name@);
                lemma_visiting_len(rv, vis);
                assert(vis.push(name@).no_duplicates());
                assert(visiting_ok(rv, vis.push(name@)));
                lemma_visiting_len(rv, vis.push(name@));
            }
            let ghost (pd_s, c2) = resolve(rv, p@, m, vis.push(name@));
            visiting.push(name.to_owned());
            proof {
                assert(visiting@.map_values(|s: String| s@) =~= vis.push(name@));
            }
            let pd = resolve_dit(raw, p.as_str(), cache, visiting, Ghost(m));
            let ghost after = visiting@;
            proof {
                assert(after.map_values(|s: String| s@) == vis.push(name@));
                assert(after.len() == vis.len() + 1);
            }
            visiting.pop();
            proof {
                assert(visiting@ =~= after.drop_last());
                assert forall|q: int| 0 <= q < vis.len() implies #[trigger] visiting@[q]@ == vis[q] by {
                    assert(visiting@[q] == after[q]);
                    assert(after.map_values(|s: String| s@)[q] == vis.push(name@)[q]);
                }
                assert(visiting@.map_values(|s: String| s@) =~= vis);
                lemma_resolve(rv, p@, m, vis.push(name@));
                assert(vis.push(name@)[vis.len() as int] == name@);
                vstd::set_lib::lemma_len_subset(c2.dom(), mentioned(rv).to_set());
            }
            // The new depth is one more than the parent's; the cache, a `Vec`, then holds
            // more names than that depth, so the addition cannot overflow.
            let d = if pd < usize::MAX { pd + 1 } else { pd };
            cache_insert(cache, name, d, Ghost(c2));
            proof {
                lemma_cache_len(cache@, c2.insert(name@, d as nat));
                assert(c2.insert(name@, d as nat).dom() =~= c2.dom().insert(name@));
                assert(cache.len() == cache@.len());
            }
            d
        },
        _ => {
            cache_insert(cache, name, 0, Ghost(m));
            0
        },
    }
}

/// The named classes beneath `root`, with the parent each extends and its line.
fn collect_raw_classes(t: &SyntaxTree, root: usize) -> (r: Vec<(String, Option<String>, usize)>)
    requires
        t.wf(),
        root < t.len(),
    ensures
        raw_view(r@) == raw_classes(*t, dit_classes(*t, root as int)),
        r@.len() <= t.len(),
{
    let always: [&str; 2] = ["class_declaration", "abstract_class_declaration"];
    let with_body: [&str; 1] = ["class"];
    proof {
        assert(names(always@) =~= seq!["class_declaration"@, "abstract_class_declaration"@]);
        assert(names(with_body@) =~= seq!["class"@]);
    }
    let classes = find_classes(t, root, &always, &with_body);
    let mut out: Vec<(String, Option<String>, usize)> = Vec::new();
    let mut k: usize = 0;
    while k < classes.len()
        invariant
            t.wf(),
            classes@ == dit_classes(*t, root as int),
            forall|q: int| 0 <= q < classes@.len() ==> #[trigger] classes@[q] < t.len(),
            k <= classes@.len(),
            out@.len() <= k,
            raw_view(out@) == raw_classes(*t, classes@.take(k as int)),
        decreases classes.len() - k,
    {
        let c = classes[k];
        proof {
            assert(classes@.take(k + 1).drop_last() =~= classes@.take(k as int));
        }
        match t.child_by_field_name(c, "name") {
            Some(n) => {
                let parent = find_extends_name(t, c);
                let line = t.line_of(c);
                out.push((t.text_of(n).to_owned(), parent, line));
                proof {
                    assert(raw_view(out@) =~= raw_classes(*t, classes@.take(k + 1)));
                }
            },
            None => {
                proof {
                    assert(raw_view(out@) =~= raw_classes(*t, classes@.take(k + 1)));
                }
            },
        }
        k = k + 1;
    }
    proof {
        assert(classes@.take(classes@.len() as int) =~= classes@);
        t.lemma_walk_len(root as int, 0, crate::walk::find_all(seq!["class_declaration"@, "abstract_class_declaration"@] + seq!["class"@]));
        crate::walk::lemma_count_where_le(
            t.walk_node(root as int, 0, crate::walk::find_all(seq!["class_declaration"@, "abstract_class_declaration"@] + seq!["class"@])),
            |j: usize| super::is_class_node(*t, j as int, seq!["class_declaration"@, "abstract_class_declaration"@], seq!["class"@]),
        );
        assert(root + t.end(root as int) - root <= t.len());
    }
    out
}

fn extends_target_of(t: &SyntaxTree, x: usize) -> (r: Option<String>)
    requires
        t.wf(),
        x < t.len(),
    ensures
        r matches Some(s) ==> extends_target(*t, x as int) == Some(s@),
        r is None ==> extends_target(*t, x as int) is None,
{
    match t.child_by_field_name(x, "value") {
        Some(v) => {
            return Some(base_name(t.text_of(v)));
        },
        None => {},
    }
    let e = t.nodes[x].end;
    proof {
        assert(x < t.end(x as int) <= t.len());
    }
    let mut c = x + 1;
    while c < e
        invariant
            t.wf(),
            x < t.len(),
            e == t.end(x as int),
            x < c <= e,
            t.child_by_field(x as int, "value"@) is None,
            first_real_child(*t, c as int, e as int) == first_real_child(*t, x + 1, e as int),
        decreases e - c,
    {
        let next = t.nodes[c].end;
        proof {
            assert(c < t.end(c as int) <= e);
        }
        if !t.is_kind(c, "extends") && !t.nodes[c].extra {
            proof {
                assert(first_real_child(*t, c as int, e as int) == Some(c));
            }
            return Some(base_name(t.text_of(c)));
        }
        c = next;
    }
    None
}

/// The parent name of class `c` from its `extends` clause, if any.
pub fn find_extends_name(t: &SyntaxTree, c: usize) -> (r: Option<String>)
    requires
        t.wf(),
        c < t.len(),
    ensures
        r matches Some(s) ==> parent_name(*t, c as int) == Some(s@),
        r is None ==> parent_name(*t, c as int) is None,
{
    let e = t.nodes[c].end;
    proof {
        assert(c < t.end(c as int) <= t.len());
    }
    let mut k = c + 1;
    while k < e
        invariant
            t.wf(),
            c < t.len(),
            e == t.end(c as int),
            c < k <= e,
            extends_in_chain(*t, k as int, e as int) == parent_name(*t, c as int),
        decreases e - k,
    {
        let next = t.nodes[k].end;
        proof {
            assert(k < t.end(k as int) <= e);
        }
        if t.is_kind(k, "class_heritage") {
            match t.child_of_kind(k, "extends_clause") {
                Some(x) => {
                    proof {
                        assert(x < t.end(k as int) <= t.len());
                    }
                    return extends_target_of(t, x);
                },
                None => {},
            }
        } else if t.is_kind(k, "extends_clause") {
            return extends_target_of(t, k);
        }
        k = next;
    }
    None
}

/// `r` holds the depth of every named class beneath `root`, in pre-order.
pub open spec fn dit_result(t: SyntaxTree, root: int, r: Seq<ClassDit>) -> bool {
    let raw = raw_classes(t, dit_classes(t, root));
    let ds = depths(raw, raw.len() as int).0;
    &&& r.len() == raw.len()
    &&& forall|k: int| 0 <= k < r.len() ==> {
        &&& (#[trigger] r[k]).name@ == raw[k].0
        &&& r[k].dit == ds[k]
        &&& r[k].line == raw[k].2
    }
}

proof fn lemma_depths_len(raw: Seq<RawClass>, k: int)
    requires
        0 <= k,
    ensures
        depths(raw, k).0.len() == k,
        forall|q: int| 0 <= q < k - 1 ==> #[trigger] depths(raw, k).0[q] == depths(raw, k - 1).0[q],
    decreases k,
{
    if k > 0 {
        lemma_depths_len(raw, k - 1);
    }
}

/// Compute the Depth of Inheritance Tree for every named class beneath `root`.
pub fn compute_dit(t: &SyntaxTree, root: usize) -> (r: Vec<ClassDit>)
    requires
        t.wf(),
        root < t.len(),
    ensures
        dit_result(*t, root as int, r@),
{
    let raw = collect_raw_classes(t, root);
    let ghost rv = raw_view(raw@);
    let mut cache: Vec<(String, usize)> = Vec::new();
    let mut visiting: Vec<String> = Vec::new();
    let mut out: Vec<ClassDit> = Vec::new();
    let ghost m: Map<Seq<char>, nat> = Map::empty();
    proof {
        assert(visiting@.map_values(|s: String| s@) =~= seq![]);
        lemma_mentioned_len(rv);
    }
    let mut k: usize = 0;
    while k < raw.len()
        invariant
            rv == raw_view(raw@),
            rv == raw_classes(*t, dit_classes(*t, root as int)),
            k <= raw@.len(),
            m == depths(rv, k as int).1,
            cache_agrees(cache@, m),
            cache_ok(rv, m),
            visiting@.map_values(|s: String| s@) == Seq::<Seq<char>>::empty(),
            out@.len() == k,
            forall|q: int| 0 <= q < k ==> {
                &&& (#[trigger] out@[q]).name@ == rv[q].0
                &&& out@[q].dit == depths(rv, k as int).0[q]
                &&& out@[q].line == rv[q].2
            },
        decreases raw.len() - k,
    {
        let name = raw[k].0.as_str();
        proof {
            lemma_depths_len(rv, k + 1);
            lemma_depths_len(rv, k as int);
            assert(rv[k as int].0 == name@);
            lemma_mentioned_names(rv, k as int);
            assert(visiting_ok(rv, visiting@.map_values(|s: String| s@)));
            lemma_resolve(rv, name@, m, seq![]);
        }
        let d = resolve_dit(&raw, name, &mut cache, &mut visiting, Ghost(m));
        proof {
            m = resolve(rv, name@, m, seq![]).1;
        }
        out.push(ClassDit { name: raw[k].0.clone(), dit: d, line: raw[k].2 });
        proof {
            let ds = depths(rv, k + 1).0;
            assert(ds[k as int] == d);
            assert forall|q: int| 0 <= q < k + 1 implies {
                &&& (#[trigger] out@[q]).name@ == rv[q].0
                &&& out@[q].dit == depths(rv, k + 1).0[q]
                &&& out@[q].line == rv[q].2
            } by {
                if q < k {
                    assert(depths(rv, k + 1).0[q] == depths(rv, k as int).0[q]);
                }
            }
        }
        k = k + 1;
    }
    proof {
        lemma_depths_len(rv, raw@.len() as int);
    }
    out
}

/// The keys of a list of pairs.
pub open spec fn keys_of(v: Seq<(String, Option<String>)>) -> Seq<Seq<char>> {
    v.map_values(|e: (String, Option<String>)| e.0@)
}

/// The parent of every named class beneath `root` (`None` without `extends`), each
/// class name once, with the parent of the last class of that name.
pub fn collect_parent_map(t: &SyntaxTree, root: usize) -> (r: Vec<(String, Option<String>)>)
    requires
        t.wf(),
        root < t.len(),
    ensures
        ({
            let raw = raw_classes(*t, dit_classes(*t, root as int));
            &&& forall|k: int| 0 <= k < r@.len() ==> lookup(raw, (#[trigger] r@[k]).0@) == Some(
                match r@[k].1 {
                    Some(p) => Some(p@),
                    None => None,
                },
            )
            &&& keys_of(r@).to_set() == class_names(raw).to_set()
            &&& keys_of(r@).no_duplicates()
        }),
{
    let raw = collect_raw_classes(t, root);
    let ghost rv = raw_view(raw@);
    let mut out: Vec<(String, Option<String>)> = Vec::new();
    proof {
        assert(keys_of(out@) =~= seq![]);
        assert(class_names(rv.take(0)) =~= seq![]);
    }
    let mut k: usize = 0;
    while k < raw.len()
        invariant
            rv == raw_view(raw@),
            rv == raw_classes(*t, dit_classes(*t, root as int)),
            k <= raw@.len(),
            forall|q: int| 0 <= q < out@.len() ==> lookup(rv, (#[trigger] out@[q]).0@) == Some(
                match out@[q].1 {
                    Some(p) => Some(p@),
                    None => None,
                },
            ),
            keys_of(out@).to_set() == class_names(rv.take(k as int)).to_set(),
            keys_of(out@).no_duplicates(),
        decreases raw.len() - k,
    {
        let name = raw[k].0.as_str();
        proof {
            assert(rv[k as int].0 == name@);
            assert(class_names(rv.take(k + 1)) =~= class_names(rv.take(k as int)).push(name@));
            vstd::seq::Seq::<Seq<char>>::lemma_to_set_insert_commutes(class_names(rv.take(k as int)), name@);
            assert(class_names(rv.take(k as int)) + seq![name@] =~= class_names(rv.take(k as int)).push(name@));
        }
        let mut present = false;
        let mut i: usize = 0;
        while i < out.len()
            invariant
                i <= out@.len(),
                present ==> keys_of(out@).contains(name@),
                !present ==> forall|q: int| 0 <= q < i ==> (#[trigger] out@[q]).0@ != name@,
            decreases out.len() - i,
        {
            if str_eq(out[i].0.as_str(), name) {
                proof {
                    assert(keys_of(out@)[i as int] == name@);
                }
                present = true;
            }
            i = i + 1;
        }
        let ghost before = out@;
        if !present {
            proof {
                lemma_lookup_has(rv, k as int);
            }
            match lookup_exec(&raw, name) {
                Some(p) => {
                    out.push((name.to_owned(), p.clone()));
                    proof {
                        assert(out@[before.len() as int].1 == *p);
                    }
                },
                None => {},
            }
            proof {
                assert(keys_of(out@) =~= keys_of(before).push(name@));
                vstd::seq::Seq::<Seq<char>>::lemma_to_set_insert_commutes(keys_of(before), name@);
                assert(keys_of(before) + seq![name@] =~= keys_of(before).push(name@));
                assert(!keys_of(before).contains(name@)) by {
                    if keys_of(before).contains(name@) {
                        let q = choose|q: int| 0 <= q < keys_of(before).len() && keys_of(before)[q] == name@;
                        assert(before[q].0@ == name@);
                    }
                }
                assert forall|q: int| 0 <= q < out@.len() implies lookup(rv, (#[trigger] out@[q]).0@) == Some(
                    match out@[q].1 {
                        Some(p) => Some(p@),
                        None => None,
                    },
                ) by {
                    if q < before.len() {
                        assert(out@[q] == before[q]);
                    }
                }
            }
        } else {
            proof {
                assert(keys_of(out@).to_set() =~= class_names(rv.take(k + 1)).to_set());
            }
        }
        k = k + 1;
    }
    proof {
        assert(rv.take(rv.len() as int) =~= rv);
    }
    out
}

proof fn lemma_lookup_has(raw: Seq<RawClass>, k: int)
    requires
        0 <= k < raw.len(),
    ensures
        lookup(raw, raw[k].0) is Some,
    decreases raw.len(),
{
    if raw.last().0 != raw[k].0 {
        lemma_lookup_has(raw.drop_last(), k);
    }
}


// ── inheritance depth laws ──────────────────────────────────────────────

/// The parent of `name` according to the last class of that name, if it has one.
pub open spec fn parent_of(raw: Seq<RawClass>, name: Seq<char>) -> Option<Seq<char>> {
    match lookup(raw, name) {
        Some(Some(p)) => Some(p),
        _ => None,
    }
}

/// The ancestor `k` steps above `name`, if the chain of parents is that long.
pub open spec fn ancestor(raw: Seq<RawClass>, name: Seq<char>, k: nat) -> Option<Seq<char>>
    decreases k,
{
    if k == 0 {
        Some(name)
    } else {
        match parent_of(raw, name) {
            Some(p) => ancestor(raw, p, (k - 1) as nat),
            None => None,
        }
    }
}

/// No class is its own ancestor.
pub open spec fn acyclic(raw: Seq<RawClass>) -> bool {
    forall|n: Seq<char>, k: nat| k >= 1 ==> #[trigger] ancestor(raw, n, k) != Some(n)
}

/// The number of parent steps from `name`, following at most `fuel` of them.
pub open spec fn chain_depth(raw: Seq<RawClass>, name: Seq<char>, fuel: nat) -> nat
    decreases fuel,
{
    if fuel == 0 {
        0
    } else {
        match parent_of(raw, name) {
            Some(p) => 1 + chain_depth(raw, p, (fuel - 1) as nat),
            None => 0,
        }
    }
}

/// The inheritance depth of `name`: the length of its chain of parents.
pub open spec fn inheritance_depth(raw: Seq<RawClass>, name: Seq<char>) -> nat {
    chain_depth(raw, name, (raw.len() + 1) as nat)
}

proof fn lemma_ancestor_compose(raw: Seq<RawClass>, n: Seq<char>, i: nat, j: nat)
    ensures
        ancestor(raw, n, i + j) == match ancestor(raw, n, i) {
            Some(m) => ancestor(raw, m, j),
            None => None,
        },
    decreases i,
{
    if i > 0 {
        if let Some(p) = parent_of(raw, n) {
            lemma_ancestor_compose(raw, p, (i - 1) as nat, j);
            assert((i + j - 1) as nat == ((i - 1) as nat + j) as nat);
        }
    }
}

/// In an acyclic file, the chain of parents above any name ends within as many steps as there are classes.
proof fn lemma_chain_ends(raw: Seq<RawClass>, n: Seq<char>)
    requires
        acyclic(raw),
    ensures
        ancestor(raw, n, (raw.len() + 1) as nat) is None,
{
    let len = (raw.len() + 1) as nat;
    if ancestor(raw, n, len) is Some {
        // every ancestor below step `len` exists and has a parent, so is a class name
        assert forall|i: nat| i < len implies #[trigger] ancestor(raw, n, i) is Some && parent_of(raw, ancestor(raw, n, i).unwrap()) is Some by {
            lemma_ancestor_compose(raw, n, i, (len - i) as nat);
            lemma_ancestor_compose(raw, n, i, 1);
            assert((i + (len - i) as nat) as nat == len);
            if ancestor(raw, n, i) is None {
                assert(false);
            }
            let m = ancestor(raw, n, i).unwrap();
            if parent_of(raw, m) is None {
                assert(ancestor(raw, m, (len - i) as nat) is None);
                assert(false);
            }
        }
        let s = Seq::new(len, |i: int| ancestor(raw, n, i as nat).unwrap());
        assert forall|a: int, b: int| 0 <= a < b < s.len() implies s[a] != s[b] by {
            lemma_ancestor_compose(raw, n, a as nat, (b - a) as nat);
            assert((a as nat + (b - a) as nat) as nat == b as nat);
            assert(ancestor(raw, n, a as nat) is Some);
            assert(ancestor(raw, n, b as nat) is Some);
            if s[a] == s[b] {
                assert(ancestor(raw, s[a], (b - a) as nat) == Some(s[a]));
            }
        }
        assert(s.no_duplicates());
        assert forall|x: int| 0 <= x < s.len() implies class_names(raw).contains(#[trigger] s[x]) by {
            assert(ancestor(raw, n, x as nat) is Some);
            assert(parent_of(raw, s[x]) is Some);
            lemma_lookup_some(raw, s[x]);
        }
        lemma_visiting_len(raw, s);
    }
}

/// Fuel beyond the end of the chain changes nothing.
proof fn lemma_chain_depth_stable(raw: Seq<RawClass>, n: Seq<char>, f: nat)
    requires
        ancestor(raw, n, f) is None,
    ensures
        chain_depth(raw, n, f) == chain_depth(raw, n, f + 1),
    decreases f,
{
    if f > 0 {
        if let Some(p) = parent_of(raw, n) {
            lemma_chain_depth_stable(raw, p, (f - 1) as nat);
            assert((f + 1 - 1) as nat == ((f - 1) as nat + 1) as nat);
        }
    }
}

/// Inheritance depth is one more than the parent's, 0 without a parent.
pub proof fn law_inheritance_depth_step(raw: Seq<RawClass>, n: Seq<char>)
    requires
        acyclic(raw),
    ensures
        inheritance_depth(raw, n) == match parent_of(raw, n) {
            Some(p) => inheritance_depth(raw, p) + 1,
            None => 0,
        },
{
    if let Some(p) = parent_of(raw, n) {
        lemma_chain_ends(raw, n);
        let r = raw.len() as nat;
        assert(ancestor(raw, n, (r + 1) as nat) == ancestor(raw, p, r));
        lemma_chain_depth_stable(raw, p, r);
        assert(((r + 1) as nat - 1) as nat == r);
    }
}

/// Cached depths are the inheritance depths.
pub open spec fn cache_true(raw: Seq<RawClass>, m: Map<Seq<char>, nat>) -> bool {
    forall|k: Seq<char>| #[trigger] m.dom().contains(k) ==> m[k] == inheritance_depth(raw, k)
}

/// The names being resolved are a chain of parents ending just below `name`.
pub open spec fn chain_to(raw: Seq<RawClass>, visiting: Seq<Seq<char>>, name: Seq<char>) -> bool {
    &&& forall|i: int| 0 <= i < visiting.len() - 1 ==> parent_of(raw, #[trigger] visiting[i]) == Some(visiting[i + 1])
    &&& visiting.len() > 0 ==> parent_of(raw, visiting.last()) == Some(name)
}

proof fn lemma_chain_ancestors(raw: Seq<RawClass>, visiting: Seq<Seq<char>>, name: Seq<char>, i: int)
    requires
        chain_to(raw, visiting, name),
        0 <= i < visiting.len(),
    ensures
        ancestor(raw, visiting[i], (visiting.len() - i) as nat) == Some(name),
    decreases visiting.len() - i,
{
    if i == visiting.len() - 1 {
        assert(ancestor(raw, name, 0) == Some(name));
    } else {
        lemma_chain_ancestors(raw, visiting, name, i + 1);
        assert(parent_of(raw, visiting[i]) == Some(visiting[i + 1]));
        assert(((visiting.len() - i) as nat - 1) as nat == (visiting.len() - (i + 1)) as nat);
    }
}

/// In an acyclic file, resolving a name gives its inheritance depth and keeps the cache true.
proof fn lemma_resolve_true(raw: Seq<RawClass>, name: Seq<char>, cache: Map<Seq<char>, nat>, visiting: Seq<Seq<char>>)
    requires
        acyclic(raw),
        cache_true(raw, cache),
        visiting_ok(raw, visiting),
        chain_to(raw, visiting, name),
    ensures
        resolve(raw, name, cache, visiting).0 == inheritance_depth(raw, name),
        cache_true(raw, resolve(raw, name, cache, visiting).1),
    decreases raw.len() - visiting.len(),
{
    if cache.dom().contains(name) {
    } else if visiting.contains(name) {
        let i = choose|i: int| 0 <= i < visiting.len() && visiting[i] == name;
        lemma_chain_ancestors(raw, visiting, name, i);
        assert(ancestor(raw, name, (visiting.len() - i) as nat) == Some(name));
        assert(false);
    } else {
        match lookup(raw, name) {
            Some(Some(p)) => {
                lemma_lookup_some(raw, name);
                let v2 = visiting.push(name);
                assert(visiting_ok(raw, v2)) by {
                    assert forall|x: int| 0 <= x < v2.len() implies class_names(raw).contains(#[trigger] v2[x]) by {
                        if x < visiting.len() {
                            assert(v2[x] == visiting[x]);
                        }
                    }
                }
                lemma_visiting_len(raw, v2);
                assert(chain_to(raw, v2, p)) by {
                    assert forall|i: int| 0 <= i < v2.len() - 1 implies parent_of(raw, #[trigger] v2[i]) == Some(v2[i + 1]) by {
                        if i < visiting.len() - 1 {
                            assert(v2[i] == visiting[i] && v2[i + 1] == visiting[i + 1]);
                        } else {
                            assert(v2[i] == visiting.last());
                        }
                    }
                }
                lemma_resolve_true(raw, p, cache, v2);
                law_inheritance_depth_step(raw, name);
            },
            _ => {
                assert(parent_of(raw, name) is None);
            },
        }
    }
}

proof fn lemma_depths_true(raw: Seq<RawClass>, k: int)
    requires
        acyclic(raw),
        0 <= k <= raw.len(),
    ensures
        cache_true(raw, depths(raw, k).1),
        depths(raw, k).0.len() == k,
        forall|i: int| 0 <= i < k ==> #[trigger] depths(raw, k).0[i] == inheritance_depth(raw, raw[i].0),
    decreases k,
{
    if k > 0 {
        lemma_depths_true(raw, k - 1);
        let (ds, cache) = depths(raw, k - 1);
        assert(visiting_ok(raw, seq![]));
        assert(chain_to(raw, seq![], raw[k - 1].0));
        lemma_resolve_true(raw, raw[k - 1].0, cache, seq![]);
        let d = resolve(raw, raw[k - 1].0, cache, seq![]).0;
        assert forall|i: int| 0 <= i < k implies #[trigger] depths(raw, k).0[i] == inheritance_depth(raw, raw[i].0) by {
            if i < k - 1 {
                assert(depths(raw, k).0[i] == ds[i]);
            }
        }
    }
}

/// In a file whose classes do not inherit from themselves, every reported DIT is
/// the inheritance depth of the class's name: one more than its parent's, 0 for a
/// class whose last declaration extends nothing, a parent not declared in the file
/// counting 0.
pub proof fn law_dit_is_inheritance_depth(t: SyntaxTree, root: int, r: Seq<ClassDit>, k: int)
    requires
        dit_result(t, root, r),
        acyclic(raw_classes(t, dit_classes(t, root))),
        0 <= k < r.len(),
    ensures
        r[k].dit == inheritance_depth(raw_classes(t, dit_classes(t, root)), r[k].name@),
        r[k].dit == match parent_of(raw_classes(t, dit_classes(t, root)), r[k].name@) {
            Some(p) => inheritance_depth(raw_classes(t, dit_classes(t, root)), p) + 1,
            None => 0,
        },
{
    let raw = raw_classes(t, dit_classes(t, root));
    lemma_depths_true(raw, raw.len() as int);
    law_inheritance_depth_step(raw, r[k].name@);
}

/// A class whose (last declared) parent is the class reported at `j` has that class's DIT plus one.
pub proof fn law_dit_one_more_than_parent(t: SyntaxTree, root: int, r: Seq<ClassDit>, k: int, j: int)
    requires
        dit_result(t, root, r),
        acyclic(raw_classes(t, dit_classes(t, root))),
        0 <= k < r.len(),
        0 <= j < r.len(),
        parent_of(raw_classes(t, dit_classes(t, root)), r[k].name@) == Some(r[j].name@),
    ensures
        r[k].dit == r[j].dit + 1,
{
    law_dit_is_inheritance_depth(t, root, r, k);
    law_dit_is_inheritance_depth(t, root, r, j);
}

} // verus!
