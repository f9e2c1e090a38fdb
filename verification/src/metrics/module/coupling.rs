//! Module coupling: the distinct import sources of a file (fan-out).
//!
//! Each top-level import statement contributes its module specifier (its last
//! string child, quotes stripped).  Sources starting with `./` or `../` are
//! relative, the others packages; a source is type-only when every import of it
//! is an `import type`.
use super::cohesion::{strip_quotes, strip_quotes_of, top_level};
use crate::strset::{insert_unique, sort_unique, sorted_strict, views};
use crate::syntax::SyntaxTree;
use crate::walk::{union_over, lemma_union_over_step};
use vstd::prelude::*;

verus! {

/// The last child from position `c` on whose kind is `k`.
pub open spec fn last_of_kind(t: SyntaxTree, c: int, e: int, k: Seq<char>) -> Option<usize>
    decreases e - c,
{
    if t.chain_ok(c, e) {
        match last_of_kind(t, t.end(c), e, k) {
            Some(x) => Some(x),
            None => if t.kind(c) == k { Some(c as usize) } else { None },
        }
    } else {
        None
    }
}

/// The module specifier of import statement `i`: its last string child, quotes stripped.
pub open spec fn specifier(t: SyntaxTree, i: int) -> Option<Seq<char>> {
    match last_of_kind(t, i + 1, t.end(i), "string"@) {
        Some(s) => Some(strip_quotes(t.text(s as int))),
        None => None,
    }
}

/// Import statement `i` is an `import type`: it has a `type` child.
pub open spec fn type_only(t: SyntaxTree, i: int) -> bool {
    t.first_child_of_kind(i, "type"@) is Some
}

/// The source import statement `i` contributes; with `values_only`, none when it is type-only.
pub open spec fn source_fn(t: SyntaxTree, values_only: bool) -> spec_fn(usize) -> Set<Seq<char>> {
    |i: usize|
        match specifier(t, i as int) {
            Some(s) => if values_only && type_only(t, i as int) { Set::empty() } else { set![s] },
            None => Set::empty(),
        }
}

/// The sources of the imports; with `values_only`, of those that are not type-only.
pub open spec fn import_sources_of(t: SyntaxTree, values_only: bool) -> Set<Seq<char>> {
    union_over(top_level(t, "import_statement"@), source_fn(t, values_only))
}

/// `s` starts with `./` or `../`.
pub open spec fn is_relative(s: Seq<char>) -> bool {
    "./"@.is_prefix_of(s) || "../"@.is_prefix_of(s)
}

/// Relative sources (`relative`) or package sources (not `relative`).
pub open spec fn rel_pred(relative: bool) -> spec_fn(Seq<char>) -> bool {
    |s: Seq<char>| if relative { is_relative(s) } else { !is_relative(s) }
}

/// Strings not in `set`.
pub open spec fn outside(set: Set<Seq<char>>) -> spec_fn(Seq<char>) -> bool {
    |s: Seq<char>| !set.contains(s)
}

/// Number of strings of `s` that satisfy `p`.
pub open spec fn count_strs(s: Seq<Seq<char>>, p: spec_fn(Seq<char>) -> bool) -> nat
    decreases s.len(),
{
    if s.len() == 0 {
        0
    } else {
        count_strs(s.drop_last(), p) + (if p(s.last()) { 1nat } else { 0nat })
    }
}

/// Coupling of one file.
#[derive(Debug, Clone, PartialEq, Eq)]
pub struct ModuleCoupling {
    /// File path being analyzed.
    pub file: String,
    /// Total fan-out: number of distinct import sources.
    pub fan_out: usize,
    /// Relative fan-out: distinct sources beginning with `./` or `../`.
    pub relative_fan_out: usize,
    /// Package fan-out: distinct non-relative sources.
    pub package_fan_out: usize,
    /// Type-only fan-out: distinct sources only ever imported with `import type`.
    pub type_only_fan_out: usize,
    /// All distinct import sources, in increasing order.
    pub import_sources: Vec<String>,
}

/// `r` is the coupling of the file `file` whose tree is `t`.
pub open spec fn coupling_of(t: SyntaxTree, file: Seq<char>, r: ModuleCoupling) -> bool {
    let srcs = views(r.import_sources@);
    let values = import_sources_of(t, true);
    &&& r.file@ == file
    &&& srcs.to_set() == import_sources_of(t, false)
    &&& sorted_strict(srcs)
    &&& srcs.no_duplicates()
    &&& r.fan_out == srcs.len()
    &&& r.relative_fan_out == count_strs(srcs, rel_pred(true))
    &&& r.package_fan_out == count_strs(srcs, rel_pred(false))
    &&& r.type_only_fan_out == count_strs(srcs, outside(values))
}

/// The module specifier of import statement `i`.
pub fn extract_import_source(t: &SyntaxTree, i: usize) -> (r: Option<String>)
    requires
        t.wf(),
        i < t.len(),
    ensures
        r matches Some(s) ==> specifier(*t, i as int) == Some(s@),
        r is None ==> specifier(*t, i as int) is None,
{
    let e = t.nodes[i].end;
    proof {
        assert(i < t.end(i as int) <= t.len());
    }
    let mut last: Option<usize> = None;
    let mut c = i + 1;
    while c < e
        invariant
            t.wf(),
            i < t.len(),
            e == t.end(i as int),
            i < c <= e <= t.len(),
            last matches Some(x) ==> x < t.len(),
            last_of_kind(*t, i + 1, e as int, "string"@) == match last_of_kind(*t, c as int, e as int, "string"@) {
                Some(x) => Some(x),
                None => last,
            },
        decreases e - c,
    {
        let next = t.nodes[c].end;
        proof {
            assert(c < t.end(c as int) <= e);
        }
        if t.is_kind(c, "string") {
            last = Some(c);
        }
        c = next;
    }
    match last {
        Some(s) => Some(strip_quotes_of(t.text_of(s))),
        None => None,
    }
}

/// `true` when import statement `i` is an `import type`.
pub fn is_type_only_import(t: &SyntaxTree, i: usize) -> (r: bool)
    requires
        t.wf(),
        i < t.len(),
    ensures
        r == type_only(*t, i as int),
{
    t.child_of_kind(i, "type").is_some()
}

fn count_relative(v: &Vec<String>, relative: bool) -> (r: usize)
    ensures
        r == count_strs(views(v@), rel_pred(relative)),
        r <= v@.len(),
{
    let ghost p = rel_pred(relative);
    let mut n: usize = 0;
    let mut i: usize = 0;
    while i < v.len()
        invariant
            i <= v@.len(),
            n <= i,
            p == rel_pred(relative),
            n == count_strs(views(v@).take(i as int), p),
        decreases v.len() - i,
    {
        proof {
            assert(views(v@).take(i + 1).drop_last() =~= views(v@).take(i as int));
        }
        let s = v[i].as_str();
        let rel = crate::text::starts_with(s, "./") || crate::text::starts_with(s, "../");
        if rel == relative {
            n = n + 1;
        }
        i = i + 1;
    }
    proof {
        assert(views(v@).take(v@.len() as int) =~= views(v@));
    }
    n
}

fn count_not_in(v: &Vec<String>, values: &Vec<String>) -> (r: usize)
    ensures
        r == count_strs(views(v@), outside(views(values@).to_set())),
        r <= v@.len(),
{
    let ghost p = outside(views(values@).to_set());
    let mut n: usize = 0;
    let mut i: usize = 0;
    while i < v.len()
        invariant
            i <= v@.len(),
            n <= i,
            p == outside(views(values@).to_set()),
            n == count_strs(views(v@).take(i as int), p),
        decreases v.len() - i,
    {
        proof {
            assert(views(v@).take(i + 1).drop_last() =~= views(v@).take(i as int));
        }
        if !crate::strset::contains_str(values, v[i].as_str()) {
            n = n + 1;
        }
        i = i + 1;
    }
    proof {
        assert(views(v@).take(v@.len() as int) =~= views(v@));
    }
    n
}

/// Compute the coupling of the file `file` whose tree is `t`.
pub fn compute_module_coupling(t: &SyntaxTree, file: &str) -> (r: ModuleCoupling)
    requires
        t.wf(),
    ensures
        coupling_of(*t, file@, r),
{
    let imports = crate::metrics::module::cohesion::top_level_of(t, "import_statement");
    let ghost fa = source_fn(*t, false);
    let ghost fv = source_fn(*t, true);
    let mut all: Vec<String> = Vec::new();
    let mut values: Vec<String> = Vec::new();
    proof {
        assert(views(all@).to_set() =~= Set::empty());
        assert(views(values@).to_set() =~= Set::empty());
    }
    let mut k: usize = 0;
    while k < imports.len()
        invariant
            t.wf(),
            imports@ == top_level(*t, "import_statement"@),
            forall|y: int| 0 <= y < imports@.len() ==> #[trigger] imports@[y] < t.len(),
            fa == source_fn(*t, false),
            fv == source_fn(*t, true),
            k <= imports@.len(),
            views(all@).to_set() == union_over(imports@.take(k as int), fa),
            views(values@).to_set() == union_over(imports@.take(k as int), fv),
        decreases imports.len() - k,
    {
        let i = imports[k];
        proof {
            lemma_union_over_step(imports@, k as int, fa);
            lemma_union_over_step(imports@, k as int, fv);
        }
        let ghost a0 = views(all@);
        let ghost v0 = views(values@);
        match extract_import_source(t, i) {
            Some(src) => {
                let type_only_import = is_type_only_import(t, i);
                insert_unique(&mut all, src.as_str());
                proof {
                    vstd::seq::Seq::<Seq<char>>::lemma_to_set_insert_commutes(a0, src@);
                    assert(a0 + seq![src@] =~= a0.push(src@));
                    assert(views(all@).to_set() =~= a0.to_set().union(set![src@]));
                }
                if !type_only_import {
                    insert_unique(&mut values, src.as_str());
                    proof {
                        vstd::seq::Seq::<Seq<char>>::lemma_to_set_insert_commutes(v0, src@);
                        assert(v0 + seq![src@] =~= v0.push(src@));
                        assert(views(values@).to_set() =~= v0.to_set().union(set![src@]));
                    }
                } else {
                    proof {
                        assert(views(values@).to_set() =~= v0.to_set().union(Set::empty()));
                    }
                }
            },
            None => {
                proof {
                    assert(views(all@).to_set() =~= a0.to_set().union(Set::empty()));
                    assert(views(values@).to_set() =~= v0.to_set().union(Set::empty()));
                }
            },
        }
        k = k + 1;
    }
    proof {
        assert(imports@.take(imports@.len() as int) =~= imports@);
    }
    let sources = sort_unique(&all);
    let relative_fan_out = count_relative(&sources, true);
    let package_fan_out = count_relative(&sources, false);
    let type_only_fan_out = count_not_in(&sources, &values);
    let r = ModuleCoupling {
        file: file.to_owned(),
        fan_out: sources.len(),
        relative_fan_out,
        package_fan_out,
        type_only_fan_out,
        import_sources: sources,
    };
    r
}

} // verus!
