//! File-level metrics: every measurement of one source file.
pub mod function;
pub mod react;
pub mod module;
pub mod class;

use crate::parse::{parse_succeeds, parsed_from, ParseError};
use crate::strset::views;
use crate::syntax::{names, SyntaxTree};
use crate::text::{count_sloc_str, sloc_from};
use crate::walk::{count_where, find_all, lemma_count_where_step, WalkPlan};
use class::{base_metrics_of, extract_classes, metric_classes, ClassMetrics};
use function::maintainability::{inputs_measured, MaintainabilityInputs};
use function::{extract_functions, function_metrics_of, function_nodes, FunctionMetrics};
use module::cohesion::{cohesion_of, compute_module_cohesion, ModuleCohesion};
use vstd::prelude::*;

verus! {

/// Number of top-level import statements.
pub open spec fn spec_import_count(t: SyntaxTree) -> nat {
    count_where(t.children(0), |c: usize| t.kind(c as int) == "import_statement"@)
}

/// Count top-level import statements in a file.
pub fn count_imports(t: &SyntaxTree) -> (r: usize)
    requires
        t.wf(),
    ensures
        r == spec_import_count(*t),
{
    let kids = t.children_of(0);
    let ghost pred = |c: usize| t.kind(c as int) == "import_statement"@;
    let mut n: usize = 0;
    let mut x: usize = 0;
    proof {
        t.lemma_children_bounds(0);
    }
    while x < kids.len()
        invariant
            t.wf(),
            kids@ == t.children(0),
            forall|y: int| 0 <= y < kids@.len() ==> 0 < #[trigger] kids@[y] < t.len(),
            pred == (|c: usize| t.kind(c as int) == "import_statement"@),
            x <= kids@.len(),
            n <= x,
            n == count_where(kids@.take(x as int), pred),
        decreases kids.len() - x,
    {
        proof {
            lemma_count_where_step(kids@, x as int, pred);
        }
        if t.is_kind(kids[x], "import_statement") {
            n = n + 1;
        }
        x = x + 1;
    }
    proof {
        assert(kids@.take(kids@.len() as int) =~= kids@);
    }
    n
}

/// Count the class declarations anywhere in a file.
pub fn count_classes(t: &SyntaxTree) -> (r: usize)
    requires
        t.wf(),
    ensures
        r == t.walk_node(0, 0, find_all(seq!["class_declaration"@])).len(),
{
    let want: [&str; 1] = ["class_declaration"];
    let none: [&str; 0] = [];
    proof {
        assert(names(want@) =~= seq!["class_declaration"@]);
        assert(names(none@) =~= seq![]);
    }
    let plan = WalkPlan { want: &want, stop: &none, bump: &none, limit: usize::MAX, prune_wanted: false, stop_named_only: false, min_depth: 0 };
    t.walk(0, 0, &plan).len()
}

/// Position of the first `x` in `s` from `i` on.
pub open spec fn first_index_from(s: Seq<Seq<char>>, x: Seq<char>, i: int) -> Option<int>
    decreases s.len() - i,
{
    if i < 0 || i >= s.len() {
        None
    } else if s[i] == x {
        Some(i)
    } else {
        first_index_from(s, x, i + 1)
    }
}

/// Position of the first `x` in `s`.
pub open spec fn first_index(s: Seq<Seq<char>>, x: Seq<char>) -> Option<int> {
    first_index_from(s, x, 0)
}

/// Position of the first string of `v` equal to `x`.
pub fn find_first(v: &Vec<String>, x: &str) -> (r: Option<usize>)
    ensures
        r matches Some(i) ==> first_index(views(v@), x@) == Some(i as int) && i < v@.len(),
        r is None ==> first_index(views(v@), x@) is None,
{
    let mut i: usize = 0;
    while i < v.len()
        invariant
            i <= v@.len(),
            first_index_from(views(v@), x@, i as int) == first_index(views(v@), x@),
        decreases v.len() - i,
    {
        if crate::text::str_eq(v[i].as_str(), x) {
            return Some(i);
        }
        i = i + 1;
    }
    None
}

/// The class names of class nodes `cs`.
pub open spec fn names_of_classes(t: SyntaxTree, cs: Seq<usize>) -> Seq<Seq<char>> {
    cs.map_values(|c: usize| class::class_name(t, c as int))
}

/// Metrics of one file (integer measurements; ratios, volumes and indices are
/// derived from them).
#[derive(Debug, Clone, PartialEq, Eq)]
pub struct FileMetrics {
    pub path: String,
    /// Lines of the file (one past the last row).
    pub total_loc: usize,
    /// Significant source lines of the file.
    pub total_sloc: usize,
    pub function_count: usize,
    pub class_count: usize,
    pub import_count: usize,
    pub functions: Vec<FunctionMetrics>,
    pub classes: Vec<ClassMetrics>,
    /// Maintainability inputs of the named functions, the file read as TypeScript
    /// (technical debt is computed from them).
    pub debt_inputs: Vec<MaintainabilityInputs>,
    pub cohesion: ModuleCohesion,
    /// Distinct import sources.
    pub module_fan_out: usize,
    /// Functions analysed for purity.
    pub purity_total: usize,
    /// Functions found pure.
    pub purity_pure: usize,
    /// The file is a `.tsx` file.
    pub is_tsx: bool,
}

/// `m` is class `c`'s row of the file metrics: the base measurements, then each
/// other metric taken from the first class of the same name that it measured.
pub open spec fn class_row_of(t: SyntaxTree, c: int, file: Seq<char>, m: ClassMetrics) -> bool {
    let name = class::class_name(t, c);
    let raw = class::dit::raw_classes(t, class::dit::dit_classes(t, 0));
    let dnames = class::dit::class_names(raw);
    let noms = class::nom::nom_classes(t, 0);
    let tccs = class::tcc::tcc_classes(t, 0);
    let cbos = class::cbo::cbo_classes(t, 0);
    let rfcs = class::rfc::rfc_classes(t, 0);
    let wocs = class::woc::woc_classes(t, 0);
    &&& m.name@ == name
    &&& m.file@ == file
    &&& m.line == t.row(c) + 1
    &&& m.method_count == class::wmc::wmc_methods(t, c).len()
    &&& m.wmc == class::wmc::spec_wmc(t, c)
    &&& m.noi == class::noi::spec_noi(t, c)
    &&& m.dit == match first_index(dnames, name) {
        Some(k) => class::dit::depths(raw, raw.len() as int).0[k],
        None => 0,
    }
    &&& match first_index(names_of_classes(t, noms), name) {
        Some(k) => m.nom == class::nom::spec_nom(t, noms[k] as int) && m.noom == class::nom::spec_noom(t, noms[k] as int)
            && m.noam + m.noom == m.nom,
        None => m.nom == 0 && m.noom == 0 && m.noam == 0,
    }
    &&& match first_index(names_of_classes(t, tccs), name) {
        Some(k) => {
            let n = class::tcc::class_methods(t, tccs[k] as int).len();
            m.tcc_total_pairs == n * (n - 1) / 2 && m.tcc_connected_pairs == crate::strset::linked_from(
                class::tcc::method_field_sets(t, tccs[k] as int),
                0,
            )
        },
        None => m.tcc_total_pairs == 0 && m.tcc_connected_pairs == 0,
    }
    &&& m.cbo == match first_index(names_of_classes(t, cbos), name) {
        Some(k) => class::cbo::coupled_set(t, cbos[k] as int).len(),
        None => 0,
    }
    &&& m.rfc == match first_index(names_of_classes(t, rfcs), name) {
        Some(k) => count_where(class::nom::members(t, rfcs[k] as int), class::rfc::is_method_def(t)) + class::rfc::response_set(
            t,
            rfcs[k] as int,
        ).len(),
        None => 0,
    }
    &&& match first_index(names_of_classes(t, wocs), name) {
        Some(k) => m.woc_public_attributes == count_where(class::nom::members(t, wocs[k] as int), class::woc::public_field(t))
            && m.woc_public_methods == count_where(class::nom::members(t, wocs[k] as int), class::woc::public_method(t)),
        None => m.woc_public_attributes == 0 && m.woc_public_methods == 0,
    }
}

/// `m` holds every measurement of the file `path` whose tree is `t`; `debt_ok` says
/// that the maintainability inputs were taken from a TypeScript reading of the source.
pub open spec fn file_metrics_of(t: SyntaxTree, path: Seq<char>, m: FileMetrics) -> bool {
    let fs = function_nodes(t, 0);
    let cs = metric_classes(t, 0);
    &&& m.path@ == path
    &&& m.total_loc == t.nodes@[0].end_row + 1
    &&& m.total_sloc == sloc_from(t.source@, 0)
    &&& m.functions@.len() == fs.len()
    &&& forall|k: int| 0 <= k < fs.len() ==> function_metrics_of(t, #[trigger] fs[k] as int, path, m.functions@[k])
    &&& m.function_count == fs.len()
    &&& m.classes@.len() == cs.len()
    &&& forall|k: int| 0 <= k < cs.len() ==> class_row_of(t, #[trigger] cs[k] as int, path, m.classes@[k])
    &&& m.class_count == t.walk_node(0, 0, find_all(seq!["class_declaration"@])).len()
    &&& m.import_count == spec_import_count(t)
    &&& cohesion_of(t, m.cohesion)
    &&& m.module_fan_out == module::coupling::import_sources_of(t, false).len()
    &&& m.purity_total == module::purity::purity_functions(t, 0).len()
    &&& (exists|r: module::purity::ModulePurityResult| module::purity::module_purity_of(t, 0, path, r) && r.pure_functions == m.purity_pure)
    &&& m.is_tsx == (path.len() >= 4 && path.subrange(path.len() - 4, path.len() as int) == ".tsx"@)
    &&& (exists|d: SyntaxTree| d.wf() && d.source@ == t.source@ && inputs_measured(d, m.debt_inputs@))
}


/// The class names of the nom results.
fn nom_names(t: &SyntaxTree, rs: &Vec<class::nom::ClassNom>) -> (r: Vec<String>)
    requires
        t.wf(),
        rs@.len() == class::nom::nom_classes(*t, 0).len(),
        forall|k: int| 0 <= k < rs@.len() ==> class::nom::nom_of(*t, #[trigger] class::nom::nom_classes(*t, 0)[k] as int, rs@[k]),
    ensures
        views(r@) == names_of_classes(*t, class::nom::nom_classes(*t, 0)),
{
    let ghost cs = class::nom::nom_classes(*t, 0);
    let mut out: Vec<String> = Vec::new();
    let mut k: usize = 0;
    while k < rs.len()
        invariant
            rs@.len() == cs.len(),
            cs == class::nom::nom_classes(*t, 0),
            forall|q: int| 0 <= q < rs@.len() ==> class::nom::nom_of(*t, #[trigger] cs[q] as int, rs@[q]),
            k <= rs@.len(),
            out@.len() == k,
            views(out@) == names_of_classes(*t, cs).take(k as int),
        decreases rs.len() - k,
    {
        out.push(rs[k].class_name.clone());
        proof {
            let c = cs[k as int];
            assert(out@.len() == k + 1);
            assert(out@[k as int] == rs@[k as int].class_name);
            assert(class::nom::nom_of(*t, c as int, rs@[k as int]));
            assert(out@[k as int]@ == class::class_name(*t, c as int));
            assert(names_of_classes(*t, cs)[k as int] == class::class_name(*t, c as int));
            assert(views(out@) =~= names_of_classes(*t, cs).take(k + 1));
        }
        k = k + 1;
    }
    proof {
        assert(names_of_classes(*t, cs).take(cs.len() as int) =~= names_of_classes(*t, cs));
    }
    out
}

/// The class names of the tcc results.
fn tcc_names(t: &SyntaxTree, rs: &Vec<class::tcc::ClassTcc>) -> (r: Vec<String>)
    requires
        t.wf(),
        rs@.len() == class::tcc::tcc_classes(*t, 0).len(),
        forall|k: int| 0 <= k < rs@.len() ==> class::tcc::tcc_of(*t, #[trigger] class::tcc::tcc_classes(*t, 0)[k] as int, rs@[k]),
    ensures
        views(r@) == names_of_classes(*t, class::tcc::tcc_classes(*t, 0)),
{
    let ghost cs = class::tcc::tcc_classes(*t, 0);
    let mut out: Vec<String> = Vec::new();
    let mut k: usize = 0;
    while k < rs.len()
        invariant
            rs@.len() == cs.len(),
            cs == class::tcc::tcc_classes(*t, 0),
            forall|q: int| 0 <= q < rs@.len() ==> class::tcc::tcc_of(*t, #[trigger] cs[q] as int, rs@[q]),
            k <= rs@.len(),
            out@.len() == k,
            views(out@) == names_of_classes(*t, cs).take(k as int),
        decreases rs.len() - k,
    {
        out.push(rs[k].class_name.clone());
        proof {
            let c = cs[k as int];
            assert(out@[k as int]@ == class::class_name(*t, c as int));
            assert(names_of_classes(*t, cs)[k as int] == class::class_name(*t, c as int));
            assert(views(out@) =~= names_of_classes(*t, cs).take(k + 1));
        }
        k = k + 1;
    }
    proof {
        assert(names_of_classes(*t, cs).take(cs.len() as int) =~= names_of_classes(*t, cs));
    }
    out
}

/// The class names of the cbo results.
fn cbo_names(t: &SyntaxTree, rs: &Vec<class::cbo::ClassCbo>) -> (r: Vec<String>)
    requires
        t.wf(),
        rs@.len() == class::cbo::cbo_classes(*t, 0).len(),
        forall|k: int| 0 <= k < rs@.len() ==> class::cbo::cbo_of(*t, #[trigger] class::cbo::cbo_classes(*t, 0)[k] as int, rs@[k]),
    ensures
        views(r@) == names_of_classes(*t, class::cbo::cbo_classes(*t, 0)),
{
    let ghost cs = class::cbo::cbo_classes(*t, 0);
    let mut out: Vec<String> = Vec::new();
    let mut k: usize = 0;
    while k < rs.len()
        invariant
            rs@.len() == cs.len(),
            cs == class::cbo::cbo_classes(*t, 0),
            forall|q: int| 0 <= q < rs@.len() ==> class::cbo::cbo_of(*t, #[trigger] cs[q] as int, rs@[q]),
            k <= rs@.len(),
            out@.len() == k,
            views(out@) == names_of_classes(*t, cs).take(k as int),
        decreases rs.len() - k,
    {
        out.push(rs[k].class_name.clone());
        proof {
            let c = cs[k as int];
            assert(out@[k as int]@ == class::class_name(*t, c as int));
            assert(names_of_classes(*t, cs)[k as int] == class::class_name(*t, c as int));
            assert(views(out@) =~= names_of_classes(*t, cs).take(k + 1));
        }
        k = k + 1;
    }
    proof {
        assert(names_of_classes(*t, cs).take(cs.len() as int) =~= names_of_classes(*t, cs));
    }
    out
}

/// The class names of the rfc results.
fn rfc_names(t: &SyntaxTree, rs: &Vec<class::rfc::ClassRfc>) -> (r: Vec<String>)
    requires
        t.wf(),
        rs@.len() == class::rfc::rfc_classes(*t, 0).len(),
        forall|k: int| 0 <= k < rs@.len() ==> class::rfc::rfc_of(*t, #[trigger] class::rfc::rfc_classes(*t, 0)[k] as int, rs@[k]),
    ensures
        views(r@) == names_of_classes(*t, class::rfc::rfc_classes(*t, 0)),
{
    let ghost cs = class::rfc::rfc_classes(*t, 0);
    let mut out: Vec<String> = Vec::new();
    let mut k: usize = 0;
    while k < rs.len()
        invariant
            rs@.len() == cs.len(),
            cs == class::rfc::rfc_classes(*t, 0),
            forall|q: int| 0 <= q < rs@.len() ==> class::rfc::rfc_of(*t, #[trigger] cs[q] as int, rs@[q]),
            k <= rs@.len(),
            out@.len() == k,
            views(out@) == names_of_classes(*t, cs).take(k as int),
        decreases rs.len() - k,
    {
        out.push(rs[k].class_name.clone());
        proof {
            let c = cs[k as int];
            assert(out@[k as int]@ == class::class_name(*t, c as int));
            assert(names_of_classes(*t, cs)[k as int] == class::class_name(*t, c as int));
            assert(views(out@) =~= names_of_classes(*t, cs).take(k + 1));
        }
        k = k + 1;
    }
    proof {
        assert(names_of_classes(*t, cs).take(cs.len() as int) =~= names_of_classes(*t, cs));
    }
    out
}

/// The class names of the woc results.
fn woc_names(t: &SyntaxTree, rs: &Vec<class::woc::ClassWoc>) -> (r: Vec<String>)
    requires
        t.wf(),
        rs@.len() == class::woc::woc_classes(*t, 0).len(),
        forall|k: int| 0 <= k < rs@.len() ==> class::woc::woc_of(*t, #[trigger] class::woc::woc_classes(*t, 0)[k] as int, rs@[k]),
    ensures
        views(r@) == names_of_classes(*t, class::woc::woc_classes(*t, 0)),
{
    let ghost cs = class::woc::woc_classes(*t, 0);
    let mut out: Vec<String> = Vec::new();
    let mut k: usize = 0;
    while k < rs.len()
        invariant
            rs@.len() == cs.len(),
            cs == class::woc::woc_classes(*t, 0),
            forall|q: int| 0 <= q < rs@.len() ==> class::woc::woc_of(*t, #[trigger] cs[q] as int, rs@[q]),
            k <= rs@.len(),
            out@.len() == k,
            views(out@) == names_of_classes(*t, cs).take(k as int),
        decreases rs.len() - k,
    {
        out.push(rs[k].class_name.clone());
        proof {
            let c = cs[k as int];
            assert(out@[k as int]@ == class::class_name(*t, c as int));
            assert(names_of_classes(*t, cs)[k as int] == class::class_name(*t, c as int));
            assert(views(out@) =~= names_of_classes(*t, cs).take(k + 1));
        }
        k = k + 1;
    }
    proof {
        assert(names_of_classes(*t, cs).take(cs.len() as int) =~= names_of_classes(*t, cs));
    }
    out
}

/// The class names of the DIT results.
fn dit_names(t: &SyntaxTree, rs: &Vec<class::dit::ClassDit>) -> (r: Vec<String>)
    requires
        class::dit::dit_result(*t, 0, rs@),
    ensures
        views(r@) == class::dit::class_names(class::dit::raw_classes(*t, class::dit::dit_classes(*t, 0))),
{
    let ghost raw = class::dit::raw_classes(*t, class::dit::dit_classes(*t, 0));
    let mut out: Vec<String> = Vec::new();
    let mut k: usize = 0;
    while k < rs.len()
        invariant
            raw == class::dit::raw_classes(*t, class::dit::dit_classes(*t, 0)),
            class::dit::dit_result(*t, 0, rs@),
            k <= rs@.len(),
            out@.len() == k,
            views(out@) == class::dit::class_names(raw).take(k as int),
        decreases rs.len() - k,
    {
        out.push(rs[k].name.clone());
        proof {
            assert(out@[k as int]@ == raw[k as int].0);
            assert(views(out@) =~= class::dit::class_names(raw).take(k + 1));
        }
        k = k + 1;
    }
    proof {
        assert(class::dit::class_names(raw).take(raw.len() as int) =~= class::dit::class_names(raw));
    }
    out
}
/// The pair counts of the file fit in a `usize`: the method pairs of every class that
/// TCC measures, and the pairs of the module's exports.
pub open spec fn file_pairs_fit(t: SyntaxTree) -> bool {
    class::tcc::tcc_pairs_fit(t, 0) && crate::strset::pairs_fit(module::cohesion::module_exports(t).len() as int)
}

/// `true` when the pair counts of the file fit in a `usize` (see [`file_pairs_fit`]).
pub fn file_pairs_fit_exec(t: &SyntaxTree) -> (r: bool)
    requires
        t.wf(),
    ensures
        r == file_pairs_fit(*t),
{
    class::tcc::tcc_pairs_fit_exec(t, 0) && crate::strset::pairs_fit_exec(module::cohesion::count_module_exports(t))
}

/// Compute all metrics of the file `path` whose tree is `t`, taking the
/// maintainability inputs behind technical debt from `d`, a TypeScript reading of
/// the same source.
#[verifier::rlimit(60)]
pub fn file_metrics_with(t: &SyntaxTree, d: &SyntaxTree, path: &str) -> (m: FileMetrics)
    requires
        t.wf(),
        d.wf(),
        d.source@ == t.source@,
        file_pairs_fit(*t),
    ensures
        file_metrics_of(*t, path@, m),
        inputs_measured(*d, m.debt_inputs@),
{
    let debt_inputs = function::maintainability::compute_in_tree(d);
    let functions = extract_functions(t, 0, path);
    let base = extract_classes(t, 0, path);
    let dits = class::dit::compute_dit(t, 0);
    let noms = class::nom::compute_class_nom(t, 0);
    let tccs = class::tcc::compute_class_tcc(t, 0);
    let cbos = class::cbo::compute_class_cbo(t, 0);
    let rfcs = class::rfc::compute_class_rfc(t, 0);
    let wocs = class::woc::compute_class_woc(t, 0);
    let dn = dit_names(t, &dits);
    let nn = nom_names(t, &noms);
    let tn = tcc_names(t, &tccs);
    let cn = cbo_names(t, &cbos);
    let rn = rfc_names(t, &rfcs);
    let wn = woc_names(t, &wocs);
    let mut rows: Vec<ClassMetrics> = Vec::new();
    let mut k: usize = 0;
    while k < base.len()
        invariant
            t.wf(),
            base@.len() == metric_classes(*t, 0).len(),
            forall|q: int| 0 <= q < base@.len() ==> base_metrics_of(*t, #[trigger] metric_classes(*t, 0)[q] as int, path@, base@[q]),
            class::dit::dit_result(*t, 0, dits@),
            noms@.len() == class::nom::nom_classes(*t, 0).len(),
            forall|q: int| 0 <= q < noms@.len() ==> class::nom::nom_of(*t, #[trigger] class::nom::nom_classes(*t, 0)[q] as int, noms@[q]),
            tccs@.len() == class::tcc::tcc_classes(*t, 0).len(),
            forall|q: int| 0 <= q < tccs@.len() ==> class::tcc::tcc_of(*t, #[trigger] class::tcc::tcc_classes(*t, 0)[q] as int, tccs@[q]),
            cbos@.len() == class::cbo::cbo_classes(*t, 0).len(),
            forall|q: int| 0 <= q < cbos@.len() ==> class::cbo::cbo_of(*t, #[trigger] class::cbo::cbo_classes(*t, 0)[q] as int, cbos@[q]),
            rfcs@.len() == class::rfc::rfc_classes(*t, 0).len(),
            forall|q: int| 0 <= q < rfcs@.len() ==> class::rfc::rfc_of(*t, #[trigger] class::rfc::rfc_classes(*t, 0)[q] as int, rfcs@[q]),
            wocs@.len() == class::woc::woc_classes(*t, 0).len(),
            forall|q: int| 0 <= q < wocs@.len() ==> class::woc::woc_of(*t, #[trigger] class::woc::woc_classes(*t, 0)[q] as int, wocs@[q]),
            views(dn@) == class::dit::class_names(class::dit::raw_classes(*t, class::dit::dit_classes(*t, 0))),
            views(nn@) == names_of_classes(*t, class::nom::nom_classes(*t, 0)),
            views(tn@) == names_of_classes(*t, class::tcc::tcc_classes(*t, 0)),
            views(cn@) == names_of_classes(*t, class::cbo::cbo_classes(*t, 0)),
            views(rn@) == names_of_classes(*t, class::rfc::rfc_classes(*t, 0)),
            views(wn@) == names_of_classes(*t, class::woc::woc_classes(*t, 0)),
            k <= base@.len(),
            rows@.len() == k,
            forall|q: int| 0 <= q < k ==> class_row_of(*t, #[trigger] metric_classes(*t, 0)[q] as int, path@, rows@[q]),
        decreases base.len() - k,
    {
        let b = &base[k];
        let name = b.name.as_str();
        let ghost c = metric_classes(*t, 0)[k as int];
        let dit = match find_first(&dn, name) {
            Some(i) => dits[i].dit,
            None => 0,
        };
        let (nom, noam, noom) = match find_first(&nn, name) {
            Some(i) => (noms[i].nom, noms[i].noam, noms[i].noom),
            None => (0, 0, 0),
        };
        let (tcc_connected_pairs, tcc_total_pairs) = match find_first(&tn, name) {
            Some(i) => (tccs[i].connected_pairs, tccs[i].total_pairs),
            None => (0, 0),
        };
        let cbo = match find_first(&cn, name) {
            Some(i) => cbos[i].cbo,
            None => 0,
        };
        let rfc = match find_first(&rn, name) {
            Some(i) => rfcs[i].rfc,
            None => 0,
        };
        let (woc_public_attributes, woc_public_methods) = match find_first(&wn, name) {
            Some(i) => (wocs[i].public_attributes, wocs[i].public_methods),
            None => (0, 0),
        };
        let row = ClassMetrics {
            name: b.name.clone(),
            file: b.file.clone(),
            line: b.line,
            method_count: b.method_count,
            wmc: b.wmc,
            noi: b.noi,
            dit,
            nom,
            noam,
            noom,
            tcc_connected_pairs,
            tcc_total_pairs,
            cbo,
            rfc,
            woc_public_attributes,
            woc_public_methods,
        };
        proof {
            assert(base_metrics_of(*t, c as int, path@, base@[k as int]));
            assert(class_row_of(*t, c as int, path@, row));
        }
        rows.push(row);
        k = k + 1;
    }
    let cohesion = compute_module_cohesion(t);
    let coupling = module::coupling::compute_module_coupling(t, path);
    let purity = module::purity::compute_module_purity(t, 0, path);
    proof {
        views(coupling.import_sources@).unique_seq_to_set();
        assert(t.nodes@[0].start_row <= t.nodes@[0].end_row < usize::MAX);
    }
    let m = FileMetrics {
        path: path.to_owned(),
        total_loc: t.end_row_of(0) + 1,
        total_sloc: count_sloc_str(t.source_text()),
        function_count: functions.len(),
        class_count: count_classes(t),
        import_count: count_imports(t),
        functions,
        classes: rows,
        debt_inputs,
        cohesion,
        module_fan_out: coupling.fan_out,
        purity_total: purity.total_functions,
        purity_pure: purity.pure_functions,
        is_tsx: crate::parse::is_tsx_path(path),
    };
    m
}

/// Compute all metrics of the file `path` whose tree is `t`.  The maintainability
/// inputs behind technical debt come from reading the source as TypeScript, which
/// fails only when that tree would have as many nodes as the largest `usize`.
pub fn compute_file_metrics(t: &SyntaxTree, path: &str) -> (r: Result<FileMetrics, ParseError>)
    requires
        t.wf(),
        file_pairs_fit(*t),
    ensures
        r is Ok <==> parse_succeeds(t.source@, false),
        r matches Ok(m) ==> file_metrics_of(*t, path@, m)
            && exists|d: SyntaxTree| d.wf() && parsed_from(d, t.source@, false) && inputs_measured(d, m.debt_inputs@),
{
    match crate::parse::parse_typescript(t.source_text()) {
        Ok(d) => Ok(file_metrics_with(t, &d, path)),
        Err(e) => Err(e),
    }
}

} // verus!
