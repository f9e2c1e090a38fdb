//! The result of analysing a set of files: their metrics, the violations found,
//! and running totals kept equal to the sums over the files.
use crate::metrics::FileMetrics;
use crate::metrics::function::FunctionMetrics;
use crate::metrics::class::ClassMetrics;
use crate::thresholds::{
    check_class_violations, check_function_violations, fired, violation_view, Severity, ThresholdsConfig, Violation,
};
use vstd::prelude::*;

verus! {

/// Sum of the line counts of `fs`.
pub open spec fn sum_loc(fs: Seq<FileMetrics>) -> nat
    decreases fs.len(),
{
    if fs.len() == 0 {
        0
    } else {
        sum_loc(fs.drop_last()) + fs.last().total_loc as nat
    }
}

/// Sum of the function counts of `fs`.
pub open spec fn sum_functions(fs: Seq<FileMetrics>) -> nat
    decreases fs.len(),
{
    if fs.len() == 0 {
        0
    } else {
        sum_functions(fs.drop_last()) + fs.last().function_count as nat
    }
}

/// Metrics of the analysed files and the violations found in them.
#[derive(Debug, Clone, PartialEq, Eq)]
pub struct AnalysisResult {
    pub files: Vec<FileMetrics>,
    pub total_files: usize,
    pub total_functions: usize,
    pub total_loc: usize,
    pub violations: Vec<Violation>,
}

impl AnalysisResult {
    /// The totals are the number of files and the sums over them.
    pub open spec fn consistent(&self) -> bool {
        &&& self.total_files == self.files@.len()
        &&& self.total_loc == sum_loc(self.files@)
        &&& self.total_functions == sum_functions(self.files@)
    }

    /// An empty result.
    pub fn new() -> (r: Self)
        ensures
            r.files@ == Seq::<FileMetrics>::empty(),
            r.violations@ == Seq::<Violation>::empty(),
            r.total_files == 0 && r.total_functions == 0 && r.total_loc == 0,
            r.consistent(),
    {
        AnalysisResult { files: Vec::new(), total_files: 0, total_functions: 0, total_loc: 0, violations: Vec::new() }
    }

    /// Append a file, adding its lines and functions to the totals.
    pub fn add_file(&mut self, file: FileMetrics)
        requires
            old(self).total_loc + file.total_loc <= usize::MAX,
            old(self).total_functions + file.function_count <= usize::MAX,
            old(self).total_files < usize::MAX,
        ensures
            final(self).files@ == old(self).files@.push(file),
            final(self).total_loc == old(self).total_loc + file.total_loc,
            final(self).total_functions == old(self).total_functions + file.function_count,
            final(self).total_files == old(self).total_files + 1,
            final(self).violations@ == old(self).violations@,
            old(self).consistent() ==> final(self).consistent(),
    {
        let ghost before = self.files@;
        self.total_loc = self.total_loc + file.total_loc;
        self.total_functions = self.total_functions + file.function_count;
        self.total_files = self.total_files + 1;
        self.files.push(file);
        proof {
            assert(self.files@.drop_last() =~= before);
        }
    }

    /// Append violations, in order.
    pub fn add_violations(&mut self, violations: Vec<Violation>)
        ensures
            final(self).violations@ == old(self).violations@ + violations@,
            final(self).files@ == old(self).files@,
            final(self).total_files == old(self).total_files,
            final(self).total_functions == old(self).total_functions,
            final(self).total_loc == old(self).total_loc,
    {
        let mut vs = violations;
        self.violations.append(&mut vs);
    }
}

/// The least severity that fails a run.
#[derive(Debug, Clone, Copy, PartialEq, Eq, Structural)]
pub enum FailOn {
    /// Any warning or error.
    Warning,
    /// Errors only.
    Error,
}

/// A violation of severity `s` that is not suppressed fails a run at `level`.
pub open spec fn blocks(s: Severity, suppressed: bool, level: FailOn) -> bool {
    !suppressed && match level {
        FailOn::Error => s == Severity::Error,
        FailOn::Warning => true,
    }
}

/// `true` when one of the `(severity, suppressed)` pairs fails the run at `level`.
pub fn fails_on(items: &Vec<(Severity, bool)>, level: FailOn) -> (r: bool)
    ensures
        r == exists|k: int| 0 <= k < items@.len() && blocks((#[trigger] items@[k]).0, items@[k].1, level),
{
    let mut k: usize = 0;
    while k < items.len()
        invariant
            k <= items@.len(),
            forall|q: int| 0 <= q < k ==> !blocks((#[trigger] items@[q]).0, items@[q].1, level),
        decreases items.len() - k,
    {
        let (s, suppressed) = items[k];
        let hit = !suppressed && match level {
            FailOn::Error => match s {
                Severity::Error => true,
                Severity::Warning => false,
            },
            FailOn::Warning => true,
        };
        if hit {
            return true;
        }
        k = k + 1;
    }
    false
}

/// Function `f` is shown under the display filters.
pub open spec fn shown(f: FunctionMetrics, min_complexity: Option<usize>, min_loc: Option<usize>) -> bool {
    (min_complexity matches Some(m) ==> f.cyclomatic_complexity >= m) && (min_loc matches Some(m) ==> f.loc >= m)
}

/// Sum of the lengths of the function lists of `fs`.
pub open spec fn sum_listed(fs: Seq<FileMetrics>) -> nat
    decreases fs.len(),
{
    if fs.len() == 0 {
        0
    } else {
        sum_listed(fs.drop_last()) + fs.last().functions@.len()
    }
}

/// Number of files of `fs` that list a function.
pub open spec fn files_listing(fs: Seq<FileMetrics>) -> nat
    decreases fs.len(),
{
    if fs.len() == 0 {
        0
    } else {
        files_listing(fs.drop_last()) + (if fs.last().functions@.len() > 0 { 1nat } else { 0nat })
    }
}

/// `a` is `b` with another list of functions.
pub open spec fn same_but_functions(a: FileMetrics, b: FileMetrics) -> bool {
    &&& a.path == b.path
    &&& a.total_loc == b.total_loc
    &&& a.total_sloc == b.total_sloc
    &&& a.function_count == b.function_count
    &&& a.class_count == b.class_count
    &&& a.import_count == b.import_count
    &&& a.classes == b.classes
    &&& a.debt_inputs == b.debt_inputs
    &&& a.cohesion == b.cohesion
    &&& a.module_fan_out == b.module_fan_out
    &&& a.purity_total == b.purity_total
    &&& a.purity_pure == b.purity_pure
    &&& a.is_tsx == b.is_tsx
}

proof fn lemma_sum_listed_prefix(fs: Seq<FileMetrics>, i: int)
    requires
        0 <= i <= fs.len(),
    ensures
        sum_listed(fs.take(i)) <= sum_listed(fs),
    decreases fs.len() - i,
{
    if i < fs.len() {
        lemma_sum_listed_prefix(fs, i + 1);
        assert(fs.take(i + 1).drop_last() =~= fs.take(i));
    } else {
        assert(fs.take(i) =~= fs);
    }
}

/// The functions of `fs` shown under the display filters, moved out in order.
fn keep_functions(fs: Vec<FunctionMetrics>, min_complexity: Option<usize>, min_loc: Option<usize>) -> (r: Vec<FunctionMetrics>)
    ensures
        r@ == fs@.filter(|f: FunctionMetrics| shown(f, min_complexity, min_loc)),
        r@.len() <= fs@.len(),
{
    broadcast use Seq::lemma_filter_push;
    let ghost pred = |f: FunctionMetrics| shown(f, min_complexity, min_loc);
    let ghost orig = fs@;
    let mut rest = fs;
    let mut kept: Vec<FunctionMetrics> = Vec::new();
    let ghost mut j: int = 0;
    proof {
        reveal(Seq::filter);
        assert(orig.take(0).filter(pred) =~= seq![]);
        assert(rest@ =~= orig.skip(0));
    }
    while rest.len() > 0
        invariant
            0 <= j <= orig.len(),
            rest@ == orig.skip(j),
            pred == (|f: FunctionMetrics| shown(f, min_complexity, min_loc)),
            kept@ == orig.take(j).filter(pred),
            kept@.len() <= j,
        decreases rest.len(),
    {
        let f = rest.remove(0);
        proof {
            assert(f == orig[j]);
            assert(orig.take(j + 1) =~= orig.take(j).push(orig[j]));
            orig.take(j).lemma_filter_push(orig[j], pred);
            assert(rest@ =~= orig.skip(j + 1));
        }
        let ok_complexity = match min_complexity {
            Some(m) => f.cyclomatic_complexity >= m,
            None => true,
        };
        let ok_loc = match min_loc {
            Some(m) => f.loc >= m,
            None => true,
        };
        if ok_complexity && ok_loc {
            kept.push(f);
        }
        proof {
            j = j + 1;
        }
    }
    proof {
        assert(orig.take(j) =~= orig);
    }
    kept
}

impl AnalysisResult {
    /// Keep only the functions that reach `min_complexity` and `min_loc` (when
    /// given), then count the functions listed and the files that still list one.
    /// Without either filter nothing changes.
    pub fn apply_display_filters(&mut self, min_complexity: Option<usize>, min_loc: Option<usize>)
        requires
            sum_listed(old(self).files@) <= usize::MAX,
        ensures
            min_complexity is None && min_loc is None ==> *final(self) == *old(self),
            (min_complexity is Some || min_loc is Some) ==> {
                &&& final(self).files@.len() == old(self).files@.len()
                &&& forall|i: int|
                    0 <= i < final(self).files@.len() ==> {
                        &&& (#[trigger] final(self).files@[i]).functions@ == old(self).files@[i].functions@.filter(
                            |f: FunctionMetrics| shown(f, min_complexity, min_loc),
                        )
                        &&& same_but_functions(final(self).files@[i], old(self).files@[i])
                    }
                &&& final(self).total_functions == sum_listed(final(self).files@)
                &&& final(self).total_files == files_listing(final(self).files@)
                &&& final(self).total_loc == old(self).total_loc
                &&& final(self).violations@ == old(self).violations@
            },
    {
        if min_complexity.is_none() && min_loc.is_none() {
            return;
        }
        let ghost pred = |f: FunctionMetrics| shown(f, min_complexity, min_loc);
        let mut pending: Vec<FileMetrics> = Vec::new();
        std::mem::swap(&mut pending, &mut self.files);
        let ghost orig = pending@;
        proof {
            assert(orig.len() == pending.len());
            lemma_sum_listed_prefix(orig, 0);
            assert(pending@ =~= orig.skip(0));
        }
        let mut files: Vec<FileMetrics> = Vec::new();
        let mut listed: usize = 0;
        let mut nonempty: usize = 0;
        while pending.len() > 0
            invariant
                files@.len() <= orig.len(),
                orig.len() <= usize::MAX,
                pending@ == orig.skip(files@.len() as int),
                sum_listed(orig) <= usize::MAX,
                pred == (|f: FunctionMetrics| shown(f, min_complexity, min_loc)),
                forall|q: int|
                    0 <= q < files@.len() ==> {
                        &&& (#[trigger] files@[q]).functions@ == orig[q].functions@.filter(pred)
                        &&& same_but_functions(files@[q], orig[q])
                    },
                listed == sum_listed(files@),
                listed <= sum_listed(orig.take(files@.len() as int)),
                nonempty == files_listing(files@),
                nonempty <= files@.len(),
            decreases pending.len(),
        {
            let ghost i = files@.len() as int;
            let fm = pending.remove(0);
            proof {
                assert(fm == orig[i]);
                assert(pending@ =~= orig.skip(i + 1));
                lemma_sum_listed_prefix(orig, i + 1);
                assert(orig.take(i + 1).drop_last() =~= orig.take(i));
            }
            let FileMetrics {
                path,
                total_loc,
                total_sloc,
                function_count,
                class_count,
                import_count,
                functions,
                classes,
                debt_inputs,
                cohesion,
                module_fan_out,
                purity_total,
                purity_pure,
                is_tsx,
            } = fm;
            let kept = keep_functions(functions, min_complexity, min_loc);
            let n = kept.len();
            let ghost before = files@;
            files.push(
                FileMetrics {
                    path,
                    total_loc,
                    total_sloc,
                    function_count,
                    class_count,
                    import_count,
                    functions: kept,
                    classes,
                    debt_inputs,
                    cohesion,
                    module_fan_out,
                    purity_total,
                    purity_pure,
                    is_tsx,
                },
            );
            proof {
                assert(files@.drop_last() =~= before);
                assert(orig.take(i + 1).last() == orig[i]);
            }
            listed = listed + n;
            if n > 0 {
                nonempty = nonempty + 1;
            }
        }
        self.files = files;
        self.total_functions = listed;
        self.total_files = nonempty;
    }
}

impl Default for AnalysisResult {
    fn default() -> (r: Self)
        ensures
            r.files@ == Seq::<FileMetrics>::empty(),
            r.violations@ == Seq::<Violation>::empty(),
            r.total_files == 0 && r.total_functions == 0 && r.total_loc == 0,
    {
        AnalysisResult::new()
    }
}

/// The suppression flag of entity `k`: `flags[k]`, `false` past their end.
pub open spec fn flag_at(flags: Seq<bool>, k: int) -> bool {
    if 0 <= k < flags.len() {
        flags[k]
    } else {
        false
    }
}

/// `vs` are violations of `name` at `file:line`, suppressed exactly when `s`.
pub open spec fn marked(vs: Seq<Violation>, name: Seq<char>, file: Seq<char>, line: usize, s: bool) -> bool {
    forall|x: int|
        0 <= x < vs.len() ==> {
            &&& (#[trigger] vs[x]).entity@ == name
            &&& vs[x].file@ == file
            &&& vs[x].line == line
            &&& vs[x].suppressed == s
        }
}

/// The integer thresholds a function crosses, in the order cyclomatic complexity,
/// LOC, nesting, params.
pub open spec fn function_fired(f: FunctionMetrics, config: ThresholdsConfig) -> Seq<(Seq<char>, usize, usize, Severity)> {
    fired("cyclomatic_complexity"@, f.cyclomatic_complexity, config.cyclomatic_complexity) + fired(
        "loc"@,
        f.loc,
        config.loc,
    ) + fired("nesting"@, f.max_nesting, config.nesting) + fired("params"@, f.param_count, config.params)
}

/// The integer thresholds a class crosses, in the order WMC, NOI.
pub open spec fn class_fired(c: ClassMetrics, config: ThresholdsConfig) -> Seq<(Seq<char>, usize, usize, Severity)> {
    fired("wmc"@, c.wmc, config.wmc) + fired("noi"@, c.noi, config.noi)
}

/// `flags[k]`, `false` past the end.
pub fn flag_of(flags: &Vec<bool>, k: usize) -> (r: bool)
    ensures
        r == flag_at(flags@, k as int),
{
    if k < flags.len() {
        flags[k]
    } else {
        false
    }
}

/// `vs` with every violation marked suppressed as `s`, all else kept.
fn mark_suppressed(vs: Vec<Violation>, s: bool) -> (r: Vec<Violation>)
    ensures
        r@.len() == vs@.len(),
        forall|x: int|
            0 <= x < vs@.len() ==> {
                &&& (#[trigger] r@[x]).entity == vs@[x].entity
                &&& r@[x].file == vs@[x].file
                &&& r@[x].line == vs@[x].line
                &&& violation_view(r@[x]) == violation_view(vs@[x])
                &&& r@[x].suppressed == s
            },
{
    let ghost orig = vs@;
    let mut rest = vs;
    let mut out: Vec<Violation> = Vec::new();
    while rest.len() > 0
        invariant
            out@.len() + rest@.len() == orig.len(),
            rest@ == orig.skip(out@.len() as int),
            forall|x: int|
                0 <= x < out@.len() ==> {
                    &&& (#[trigger] out@[x]).entity == orig[x].entity
                    &&& out@[x].file == orig[x].file
                    &&& out@[x].line == orig[x].line
                    &&& violation_view(out@[x]) == violation_view(orig[x])
                    &&& out@[x].suppressed == s
                },
        decreases rest.len(),
    {
        let ghost done = out@.len() as int;
        let mut v = rest.remove(0);
        proof {
            assert(v == orig[done]);
            assert(rest@ =~= orig.skip(done + 1));
        }
        v.suppressed = s;
        out.push(v);
    }
    out
}

/// The integer-threshold violations of each function of a file, one list per
/// function in order, each marked suppressed as `suppressed` says for that function.
pub fn function_violations(functions: &Vec<FunctionMetrics>, suppressed: &Vec<bool>, config: &ThresholdsConfig) -> (r: Vec<
    Vec<Violation>,
>)
    ensures
        r@.len() == functions@.len(),
        forall|k: int|
            0 <= k < functions@.len() ==> {
                &&& (#[trigger] r@[k])@.map_values(|v: Violation| violation_view(v)) == function_fired(functions@[k], *config)
                &&& marked(r@[k]@, functions@[k].name@, functions@[k].file@, functions@[k].line, flag_at(suppressed@, k))
            },
{
    let mut out: Vec<Vec<Violation>> = Vec::new();
    let mut k: usize = 0;
    while k < functions.len()
        invariant
            k <= functions@.len(),
            out@.len() == k,
            forall|q: int|
                0 <= q < k ==> {
                    &&& (#[trigger] out@[q])@.map_values(|v: Violation| violation_view(v)) == function_fired(functions@[q], *config)
                    &&& marked(out@[q]@, functions@[q].name@, functions@[q].file@, functions@[q].line, flag_at(suppressed@, q))
                },
        decreases functions.len() - k,
    {
        let f = &functions[k];
        let vs = check_function_violations(
            f.name.as_str(),
            f.file.as_str(),
            f.line,
            f.cyclomatic_complexity,
            f.loc,
            f.max_nesting,
            f.param_count,
            config,
        );
        let flag = flag_of(suppressed, k);
        let marked_vs = mark_suppressed(vs, flag);
        proof {
            assert(marked_vs@.map_values(|v: Violation| violation_view(v)) =~= vs@.map_values(|v: Violation| violation_view(v)));
            assert forall|x: int| 0 <= x < marked_vs@.len() implies {
                &&& (#[trigger] marked_vs@[x]).entity@ == f.name@
                &&& marked_vs@[x].file@ == f.file@
                &&& marked_vs@[x].line == f.line
                &&& marked_vs@[x].suppressed == flag
            } by {
                assert(vs@[x].entity@ == f.name@);
            }
        }
        out.push(marked_vs);
        k = k + 1;
    }
    out
}

/// The integer-threshold violations of each class of a file, one list per class in
/// order, each marked suppressed as `suppressed` says for that class.
pub fn class_violations(classes: &Vec<ClassMetrics>, suppressed: &Vec<bool>, config: &ThresholdsConfig) -> (r: Vec<
    Vec<Violation>,
>)
    ensures
        r@.len() == classes@.len(),
        forall|k: int|
            0 <= k < classes@.len() ==> {
                &&& (#[trigger] r@[k])@.map_values(|v: Violation| violation_view(v)) == class_fired(classes@[k], *config)
                &&& marked(r@[k]@, classes@[k].name@, classes@[k].file@, classes@[k].line, flag_at(suppressed@, k))
            },
{
    let mut out: Vec<Vec<Violation>> = Vec::new();
    let mut k: usize = 0;
    while k < classes.len()
        invariant
            k <= classes@.len(),
            out@.len() == k,
            forall|q: int|
                0 <= q < k ==> {
                    &&& (#[trigger] out@[q])@.map_values(|v: Violation| violation_view(v)) == class_fired(classes@[q], *config)
                    &&& marked(out@[q]@, classes@[q].name@, classes@[q].file@, classes@[q].line, flag_at(suppressed@, q))
                },
        decreases classes.len() - k,
    {
        let c = &classes[k];
        let vs = check_class_violations(c.name.as_str(), c.file.as_str(), c.line, c.wmc, c.noi, config);
        let flag = flag_of(suppressed, k);
        let marked_vs = mark_suppressed(vs, flag);
        proof {
            assert(marked_vs@.map_values(|v: Violation| violation_view(v)) =~= vs@.map_values(|v: Violation| violation_view(v)));
            assert forall|x: int| 0 <= x < marked_vs@.len() implies {
                &&& (#[trigger] marked_vs@[x]).entity@ == c.name@
                &&& marked_vs@[x].file@ == c.file@
                &&& marked_vs@[x].line == c.line
                &&& marked_vs@[x].suppressed == flag
            } by {
                assert(vs@[x].entity@ == c.name@);
            }
        }
        out.push(marked_vs);
        k = k + 1;
    }
    out
}

} // verus!
