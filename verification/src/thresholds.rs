//! Warning/error thresholds for integer metrics, violations, and configuration checks.
use crate::text::{decimal, lowercase, replace_char, str_in, to_lowercase, replace_char_exec, usize_to_string};
use crate::syntax::names;
use vstd::prelude::*;
use vstd::string::StringSliceAdditionalSpecFns;

verus! {

/// Violation severity level.
#[derive(Debug, Clone, Copy, PartialEq, Eq, Structural)]
pub enum Severity {
    Warning,
    Error,
}

impl Severity {
    /// Lower-case name of the severity.
    pub fn label(&self) -> (r: &'static str)
        ensures
            r@ == (match self {
                Severity::Warning => "warning"@,
                Severity::Error => "error"@,
            }),
    {
        match self {
            Severity::Warning => "warning",
            Severity::Error => "error",
        }
    }
}

/// Per-metric warning/error threshold pair.
#[derive(Debug, Clone, Copy, PartialEq, Eq, Structural)]
pub struct MetricThreshold {
    pub warning: usize,
    pub error: usize,
}

impl MetricThreshold {
    pub fn new(warning: usize, error: usize) -> (r: Self)
        ensures
            r.warning == warning,
            r.error == error,
    {
        Self { warning, error }
    }

    /// Severity of `value` against this threshold; the error level wins over the warning level.
    pub open spec fn spec_check(&self, value: usize) -> Option<Severity> {
        if value >= self.error {
            Some(Severity::Error)
        } else if value >= self.warning {
            Some(Severity::Warning)
        } else {
            None
        }
    }

    /// The threshold value that a severity refers to.
    pub open spec fn level(&self, s: Severity) -> usize {
        match s {
            Severity::Error => self.error,
            Severity::Warning => self.warning,
        }
    }

    /// Returns the violation severity if value reaches a threshold, else `None`.
    /// The error threshold takes precedence over the warning threshold.
    pub fn check(&self, value: usize) -> (r: Option<Severity>)
        ensures
            r == self.spec_check(value),
    {
        if value >= self.error {
            Some(Severity::Error)
        } else if value >= self.warning {
            Some(Severity::Warning)
        } else {
            None
        }
    }
}

/// Thresholds of all integer metrics.
#[derive(Debug, Clone, Copy, PartialEq, Eq, Structural)]
pub struct ThresholdsConfig {
    pub cyclomatic_complexity: MetricThreshold,
    pub loc: MetricThreshold,
    pub nesting: MetricThreshold,
    pub params: MetricThreshold,
    pub wmc: MetricThreshold,
    pub noi: MetricThreshold,
}

impl ThresholdsConfig {
    /// The six thresholds in a fixed order: cyclomatic complexity, LOC, nesting, params, WMC, NOI.
    pub open spec fn fields(&self) -> Seq<MetricThreshold> {
        seq![self.cyclomatic_complexity, self.loc, self.nesting, self.params, self.wmc, self.noi]
    }
}

impl Default for ThresholdsConfig {
    fn default() -> (r: Self)
        ensures
            r.cyclomatic_complexity == (MetricThreshold { warning: 10, error: 25 }),
            r.loc == (MetricThreshold { warning: 50, error: 100 }),
            r.nesting == (MetricThreshold { warning: 3, error: 5 }),
            r.params == (MetricThreshold { warning: 4, error: 7 }),
            r.wmc == (MetricThreshold { warning: 20, error: 50 }),
            r.noi == (MetricThreshold { warning: 3, error: 5 }),
    {
        Self {
            cyclomatic_complexity: MetricThreshold::new(10, 25),
            loc: MetricThreshold::new(50, 100),
            nesting: MetricThreshold::new(3, 5),
            params: MetricThreshold::new(4, 7),
            wmc: MetricThreshold::new(20, 50),
            noi: MetricThreshold::new(3, 5),
        }
    }
}

/// A threshold violation detected during analysis.
#[derive(Debug, Clone, PartialEq, Eq)]
pub struct Violation {
    pub file: String,
    pub line: usize,
    pub entity: String,
    pub metric: String,
    pub value: usize,
    pub threshold: usize,
    pub severity: Severity,
    pub suppressed: bool,
}

/// The metric name, value, threshold and severity of a violation.
pub open spec fn violation_view(v: Violation) -> (Seq<char>, usize, usize, Severity) {
    (v.metric@, v.value, v.threshold, v.severity)
}

/// The violation (if any) that `value` of `metric` raises against `th`.
pub open spec fn fired(metric: Seq<char>, value: usize, th: MetricThreshold) -> Seq<(Seq<char>, usize, usize, Severity)> {
    match th.spec_check(value) {
        Some(s) => seq![(metric, value, th.level(s), s)],
        None => seq![],
    }
}

/// All violations name the entity, file and line given and are not suppressed.
pub open spec fn located(vs: Seq<Violation>, name: Seq<char>, file: Seq<char>, line: usize) -> bool {
    forall|x: int|
        0 <= x < vs.len() ==> {
            &&& (#[trigger] vs[x]).entity@ == name
            &&& vs[x].file@ == file
            &&& vs[x].line == line
            &&& !vs[x].suppressed
        }
}

/// Append the violation (if any) of `value` for `metric` against `th`.
fn push_check(
    out: &mut Vec<Violation>,
    name: &str,
    file: &str,
    line: usize,
    metric: &str,
    value: usize,
    th: &MetricThreshold,
)
    ensures
        final(out)@.map_values(|v: Violation| violation_view(v)) == old(out)@.map_values(
            |v: Violation| violation_view(v),
        ) + fired(metric@, value, *th),
        final(out)@.len() >= old(out)@.len(),
        forall|x: int| 0 <= x < old(out)@.len() ==> #[trigger] final(out)@[x] == old(out)@[x],
        located(final(out)@.skip(old(out)@.len() as int), name@, file@, line),
{
    let ghost before = out@;
    match th.check(value) {
        Some(severity) => {
            let t = match severity {
                Severity::Error => th.error,
                Severity::Warning => th.warning,
            };
            out.push(
                Violation {
                    file: file.to_owned(),
                    line,
                    entity: name.to_owned(),
                    metric: metric.to_owned(),
                    value,
                    threshold: t,
                    severity,
                    suppressed: false,
                },
            );
        },
        None => {},
    }
    proof {
        assert(out@.map_values(|v: Violation| violation_view(v)) =~= before.map_values(
            |v: Violation| violation_view(v),
        ) + fired(metric@, value, *th));
        let tail = out@.skip(before.len() as int);
        assert forall|x: int| 0 <= x < tail.len() implies {
            &&& (#[trigger] tail[x]).entity@ == name@
            &&& tail[x].file@ == file@
            &&& tail[x].line == line
            &&& !tail[x].suppressed
        } by {
            assert(tail[x] == out@[before.len() + x]);
        }
    }
}

proof fn lemma_located_append(a: Seq<Violation>, b: Seq<Violation>, c: Seq<Violation>, name: Seq<char>, file: Seq<char>, line: usize)
    requires
        b.len() >= a.len(),
        c.len() >= b.len(),
        forall|x: int| 0 <= x < a.len() ==> #[trigger] b[x] == a[x],
        located(b.skip(a.len() as int), name, file, line),
        located(c.skip(b.len() as int), name, file, line),
        forall|x: int| 0 <= x < b.len() ==> #[trigger] c[x] == b[x],
    ensures
        located(c.skip(a.len() as int), name, file, line),
{
    let t = c.skip(a.len() as int);
    assert forall|x: int| 0 <= x < t.len() implies {
        &&& (#[trigger] t[x]).entity@ == name
        &&& t[x].file@ == file
        &&& t[x].line == line
        &&& !t[x].suppressed
    } by {
        if a.len() + x < b.len() {
            assert(t[x] == b.skip(a.len() as int)[x]);
        } else {
            assert(t[x] == c.skip(b.len() as int)[a.len() + x - b.len()]);
        }
    }
}

/// Check function metrics against thresholds, returning any violations in the order
/// cyclomatic complexity, LOC, nesting, params.
pub fn check_function_violations(
    name: &str,
    file: &str,
    line: usize,
    cyclomatic_complexity: usize,
    loc: usize,
    nesting: usize,
    params: usize,
    config: &ThresholdsConfig,
) -> (r: Vec<Violation>)
    ensures
        r@.map_values(|v: Violation| violation_view(v)) == fired(
            "cyclomatic_complexity"@,
            cyclomatic_complexity,
            config.cyclomatic_complexity,
        ) + fired("loc"@, loc, config.loc) + fired("nesting"@, nesting, config.nesting) + fired(
            "params"@,
            params,
            config.params,
        ),
        located(r@, name@, file@, line),
{
    let mut v: Vec<Violation> = Vec::new();
    let ghost s0 = v@;
    push_check(&mut v, name, file, line, "cyclomatic_complexity", cyclomatic_complexity, &config.cyclomatic_complexity);
    let ghost s1 = v@;
    push_check(&mut v, name, file, line, "loc", loc, &config.loc);
    let ghost s2 = v@;
    push_check(&mut v, name, file, line, "nesting", nesting, &config.nesting);
    let ghost s3 = v@;
    push_check(&mut v, name, file, line, "params", params, &config.params);
    proof {
        assert(s0.skip(0) =~= s0);
        lemma_located_append(s0, s1, s2, name@, file@, line);
        lemma_located_append(s0, s2, s3, name@, file@, line);
        lemma_located_append(s0, s3, v@, name@, file@, line);
        assert(v@.skip(0) =~= v@);
        assert(s0.map_values(|v: Violation| violation_view(v)) =~= seq![]);
    }
    v
}

/// Check class metrics against thresholds, returning any violations in the order WMC, NOI.
pub fn check_class_violations(
    name: &str,
    file: &str,
    line: usize,
    wmc: usize,
    noi: usize,
    config: &ThresholdsConfig,
) -> (r: Vec<Violation>)
    ensures
        r@.map_values(|v: Violation| violation_view(v)) == fired("wmc"@, wmc, config.wmc) + fired(
            "noi"@,
            noi,
            config.noi,
        ),
        located(r@, name@, file@, line),
{
    let mut v: Vec<Violation> = Vec::new();
    let ghost s0 = v@;
    push_check(&mut v, name, file, line, "wmc", wmc, &config.wmc);
    let ghost s1 = v@;
    push_check(&mut v, name, file, line, "noi", noi, &config.noi);
    proof {
        assert(s0.skip(0) =~= s0);
        lemma_located_append(s0, s1, v@, name@, file@, line);
        assert(v@.skip(0) =~= v@);
        assert(s0.map_values(|v: Violation| violation_view(v)) =~= seq![]);
    }
    v
}

/// A threshold as a configuration file gives it: either level may be missing.
#[derive(Debug, Clone, Copy, PartialEq, Eq)]
pub struct PartialMetricThreshold {
    pub warning: Option<usize>,
    pub error: Option<usize>,
}

/// A threshold whose warning level lies above its error level.
#[derive(Debug, Clone, PartialEq, Eq)]
pub struct ThresholdError {
    /// The metric concerned, when known.
    pub metric: Option<String>,
    pub warning: usize,
    pub error: usize,
}

impl ThresholdError {
    /// The message of this error.
    pub open spec fn spec_message(&self) -> Seq<char> {
        match self.metric {
            None => "invalid threshold: warning ("@ + decimal(self.warning as nat) + ") > error ("@ + decimal(
                self.error as nat,
            ) + ")"@,
            Some(m) => "invalid "@ + m@ + " threshold after CLI overrides: warning ("@ + decimal(
                self.warning as nat,
            ) + ") > error ("@ + decimal(self.error as nat) + ")"@,
        }
    }

    /// Human-readable description of the error.
    pub fn message(&self) -> (r: String)
        ensures
            r@ == self.spec_message(),
    {
        let w = usize_to_string(self.warning);
        let e = usize_to_string(self.error);
        let mut s = String::new();
        match &self.metric {
            None => {
                s.append("invalid threshold: warning (");
                s.append(w.as_str());
                s.append(") > error (");
                s.append(e.as_str());
                s.append(")");
                proof {
                    assert(s@ =~= self.spec_message());
                }
            },
            Some(m) => {
                s.append("invalid ");
                s.append(m.as_str());
                s.append(" threshold after CLI overrides: warning (");
                s.append(w.as_str());
                s.append(") > error (");
                s.append(e.as_str());
                s.append(")");
                proof {
                    assert(s@ =~= self.spec_message());
                }
            },
        }
        s
    }
}

/// `default` with the levels that `partial` gives replacing its own.
pub open spec fn spec_merge(partial: Option<PartialMetricThreshold>, default: MetricThreshold) -> MetricThreshold {
    match partial {
        None => default,
        Some(p) => MetricThreshold {
            warning: match p.warning {
                Some(w) => w,
                None => default.warning,
            },
            error: match p.error {
                Some(e) => e,
                None => default.error,
            },
        },
    }
}

/// Merge a partially given threshold into a default one; a warning level above the
/// error level is refused.
pub fn merge_threshold(partial: Option<PartialMetricThreshold>, default: MetricThreshold) -> (r: Result<MetricThreshold, ThresholdError>)
    ensures
        ({
            let m = spec_merge(partial, default);
            &&& r is Ok <==> m.warning <= m.error
            &&& r matches Ok(t) ==> t == m
            &&& r matches Err(e) ==> e.metric is None && e.warning == m.warning && e.error == m.error
        }),
{
    let merged = match partial {
        None => default,
        Some(p) => MetricThreshold {
            warning: match p.warning {
                Some(w) => w,
                None => default.warning,
            },
            error: match p.error {
                Some(e) => e,
                None => default.error,
            },
        },
    };
    if merged.warning > merged.error {
        return Err(ThresholdError { metric: None, warning: merged.warning, error: merged.error });
    }
    Ok(merged)
}

/// Command-line replacements for the levels of the integer thresholds.
#[derive(Debug, Clone, Copy, PartialEq, Eq, Default)]
pub struct ThresholdOverrides {
    pub cc_warning: Option<usize>,
    pub cc_error: Option<usize>,
    pub loc_warning: Option<usize>,
    pub loc_error: Option<usize>,
    pub nesting_warning: Option<usize>,
    pub nesting_error: Option<usize>,
    pub params_warning: Option<usize>,
    pub params_error: Option<usize>,
    pub wmc_warning: Option<usize>,
    pub wmc_error: Option<usize>,
    pub noi_warning: Option<usize>,
    pub noi_error: Option<usize>,
}

impl ThresholdOverrides {
    /// Warning and error replacements in the order of [`ThresholdsConfig::fields`].
    pub open spec fn pairs(&self) -> Seq<(Option<usize>, Option<usize>)> {
        seq![
            (self.cc_warning, self.cc_error),
            (self.loc_warning, self.loc_error),
            (self.nesting_warning, self.nesting_error),
            (self.params_warning, self.params_error),
            (self.wmc_warning, self.wmc_error),
            (self.noi_warning, self.noi_error),
        ]
    }
}

/// Names of the integer thresholds in the order of [`ThresholdsConfig::fields`].
pub open spec fn threshold_names() -> Seq<Seq<char>> {
    seq!["cyclomatic_complexity"@, "loc"@, "nesting"@, "params"@, "wmc"@, "noi"@]
}

/// `th` with the given replacements applied.
pub open spec fn overridden(th: MetricThreshold, o: (Option<usize>, Option<usize>)) -> MetricThreshold {
    spec_merge(Some(PartialMetricThreshold { warning: o.0, error: o.1 }), th)
}

/// Warning level above the error level.
pub open spec fn invalid(th: MetricThreshold) -> bool {
    th.warning > th.error
}

/// All six thresholds of `c` with the replacements of `o` applied.
pub open spec fn overridden_all(c: ThresholdsConfig, o: ThresholdOverrides) -> Seq<MetricThreshold> {
    Seq::new(6, |k: int| overridden(c.fields()[k], o.pairs()[k]))
}

/// Apply one metric's overrides; refuse a warning level above the error level.
fn apply_one(th: &mut MetricThreshold, warning: Option<usize>, error: Option<usize>, name: &str) -> (r: Result<(), ThresholdError>)
    ensures
        *final(th) == overridden(*old(th), (warning, error)),
        r is Ok <==> final(th).warning <= final(th).error,
        r matches Err(e) ==> (e.metric matches Some(m) && m@ == name@) && e.warning == final(th).warning && e.error == final(th).error,
{
    match warning {
        Some(v) => {
            th.warning = v;
        },
        None => {},
    }
    match error {
        Some(v) => {
            th.error = v;
        },
        None => {},
    }
    if th.warning > th.error {
        return Err(ThresholdError { metric: Some(name.to_owned()), warning: th.warning, error: th.error });
    }
    Ok(())
}

/// Apply command-line overrides on top of a loaded configuration, metric by metric,
/// in the order of [`ThresholdsConfig::fields`].  The first metric whose warning
/// level ends above its error level stops the process with an error; the metrics
/// before it and that metric itself keep their overridden values.
pub fn apply_cli_overrides(config: &mut ThresholdsConfig, overrides: &ThresholdOverrides) -> (r: Result<(), ThresholdError>)
    ensures
        ({
            let n = overridden_all(*old(config), *overrides);
            &&& r is Ok <==> (forall|k: int| 0 <= k < 6 ==> !invalid(#[trigger] n[k]))
            &&& r is Ok ==> final(config).fields() == n
            &&& r matches Err(e) ==> exists|k: int|
                0 <= k < 6 && invalid(#[trigger] n[k]) && (forall|q: int| 0 <= q < k ==> !invalid(#[trigger] n[q]))
                    && (e.metric matches Some(m) && m@ == threshold_names()[k]) && e.warning == n[k].warning
                    && e.error == n[k].error && (forall|q: int|
                    0 <= q < 6 ==> #[trigger] final(config).fields()[q] == if q <= k {
                        n[q]
                    } else {
                        old(config).fields()[q]
                    })
        }),
{
    let ghost c0 = *config;
    let ghost n = overridden_all(c0, *overrides);
    let r0 = apply_one(&mut config.cyclomatic_complexity, overrides.cc_warning, overrides.cc_error, "cyclomatic_complexity");
    if r0.is_err() {
        proof {
            assert(config.fields()[0] == n[0]);
            assert(invalid(n[0]));
            assert forall|q: int| 0 <= q < 6 implies #[trigger] config.fields()[q] == if q <= 0 { n[q] } else { c0.fields()[q] } by {}
        }
        return r0;
    }
    let r1 = apply_one(&mut config.loc, overrides.loc_warning, overrides.loc_error, "loc");
    if r1.is_err() {
        proof {
            assert(invalid(n[1]));
            assert forall|q: int| 0 <= q < 6 implies #[trigger] config.fields()[q] == if q <= 1 { n[q] } else { c0.fields()[q] } by {}
        }
        return r1;
    }
    let r2 = apply_one(&mut config.nesting, overrides.nesting_warning, overrides.nesting_error, "nesting");
    if r2.is_err() {
        proof {
            assert(invalid(n[2]));
            assert forall|q: int| 0 <= q < 6 implies #[trigger] config.fields()[q] == if q <= 2 { n[q] } else { c0.fields()[q] } by {}
        }
        return r2;
    }
    let r3 = apply_one(&mut config.params, overrides.params_warning, overrides.params_error, "params");
    if r3.is_err() {
        proof {
            assert(invalid(n[3]));
            assert forall|q: int| 0 <= q < 6 implies #[trigger] config.fields()[q] == if q <= 3 { n[q] } else { c0.fields()[q] } by {}
        }
        return r3;
    }
    let r4 = apply_one(&mut config.wmc, overrides.wmc_warning, overrides.wmc_error, "wmc");
    if r4.is_err() {
        proof {
            assert(invalid(n[4]));
            assert forall|q: int| 0 <= q < 6 implies #[trigger] config.fields()[q] == if q <= 4 { n[q] } else { c0.fields()[q] } by {}
        }
        return r4;
    }
    let r5 = apply_one(&mut config.noi, overrides.noi_warning, overrides.noi_error, "noi");
    if r5.is_err() {
        proof {
            assert(invalid(n[5]));
            assert forall|q: int| 0 <= q < 6 implies #[trigger] config.fields()[q] == if q <= 5 { n[q] } else { c0.fields()[q] } by {}
        }
        return r5;
    }
    proof {
        assert(config.fields() =~= n);
    }
    Ok(())
}

// ── Unknown configuration keys ─────────────────────────────────────────────

/// Keys accepted at the top level of a configuration.
pub const KNOWN_TOP_LEVEL_KEYS: [&'static str; 3] = ["thresholds", "exclude", "paths"];

/// Keys accepted under `thresholds`.
pub const KNOWN_THRESHOLD_KEYS: [&'static str; 8] = [
    "cyclomatic_complexity",
    "loc",
    "nesting",
    "params",
    "wmc",
    "noi",
    "maintainability_index",
    "halstead_volume",
];

pub open spec fn min_nat(x: nat, y: nat) -> nat {
    if x <= y { x } else { y }
}

pub open spec fn max_nat(x: nat, y: nat) -> nat {
    if x >= y { x } else { y }
}

/// Levenshtein distance between two byte strings.
pub open spec fn lev(a: Seq<u8>, b: Seq<u8>) -> nat
    decreases a.len() + b.len(),
{
    if a.len() == 0 {
        b.len()
    } else if b.len() == 0 {
        a.len()
    } else {
        min_nat(
            min_nat(lev(a.drop_last(), b) + 1, lev(a, b.drop_last()) + 1),
            lev(a.drop_last(), b.drop_last()) + (if a.last() == b.last() { 0nat } else { 1nat }),
        )
    }
}

pub proof fn lemma_lev_bound(a: Seq<u8>, b: Seq<u8>)
    ensures
        lev(a, b) <= max_nat(a.len(), b.len()),
    decreases a.len() + b.len(),
{
    if a.len() > 0 && b.len() > 0 {
        lemma_lev_bound(a.drop_last(), b.drop_last());
    }
}

/// Levenshtein distance between `a` and `b`.
pub fn edit_distance(a: &[u8], b: &[u8]) -> (r: usize)
    requires
        a@.len() < usize::MAX,
        b@.len() < usize::MAX,
    ensures
        r == lev(a@, b@),
{
    let m = a.len();
    let n = b.len();
    let mut prev: Vec<usize> = Vec::new();
    let mut j: usize = 0;
    while j <= n
        invariant
            n == b@.len(),
            n < usize::MAX,
            j <= n + 1,
            prev@.len() == j,
            forall|k: int| 0 <= k < j ==> #[trigger] prev@[k] == lev(a@.take(0), b@.take(k)),
        decreases n + 1 - j,
    {
        prev.push(j);
        j = j + 1;
    }
    let mut i: usize = 1;
    while i <= m
        invariant
            n == b@.len(),
            m == a@.len(),
            n < usize::MAX,
            m < usize::MAX,
            1 <= i <= m + 1,
            prev@.len() == n + 1,
            forall|k: int| 0 <= k <= n ==> #[trigger] prev@[k] == lev(a@.take(i - 1), b@.take(k)),
        decreases m + 1 - i,
    {
        let mut curr: Vec<usize> = Vec::new();
        curr.push(i);
        proof {
            assert(b@.take(0).len() == 0);
        }
        let mut j: usize = 1;
        while j <= n
            invariant
                n == b@.len(),
                m == a@.len(),
                n < usize::MAX,
                m < usize::MAX,
                1 <= i <= m,
                1 <= j <= n + 1,
                prev@.len() == n + 1,
                curr@.len() == j,
                forall|k: int| 0 <= k <= n ==> #[trigger] prev@[k] == lev(a@.take(i - 1), b@.take(k)),
                forall|k: int| 0 <= k < j ==> #[trigger] curr@[k] == lev(a@.take(i as int), b@.take(k)),
            decreases n + 1 - j,
        {
            let cost: usize = if a[i - 1] == b[j - 1] { 0 } else { 1 };
            proof {
                let ai = a@.take(i as int);
                let bj = b@.take(j as int);
                assert(ai.drop_last() =~= a@.take(i - 1));
                assert(bj.drop_last() =~= b@.take(j - 1));
                lemma_lev_bound(a@.take(i - 1), b@.take(j as int));
                lemma_lev_bound(ai, b@.take(j - 1));
                lemma_lev_bound(a@.take(i - 1), b@.take(j - 1));
            }
            let x = prev[j] + 1;
            let y = curr[j - 1] + 1;
            let z = prev[j - 1] + cost;
            let xy = if x <= y { x } else { y };
            let v = if xy <= z { xy } else { z };
            curr.push(v);
            j = j + 1;
        }
        prev = curr;
        i = i + 1;
    }
    proof {
        assert(a@.take(m as int) =~= a@);
        assert(b@.take(n as int) =~= b@);
    }
    prev[n]
}

/// Bytes of the UTF-8 encoding of `s`.
pub open spec fn utf8(s: Seq<char>) -> Seq<u8> {
    vstd::utf8::encode_utf8(s)
}

/// How an unknown key is normalised before comparison: lower-cased, `-` turned into `_`.
pub open spec fn normalized_key(s: Seq<char>) -> Seq<char> {
    replace_char(lowercase(s), '-', '_')
}

/// Edit distance and longer length (in bytes) of a normalised key and a candidate.
pub open spec fn key_gap(norm: Seq<u8>, cand: Seq<u8>) -> (nat, nat) {
    (lev(norm, cand), max_nat(norm.len(), cand.len()))
}

/// Similarity `1 - distance / length` is at least 0.4 (two equal empty strings count as similar).
pub open spec fn close_enough(g: (nat, nat)) -> bool {
    g.1 == 0 || 5 * g.0 <= 3 * g.1
}

/// Similarity of `g` is strictly higher than that of `h`.
pub open spec fn closer(g: (nat, nat), h: (nat, nat)) -> bool {
    g.0 * (if h.1 == 0 { 1 } else { h.1 }) < h.0 * (if g.1 == 0 { 1 } else { g.1 })
}

/// Index of the best candidate among the first `k`: the first one of highest
/// similarity among those that are close enough (byte strings of `usize::MAX`
/// bytes, which no string in memory reaches, are not measured).
pub open spec fn best_upto(norm: Seq<u8>, cands: Seq<Seq<char>>, k: int) -> Option<int>
    decreases k,
{
    if k <= 0 {
        None
    } else {
        let b = best_upto(norm, cands, k - 1);
        let g = key_gap(norm, utf8(cands[k - 1]));
        if norm.len() < usize::MAX && utf8(cands[k - 1]).len() < usize::MAX && close_enough(g) && (b is None || closer(g, key_gap(norm, utf8(cands[b.unwrap()])))) {
            Some(k - 1)
        } else {
            b
        }
    }
}

pub proof fn lemma_best_upto_range(norm: Seq<u8>, cands: Seq<Seq<char>>, k: int)
    ensures
        best_upto(norm, cands, k) matches Some(i) ==> 0 <= i < k,
    decreases k,
{
    if k > 0 {
        lemma_best_upto_range(norm, cands, k - 1);
    }
}

/// Distance and length for a candidate; `None` when a byte string is too long to measure.
fn gap(norm: &[u8], cand: &[u8]) -> (r: (usize, usize))
    requires
        norm@.len() < usize::MAX,
        cand@.len() < usize::MAX,
    ensures
        r.0 == key_gap(norm@, cand@).0,
        r.1 == key_gap(norm@, cand@).1,
        r.0 <= r.1,
{
    proof {
        lemma_lev_bound(norm@, cand@);
    }
    let d = edit_distance(norm, cand);
    let l = if norm.len() >= cand.len() { norm.len() } else { cand.len() };
    (d, l)
}

fn gap_closer(g: (usize, usize), h: (usize, usize)) -> (r: bool)
    ensures
        r == closer((g.0 as nat, g.1 as nat), (h.0 as nat, h.1 as nat)),
{
    let gl: u128 = if g.1 == 0 { 1 } else { g.1 as u128 };
    let hl: u128 = if h.1 == 0 { 1 } else { h.1 as u128 };
    let g0 = g.0 as u128;
    let h0 = h.0 as u128;
    proof {
        assert(g0 * hl <= 0xffff_ffff_ffff_ffff * 0xffff_ffff_ffff_ffff) by (nonlinear_arith)
            requires
                g0 <= 0xffff_ffff_ffff_ffff,
                hl <= 0xffff_ffff_ffff_ffff,
        ;
        assert(h0 * gl <= 0xffff_ffff_ffff_ffff * 0xffff_ffff_ffff_ffff) by (nonlinear_arith)
            requires
                h0 <= 0xffff_ffff_ffff_ffff,
                gl <= 0xffff_ffff_ffff_ffff,
        ;
    }
    g0 * hl < h0 * gl
}

/// The first candidate of highest similarity to the already normalised key `norm`
/// (its UTF-8 bytes), if that similarity is at least 0.4.
pub fn best_match_for_key<'a>(norm: &[u8], candidates: &[&'a str]) -> (r: Option<&'a str>)
    ensures
        ({
            let names = names(candidates@);
            &&& r is None <==> best_upto(norm@, names, names.len() as int) is None
            &&& r matches Some(s) ==> exists|i: int|
                best_upto(norm@, names, names.len() as int) == Some(i) && s == candidates@[i]
        }),
{
    let ghost names = names(candidates@);
    let mut best: Option<(usize, (usize, usize))> = None;
    let mut k: usize = 0;
    while k < candidates.len()
        invariant
            k <= candidates@.len(),
            names == crate::syntax::names(candidates@),
            match best {
                None => best_upto(norm@, names, k as int) is None,
                Some((i, g)) => best_upto(norm@, names, k as int) == Some(i as int) && i < k
                    && g.0 == key_gap(norm@, utf8(names[i as int])).0
                    && g.1 == key_gap(norm@, utf8(names[i as int])).1,
            },
        decreases candidates.len() - k,
    {
        let cand = candidates[k].as_bytes();
        if norm.len() < usize::MAX && cand.len() < usize::MAX {
            let g = gap(norm, cand);
            let better = match best {
                None => true,
                Some((_, h)) => gap_closer(g, h),
            };
            if (g.1 == 0 || 5 * (g.0 as u128) <= 3 * (g.1 as u128)) && better {
                best = Some((k, g));
            }
        }
        k = k + 1;
    }
    match best {
        None => None,
        Some((i, _)) => Some(candidates[i]),
    }
}

/// Find the best fuzzy match for `input` among `candidates` by normalised edit
/// distance: the first candidate of highest similarity, if its similarity is at
/// least 0.4.
pub fn find_best_match<'a>(input: &str, candidates: &[&'a str]) -> (r: Option<&'a str>)
    ensures
        ({
            let norm = utf8(normalized_key(input@));
            let names = names(candidates@);
            &&& r is None <==> best_upto(norm, names, names.len() as int) is None
            &&& r matches Some(s) ==> exists|i: int|
                best_upto(norm, names, names.len() as int) == Some(i) && s == candidates@[i]
        }),
        (forall|i: int| 0 <= i < input@.len() ==> crate::text::is_ascii_char(#[trigger] input@[i])) ==> lowercase(input@)
            == input@.map_values(|c: char| crate::text::ascii_lower(c)),
{
    let lower = to_lowercase(input);
    let norm_string = replace_char_exec(lower.as_str(), '-', '_');
    let norm = norm_string.as_str().as_bytes();
    best_match_for_key(norm, candidates)
}

/// The warning for an unknown key, with a suggestion when there is one.
pub open spec fn unknown_key_message(context: Seq<char>, key: Seq<char>, suggestion: Option<Seq<char>>) -> Seq<char> {
    match suggestion {
        Some(sug) => "unknown "@ + context + " key '"@ + key + "' -- did you mean '"@ + sug + "'?"@,
        None => "unknown "@ + context + " key '"@ + key + "'"@,
    }
}

/// The known key suggested for `key`, if any.
pub open spec fn suggestion_for(key: Seq<char>, known: Seq<Seq<char>>) -> Option<Seq<char>> {
    match best_upto(utf8(normalized_key(key)), known, known.len() as int) {
        Some(i) => Some(known[i]),
        None => None,
    }
}

/// One warning per key of `found` that is not among `known`, in order.
pub open spec fn unknown_key_warnings(found: Seq<Seq<char>>, known: Seq<Seq<char>>, context: Seq<char>) -> Seq<Seq<char>>
    decreases found.len(),
{
    if found.len() == 0 {
        seq![]
    } else {
        unknown_key_warnings(found.drop_last(), known, context) + (if known.contains(found.last()) {
            seq![]
        } else {
            seq![unknown_key_message(context, found.last(), suggestion_for(found.last(), known))]
        })
    }
}

pub open spec fn string_views(v: Seq<String>) -> Seq<Seq<char>> {
    v.map_values(|s: String| s@)
}

/// Check a list of found keys against known keys, returning warning messages.
pub fn check_unknown_keys(found: &[String], known: &[&str], context: &str) -> (r: Vec<String>)
    ensures
        string_views(r@) == unknown_key_warnings(string_views(found@), names(known@), context@),
{
    let mut warnings: Vec<String> = Vec::new();
    let mut k: usize = 0;
    while k < found.len()
        invariant
            k <= found@.len(),
            string_views(warnings@) == unknown_key_warnings(string_views(found@.take(k as int)), names(known@), context@),
        decreases found.len() - k,
    {
        let key = found[k].as_str();
        proof {
            assert(string_views(found@.take(k + 1)).drop_last() =~= string_views(found@.take(k as int)));
            assert(string_views(found@.take(k + 1)).last() == key@);
        }
        if !str_in(key, known) {
            let mut msg = String::new();
            msg.append("unknown ");
            msg.append(context);
            msg.append(" key '");
            msg.append(key);
            match find_best_match(key, known) {
                Some(sug) => {
                    msg.append("' -- did you mean '");
                    msg.append(sug);
                    msg.append("'?");
                    proof {
                        lemma_best_upto_range(utf8(normalized_key(key@)), names(known@), names(known@).len() as int);
                        let i = choose|i: int|
                            best_upto(utf8(normalized_key(key@)), names(known@), names(known@).len() as int) == Some(i)
                                && sug == known@[i];
                        assert(names(known@)[i] == sug@);
                        assert(suggestion_for(key@, names(known@)) == Some(sug@));
                    }
                },
                None => {
                    msg.append("'");
                },
            }
            proof {
                assert(msg@ =~= unknown_key_message(context@, key@, suggestion_for(key@, names(known@))));
            }
            warnings.push(msg);
        }
        proof {
            assert(string_views(warnings@) =~= unknown_key_warnings(string_views(found@.take(k + 1)), names(known@), context@));
        }
        k = k + 1;
    }
    proof {
        assert(found@.take(found@.len() as int) =~= found@);
    }
    warnings
}

} // verus!
