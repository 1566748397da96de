//! Two backends, head to head, and the one question a table of two rows does
//! not answer: *is the gap real?*
//!
//! A gap that does not clear the noise the campaign carries on the two rows is
//! not a result. The verdict is decided here, once, from numbers that
//! [`crate::analysis`] already published; the renderers spell the numbers and
//! decide nothing.
use vstd::prelude::*;

use crate::analysis::{clone_opt, Aggregate, Analysis, WorkloadAnalysis};
use crate::mode::Mode;
use crate::sample::opt_text;
use crate::stats::{abs_diff, Summary};
use crate::text::{owned, push_str, str_eq};

verus! {

/// One side of the pair a reader asked for, named the way the samples name
/// it: the backend slug and the mode, never a row index.
#[derive(Debug)]
pub struct Row {
    pub backend: String,
    pub mode: Mode,
}

/// The pair a reader asked for: two rows of one workload.
#[derive(Debug)]
pub struct Selection {
    pub workload: String,
    pub left: Row,
    pub right: Row,
}

/// What a number is measured in. A closed set: the renderers spell each one.
#[derive(Clone, Copy, Debug, PartialEq, Eq, Structural)]
pub enum Unit {
    Nanoseconds,
    Microseconds,
    Bytes,
}

/// Which side the campaign is entitled to call better; smaller is better on
/// every metric this project publishes.
#[derive(Clone, Copy, Debug, PartialEq, Eq, Structural)]
pub enum Verdict {
    Left,
    Right,
    /// The gap is inside the noise the campaign carries on these two rows:
    /// not *equal*, but *indistinguishable*.
    Tie,
    /// At least one of the two rows has no such number, or has a zero where
    /// a measurement should be. An absence is a published fact, and it is
    /// never a zero; a zero timing is not a fast one.
    Unmeasured,
}

/// A dispersion as a fraction of its median: `mad / median`, with a median
/// that is never zero (a zero median has a zero dispersion, kept as `0 / 1`).
#[derive(Clone, Copy, Debug, PartialEq, Eq, Structural)]
pub struct Dispersion {
    pub mad: u64,
    pub median: u64,
}

/// One row of the head-to-head: the same number, on both backends.
#[derive(Debug)]
pub struct Metric {
    /// Stable across renderings: `run`, `compute`, `startup`, `cpu`, `memory`,
    /// `build`, `binary`, `text`, `source`.
    pub key: String,
    pub label: String,
    pub unit: Unit,
    pub left: Option<u64>,
    pub right: Option<u64>,
    /// The dispersion this pair carries: the worse of the two rows'. `None` for
    /// a number that is not sampled, or when neither row has a known one.
    pub noise: Option<Dispersion>,
    pub verdict: Verdict,
}

/// Whether the two backends computed the same thing.
#[derive(Debug)]
pub struct Checksums {
    pub left: Option<u64>,
    pub right: Option<u64>,
    /// `None` when either side never reported one.
    pub same: Option<bool>,
    /// True whenever the two disagree, in any mode: a build flag buys no
    /// licence to compute different bits.
    pub violates_checksum_invariant: bool,
}

/// A backend's identity, on one side of the pair.
#[derive(Debug)]
pub struct Side {
    pub backend: String,
    pub backend_id: String,
    pub language: String,
    pub compiler: Option<String>,
    pub interpreter: Option<String>,
    pub mode: Mode,
    /// The architecture of the campaign this row was measured on, as its
    /// machine record says.
    pub architecture: String,
}

/// Two rows, and what may be said about the pair.
#[derive(Debug)]
pub struct Comparison {
    pub workload: String,
    pub left: Side,
    pub right: Side,
    pub metrics: Vec<Metric>,
    pub checksums: Checksums,
    /// The two rows come from two architectures, so every timing is meaningless
    /// as a comparison; the checksums are still obliged to agree.
    pub cross_architecture: bool,
}

/// Why a selection cannot be honoured.
#[derive(Debug)]
pub enum CompareError {
    /// The campaign never ran this workload.
    NoWorkload { workload: String },
    /// The campaign never measured this row.
    NoRow { backend: String, mode: Mode },
}

impl CompareError {
    pub open spec fn message_text(self) -> Seq<char> {
        match self {
            CompareError::NoWorkload { workload } => "this campaign has no workload "@ + workload@,
            CompareError::NoRow { backend, mode } => "this campaign has no "@ + backend@ + " in "@
                + mode.name() + " mode"@,
        }
    }

    /// What the error says to a reader.
    pub fn message(&self) -> (r: String)
        ensures
            r@ == self.message_text(),
    {
        match self {
            CompareError::NoWorkload { workload } => {
                let mut m = owned("this campaign has no workload ");
                push_str(&mut m, workload.as_str());
                m
            },
            CompareError::NoRow { backend, mode } => {
                let mut m = owned("this campaign has no ");
                push_str(&mut m, backend.as_str());
                push_str(&mut m, " in ");
                push_str(&mut m, mode.as_str());
                push_str(&mut m, " mode");
                m
            },
        }
    }
}

/// Below three samples the median absolute deviation is structurally zero, so
/// a dispersion drawn from two rounds is unknown, not small.
pub const MINIMUM_SAMPLES_FOR_DISPERSION: usize = 3;

/// The dispersion of a summary, as a fraction of its median.
pub open spec fn dispersion_of(s: Summary) -> Dispersion {
    if s.median == 0 {
        Dispersion { mad: 0, median: 1 }
    } else {
        Dispersion { mad: s.mad, median: s.median }
    }
}

/// The dispersion of a row, when it is known.
pub open spec fn known(s: Option<Summary>) -> Option<Dispersion> {
    match s {
        Some(s) => if s.n >= MINIMUM_SAMPLES_FOR_DISPERSION {
            Some(dispersion_of(s))
        } else {
            None
        },
        None => None,
    }
}

/// `a <= b`, as fractions.
pub open spec fn at_most(a: Dispersion, b: Dispersion) -> bool {
    a.mad * b.median <= b.mad * a.median
}

/// The larger of two dispersions.
pub open spec fn worse(a: Dispersion, b: Dispersion) -> Dispersion {
    if at_most(b, a) {
        a
    } else {
        b
    }
}

/// The bar a gap has to clear: the worse of the two known dispersions. An
/// unknown one cannot widen the bar, so it counts as none; two unknown ones
/// leave no bar at all.
pub open spec fn noise_of(left: Option<Summary>, right: Option<Summary>) -> Option<Dispersion> {
    match (known(left), known(right)) {
        (None, None) => None,
        (Some(a), None) => Some(worse(a, Dispersion { mad: 0, median: 1 })),
        (None, Some(b)) => Some(worse(Dispersion { mad: 0, median: 1 }, b)),
        (Some(a), Some(b)) => Some(worse(a, b)),
    }
}

/// The gap between two measured numbers is inside the noise: as a fraction of
/// the smaller number it is no larger than the dispersion. A zero on either
/// side leaves no gap to measure as a fraction.
pub open spec fn within_noise(left: u64, right: u64, noise: Option<Dispersion>) -> bool {
    let smaller = if left <= right {
        left
    } else {
        right
    };
    &&& left > 0
    &&& right > 0
    &&& noise matches Some(d)
    &&& abs_diff(left, right) * d.median <= d.mad * smaller
}

/// Who won, if anybody did.
pub open spec fn verdict_of(left: Option<u64>, right: Option<u64>, noise: Option<Dispersion>) -> Verdict {
    match (left, right) {
        (Some(l), Some(r)) => if l == r {
            Verdict::Tie
        } else if l == 0 || r == 0 {
            Verdict::Unmeasured
        } else if within_noise(l, r, noise) {
            Verdict::Tie
        } else if l < r {
            Verdict::Left
        } else {
            Verdict::Right
        },
        _ => Verdict::Unmeasured,
    }
}

/// The verdict seen from the other side.
pub open spec fn mirror(v: Verdict) -> Verdict {
    match v {
        Verdict::Left => Verdict::Right,
        Verdict::Right => Verdict::Left,
        other => other,
    }
}

/// What a metric is, as plain values.
pub type MetricView = (Seq<char>, Seq<char>, Unit, Option<u64>, Option<u64>, Option<Dispersion>, Verdict);

pub open spec fn metric_view(m: Metric) -> MetricView {
    (m.key@, m.label@, m.unit, m.left, m.right, m.noise, m.verdict)
}

pub open spec fn metric_views(ms: Seq<Metric>) -> Seq<MetricView> {
    ms.map_values(|m: Metric| metric_view(m))
}

/// A metric of two numbers, judged against `noise`.
pub open spec fn metric_of(
    key: Seq<char>,
    label: Seq<char>,
    unit: Unit,
    left: Option<u64>,
    right: Option<u64>,
    noise: Option<Dispersion>,
) -> MetricView {
    (key, label, unit, left, right, noise, verdict_of(left, right, noise))
}

pub open spec fn min_of_summary(s: Option<Summary>) -> Option<u64> {
    match s {
        Some(s) => Some(s.min),
        None => None,
    }
}

pub open spec fn median_of_summary(s: Option<Summary>) -> Option<u64> {
    match s {
        Some(s) => Some(s.median),
        None => None,
    }
}

/// A metric drawn from the minimum of N: timings and memory, whose noise can
/// only make them larger.
pub open spec fn smallest_of(
    key: Seq<char>,
    label: Seq<char>,
    unit: Unit,
    left: Option<Summary>,
    right: Option<Summary>,
) -> MetricView {
    metric_of(key, label, unit, min_of_summary(left), min_of_summary(right), noise_of(left, right))
}

/// The metrics of a pair, in the order they are published. The core count is
/// deliberately absent: busier is not better.
pub open spec fn metrics_of(l: Aggregate, r: Aggregate) -> Seq<MetricView> {
    seq![
        smallest_of("run"@, "Run (external wall-clock)"@, Unit::Nanoseconds, l.run_wall, r.run_wall),
        smallest_of(
            "compute"@,
            "Compute (the program's own clock)"@,
            Unit::Nanoseconds,
            l.run_elapsed,
            r.run_elapsed,
        ),
        smallest_of(
            "startup"@,
            "Startup (container + runtime init)"@,
            Unit::Nanoseconds,
            l.run_startup,
            r.run_startup,
        ),
        metric_of(
            "cpu"@,
            "CPU time (all cores)"@,
            Unit::Microseconds,
            median_of_summary(l.run_cpu_usec),
            median_of_summary(r.run_cpu_usec),
            noise_of(l.run_cpu_usec, r.run_cpu_usec),
        ),
        smallest_of(
            "memory"@,
            "Peak memory (the whole container)"@,
            Unit::Bytes,
            l.run_peak_bytes,
            r.run_peak_bytes,
        ),
        smallest_of(
            "build"@,
            "Compile (the compiler's own clock)"@,
            Unit::Nanoseconds,
            l.build_elapsed,
            r.build_elapsed,
        ),
        metric_of("binary"@, "Binary size"@, Unit::Bytes, l.binary_bytes, r.binary_bytes, None),
        metric_of("text"@, ".text size"@, Unit::Bytes, l.text_bytes, r.text_bytes, None),
        metric_of("source"@, "Source size"@, Unit::Bytes, l.source_bytes, r.source_bytes, None),
    ]
}

/// The checksums of a pair, as plain values.
pub open spec fn checksums_are(c: Checksums, left: Option<u64>, right: Option<u64>) -> bool {
    &&& c.left == left
    &&& c.right == right
    &&& c.same == match (left, right) {
        (Some(a), Some(b)) => Some(a == b),
        _ => None,
    }
    &&& c.violates_checksum_invariant == (c.same == Some(false))
}

/// The side of a pair an aggregate stands on.
pub open spec fn side_is(s: Side, a: Aggregate, architecture: Seq<char>) -> bool {
    &&& s.backend@ == a.backend@
    &&& s.backend_id@ == a.backend_id@
    &&& s.language@ == a.language@
    &&& opt_text(s.compiler) == opt_text(a.compiler)
    &&& opt_text(s.interpreter) == opt_text(a.interpreter)
    &&& s.mode == a.mode
    &&& s.architecture@ == architecture
}

/// The first workload of `analysis` called `name`.
pub open spec fn workload_index(workloads: Seq<WorkloadAnalysis>, name: Seq<char>) -> Option<int>
    decreases workloads.len(),
{
    if workloads.len() == 0 {
        None
    } else {
        match workload_index(workloads.drop_last(), name) {
            Some(i) => Some(i),
            None => if workloads.last().workload@ == name {
                Some(workloads.len() - 1)
            } else {
                None
            },
        }
    }
}

/// The first aggregate of `aggregates` that is the row `backend` in `mode`.
pub open spec fn row_index(aggregates: Seq<Aggregate>, backend: Seq<char>, mode: Mode) -> Option<int>
    decreases aggregates.len(),
{
    if aggregates.len() == 0 {
        None
    } else {
        match row_index(aggregates.drop_last(), backend, mode) {
            Some(i) => Some(i),
            None => if aggregates.last().backend@ == backend && aggregates.last().mode == mode {
                Some(aggregates.len() - 1)
            } else {
                None
            },
        }
    }
}

/// A known dispersion never has a zero median.
proof fn lemma_known_median(s: Option<Summary>)
    ensures
        known(s) matches Some(d) ==> d.median > 0,
{
}

/// Which of two dispersions is the worse does not depend on their order, as
/// fractions.
proof fn lemma_worse_swap(x: Dispersion, y: Dispersion)
    ensures
        at_most(worse(x, y), worse(y, x)),
        at_most(worse(y, x), worse(x, y)),
{
}

/// Two dispersions that are the same fraction draw the same bar.
proof fn lemma_same_fraction_same_bar(d: Dispersion, e: Dispersion, gap: int, smaller: int)
    requires
        d.median > 0,
        e.median > 0,
        at_most(d, e),
        at_most(e, d),
        gap >= 0,
        smaller >= 0,
    ensures
        (gap * d.median <= d.mad * smaller) == (gap * e.median <= e.mad * smaller),
{
    let (dm, dn, em, en) = (d.mad as int, d.median as int, e.mad as int, e.median as int);
    assert(dm * en == em * dn);
    assert((gap * dn <= dm * smaller) ==> (gap * en <= em * smaller)) by (nonlinear_arith)
        requires
            dm * en == em * dn,
            dn > 0,
            en > 0,
            gap >= 0,
            smaller >= 0,
    ;
    assert((gap * en <= em * smaller) ==> (gap * dn <= dm * smaller)) by (nonlinear_arith)
        requires
            dm * en == em * dn,
            dn > 0,
            en > 0,
            gap >= 0,
            smaller >= 0,
    ;
}

/// Two dispersions, both absent or both present and the same fraction.
pub open spec fn same_noise(a: Option<Dispersion>, b: Option<Dispersion>) -> bool {
    match (a, b) {
        (None, None) => true,
        (Some(x), Some(y)) => at_most(x, y) && at_most(y, x),
        _ => false,
    }
}

/// The bar two rows draw does not depend on which side each stands on.
pub proof fn lemma_noise_is_symmetric(a: Option<Summary>, b: Option<Summary>)
    ensures
        same_noise(noise_of(b, a), noise_of(a, b)),
{
    let zero = Dispersion { mad: 0, median: 1 };
    match (known(a), known(b)) {
        (Some(x), Some(y)) => lemma_worse_swap(x, y),
        (Some(x), None) => lemma_worse_swap(x, zero),
        (None, Some(y)) => lemma_worse_swap(zero, y),
        _ => {},
    }
}

/// Swapping the two rows swaps the numbers and the verdict of a metric, and
/// changes nothing else: a gap inside the noise one way is inside it the
/// other way.
pub proof fn lemma_verdict_is_symmetric(left: Option<u64>, right: Option<u64>, a: Option<Summary>, b: Option<Summary>)
    ensures
        verdict_of(right, left, noise_of(b, a)) == mirror(verdict_of(left, right, noise_of(a, b))),
{
    lemma_known_median(a);
    lemma_known_median(b);
    let zero = Dispersion { mad: 0, median: 1 };
    match (known(a), known(b)) {
        (Some(x), Some(y)) => lemma_worse_swap(x, y),
        (Some(x), None) => lemma_worse_swap(x, zero),
        (None, Some(y)) => lemma_worse_swap(zero, y),
        _ => {},
    }
    if let (Some(l), Some(r)) = (left, right) {
        if l != r && l > 0 && r > 0 {
            let gap = abs_diff(l, r) as int;
            let smaller = if l <= r { l as int } else { r as int };
            assert(abs_diff(r, l) == abs_diff(l, r));
            match (noise_of(a, b), noise_of(b, a)) {
                (Some(d), Some(e)) => {
                    lemma_same_fraction_same_bar(d, e, gap, smaller);
                },
                _ => {},
            }
        }
    }
}

/// Swapping the two rows of a comparison swaps every metric's two numbers
/// and its verdict, and keeps its key, label, unit and order.
pub proof fn lemma_comparison_is_symmetric(l: Aggregate, r: Aggregate)
    ensures
        metrics_of(r, l).len() == metrics_of(l, r).len(),
        forall|k: int|
            0 <= k < metrics_of(l, r).len() ==> {
                let m = #[trigger] metrics_of(l, r)[k];
                let n = metrics_of(r, l)[k];
                &&& n.0 == m.0
                &&& n.1 == m.1
                &&& n.2 == m.2
                &&& n.3 == m.4
                &&& n.4 == m.3
                &&& same_noise(n.5, m.5)
                &&& n.6 == mirror(m.6)
            },
{
    lemma_noise_is_symmetric(l.run_wall, r.run_wall);
    lemma_noise_is_symmetric(l.run_elapsed, r.run_elapsed);
    lemma_noise_is_symmetric(l.run_startup, r.run_startup);
    lemma_noise_is_symmetric(l.run_cpu_usec, r.run_cpu_usec);
    lemma_noise_is_symmetric(l.run_peak_bytes, r.run_peak_bytes);
    lemma_noise_is_symmetric(l.build_elapsed, r.build_elapsed);
    lemma_verdict_is_symmetric(
        min_of_summary(l.run_wall),
        min_of_summary(r.run_wall),
        l.run_wall,
        r.run_wall,
    );
    lemma_verdict_is_symmetric(
        min_of_summary(l.run_elapsed),
        min_of_summary(r.run_elapsed),
        l.run_elapsed,
        r.run_elapsed,
    );
    lemma_verdict_is_symmetric(
        min_of_summary(l.run_startup),
        min_of_summary(r.run_startup),
        l.run_startup,
        r.run_startup,
    );
    lemma_verdict_is_symmetric(
        median_of_summary(l.run_cpu_usec),
        median_of_summary(r.run_cpu_usec),
        l.run_cpu_usec,
        r.run_cpu_usec,
    );
    lemma_verdict_is_symmetric(
        min_of_summary(l.run_peak_bytes),
        min_of_summary(r.run_peak_bytes),
        l.run_peak_bytes,
        r.run_peak_bytes,
    );
    lemma_verdict_is_symmetric(
        min_of_summary(l.build_elapsed),
        min_of_summary(r.build_elapsed),
        l.build_elapsed,
        r.build_elapsed,
    );
    lemma_verdict_is_symmetric(l.binary_bytes, r.binary_bytes, None, None);
    lemma_verdict_is_symmetric(l.text_bytes, r.text_bytes, None, None);
    lemma_verdict_is_symmetric(l.source_bytes, r.source_bytes, None, None);
}

fn find_workload<'a>(analysis: &'a Analysis, name: &str) -> (r: Option<&'a WorkloadAnalysis>)
    ensures
        match workload_index(analysis.workloads@, name@) {
            Some(i) => r == Some(&analysis.workloads@[i]),
            None => r is None,
        },
{
    let mut i: usize = 0;
    while i < analysis.workloads.len()
        invariant
            i <= analysis.workloads@.len(),
            workload_index(analysis.workloads@.take(i as int), name@) is None,
        decreases analysis.workloads.len() - i,
    {
        let ghost t = analysis.workloads@.take(i + 1);
        assert(t.drop_last() =~= analysis.workloads@.take(i as int));
        if str_eq(analysis.workloads[i].workload.as_str(), name) {
            proof {
                lemma_workload_index_prefix(analysis.workloads@, name@, i + 1);
            }
            return Some(&analysis.workloads[i]);
        }
        i += 1;
    }
    assert(analysis.workloads@.take(i as int) =~= analysis.workloads@);
    None
}

/// A first match in a prefix is the first match in the whole.
proof fn lemma_workload_index_prefix(workloads: Seq<WorkloadAnalysis>, name: Seq<char>, k: int)
    requires
        0 <= k <= workloads.len(),
        workload_index(workloads.take(k), name) is Some,
    ensures
        workload_index(workloads, name) == workload_index(workloads.take(k), name),
    decreases workloads.len() - k,
{
    if k < workloads.len() {
        let t = workloads.take(k + 1);
        assert(t.drop_last() =~= workloads.take(k));
        lemma_workload_index_prefix(workloads, name, k + 1);
    } else {
        assert(workloads.take(k) =~= workloads);
    }
}

/// A first match in a prefix is the first match in the whole.
proof fn lemma_row_index_prefix(aggregates: Seq<Aggregate>, backend: Seq<char>, mode: Mode, k: int)
    requires
        0 <= k <= aggregates.len(),
        row_index(aggregates.take(k), backend, mode) is Some,
    ensures
        row_index(aggregates, backend, mode) == row_index(aggregates.take(k), backend, mode),
    decreases aggregates.len() - k,
{
    if k < aggregates.len() {
        let t = aggregates.take(k + 1);
        assert(t.drop_last() =~= aggregates.take(k));
        lemma_row_index_prefix(aggregates, backend, mode, k + 1);
    } else {
        assert(aggregates.take(k) =~= aggregates);
    }
}

fn find_row<'a>(aggregates: &'a Vec<Aggregate>, row: &Row) -> (r: Option<&'a Aggregate>)
    ensures
        match row_index(aggregates@, row.backend@, row.mode) {
            Some(i) => r == Some(&aggregates@[i]),
            None => r is None,
        },
{
    let mut i: usize = 0;
    while i < aggregates.len()
        invariant
            i <= aggregates@.len(),
            row_index(aggregates@.take(i as int), row.backend@, row.mode) is None,
        decreases aggregates.len() - i,
    {
        let ghost t = aggregates@.take(i + 1);
        assert(t.drop_last() =~= aggregates@.take(i as int));
        if str_eq(aggregates[i].backend.as_str(), row.backend.as_str()) && aggregates[i].mode
            == row.mode {
            proof {
                lemma_row_index_prefix(aggregates@, row.backend@, row.mode, i + 1);
            }
            return Some(&aggregates[i]);
        }
        i += 1;
    }
    assert(aggregates@.take(i as int) =~= aggregates@);
    None
}

fn side(aggregate: &Aggregate, architecture: &str) -> (r: Side)
    ensures
        side_is(r, *aggregate, architecture@),
{
    Side {
        backend: aggregate.backend.clone(),
        backend_id: aggregate.backend_id.clone(),
        language: aggregate.language.clone(),
        compiler: clone_opt(&aggregate.compiler),
        interpreter: clone_opt(&aggregate.interpreter),
        mode: aggregate.mode,
        architecture: owned(architecture),
    }
}

fn dispersion(s: Summary) -> (r: Dispersion)
    ensures
        r == dispersion_of(s),
{
    if s.median == 0 {
        Dispersion { mad: 0, median: 1 }
    } else {
        Dispersion { mad: s.mad, median: s.median }
    }
}

fn known_dispersion(s: Option<Summary>) -> (r: Option<Dispersion>)
    ensures
        r == known(s),
{
    match s {
        Some(s) => if s.n >= MINIMUM_SAMPLES_FOR_DISPERSION {
            Some(dispersion(s))
        } else {
            None
        },
        None => None,
    }
}

/// The product of two `u64`s fits in a `u128`.
proof fn lemma_product_fits(x: u64, y: u64)
    ensures
        0 <= (x as int) * (y as int) <= (u64::MAX as int) * (u64::MAX as int),
        (u64::MAX as int) * (u64::MAX as int) < u128::MAX,
{
    assert(0 <= (x as int) * (y as int) <= (u64::MAX as int) * (u64::MAX as int)) by (nonlinear_arith)
        requires
            0 <= x <= u64::MAX,
            0 <= y <= u64::MAX,
    ;
}

fn worse_of(a: Dispersion, b: Dispersion) -> (r: Dispersion)
    ensures
        r == worse(a, b),
{
    proof {
        lemma_product_fits(b.mad, a.median);
        lemma_product_fits(a.mad, b.median);
    }
    if (b.mad as u128) * (a.median as u128) <= (a.mad as u128) * (b.median as u128) {
        a
    } else {
        b
    }
}

/// The bar a gap between `left` and `right` has to clear.
pub fn noise(left: Option<Summary>, right: Option<Summary>) -> (r: Option<Dispersion>)
    ensures
        r == noise_of(left, right),
{
    let none = Dispersion { mad: 0, median: 1 };
    match (known_dispersion(left), known_dispersion(right)) {
        (None, None) => None,
        (Some(a), None) => Some(worse_of(a, none)),
        (None, Some(b)) => Some(worse_of(none, b)),
        (Some(a), Some(b)) => Some(worse_of(a, b)),
    }
}

/// Who won, if anybody did.
pub fn verdict(left: Option<u64>, right: Option<u64>, noise: Option<Dispersion>) -> (r: Verdict)
    ensures
        r == verdict_of(left, right, noise),
{
    match (left, right) {
        (Some(l), Some(r)) => {
            if l == r {
                return Verdict::Tie;
            }
            // A zero is no timing: no ratio can be taken of it, and it wins nothing.
            if l == 0 || r == 0 {
                return Verdict::Unmeasured;
            }
            {
                if let Some(d) = noise {
                    let gap: u128 = if l >= r {
                        (l - r) as u128
                    } else {
                        (r - l) as u128
                    };
                    let smaller: u128 = if l <= r {
                        l as u128
                    } else {
                        r as u128
                    };
                    proof {
                        lemma_product_fits(gap as u64, d.median);
                        lemma_product_fits(d.mad, smaller as u64);
                    }
                    if gap * (d.median as u128) <= (d.mad as u128) * smaller {
                        return Verdict::Tie;
                    }
                }
            }
            if l < r {
                Verdict::Left
            } else {
                Verdict::Right
            }
        },
        _ => Verdict::Unmeasured,
    }
}

/// What a reader is shown beside two numbers, kept as fractions of integers:
/// the ratio `right / left`, and the gap `|left - right|` over the smaller one.
#[derive(Clone, Copy, Debug, PartialEq, Eq, Structural)]
pub struct Fractions {
    pub ratio_numerator: u64,
    pub ratio_denominator: u64,
    pub gap_numerator: u64,
    pub gap_denominator: u64,
}

/// The fractions of two numbers, when both exist and neither is zero: a zero
/// is no denominator, and a zero timing is not a fast one.
pub open spec fn fractions_of(left: Option<u64>, right: Option<u64>) -> Option<Fractions> {
    match (left, right) {
        (Some(l), Some(r)) => if l > 0 && r > 0 {
            Some(
                Fractions {
                    ratio_numerator: r,
                    ratio_denominator: l,
                    gap_numerator: abs_diff(l, r),
                    gap_denominator: if l <= r {
                        l
                    } else {
                        r
                    },
                },
            )
        } else {
            None
        },
        _ => None,
    }
}

/// The ratio and the gap of two numbers, as fractions.
pub fn fractions(left: Option<u64>, right: Option<u64>) -> (r: Option<Fractions>)
    ensures
        r == fractions_of(left, right),
        // Every fraction has a denominator that is not zero.
        r matches Some(f) ==> f.ratio_denominator > 0 && f.gap_denominator > 0,
{
    match (left, right) {
        (Some(l), Some(r)) => {
            if l > 0 && r > 0 {
                let gap = if l >= r {
                    l - r
                } else {
                    r - l
                };
                let smaller = if l <= r {
                    l
                } else {
                    r
                };
                Some(
                    Fractions {
                        ratio_numerator: r,
                        ratio_denominator: l,
                        gap_numerator: gap,
                        gap_denominator: smaller,
                    },
                )
            } else {
                None
            }
        },
        _ => None,
    }
}

/// Swapped, a ratio turns into its reciprocal and a gap stays the same.
pub proof fn lemma_fractions_are_symmetric(left: Option<u64>, right: Option<u64>)
    ensures
        fractions_of(right, left) is Some == fractions_of(left, right) is Some,
        fractions_of(left, right) matches Some(f) ==> {
            let g = fractions_of(right, left)->0;
            &&& g.ratio_numerator == f.ratio_denominator
            &&& g.ratio_denominator == f.ratio_numerator
            &&& g.gap_numerator == f.gap_numerator
            &&& g.gap_denominator == f.gap_denominator
        },
{
}

/// A verdict names a side only where both numbers can be taken as fractions:
/// a missing number and a zero win nothing.
pub proof fn lemma_a_winner_has_fractions(left: Option<u64>, right: Option<u64>, noise: Option<Dispersion>)
    ensures
        verdict_of(left, right, noise) is Left || verdict_of(left, right, noise) is Right
            ==> fractions_of(left, right) is Some,
{
}

fn metric(
    key: &str,
    label: &str,
    unit: Unit,
    left: Option<u64>,
    right: Option<u64>,
    noise: Option<Dispersion>,
) -> (r: Metric)
    ensures
        metric_view(r) == metric_of(key@, label@, unit, left, right, noise),
{
    Metric {
        key: owned(key),
        label: owned(label),
        unit,
        left,
        right,
        noise,
        verdict: verdict(left, right, noise),
    }
}

fn min_value(s: Option<Summary>) -> (r: Option<u64>)
    ensures
        r == min_of_summary(s),
{
    match s {
        Some(s) => Some(s.min),
        None => None,
    }
}

fn median_value(s: Option<Summary>) -> (r: Option<u64>)
    ensures
        r == median_of_summary(s),
{
    match s {
        Some(s) => Some(s.median),
        None => None,
    }
}

fn smallest(key: &str, label: &str, unit: Unit, left: Option<Summary>, right: Option<Summary>) -> (r:
    Metric)
    ensures
        metric_view(r) == smallest_of(key@, label@, unit, left, right),
{
    metric(key, label, unit, min_value(left), min_value(right), noise(left, right))
}

fn metrics(l: &Aggregate, r: &Aggregate) -> (m: Vec<Metric>)
    ensures
        metric_views(m@) == metrics_of(*l, *r),
{
    let mut m: Vec<Metric> = Vec::new();
    m.push(smallest("run", "Run (external wall-clock)", Unit::Nanoseconds, l.run_wall, r.run_wall));
    m.push(
        smallest(
            "compute",
            "Compute (the program's own clock)",
            Unit::Nanoseconds,
            l.run_elapsed,
            r.run_elapsed,
        ),
    );
    m.push(
        smallest(
            "startup",
            "Startup (container + runtime init)",
            Unit::Nanoseconds,
            l.run_startup,
            r.run_startup,
        ),
    );
    // The median, like the table's CPU column: total CPU time is the work the
    // machine did, and its minimum would flatter whichever backend got a quiet core.
    m.push(
        metric(
            "cpu",
            "CPU time (all cores)",
            Unit::Microseconds,
            median_value(l.run_cpu_usec),
            median_value(r.run_cpu_usec),
            noise(l.run_cpu_usec, r.run_cpu_usec),
        ),
    );
    m.push(
        smallest(
            "memory",
            "Peak memory (the whole container)",
            Unit::Bytes,
            l.run_peak_bytes,
            r.run_peak_bytes,
        ),
    );
    m.push(
        smallest(
            "build",
            "Compile (the compiler's own clock)",
            Unit::Nanoseconds,
            l.build_elapsed,
            r.build_elapsed,
        ),
    );
    // Not sampled: one integer read off the image, so no tolerance.
    m.push(metric("binary", "Binary size", Unit::Bytes, l.binary_bytes, r.binary_bytes, None));
    m.push(metric("text", ".text size", Unit::Bytes, l.text_bytes, r.text_bytes, None));
    // The source is the language's: two rows compiling one file tie, honestly.
    m.push(metric("source", "Source size", Unit::Bytes, l.source_bytes, r.source_bytes, None));
    assert(metric_views(m@) =~= metrics_of(*l, *r));
    m
}

fn checksums(left: &Aggregate, right: &Aggregate) -> (r: Checksums)
    ensures
        checksums_are(r, left.checksum, right.checksum),
{
    let same = match (left.checksum, right.checksum) {
        (Some(a), Some(b)) => Some(a == b),
        _ => None,
    };
    let violates = match same {
        Some(s) => !s,
        None => false,
    };
    Checksums { left: left.checksum, right: right.checksum, same, violates_checksum_invariant: violates }
}

/// What comparing `selection` across two campaigns gives, given the rows found.
pub open spec fn comparison_is(c: Comparison, l: Aggregate, r: Aggregate, workload: Seq<char>, left_arch: Seq<char>, right_arch: Seq<char>) -> bool {
    &&& c.workload@ == workload
    &&& c.cross_architecture == (left_arch != right_arch)
    &&& side_is(c.left, l, left_arch)
    &&& side_is(c.right, r, right_arch)
    &&& metric_views(c.metrics@) == metrics_of(l, r)
    &&& checksums_are(c.checksums, l.checksum, r.checksum)
}

/// Swapping the two sides of a comparison mirrors it: the two sides trade
/// places, every metric trades its two numbers and keeps its key, label, unit
/// and place, its noise is the same fraction, its ratio turns into the
/// reciprocal, its gap is unchanged, and its verdict is mirrored; the checksums
/// trade places and agree or disagree as before; a cross-architecture pair is
/// still one.
pub proof fn lemma_swapped_comparison(
    c1: Comparison,
    c2: Comparison,
    l: Aggregate,
    r: Aggregate,
    workload: Seq<char>,
    left_arch: Seq<char>,
    right_arch: Seq<char>,
)
    requires
        comparison_is(c1, l, r, workload, left_arch, right_arch),
        comparison_is(c2, r, l, workload, right_arch, left_arch),
    ensures
        c2.cross_architecture == c1.cross_architecture,
        c2.left.backend@ == c1.right.backend@ && c2.right.backend@ == c1.left.backend@,
        c2.left.mode == c1.right.mode && c2.right.mode == c1.left.mode,
        c2.left.architecture@ == c1.right.architecture@ && c2.right.architecture@
            == c1.left.architecture@,
        c2.checksums.left == c1.checksums.right && c2.checksums.right == c1.checksums.left,
        c2.checksums.same == c1.checksums.same,
        c2.checksums.violates_checksum_invariant == c1.checksums.violates_checksum_invariant,
        c2.metrics@.len() == c1.metrics@.len(),
        forall|k: int|
            0 <= k < c1.metrics@.len() ==> {
                let m = #[trigger] c1.metrics@[k];
                let n = c2.metrics@[k];
                &&& n.key@ == m.key@
                &&& n.label@ == m.label@
                &&& n.unit == m.unit
                &&& n.left == m.right
                &&& n.right == m.left
                &&& same_noise(n.noise, m.noise)
                &&& n.verdict == mirror(m.verdict)
                &&& fractions_of(n.left, n.right) is Some == fractions_of(m.left, m.right) is Some
                &&& (fractions_of(m.left, m.right) matches Some(f) ==> {
                    let g = fractions_of(n.left, n.right)->0;
                    &&& g.ratio_numerator == f.ratio_denominator
                    &&& g.ratio_denominator == f.ratio_numerator
                    &&& g.gap_numerator == f.gap_numerator
                    &&& g.gap_denominator == f.gap_denominator
                })
            },
{
    lemma_comparison_is_symmetric(l, r);
    assert forall|k: int| 0 <= k < c1.metrics@.len() implies {
        let m = #[trigger] c1.metrics@[k];
        let n = c2.metrics@[k];
        &&& n.key@ == m.key@
        &&& n.label@ == m.label@
        &&& n.unit == m.unit
        &&& n.left == m.right
        &&& n.right == m.left
        &&& same_noise(n.noise, m.noise)
        &&& n.verdict == mirror(m.verdict)
        &&& fractions_of(n.left, n.right) is Some == fractions_of(m.left, m.right) is Some
        &&& (fractions_of(m.left, m.right) matches Some(f) ==> {
            let g = fractions_of(n.left, n.right)->0;
            &&& g.ratio_numerator == f.ratio_denominator
            &&& g.ratio_denominator == f.ratio_numerator
            &&& g.gap_numerator == f.gap_numerator
            &&& g.gap_denominator == f.gap_denominator
        })
    } by {
        assert(metric_views(c1.metrics@)[k] == metric_view(c1.metrics@[k]));
        assert(metric_views(c2.metrics@)[k] == metric_view(c2.metrics@[k]));
        lemma_fractions_are_symmetric(c1.metrics@[k].left, c1.metrics@[k].right);
    }
}

/// The smallest value of a summary, when there is one.
pub open spec fn least(s: Option<Summary>) -> Option<u64> {
    match s {
        Some(s) => Some(s.min),
        None => None,
    }
}

/// What each row of a comparison carries. The timings, and the memory, are the
/// minimum of N: noise on a busy machine only makes them larger. CPU time is
/// the median: its minimum would flatter whichever backend happened to get a
/// quiet core. Sizes are single numbers read off the image.
pub proof fn lemma_what_each_row_carries(
    c: Comparison,
    l: Aggregate,
    r: Aggregate,
    workload: Seq<char>,
    left_arch: Seq<char>,
    right_arch: Seq<char>,
)
    requires
        comparison_is(c, l, r, workload, left_arch, right_arch),
    ensures
        c.metrics@.len() == 9,
        c.metrics@[0].key@ == "run"@ && c.metrics@[0].left == least(l.run_wall)
            && c.metrics@[0].right == least(r.run_wall),
        c.metrics@[1].key@ == "compute"@ && c.metrics@[1].left == least(l.run_elapsed)
            && c.metrics@[1].right == least(r.run_elapsed),
        c.metrics@[2].key@ == "startup"@ && c.metrics@[2].left == least(l.run_startup)
            && c.metrics@[2].right == least(r.run_startup),
        c.metrics@[3].key@ == "cpu"@,
        c.metrics@[3].left == match l.run_cpu_usec {
            Some(s) => Some(s.median),
            None => None::<u64>,
        },
        c.metrics@[3].right == match r.run_cpu_usec {
            Some(s) => Some(s.median),
            None => None::<u64>,
        },
        c.metrics@[4].key@ == "memory"@ && c.metrics@[4].left == least(l.run_peak_bytes)
            && c.metrics@[4].right == least(r.run_peak_bytes),
        c.metrics@[5].key@ == "build"@ && c.metrics@[5].left == least(l.build_elapsed)
            && c.metrics@[5].right == least(r.build_elapsed),
        c.metrics@[6].key@ == "binary"@ && c.metrics@[6].left == l.binary_bytes
            && c.metrics@[6].right == r.binary_bytes,
        c.metrics@[7].key@ == "text"@ && c.metrics@[7].left == l.text_bytes
            && c.metrics@[7].right == r.text_bytes,
        c.metrics@[8].key@ == "source"@ && c.metrics@[8].left == l.source_bytes
            && c.metrics@[8].right == r.source_bytes,
{
    assert(metrics_of(l, r).len() == 9);
    assert(metric_views(c.metrics@).len() == c.metrics@.len());
    assert forall|k: int| 0 <= k < 9 implies metric_views(c.metrics@)[k] == metric_view(
        #[trigger] c.metrics@[k],
    ) by {}
}

/// Compare a row of one campaign with a row of another, including two
/// campaigns from two architectures: the result then says so, and that flag is
/// the point.
///
/// Fails only on a selection the campaigns cannot honour: a workload either
/// never ran, or a row it never measured, reported in that order.
pub fn compare_across(left_analysis: &Analysis, right_analysis: &Analysis, selection: &Selection) -> (r:
    Result<Comparison, CompareError>)
    ensures
        match (
            workload_index(left_analysis.workloads@, selection.workload@),
            workload_index(right_analysis.workloads@, selection.workload@),
        ) {
            (Some(a), Some(b)) => {
                let la = left_analysis.workloads@[a];
                let ra = right_analysis.workloads@[b];
                match (
                    row_index(la.aggregates@, selection.left.backend@, selection.left.mode),
                    row_index(ra.aggregates@, selection.right.backend@, selection.right.mode),
                ) {
                    (Some(i), Some(j)) => r matches Ok(c) && comparison_is(
                        c,
                        la.aggregates@[i],
                        ra.aggregates@[j],
                        la.workload@,
                        left_analysis.architecture@,
                        right_analysis.architecture@,
                    ),
                    (None, _) => r matches Err(CompareError::NoRow { backend, mode }) && backend@
                        == selection.left.backend@ && mode == selection.left.mode,
                    (Some(_), None) => r matches Err(CompareError::NoRow { backend, mode })
                        && backend@ == selection.right.backend@ && mode == selection.right.mode,
                }
            },
            _ => r matches Err(CompareError::NoWorkload { workload }) && workload@
                == selection.workload@,
        },
{
    let left_workload = match find_workload(left_analysis, selection.workload.as_str()) {
        Some(w) => w,
        None => {
            return Err(CompareError::NoWorkload { workload: selection.workload.clone() });
        },
    };
    let right_workload = match find_workload(right_analysis, selection.workload.as_str()) {
        Some(w) => w,
        None => {
            return Err(CompareError::NoWorkload { workload: selection.workload.clone() });
        },
    };
    let left = match find_row(&left_workload.aggregates, &selection.left) {
        Some(a) => a,
        None => {
            return Err(
                CompareError::NoRow {
                    backend: selection.left.backend.clone(),
                    mode: selection.left.mode,
                },
            );
        },
    };
    let right = match find_row(&right_workload.aggregates, &selection.right) {
        Some(a) => a,
        None => {
            return Err(
                CompareError::NoRow {
                    backend: selection.right.backend.clone(),
                    mode: selection.right.mode,
                },
            );
        },
    };
    let cross = !str_eq(left_analysis.architecture.as_str(), right_analysis.architecture.as_str());
    Ok(
        Comparison {
            workload: left_workload.workload.clone(),
            left: side(left, left_analysis.architecture.as_str()),
            right: side(right, right_analysis.architecture.as_str()),
            metrics: metrics(left, right),
            checksums: checksums(left, right),
            cross_architecture: cross,
        },
    )
}

/// Compare two rows of one campaign.
pub fn compare(analysis: &Analysis, selection: &Selection) -> (r: Result<Comparison, CompareError>)
    ensures
        match workload_index(analysis.workloads@, selection.workload@) {
            Some(a) => {
                let w = analysis.workloads@[a];
                match (
                    row_index(w.aggregates@, selection.left.backend@, selection.left.mode),
                    row_index(w.aggregates@, selection.right.backend@, selection.right.mode),
                ) {
                    (Some(i), Some(j)) => r matches Ok(c) && !c.cross_architecture && comparison_is(
                        c,
                        w.aggregates@[i],
                        w.aggregates@[j],
                        w.workload@,
                        analysis.architecture@,
                        analysis.architecture@,
                    ),
                    (None, _) => r matches Err(CompareError::NoRow { backend, mode }) && backend@
                        == selection.left.backend@ && mode == selection.left.mode,
                    (Some(_), None) => r matches Err(CompareError::NoRow { backend, mode })
                        && backend@ == selection.right.backend@ && mode == selection.right.mode,
                }
            },
            None => r matches Err(CompareError::NoWorkload { workload }) && workload@
                == selection.workload@,
        },
{
    compare_across(analysis, analysis, selection)
}

} // verus!
