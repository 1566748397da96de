//! The numbers, before anybody formats them.
//!
//! Bucketing samples into `(workload, backend, mode)` and summarizing each
//! bucket is the one piece of arithmetic here with more than one consumer: the
//! Markdown report formats it, and the website re-sorts and re-plots it. Both
//! call [`analyze`]. Everything here is derived and can be recomputed from
//! `samples.ndjson`.
use vstd::prelude::*;

use crate::machine::{Field, field_views};
use crate::mode::Mode;
use crate::sample::{opt_text, Campaign, Phase, Recording, Sample, Stage};
use crate::stats::{summarize, summary_of, Summary};
use crate::text::{owned, push_char, push_str, views};
use crate::workload::Workload;

verus! {

/// What the caller is allowed to vary about an analysis.
#[derive(Clone, Copy, Debug, PartialEq, Eq, Structural)]
pub struct Options {
    /// Warmup samples are always recorded; this decides whether they are
    /// aggregated.
    pub include_warmup: bool,
}

impl Default for Options {
    fn default() -> (r: Options)
        ensures
            !r.include_warmup,
    {
        Options { include_warmup: false }
    }
}

/// One quarantined `(backend, mode)`, with the slugs a renderer cannot derive
/// for itself.
pub struct Failure {
    pub workload: String,
    pub backend: String,
    pub backend_id: String,
    pub language: String,
    pub compiler: Option<String>,
    pub interpreter: Option<String>,
    pub description: String,
    pub comments: Option<String>,
    pub mode: Mode,
    pub stage: Stage,
    pub phase: Option<Phase>,
    pub round: Option<u32>,
    pub error: String,
}

/// A backend's identity card, as its manifest declared it.
pub struct Backend {
    /// `mandelbrot-python-cython-cpython`: the anchor of this backend's section.
    pub id: String,
    pub workload: String,
    pub backend: String,
    pub language: String,
    pub compiler: Option<String>,
    pub interpreter: Option<String>,
    pub description: String,
    pub comments: Option<String>,
    /// Bytes of the kernel this backend runs.
    pub source_bytes: Option<u64>,
}

/// Everything the campaign learned about one `(workload, backend, mode)`, in
/// native units.
pub struct Aggregate {
    pub workload: String,
    pub backend: String,
    /// This backend's entry in [`Analysis::backends`].
    pub backend_id: String,
    pub language: String,
    pub compiler: Option<String>,
    pub interpreter: Option<String>,
    pub mode: Mode,
    /// External wall-clock of the run: the headline of the run column.
    pub run_wall: Option<Summary>,
    /// The program's own clock: compute alone.
    pub run_elapsed: Option<Summary>,
    /// `wall - elapsed`, per sample; never the difference of two minima.
    pub run_startup: Option<Summary>,
    pub run_cpu_usec: Option<Summary>,
    /// Cores kept busy, in thousandths of a core, per sample. The median is the
    /// statistic to quote.
    pub run_cores: Option<Summary>,
    /// The peak memory the container needed, min-of-N.
    pub run_peak_bytes: Option<Summary>,
    /// The compiler's own elapsed time, from inside the container.
    pub build_elapsed: Option<Summary>,
    pub build_cores: Option<Summary>,
    pub build_peak_bytes: Option<Summary>,
    /// The thread count the harness handed every kernel of this campaign.
    pub cpu: usize,
    pub source_bytes: Option<u64>,
    pub binary_bytes: Option<u64>,
    pub binary_stripped_bytes: Option<u64>,
    pub text_bytes: Option<u64>,
    pub checksum: Option<u64>,
    /// This row's distance from the workload's reference. `i128`, because two
    /// `u64` checksums can differ by more than an `i64` holds.
    pub checksum_delta: Option<i128>,
}

pub struct WorkloadAnalysis {
    pub workload: String,
    /// The value every run of this workload must agree on, in every mode: all
    /// of them are strict IEEE 754.
    pub strict_checksum: Option<u64>,
    /// Fastest first, on the minimum wall-clock.
    pub aggregates: Vec<Aggregate>,
}

/// One campaign, bucketed and summarized. The input of every rendering.
pub struct Analysis {
    pub campaign: Campaign,
    pub options: Options,
    /// The architecture the campaign ran on, as the machine said it.
    pub architecture: String,
    pub hostname: Option<String>,
    pub machine_fields: Vec<Field>,
    /// Every reason this host was a poor benchmark target.
    pub warnings: Vec<String>,
    pub workloads: Vec<WorkloadAnalysis>,
    /// Every backend the campaign measured, described once.
    pub backends: Vec<Backend>,
    /// Every backend the campaign lost, and what it lost it to.
    pub failures: Vec<Failure>,
}

/// The anchor of a backend's section: `{workload}-{backend}`.
pub open spec fn backend_id_text(workload: Seq<char>, backend: Seq<char>) -> Seq<char> {
    workload + seq!['-'] + backend
}

/// The anchor of a backend's section, and the heading it is generated from.
pub fn backend_id(workload: &str, backend: &str) -> (r: String)
    ensures
        r@ == backend_id_text(workload@, backend@),
{
    let mut r = owned(workload);
    push_char(&mut r, '-');
    push_str(&mut r, backend);
    r
}

/// A recorded failure, as the renderers carry it.
pub open spec fn failure_matches(f: Failure, g: crate::sample::Failure) -> bool {
    &&& f.workload@ == g.workload@
    &&& f.backend@ == g.slug()
    &&& f.backend_id@ == backend_id_text(g.workload@, g.slug())
    &&& f.language@ == g.language@
    &&& opt_text(f.compiler) == opt_text(g.compiler)
    &&& opt_text(f.interpreter) == opt_text(g.interpreter)
    &&& f.description@ == g.description@
    &&& opt_text(f.comments) == opt_text(g.comments)
    &&& f.mode == g.mode
    &&& f.stage == g.stage
    &&& f.phase == g.phase
    &&& f.round == g.round
    &&& f.error@ == g.error@
}

pub fn clone_opt(o: &Option<String>) -> (r: Option<String>)
    ensures
        opt_text(r) == opt_text(*o),
{
    match o {
        Some(s) => Some(s.clone()),
        None => None,
    }
}

/// A recorded failure, with the slugs a renderer cannot derive for itself.
pub fn failure(recorded: &crate::sample::Failure) -> (r: Failure)
    ensures
        failure_matches(r, *recorded),
{
    let backend = recorded.backend();
    Failure {
        backend_id: backend_id(recorded.workload.as_str(), backend.as_str()),
        workload: recorded.workload.clone(),
        backend,
        language: recorded.language.clone(),
        compiler: clone_opt(&recorded.compiler),
        interpreter: clone_opt(&recorded.interpreter),
        description: recorded.description.clone(),
        comments: clone_opt(&recorded.comments),
        mode: recorded.mode,
        stage: recorded.stage,
        phase: recorded.phase,
        round: recorded.round,
        error: recorded.error.clone(),
    }
}

// ---------------------------------------------------------------------------
// The strict reference

/// The checksum of the first sample of `name` that carries one, in any mode:
/// every mode is strict IEEE 754, so every mode must agree on it.
pub open spec fn first_checksum(samples: Seq<Sample>, name: Seq<char>) -> Option<u64>
    decreases samples.len(),
{
    if samples.len() == 0 {
        None
    } else {
        match first_checksum(samples.drop_last(), name) {
            Some(c) => Some(c),
            None => {
                let s = samples.last();
                if s.workload@ == name {
                    s.checksum
                } else {
                    None
                }
            },
        }
    }
}

/// The value every run of `name` must agree on, whatever its mode: the
/// workload's own declared checksum when it declares one, else whatever the
/// first sample that carries one produced.
pub open spec fn reference_of(workload: Workload, samples: Seq<Sample>, name: Seq<char>) -> Option<
    u64,
> {
    if name == workload.id@ && workload.checksum is Some {
        workload.checksum
    } else {
        first_checksum(samples, name)
    }
}

/// The value a name is paired with first.
pub open spec fn lookup(pairs: Seq<(Seq<char>, u64)>, name: Seq<char>) -> Option<u64>
    decreases pairs.len(),
{
    if pairs.len() == 0 {
        None
    } else {
        match lookup(pairs.drop_last(), name) {
            Some(v) => Some(v),
            None => if pairs.last().0 == name {
                Some(pairs.last().1)
            } else {
                None
            },
        }
    }
}

pub open spec fn reference_views(v: Seq<(String, u64)>) -> Seq<(Seq<char>, u64)> {
    v.map_values(|p: (String, u64)| (p.0@, p.1))
}

fn find_reference(refs: &Vec<(String, u64)>, name: &str) -> (r: Option<u64>)
    ensures
        r == lookup(reference_views(refs@), name@),
{
    let mut i: usize = 0;
    while i < refs.len()
        invariant
            i <= refs@.len(),
            lookup(reference_views(refs@).take(i as int), name@) is None,
        decreases refs.len() - i,
    {
        let ghost t = reference_views(refs@).take(i + 1);
        assert(t.drop_last() =~= reference_views(refs@).take(i as int));
        if crate::text::str_eq(refs[i].0.as_str(), name) {
            proof {
                assert(t.last() == (refs@[i as int].0@, refs@[i as int].1));
                assert(lookup(t, name@) == Some(refs@[i as int].1));
                lemma_lookup_prefix(reference_views(refs@), i + 1);
            }
            return Some(refs[i].1);
        }
        i += 1;
    }
    assert(reference_views(refs@).take(i as int) =~= reference_views(refs@));
    None
}

/// A name found in a prefix is found, with the same value, in the whole.
proof fn lemma_lookup_prefix(pairs: Seq<(Seq<char>, u64)>, n: int)
    requires
        0 <= n <= pairs.len(),
    ensures
        forall|name: Seq<char>|
            #[trigger] lookup(pairs.take(n), name) is Some ==> lookup(pairs, name) == lookup(
                pairs.take(n),
                name,
            ),
    decreases pairs.len() - n,
{
    if n < pairs.len() {
        lemma_lookup_prefix(pairs, n + 1);
        assert forall|name: Seq<char>| #[trigger]
            lookup(pairs.take(n), name) is Some implies lookup(pairs, name) == lookup(
            pairs.take(n),
            name,
        ) by {
            assert(pairs.take(n + 1).drop_last() =~= pairs.take(n));
            assert(lookup(pairs.take(n + 1), name) == lookup(pairs.take(n), name));
        }
    } else {
        assert(pairs.take(n) =~= pairs);
    }
}

/// The strict reference of every workload the samples name, and of the one
/// the campaign declares: the declared checksum wins; without one, the first
/// checksum any sample carries.
pub fn strict_references(workload: &Workload, samples: &Vec<Sample>) -> (r: Vec<(String, u64)>)
    ensures
        forall|name: Seq<char>|
            #[trigger] lookup(reference_views(r@), name) == reference_of(*workload, samples@, name),
{
    let mut refs: Vec<(String, u64)> = Vec::new();
    if let Some(declared) = workload.checksum {
        refs.push((workload.id.clone(), declared));
    }
    proof {
        assert forall|name: Seq<char>|
            #[trigger] lookup(reference_views(refs@), name) == reference_of(
                *workload,
                samples@.take(0),
                name,
            ) by {
            assert(samples@.take(0).len() == 0);
            if workload.checksum is Some {
                assert(reference_views(refs@).drop_last().len() == 0);
                assert(lookup(reference_views(refs@).drop_last(), name) is None);
            }
        }
    }
    let mut i: usize = 0;
    while i < samples.len()
        invariant
            i <= samples@.len(),
            forall|name: Seq<char>|
                #[trigger] lookup(reference_views(refs@), name) == reference_of(
                    *workload,
                    samples@.take(i as int),
                    name,
                ),
        decreases samples.len() - i,
    {
        let ghost t = samples@.take(i + 1);
        assert(t.drop_last() =~= samples@.take(i as int));
        assert(t.last() == samples@[i as int]);
        let ghost before = reference_views(refs@);
        let s = &samples[i];
        let mut pushed = false;
        if let Some(c) = s.checksum {
            if find_reference(&refs, s.workload.as_str()).is_none() {
                refs.push((s.workload.clone(), c));
                pushed = true;
                assert(reference_views(refs@) =~= before.push((s.workload@, c)));
                assert(reference_views(refs@).drop_last() =~= before);
            }
        }
        proof {
            assert forall|name: Seq<char>|
                #[trigger] lookup(reference_views(refs@), name) == reference_of(
                    *workload,
                    t,
                    name,
                ) by {
                assert(first_checksum(t, name) == match first_checksum(
                    samples@.take(i as int),
                    name,
                ) {
                    Some(c) => Some(c),
                    None => if s.workload@ == name {
                        s.checksum
                    } else {
                        None
                    },
                });
                if pushed {
                    assert(lookup(reference_views(refs@), name) == match lookup(before, name) {
                        Some(v) => Some(v),
                        None => if s.workload@ == name {
                            Some(s.checksum->0)
                        } else {
                            None
                        },
                    });
                }
            }
        }
        i += 1;
    }
    assert(samples@.take(i as int) =~= samples@);
    refs
}

// ---------------------------------------------------------------------------
// Buckets

/// What a sample is bucketed by: `(workload, backend, mode)`.
pub open spec fn key_of(s: Sample) -> (Seq<char>, Seq<char>, Mode) {
    (s.workload@, s.slug(), s.mode)
}

/// Whether some sample falls in bucket `k`.
pub open spec fn appears(samples: Seq<Sample>, k: (Seq<char>, Seq<char>, Mode)) -> bool {
    exists|i: int| 0 <= i < samples.len() && key_of(#[trigger] samples[i]) == k
}

/// The buckets, in the order their first sample appears: the schedule order.
pub open spec fn keys_of(samples: Seq<Sample>) -> Seq<(Seq<char>, Seq<char>, Mode)>
    decreases samples.len(),
{
    if samples.len() == 0 {
        Seq::empty()
    } else {
        let ks = keys_of(samples.drop_last());
        if ks.contains(key_of(samples.last())) {
            ks
        } else {
            ks.push(key_of(samples.last()))
        }
    }
}

pub open spec fn key_views(v: Seq<(String, String, Mode)>) -> Seq<(Seq<char>, Seq<char>, Mode)> {
    v.map_values(|k: (String, String, Mode)| (k.0@, k.1@, k.2))
}

fn same_key(a: &(String, String, Mode), workload: &str, backend: &str, mode: Mode) -> (r: bool)
    ensures
        r == ((a.0@, a.1@, a.2) == (workload@, backend@, mode)),
{
    crate::text::str_eq(a.0.as_str(), workload) && crate::text::str_eq(a.1.as_str(), backend)
        && a.2 == mode
}

fn find_key(keys: &Vec<(String, String, Mode)>, workload: &str, backend: &str, mode: Mode) -> (r:
    bool)
    ensures
        r == key_views(keys@).contains((workload@, backend@, mode)),
{
    let mut i: usize = 0;
    while i < keys.len()
        invariant
            i <= keys@.len(),
            forall|j: int| 0 <= j < i ==> key_views(keys@)[j] != (workload@, backend@, mode),
        decreases keys.len() - i,
    {
        if same_key(&keys[i], workload, backend, mode) {
            assert(key_views(keys@)[i as int] == (workload@, backend@, mode));
            return true;
        }
        i += 1;
    }
    false
}

/// Every key of `keys_of(s)` is some sample's.
proof fn lemma_keys_appear(samples: Seq<Sample>)
    ensures
        forall|j: int| 0 <= j < keys_of(samples).len() ==> appears(samples, #[trigger] keys_of(samples)[j]),
        keys_of(samples).no_duplicates(),
    decreases samples.len(),
{
    if samples.len() > 0 {
        lemma_keys_appear(samples.drop_last());
        let ks = keys_of(samples.drop_last());
        assert forall|j: int| 0 <= j < keys_of(samples).len() implies appears(samples, #[trigger] keys_of(samples)[j]) by {
            if j < ks.len() {
                let i = choose|i: int| 0 <= i < samples.drop_last().len() && key_of(samples.drop_last()[i]) == ks[j];
                assert(samples[i] == samples.drop_last()[i]);
            } else {
                assert(key_of(samples[samples.len() - 1]) == keys_of(samples)[j]);
            }
        }
    }
}

/// The buckets of the samples, in schedule order.
fn bucket_keys(samples: &Vec<Sample>) -> (r: Vec<(String, String, Mode)>)
    ensures
        key_views(r@) == keys_of(samples@),
{
    let mut keys: Vec<(String, String, Mode)> = Vec::new();
    let mut i: usize = 0;
    while i < samples.len()
        invariant
            i <= samples@.len(),
            key_views(keys@) == keys_of(samples@.take(i as int)),
        decreases samples.len() - i,
    {
        let ghost t = samples@.take(i + 1);
        assert(t.drop_last() =~= samples@.take(i as int));
        assert(t.last() == samples@[i as int]);
        let backend = samples[i].backend();
        if !find_key(&keys, samples[i].workload.as_str(), backend.as_str(), samples[i].mode) {
            let ghost before = key_views(keys@);
            keys.push((samples[i].workload.clone(), backend, samples[i].mode));
            assert(key_views(keys@) =~= before.push(key_of(samples@[i as int])));
        }
        i += 1;
    }
    assert(samples@.take(i as int) =~= samples@);
    keys
}

/// A per-sample measurement an aggregate summarizes.
pub enum Metric {
    Wall,
    Elapsed,
    Startup,
    CpuUsec,
    Cores,
    PeakBytes,
}

/// What sample `s` measured of `m`; `None` for a measurement it lacks.
pub open spec fn metric_of(m: Metric, s: Sample) -> Option<u64> {
    match m {
        Metric::Wall => Some(s.wall_ns),
        Metric::Elapsed => Some(s.elapsed_ns),
        Metric::Startup => Some(
            if s.wall_ns >= s.elapsed_ns {
                (s.wall_ns - s.elapsed_ns) as u64
            } else {
                0u64
            },
        ),
        Metric::CpuUsec => Some((s.user_usec + s.system_usec) as u64),
        Metric::Cores => s.cores(),
        Metric::PeakBytes => s.peak_bytes,
    }
}

/// A sample that counts towards bucket `k`'s `phase` column: it is in the
/// bucket, and it is not a warmup the options leave out.
pub open spec fn counted(
    s: Sample,
    k: (Seq<char>, Seq<char>, Mode),
    opts: Options,
    phase: Phase,
) -> bool {
    key_of(s) == k && (!s.warmup || opts.include_warmup) && s.phase == phase
}

/// The values of `m` the counted samples carry, in order. An absent value is
/// left out, so it never becomes a zero in a summary.
pub open spec fn series(
    samples: Seq<Sample>,
    k: (Seq<char>, Seq<char>, Mode),
    opts: Options,
    phase: Phase,
    m: Metric,
) -> Seq<u64>
    decreases samples.len(),
{
    if samples.len() == 0 {
        Seq::empty()
    } else {
        let rest = series(samples.drop_last(), k, opts, phase, m);
        if counted(samples.last(), k, opts, phase) && metric_of(m, samples.last()) is Some {
            rest.push(metric_of(m, samples.last())->0)
        } else {
            rest
        }
    }
}

/// A constant of the image, of the source or of the run: not a measurement.
pub enum Constant {
    SourceBytes,
    BinaryBytes,
    BinaryStrippedBytes,
    TextBytes,
    Checksum,
}

pub open spec fn constant_of(c: Constant, s: Sample) -> Option<u64> {
    match c {
        Constant::SourceBytes => s.source_bytes,
        Constant::BinaryBytes => s.binary_bytes,
        Constant::BinaryStrippedBytes => s.binary_stripped_bytes,
        Constant::TextBytes => s.text_bytes,
        Constant::Checksum => s.checksum,
    }
}

/// The first value of `c` any sample of bucket `k` carries, warmup included.
pub open spec fn first_constant(
    samples: Seq<Sample>,
    k: (Seq<char>, Seq<char>, Mode),
    c: Constant,
) -> Option<u64>
    decreases samples.len(),
{
    if samples.len() == 0 {
        None
    } else {
        match first_constant(samples.drop_last(), k, c) {
            Some(v) => Some(v),
            None => if key_of(samples.last()) == k {
                constant_of(c, samples.last())
            } else {
                None
            },
        }
    }
}

/// The thread count of the last sample of bucket `k`.
pub open spec fn last_cpu(samples: Seq<Sample>, k: (Seq<char>, Seq<char>, Mode)) -> usize
    decreases samples.len(),
{
    if samples.len() == 0 {
        0
    } else if key_of(samples.last()) == k {
        samples.last().cpu
    } else {
        last_cpu(samples.drop_last(), k)
    }
}

/// The index of the first sample of bucket `k`.
pub open spec fn first_index(samples: Seq<Sample>, k: (Seq<char>, Seq<char>, Mode)) -> int
    decreases samples.len(),
{
    if samples.len() == 0 {
        0
    } else if appears(samples.drop_last(), k) {
        first_index(samples.drop_last(), k)
    } else {
        samples.len() - 1
    }
}

/// `checksum - reference`, when both exist.
pub open spec fn delta_of(checksum: Option<u64>, reference: Option<u64>) -> Option<i128> {
    match (checksum, reference) {
        (Some(c), Some(r)) => Some((c - r) as i128),
        _ => None,
    }
}

/// Everything an aggregate of bucket `k` reports.
pub open spec fn aggregate_of(
    a: Aggregate,
    samples: Seq<Sample>,
    k: (Seq<char>, Seq<char>, Mode),
    opts: Options,
    reference: Option<u64>,
) -> bool {
    let first = samples[first_index(samples, k)];
    &&& a.workload@ == k.0
    &&& a.backend@ == k.1
    &&& a.backend_id@ == backend_id_text(k.0, k.1)
    &&& a.language@ == first.language@
    &&& opt_text(a.compiler) == opt_text(first.compiler)
    &&& opt_text(a.interpreter) == opt_text(first.interpreter)
    &&& a.mode == k.2
    &&& a.run_wall == summary_of(series(samples, k, opts, Phase::Run, Metric::Wall))
    &&& a.run_elapsed == summary_of(series(samples, k, opts, Phase::Run, Metric::Elapsed))
    &&& a.run_startup == summary_of(series(samples, k, opts, Phase::Run, Metric::Startup))
    &&& a.run_cpu_usec == summary_of(series(samples, k, opts, Phase::Run, Metric::CpuUsec))
    &&& a.run_cores == summary_of(series(samples, k, opts, Phase::Run, Metric::Cores))
    &&& a.run_peak_bytes == summary_of(series(samples, k, opts, Phase::Run, Metric::PeakBytes))
    &&& a.build_elapsed == summary_of(series(samples, k, opts, Phase::Build, Metric::Elapsed))
    &&& a.build_cores == summary_of(series(samples, k, opts, Phase::Build, Metric::Cores))
    &&& a.build_peak_bytes == summary_of(
        series(samples, k, opts, Phase::Build, Metric::PeakBytes),
    )
    &&& a.cpu == last_cpu(samples, k)
    &&& a.source_bytes == first_constant(samples, k, Constant::SourceBytes)
    &&& a.binary_bytes == first_constant(samples, k, Constant::BinaryBytes)
    &&& a.binary_stripped_bytes == first_constant(samples, k, Constant::BinaryStrippedBytes)
    &&& a.text_bytes == first_constant(samples, k, Constant::TextBytes)
    &&& a.checksum == first_constant(samples, k, Constant::Checksum)
    &&& a.checksum_delta == delta_of(a.checksum, reference)
}

/// Every sample's CPU time fits the counter it is summed into.
pub open spec fn all_cpu_fits(samples: Seq<Sample>) -> bool {
    forall|i: int| 0 <= i < samples.len() ==> (#[trigger] samples[i]).cpu_fits()
}

proof fn lemma_appears_step(samples: Seq<Sample>, i: int, k: (Seq<char>, Seq<char>, Mode))
    requires
        0 <= i < samples.len(),
    ensures
        appears(samples.take(i + 1), k) == (appears(samples.take(i), k) || key_of(samples[i]) == k),
{
    let t = samples.take(i + 1);
    if appears(t, k) {
        let j = choose|j: int| 0 <= j < t.len() && key_of(#[trigger] t[j]) == k;
        if j < i {
            assert(samples.take(i)[j] == t[j]);
        }
    }
    if appears(samples.take(i), k) {
        let j = choose|j: int| 0 <= j < samples.take(i).len() && key_of(
            #[trigger] samples.take(i)[j],
        ) == k;
        assert(t[j] == samples.take(i)[j]);
    }
    if key_of(samples[i]) == k {
        assert(t[i] == samples[i]);
    }
}

fn push_if(v: &mut Vec<u64>, value: Option<u64>, count: bool)
    ensures
        final(v)@ == if count && value is Some {
            old(v)@.push(value->0)
        } else {
            old(v)@
        },
{
    if count {
        if let Some(x) = value {
            v.push(x);
        }
    }
}

fn first_of(current: Option<u64>, value: Option<u64>, matches: bool) -> (r: Option<u64>)
    ensures
        r == match current {
            Some(v) => Some(v),
            None => if matches {
                value
            } else {
                None
            },
        },
{
    match current {
        Some(v) => Some(v),
        None => if matches {
            value
        } else {
            None
        },
    }
}

/// Everything the campaign learned about bucket `key`.
fn aggregate(
    samples: &Vec<Sample>,
    key: &(String, String, Mode),
    opts: Options,
    reference: Option<u64>,
) -> (r: Aggregate)
    requires
        all_cpu_fits(samples@),
        appears(samples@, (key.0@, key.1@, key.2)),
    ensures
        aggregate_of(r, samples@, (key.0@, key.1@, key.2), opts, reference),
{
    let ghost k = (key.0@, key.1@, key.2);
    let mut run_wall: Vec<u64> = Vec::new();
    let mut run_elapsed: Vec<u64> = Vec::new();
    let mut run_startup: Vec<u64> = Vec::new();
    let mut run_cpu_usec: Vec<u64> = Vec::new();
    let mut run_cores: Vec<u64> = Vec::new();
    let mut run_peak: Vec<u64> = Vec::new();
    let mut build_elapsed: Vec<u64> = Vec::new();
    let mut build_cores: Vec<u64> = Vec::new();
    let mut build_peak: Vec<u64> = Vec::new();
    let mut source_bytes: Option<u64> = None;
    let mut binary_bytes: Option<u64> = None;
    let mut stripped_bytes: Option<u64> = None;
    let mut text_bytes: Option<u64> = None;
    let mut checksum: Option<u64> = None;
    let mut cpu: usize = 0;
    let mut first: Option<usize> = None;
    let mut i: usize = 0;
    while i < samples.len()
        invariant
            i <= samples@.len(),
            k == (key.0@, key.1@, key.2),
            all_cpu_fits(samples@),
            run_wall@ == series(samples@.take(i as int), k, opts, Phase::Run, Metric::Wall),
            run_elapsed@ == series(samples@.take(i as int), k, opts, Phase::Run, Metric::Elapsed),
            run_startup@ == series(samples@.take(i as int), k, opts, Phase::Run, Metric::Startup),
            run_cpu_usec@ == series(samples@.take(i as int), k, opts, Phase::Run, Metric::CpuUsec),
            run_cores@ == series(samples@.take(i as int), k, opts, Phase::Run, Metric::Cores),
            run_peak@ == series(samples@.take(i as int), k, opts, Phase::Run, Metric::PeakBytes),
            build_elapsed@ == series(
                samples@.take(i as int),
                k,
                opts,
                Phase::Build,
                Metric::Elapsed,
            ),
            build_cores@ == series(samples@.take(i as int), k, opts, Phase::Build, Metric::Cores),
            build_peak@ == series(
                samples@.take(i as int),
                k,
                opts,
                Phase::Build,
                Metric::PeakBytes,
            ),
            source_bytes == first_constant(samples@.take(i as int), k, Constant::SourceBytes),
            binary_bytes == first_constant(samples@.take(i as int), k, Constant::BinaryBytes),
            stripped_bytes == first_constant(
                samples@.take(i as int),
                k,
                Constant::BinaryStrippedBytes,
            ),
            text_bytes == first_constant(samples@.take(i as int), k, Constant::TextBytes),
            checksum == first_constant(samples@.take(i as int), k, Constant::Checksum),
            cpu == last_cpu(samples@.take(i as int), k),
            first is Some <==> appears(samples@.take(i as int), k),
            first matches Some(f) ==> f == first_index(samples@.take(i as int), k) && f < i,
        decreases samples.len() - i,
    {
        let ghost t = samples@.take(i + 1);
        assert(t.drop_last() =~= samples@.take(i as int));
        assert(t.last() == samples@[i as int]);
        proof {
            lemma_appears_step(samples@, i as int, k);
        }
        let s = &samples[i];
        let backend = s.backend();
        let in_bucket = crate::text::str_eq(s.workload.as_str(), key.0.as_str())
            && crate::text::str_eq(backend.as_str(), key.1.as_str()) && s.mode == key.2;
        assert(in_bucket == (key_of(*s) == k));
        source_bytes = first_of(source_bytes, s.source_bytes, in_bucket);
        binary_bytes = first_of(binary_bytes, s.binary_bytes, in_bucket);
        stripped_bytes = first_of(stripped_bytes, s.binary_stripped_bytes, in_bucket);
        text_bytes = first_of(text_bytes, s.text_bytes, in_bucket);
        checksum = first_of(checksum, s.checksum, in_bucket);
        if in_bucket {
            cpu = s.cpu;
            if first.is_none() {
                first = Some(i);
            }
        }
        assert(samples@[i as int].cpu_fits());
        let measured = in_bucket && (!s.warmup || opts.include_warmup);
        let run = measured && s.phase == Phase::Run;
        let build = measured && s.phase == Phase::Build;
        let cores = s.cores_milli();
        push_if(&mut run_wall, Some(s.wall_ns), run);
        push_if(&mut run_elapsed, Some(s.elapsed_ns), run);
        push_if(&mut run_startup, Some(s.startup_ns()), run);
        push_if(&mut run_cpu_usec, Some(s.cpu_usec()), run);
        push_if(&mut run_cores, cores, run);
        push_if(&mut run_peak, s.peak_bytes, run);
        push_if(&mut build_elapsed, Some(s.elapsed_ns), build);
        push_if(&mut build_cores, cores, build);
        push_if(&mut build_peak, s.peak_bytes, build);
        i += 1;
    }
    assert(samples@.take(i as int) =~= samples@);
    let f = first.unwrap();
    let head = &samples[f];
    let checksum_delta = match (checksum, reference) {
        (Some(c), Some(r)) => Some(c as i128 - r as i128),
        _ => None,
    };
    Aggregate {
        workload: key.0.clone(),
        backend: key.1.clone(),
        backend_id: backend_id(key.0.as_str(), key.1.as_str()),
        language: head.language.clone(),
        compiler: clone_opt(&head.compiler),
        interpreter: clone_opt(&head.interpreter),
        mode: key.2,
        run_wall: summarize(&run_wall),
        run_elapsed: summarize(&run_elapsed),
        run_startup: summarize(&run_startup),
        run_cpu_usec: summarize(&run_cpu_usec),
        run_cores: summarize(&run_cores),
        run_peak_bytes: summarize(&run_peak),
        build_elapsed: summarize(&build_elapsed),
        build_cores: summarize(&build_cores),
        build_peak_bytes: summarize(&build_peak),
        cpu,
        source_bytes,
        binary_bytes,
        binary_stripped_bytes: stripped_bytes,
        text_bytes,
        checksum,
        checksum_delta,
    }
}

// ---------------------------------------------------------------------------
// Workloads, and the ranking within each

/// The workloads the buckets belong to, in the order they first appear.
pub open spec fn workload_names(keys: Seq<(Seq<char>, Seq<char>, Mode)>) -> Seq<Seq<char>>
    decreases keys.len(),
{
    if keys.len() == 0 {
        Seq::empty()
    } else {
        let ns = workload_names(keys.drop_last());
        if ns.contains(keys.last().0) {
            ns
        } else {
            ns.push(keys.last().0)
        }
    }
}

/// The buckets of workload `w`, in schedule order.
pub open spec fn group(keys: Seq<(Seq<char>, Seq<char>, Mode)>, w: Seq<char>) -> Seq<
    (Seq<char>, Seq<char>, Mode),
>
    decreases keys.len(),
{
    if keys.len() == 0 {
        Seq::empty()
    } else {
        let g = group(keys.drop_last(), w);
        if keys.last().0 == w {
            g.push(keys.last())
        } else {
            g
        }
    }
}

/// What a bucket is ranked by: the minimum wall-clock of its runs.
pub open spec fn rank(samples: Seq<Sample>, k: (Seq<char>, Seq<char>, Mode), opts: Options) -> Option<u64> {
    match summary_of(series(samples, k, opts, Phase::Run, Metric::Wall)) {
        Some(s) => Some(s.min),
        None => None,
    }
}

/// Fastest first; a bucket with no measured run goes after every bucket with
/// one; ties keep the schedule order.
pub open spec fn ranks_before(a: Option<u64>, i: int, b: Option<u64>, j: int) -> bool {
    match (a, b) {
        (Some(x), Some(y)) => x < y || (x == y && i < j),
        (Some(_), None) => true,
        (None, Some(_)) => false,
        (None, None) => i < j,
    }
}

/// `order` lists every index of `ranks` once, fastest first, ties in their
/// original order: a stable sort by rank.
pub open spec fn ranked(order: Seq<int>, ranks: Seq<Option<u64>>) -> bool {
    &&& order.len() == ranks.len()
    &&& forall|x: int| 0 <= x < order.len() ==> 0 <= #[trigger] order[x] < ranks.len()
    &&& forall|x: int, y: int|
        0 <= x < y < order.len() ==> ranks_before(
            ranks[order[x]],
            order[x],
            ranks[order[y]],
            order[y],
        )
}

pub open spec fn group_ranks(
    samples: Seq<Sample>,
    g: Seq<(Seq<char>, Seq<char>, Mode)>,
    opts: Options,
) -> Seq<Option<u64>> {
    g.map_values(|k: (Seq<char>, Seq<char>, Mode)| rank(samples, k, opts))
}

proof fn lemma_ranks_before_order(a: Option<u64>, i: int, b: Option<u64>, j: int, c: Option<u64>, k: int)
    ensures
        i != j ==> (ranks_before(a, i, b, j) || ranks_before(b, j, a, i)),
        !(ranks_before(a, i, b, j) && ranks_before(b, j, a, i)),
        ranks_before(a, i, b, j) && ranks_before(b, j, c, k) ==> ranks_before(a, i, c, k),
{
}

fn before(ranks: &Vec<Option<u64>>, i: usize, j: usize) -> (r: bool)
    requires
        i < ranks@.len(),
        j < ranks@.len(),
    ensures
        r == ranks_before(ranks@[i as int], i as int, ranks@[j as int], j as int),
{
    match (ranks[i], ranks[j]) {
        (Some(x), Some(y)) => x < y || (x == y && i < j),
        (Some(_), None) => true,
        (None, Some(_)) => false,
        (None, None) => i < j,
    }
}

pub open spec fn index_view(v: Seq<usize>) -> Seq<int> {
    v.map_values(|x: usize| x as int)
}

/// A stable sort of the indices of `ranks`, fastest first.
fn rank_order(ranks: &Vec<Option<u64>>) -> (r: Vec<usize>)
    ensures
        ranked(index_view(r@), ranks@),
{
    let mut order: Vec<usize> = Vec::new();
    let mut i: usize = 0;
    while i < ranks.len()
        invariant
            i <= ranks@.len(),
            order@.len() == i,
            forall|x: int| 0 <= x < order@.len() ==> #[trigger] order@[x] < i,
            forall|x: int, y: int|
                0 <= x < y < order@.len() ==> ranks_before(
                    ranks@[order@[x] as int],
                    order@[x] as int,
                    ranks@[order@[y] as int],
                    order@[y] as int,
                ),
        decreases ranks.len() - i,
    {
        let mut p: usize = 0;
        while p < order.len() && !before(ranks, i, order[p])
            invariant
                p <= order@.len(),
                order@.len() == i,
                i < ranks@.len(),
                forall|x: int| 0 <= x < order@.len() ==> #[trigger] order@[x] < i,
                forall|x: int|
                    0 <= x < p ==> !ranks_before(
                        ranks@[i as int],
                        i as int,
                        ranks@[order@[x] as int],
                        order@[x] as int,
                    ),
            decreases order@.len() - p,
        {
            p += 1;
        }
        let ghost old_order = order@;
        order.insert(p, i);
        proof {
            assert forall|x: int| 0 <= x < order@.len() implies #[trigger] order@[x] < i + 1 by {
                if x < p {
                    assert(order@[x] == old_order[x]);
                } else if x > p {
                    assert(order@[x] == old_order[x - 1]);
                }
            }
            assert forall|x: int, y: int| 0 <= x < y < order@.len() implies ranks_before(
                ranks@[order@[x] as int],
                order@[x] as int,
                ranks@[order@[y] as int],
                order@[y] as int,
            ) by {
                let ox = order@[x] as int;
                let oy = order@[y] as int;
                if x < p && y < p {
                    assert(order@[x] == old_order[x] && order@[y] == old_order[y]);
                } else if x > p && y > p {
                    assert(order@[x] == old_order[x - 1] && order@[y] == old_order[y - 1]);
                } else if x < p && y > p {
                    assert(order@[x] == old_order[x] && order@[y] == old_order[y - 1]);
                } else if x < p && y == p {
                    assert(order@[x] == old_order[x]);
                    assert(old_order[x] < i);
                    lemma_ranks_before_order(ranks@[ox], ox, ranks@[i as int], i as int, ranks@[ox], ox);
                } else {
                    assert(x == p && y > p);
                    assert(order@[y] == old_order[y - 1]);
                    if y - 1 == p {
                    } else {
                        assert(order@[p + 1] == old_order[p as int]);
                        let op = old_order[p as int] as int;
                        lemma_ranks_before_order(ranks@[i as int], i as int, ranks@[op], op, ranks@[oy], oy);
                    }
                }
            }
        }
        i += 1;
    }
    proof {
        let v = index_view(order@);
        assert forall|x: int| 0 <= x < v.len() implies 0 <= #[trigger] v[x] < ranks@.len() by {
            assert(v[x] == order@[x] as int);
        }
        assert forall|x: int, y: int| 0 <= x < y < v.len() implies ranks_before(
            ranks@[v[x]],
            v[x],
            ranks@[v[y]],
            v[y],
        ) by {
            assert(v[x] == order@[x] as int);
            assert(v[y] == order@[y] as int);
        }
    }
    order
}

fn distinct_names(keys: &Vec<(String, String, Mode)>) -> (r: Vec<String>)
    ensures
        views(r@) == workload_names(key_views(keys@)),
{
    let mut names: Vec<String> = Vec::new();
    let mut i: usize = 0;
    while i < keys.len()
        invariant
            i <= keys@.len(),
            views(names@) == workload_names(key_views(keys@).take(i as int)),
        decreases keys.len() - i,
    {
        let ghost t = key_views(keys@).take(i + 1);
        assert(t.drop_last() =~= key_views(keys@).take(i as int));
        assert(t.last().0 == keys@[i as int].0@);
        if !crate::text::has_string(&names, keys[i].0.as_str()) {
            let ghost before = views(names@);
            names.push(keys[i].0.clone());
            assert(views(names@) =~= before.push(keys@[i as int].0@));
        }
        i += 1;
    }
    assert(key_views(keys@).take(i as int) =~= key_views(keys@));
    names
}

/// The positions in `keys` of workload `w`'s buckets, in order.
fn group_of(keys: &Vec<(String, String, Mode)>, w: &str) -> (r: Vec<usize>)
    ensures
        r@.len() == group(key_views(keys@), w@).len(),
        forall|j: int|
            0 <= j < r@.len() ==> #[trigger] r@[j] < keys@.len() && key_views(keys@)[r@[j] as int]
                == group(key_views(keys@), w@)[j],
{
    let mut g: Vec<usize> = Vec::new();
    let mut i: usize = 0;
    while i < keys.len()
        invariant
            i <= keys@.len(),
            g@.len() == group(key_views(keys@).take(i as int), w@).len(),
            forall|j: int|
                0 <= j < g@.len() ==> #[trigger] g@[j] < i && key_views(keys@)[g@[j] as int]
                    == group(key_views(keys@).take(i as int), w@)[j],
        decreases keys.len() - i,
    {
        let ghost t = key_views(keys@).take(i + 1);
        assert(t.drop_last() =~= key_views(keys@).take(i as int));
        assert(t.last() == key_views(keys@)[i as int]);
        if crate::text::str_eq(keys[i].0.as_str(), w) {
            g.push(i);
        }
        i += 1;
    }
    assert(key_views(keys@).take(i as int) =~= key_views(keys@));
    g
}

/// The distinct backend ids of the buckets, in schedule order.
pub open spec fn backend_ids(keys: Seq<(Seq<char>, Seq<char>, Mode)>) -> Seq<Seq<char>>
    decreases keys.len(),
{
    if keys.len() == 0 {
        Seq::empty()
    } else {
        let ids = backend_ids(keys.drop_last());
        let id = backend_id_text(keys.last().0, keys.last().1);
        if ids.contains(id) {
            ids
        } else {
            ids.push(id)
        }
    }
}

/// The first bucket whose backend has id `id`.
pub open spec fn first_with_id(keys: Seq<(Seq<char>, Seq<char>, Mode)>, id: Seq<char>) -> (
    Seq<char>,
    Seq<char>,
    Mode,
)
    decreases keys.len(),
{
    if keys.len() == 0 {
        (Seq::empty(), Seq::empty(), Mode::Baseline)
    } else if backend_ids(keys.drop_last()).contains(id) {
        first_with_id(keys.drop_last(), id)
    } else {
        keys.last()
    }
}

/// The identity card of bucket `k`'s backend, as its first sample declares it.
pub open spec fn card_of(b: Backend, samples: Seq<Sample>, k: (Seq<char>, Seq<char>, Mode)) -> bool {
    let first = samples[first_index(samples, k)];
    &&& b.id@ == backend_id_text(k.0, k.1)
    &&& b.workload@ == k.0
    &&& b.backend@ == k.1
    &&& b.language@ == first.language@
    &&& opt_text(b.compiler) == opt_text(first.compiler)
    &&& opt_text(b.interpreter) == opt_text(first.interpreter)
    &&& b.description@ == first.description@
    &&& opt_text(b.comments) == opt_text(first.comments)
    &&& b.source_bytes == first_constant(samples, k, Constant::SourceBytes)
}

/// The identity card of bucket `key`'s backend.
fn card(samples: &Vec<Sample>, key: &(String, String, Mode)) -> (r: Backend)
    requires
        appears(samples@, (key.0@, key.1@, key.2)),
    ensures
        card_of(r, samples@, (key.0@, key.1@, key.2)),
{
    let ghost k = (key.0@, key.1@, key.2);
    let mut source_bytes: Option<u64> = None;
    let mut first: Option<usize> = None;
    let mut i: usize = 0;
    while i < samples.len()
        invariant
            i <= samples@.len(),
            k == (key.0@, key.1@, key.2),
            source_bytes == first_constant(samples@.take(i as int), k, Constant::SourceBytes),
            first is Some <==> appears(samples@.take(i as int), k),
            first matches Some(f) ==> f == first_index(samples@.take(i as int), k) && f < i,
        decreases samples.len() - i,
    {
        let ghost t = samples@.take(i + 1);
        assert(t.drop_last() =~= samples@.take(i as int));
        assert(t.last() == samples@[i as int]);
        proof {
            lemma_appears_step(samples@, i as int, k);
        }
        let s = &samples[i];
        let backend = s.backend();
        let in_bucket = crate::text::str_eq(s.workload.as_str(), key.0.as_str())
            && crate::text::str_eq(backend.as_str(), key.1.as_str()) && s.mode == key.2;
        assert(in_bucket == (key_of(*s) == k));
        source_bytes = first_of(source_bytes, s.source_bytes, in_bucket);
        if in_bucket && first.is_none() {
            first = Some(i);
        }
        i += 1;
    }
    assert(samples@.take(i as int) =~= samples@);
    let head = &samples[first.unwrap()];
    Backend {
        id: backend_id(key.0.as_str(), key.1.as_str()),
        workload: key.0.clone(),
        backend: key.1.clone(),
        language: head.language.clone(),
        compiler: clone_opt(&head.compiler),
        interpreter: clone_opt(&head.interpreter),
        description: head.description.clone(),
        comments: clone_opt(&head.comments),
        source_bytes,
    }
}

/// One card per backend, in schedule order.
pub open spec fn backends_match(bs: Seq<Backend>, samples: Seq<Sample>) -> bool {
    let keys = keys_of(samples);
    let ids = backend_ids(keys);
    &&& bs.len() == ids.len()
    &&& forall|i: int|
        0 <= i < bs.len() ==> card_of(#[trigger] bs[i], samples, first_with_id(keys, ids[i]))
}

/// Every workload, its reference, and its buckets ranked fastest first.
pub open spec fn workloads_match(
    ws: Seq<WorkloadAnalysis>,
    samples: Seq<Sample>,
    declared: Workload,
    opts: Options,
) -> bool {
    let keys = keys_of(samples);
    let names = workload_names(keys);
    &&& ws.len() == names.len()
    &&& forall|w: int|
        0 <= w < ws.len() ==> {
            let g = group(keys, names[w]);
            let reference = reference_of(declared, samples, names[w]);
            &&& (#[trigger] ws[w]).workload@ == names[w]
            &&& ws[w].strict_checksum == reference
            &&& ws[w].aggregates@.len() == g.len()
            &&& exists|order: Seq<int>|
                ranked(order, group_ranks(samples, g, opts)) && forall|i: int|
                    0 <= i < order.len() ==> aggregate_of(
                        #[trigger] ws[w].aggregates@[i],
                        samples,
                        g[order[i]],
                        opts,
                        reference,
                    )
        }
}

fn backends(samples: &Vec<Sample>, keys: &Vec<(String, String, Mode)>) -> (r: Vec<Backend>)
    requires
        key_views(keys@) == keys_of(samples@),
    ensures
        backends_match(r@, samples@),
{
    proof {
        lemma_keys_appear(samples@);
    }
    let ghost kv = key_views(keys@);
    let mut ids: Vec<String> = Vec::new();
    let mut cards: Vec<Backend> = Vec::new();
    let mut j: usize = 0;
    while j < keys.len()
        invariant
            j <= keys@.len(),
            kv == key_views(keys@),
            kv == keys_of(samples@),
            forall|q: int| 0 <= q < kv.len() ==> appears(samples@, #[trigger] kv[q]),
            views(ids@) == backend_ids(kv.take(j as int)),
            cards@.len() == ids@.len(),
            forall|q: int|
                0 <= q < cards@.len() ==> card_of(
                    #[trigger] cards@[q],
                    samples@,
                    first_with_id(kv.take(j as int), views(ids@)[q]),
                ),
        decreases keys.len() - j,
    {
        let ghost t = kv.take(j + 1);
        assert(t.drop_last() =~= kv.take(j as int));
        assert(t.last() == kv[j as int]);
        let id = backend_id(keys[j].0.as_str(), keys[j].1.as_str());
        let ghost before = views(ids@);
        if !crate::text::has_string(&ids, id.as_str()) {
            assert(appears(samples@, kv[j as int]));
            let c = card(samples, &keys[j]);
            cards.push(c);
            ids.push(id);
            assert(views(ids@) =~= before.push(backend_id_text(kv[j as int].0, kv[j as int].1)));
            proof {
                assert forall|q: int| 0 <= q < cards@.len() implies card_of(
                    #[trigger] cards@[q],
                    samples@,
                    first_with_id(t, views(ids@)[q]),
                ) by {
                    if q < before.len() {
                        assert(views(ids@)[q] == before[q]);
                        assert(before.contains(before[q]));
                    }
                }
            }
        } else {
            proof {
                assert forall|q: int| 0 <= q < cards@.len() implies card_of(
                    #[trigger] cards@[q],
                    samples@,
                    first_with_id(t, views(ids@)[q]),
                ) by {
                    assert(before.contains(before[q]));
                }
            }
        }
        j += 1;
    }
    assert(kv.take(j as int) =~= kv);
    cards
}

/// Bucket the samples into `(workload, backend, mode)`, summarize each bucket,
/// rank the buckets of each workload fastest first, and describe every backend
/// once.
pub fn analyze(recording: &Recording, options: Options) -> (r: Analysis)
    requires
        all_cpu_fits(recording.samples@),
    ensures
        r.campaign.same_as(recording.campaign),
        r.options == options,
        r.architecture@ == recording.machine.architecture@,
        opt_text(r.hostname) == opt_text(recording.machine.hostname),
        field_views(r.machine_fields@) == recording.machine.field_list(),
        views(r.warnings@) == recording.machine.warning_list(),
        workloads_match(r.workloads@, recording.samples@, recording.campaign.workload, options),
        backends_match(r.backends@, recording.samples@),
        r.failures@.len() == recording.failures@.len(),
        forall|i: int|
            0 <= i < r.failures@.len() ==> failure_matches(
                #[trigger] r.failures@[i],
                recording.failures@[i],
            ),
{
    let samples = &recording.samples;
    let keys = bucket_keys(samples);
    let ghost kv = key_views(keys@);
    proof {
        lemma_keys_appear(samples@);
    }
    let refs = strict_references(&recording.campaign.workload, samples);
    let names = distinct_names(&keys);
    let mut workloads: Vec<WorkloadAnalysis> = Vec::new();
    let mut w: usize = 0;
    while w < names.len()
        invariant
            w <= names@.len(),
            kv == key_views(keys@),
            kv == keys_of(samples@),
            all_cpu_fits(samples@),
            forall|q: int| 0 <= q < kv.len() ==> appears(samples@, #[trigger] kv[q]),
            views(names@) == workload_names(kv),
            forall|name: Seq<char>|
                #[trigger] lookup(reference_views(refs@), name) == reference_of(
                    recording.campaign.workload,
                    samples@,
                    name,
                ),
            workloads@.len() == w,
            forall|x: int|
                0 <= x < w ==> {
                    let g = group(kv, views(names@)[x]);
                    let reference = reference_of(
                        recording.campaign.workload,
                        samples@,
                        views(names@)[x],
                    );
                    &&& (#[trigger] workloads@[x]).workload@ == views(names@)[x]
                    &&& workloads@[x].strict_checksum == reference
                    &&& workloads@[x].aggregates@.len() == g.len()
                    &&& exists|order: Seq<int>|
                        ranked(order, group_ranks(samples@, g, options)) && forall|i: int|
                            0 <= i < order.len() ==> aggregate_of(
                                #[trigger] workloads@[x].aggregates@[i],
                                samples@,
                                g[order[i]],
                                options,
                                reference,
                            )
                },
        decreases names.len() - w,
    {
        let name = names[w].as_str();
        let ghost nv = views(names@)[w as int];
        assert(name@ == nv);
        let reference = find_reference(&refs, name);
        let g = group_of(&keys, name);
        let ghost gv = group(kv, nv);
        let mut ranks: Vec<Option<u64>> = Vec::new();
        let mut j: usize = 0;
        while j < g.len()
            invariant
                j <= g@.len(),
                kv == key_views(keys@),
                gv == group(kv, nv),
                all_cpu_fits(samples@),
                forall|q: int| 0 <= q < kv.len() ==> appears(samples@, #[trigger] kv[q]),
                g@.len() == gv.len(),
                forall|q: int|
                    0 <= q < g@.len() ==> #[trigger] g@[q] < keys@.len() && kv[g@[q] as int]
                        == gv[q],
                ranks@.len() == j,
                forall|q: int| 0 <= q < j ==> #[trigger] ranks@[q] == rank(samples@, gv[q], options),
            decreases g.len() - j,
        {
            assert(g@[j as int] < keys@.len());
            assert(appears(samples@, kv[g@[j as int] as int]));
            let a = aggregate(samples, &keys[g[j]], options, reference);
            let rank_j = match a.run_wall {
                Some(summary) => Some(summary.min),
                None => None,
            };
            ranks.push(rank_j);
            j += 1;
        }
        assert(ranks@ =~= group_ranks(samples@, gv, options));
        let order = rank_order(&ranks);
        let ghost ov = index_view(order@);
        let mut aggregates: Vec<Aggregate> = Vec::new();
        let mut x: usize = 0;
        while x < order.len()
            invariant
                x <= order@.len(),
                ov == index_view(order@),
                ranked(ov, group_ranks(samples@, gv, options)),
                kv == key_views(keys@),
                gv == group(kv, nv),
                all_cpu_fits(samples@),
                forall|q: int| 0 <= q < kv.len() ==> appears(samples@, #[trigger] kv[q]),
                g@.len() == gv.len(),
                forall|q: int|
                    0 <= q < g@.len() ==> #[trigger] g@[q] < keys@.len() && kv[g@[q] as int]
                        == gv[q],
                reference == reference_of(recording.campaign.workload, samples@, nv),
                aggregates@.len() == x,
                forall|i: int|
                    0 <= i < x ==> aggregate_of(
                        #[trigger] aggregates@[i],
                        samples@,
                        gv[ov[i]],
                        options,
                        reference,
                    ),
            decreases order.len() - x,
        {
            assert(ov[x as int] == order@[x as int] as int);
            let gi = order[x];
            assert(0 <= ov[x as int] < gv.len());
            let ki = g[gi];
            assert(appears(samples@, kv[ki as int]));
            let a = aggregate(samples, &keys[ki], options, reference);
            aggregates.push(a);
            x += 1;
        }
        let ghost before = workloads@;
        workloads.push(
            WorkloadAnalysis { workload: names[w].clone(), strict_checksum: reference, aggregates },
        );
        proof {
            assert forall|y: int| 0 <= y < w + 1 implies {
                let g2 = group(kv, views(names@)[y]);
                let reference2 = reference_of(
                    recording.campaign.workload,
                    samples@,
                    views(names@)[y],
                );
                &&& (#[trigger] workloads@[y]).workload@ == views(names@)[y]
                &&& workloads@[y].strict_checksum == reference2
                &&& workloads@[y].aggregates@.len() == g2.len()
                &&& exists|order: Seq<int>|
                    ranked(order, group_ranks(samples@, g2, options)) && forall|i: int|
                        0 <= i < order.len() ==> aggregate_of(
                            #[trigger] workloads@[y].aggregates@[i],
                            samples@,
                            g2[order[i]],
                            options,
                            reference2,
                        )
            } by {
                if y < w {
                    assert(workloads@[y] == before[y]);
                } else {
                    assert(workloads@[y].aggregates@.len() == ov.len());
                    assert(ranked(ov, group_ranks(samples@, gv, options)));
                }
            }
        }
        w += 1;
    }
    let mut failures: Vec<Failure> = Vec::new();
    let mut f: usize = 0;
    while f < recording.failures.len()
        invariant
            f <= recording.failures@.len(),
            failures@.len() == f,
            forall|i: int|
                0 <= i < f ==> failure_matches(#[trigger] failures@[i], recording.failures@[i]),
        decreases recording.failures.len() - f,
    {
        failures.push(failure(&recording.failures[f]));
        f += 1;
    }
    Analysis {
        campaign: recording.campaign.duplicate(),
        options,
        architecture: recording.machine.architecture.clone(),
        hostname: clone_opt(&recording.machine.hostname),
        machine_fields: recording.machine.fields(),
        warnings: recording.machine.warnings(),
        workloads,
        backends: backends(samples, &keys),
        failures,
    }
}

/// Within a workload, every bucket with a measured run comes before every
/// bucket without one, and measured buckets come fastest first, on the
/// minimum wall-clock.
pub proof fn lemma_fastest_first(
    ws: Seq<WorkloadAnalysis>,
    samples: Seq<Sample>,
    declared: Workload,
    opts: Options,
    w: int,
    x: int,
    y: int,
)
    requires
        workloads_match(ws, samples, declared, opts),
        0 <= w < ws.len(),
        0 <= x < y < ws[w].aggregates@.len(),
    ensures
        match (ws[w].aggregates@[x].run_wall, ws[w].aggregates@[y].run_wall) {
            (Some(a), Some(b)) => a.min <= b.min,
            (None, Some(_)) => false,
            _ => true,
        },
{
    let keys = keys_of(samples);
    let names = workload_names(keys);
    let g = group(keys, names[w]);
    let reference = reference_of(declared, samples, names[w]);
    assert(ws[w].workload@ == names[w]);
    let order = choose|order: Seq<int>|
        ranked(order, group_ranks(samples, g, opts)) && forall|i: int|
            0 <= i < order.len() ==> aggregate_of(
                #[trigger] ws[w].aggregates@[i],
                samples,
                g[order[i]],
                opts,
                reference,
            );
    assert(aggregate_of(ws[w].aggregates@[x], samples, g[order[x]], opts, reference));
    assert(aggregate_of(ws[w].aggregates@[y], samples, g[order[y]], opts, reference));
    assert(0 <= order[x] < g.len());
    assert(0 <= order[y] < g.len());
    let ranks = group_ranks(samples, g, opts);
    assert(ranks[order[x]] == rank(samples, g[order[x]], opts));
    assert(ranks[order[y]] == rank(samples, g[order[y]], opts));
    assert(ranks_before(ranks[order[x]], order[x], ranks[order[y]], order[y]));
}

proof fn lemma_cpu_series_is_user_plus_system(
    samples: Seq<Sample>,
    k: (Seq<char>, Seq<char>, Mode),
    opts: Options,
)
    requires
        all_cpu_fits(samples),
    ensures
        series(samples, k, opts, Phase::Run, Metric::CpuUsec).len() <= samples.len(),
        forall|i: int|
            0 <= i < samples.len() && counted(#[trigger] samples[i], k, opts, Phase::Run)
                ==> series(samples, k, opts, Phase::Run, Metric::CpuUsec).contains(
                (samples[i].user_usec + samples[i].system_usec) as u64,
            ),
        forall|x: u64|
            #[trigger] series(samples, k, opts, Phase::Run, Metric::CpuUsec).contains(x) ==> exists|
                i: int,
            |
                0 <= i < samples.len() && counted(#[trigger] samples[i], k, opts, Phase::Run) && x
                    == samples[i].user_usec + samples[i].system_usec,
    decreases samples.len(),
{
    if samples.len() > 0 {
        let init = samples.drop_last();
        let n = samples.len() - 1;
        assert forall|i: int| 0 <= i < init.len() implies (#[trigger] init[i]).cpu_fits() by {
            assert(init[i] == samples[i]);
            assert(samples[i].cpu_fits());
        }
        assert(samples[n].cpu_fits());
        lemma_cpu_series_is_user_plus_system(init, k, opts);
        let rest = series(init, k, opts, Phase::Run, Metric::CpuUsec);
        let all = series(samples, k, opts, Phase::Run, Metric::CpuUsec);
        assert forall|i: int|
            0 <= i < samples.len() && counted(#[trigger] samples[i], k, opts, Phase::Run)
                implies all.contains((samples[i].user_usec + samples[i].system_usec) as u64) by {
            if i < n {
                assert(init[i] == samples[i]);
                let j = choose|j: int| 0 <= j < rest.len() && rest[j] == (samples[i].user_usec
                    + samples[i].system_usec) as u64;
                assert(all[j] == rest[j]);
            } else {
                assert(all[all.len() - 1] == (samples[i].user_usec + samples[i].system_usec) as u64);
            }
        }
        assert forall|x: u64| #[trigger] all.contains(x) implies exists|i: int|
            0 <= i < samples.len() && counted(#[trigger] samples[i], k, opts, Phase::Run) && x
                == samples[i].user_usec + samples[i].system_usec by {
            let j = choose|j: int| 0 <= j < all.len() && all[j] == x;
            if j < rest.len() {
                assert(rest[j] == x);
                assert(rest.contains(x));
                let i = choose|i: int|
                    0 <= i < init.len() && counted(#[trigger] init[i], k, opts, Phase::Run) && x
                        == init[i].user_usec + init[i].system_usec;
                assert(init[i] == samples[i]);
            } else {
                assert(counted(samples[n], k, opts, Phase::Run));
            }
        }
    }
}

/// A row's CPU time is each counted run's own CPU time, user plus system:
/// it is summarized exactly when some run of the bucket was counted, its
/// minimum and its median are the user-plus-system time of counted runs, and
/// no counted run spent less than its minimum.
pub proof fn lemma_cpu_time_is_user_plus_system(
    a: Aggregate,
    samples: Seq<Sample>,
    k: (Seq<char>, Seq<char>, Mode),
    opts: Options,
    reference: Option<u64>,
)
    requires
        aggregate_of(a, samples, k, opts, reference),
        all_cpu_fits(samples),
        samples.len() <= usize::MAX,
    ensures
        a.run_cpu_usec is None <==> forall|i: int|
            0 <= i < samples.len() ==> !counted(#[trigger] samples[i], k, opts, Phase::Run),
        a.run_cpu_usec matches Some(s) ==> {
            &&& exists|i: int|
                0 <= i < samples.len() && counted(#[trigger] samples[i], k, opts, Phase::Run)
                    && s.min == samples[i].user_usec + samples[i].system_usec
            &&& exists|i: int|
                0 <= i < samples.len() && counted(#[trigger] samples[i], k, opts, Phase::Run)
                    && s.median == samples[i].user_usec + samples[i].system_usec
            &&& forall|i: int|
                0 <= i < samples.len() && counted(#[trigger] samples[i], k, opts, Phase::Run)
                    ==> s.min <= samples[i].user_usec + samples[i].system_usec
        },
{
    let cpu = series(samples, k, opts, Phase::Run, Metric::CpuUsec);
    lemma_cpu_series_is_user_plus_system(samples, k, opts);
    crate::stats::lemma_summary_is_made_of_samples(cpu);
    if a.run_cpu_usec is None {
        assert forall|i: int| 0 <= i < samples.len() implies !counted(
            #[trigger] samples[i],
            k,
            opts,
            Phase::Run,
        ) by {
            if counted(samples[i], k, opts, Phase::Run) {
                assert(cpu.contains((samples[i].user_usec + samples[i].system_usec) as u64));
            }
        }
    } else {
        let s = a.run_cpu_usec->0;
        assert(cpu.contains(s.min));
        assert(cpu.contains(s.median));
        assert forall|i: int|
            0 <= i < samples.len() && counted(#[trigger] samples[i], k, opts, Phase::Run) implies s.min
                <= samples[i].user_usec + samples[i].system_usec by {
            assert(samples[i].cpu_fits());
            let v = (samples[i].user_usec + samples[i].system_usec) as u64;
            assert(cpu.contains(v));
            let j = choose|j: int| 0 <= j < cpu.len() && cpu[j] == v;
        }
    }
}

} // verus!
