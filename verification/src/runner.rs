//! The campaign's decisions: what to build, in what order to measure, what a
//! run becomes, which runs are wrong, and when a campaign has failed.
//!
//! The campaign is deliberately sequential: running two benchmarks at once
//! would destroy the measurement. The binary performs each build and each run;
//! everything it decides between them is decided here.
use vstd::prelude::*;

use crate::cli::Architecture;
use crate::discovery::{selected, Implementation};
use crate::mode::Mode;
use crate::sample::{opt_text, ContainerRecord, Failure, Phase, Sample, Stage};
use crate::text::{decimal, owned, push_str, u64_to_string, usize_to_string, views};
use crate::workload::{value_text, Workload};

verus! {

/// One `(implementation, mode)` pair: the atom of the schedule.
pub struct Unit {
    pub implementation: Implementation,
    pub mode: Mode,
    /// Its image tag, unique per `(implementation, mode)`.
    pub image: String,
}

/// Why an implementation, or one of its modes, is left out of a campaign.
pub enum Skip {
    /// Its toolchain does not exist for this machine's architecture.
    Architecture { implementation: usize },
    /// It declares it does not distinguish this mode.
    Mode { implementation: usize, mode: Mode },
}

/// The units of a campaign, in order: each implementation the host can build,
/// in each requested mode it declares, in the order requested.
pub open spec fn planned(
    implementations: Seq<Implementation>,
    requested: Seq<Mode>,
    host: Option<Architecture>,
) -> Seq<(int, Mode)>
    decreases implementations.len(),
{
    if implementations.len() == 0 {
        Seq::empty()
    } else {
        let n = implementations.len() - 1;
        let last = implementations[n];
        planned(implementations.drop_last(), requested, host) + if host matches Some(h)
            && last.architectures@.contains(h) {
            selected(requested, last.fp_modes@).map_values(|m: Mode| (n, m))
        } else {
            Seq::empty()
        }
    }
}

/// The modes of `requested` that `declared` does not hold, in the order
/// requested.
pub open spec fn unselected(requested: Seq<Mode>, declared: Seq<Mode>) -> Seq<Mode>
    decreases requested.len(),
{
    if requested.len() == 0 {
        Seq::empty()
    } else if declared.contains(requested.last()) {
        unselected(requested.drop_last(), declared)
    } else {
        unselected(requested.drop_last(), declared).push(requested.last())
    }
}

/// What a campaign leaves out, in order: each implementation the host cannot
/// build, once; and, for each one it can, each requested mode it does not
/// declare, in the order requested.
pub open spec fn skipped(
    implementations: Seq<Implementation>,
    requested: Seq<Mode>,
    host: Option<Architecture>,
) -> Seq<Skip>
    decreases implementations.len(),
{
    if implementations.len() == 0 {
        Seq::empty()
    } else {
        let n = implementations.len() - 1;
        let last = implementations[n];
        skipped(implementations.drop_last(), requested, host) + if host matches Some(h)
            && last.architectures@.contains(h) {
            unselected(requested, last.fp_modes@).map_values(
                |m: Mode| Skip::Mode { implementation: n as usize, mode: m },
            )
        } else {
            seq![Skip::Architecture { implementation: n as usize }]
        }
    }
}

/// What a unit of the plan is.
pub open spec fn unit_is(u: Unit, implementations: Seq<Implementation>, p: (int, Mode)) -> bool {
    &&& 0 <= p.0 < implementations.len()
    &&& u.implementation.same_as(implementations[p.0])
    &&& u.mode == p.1
    &&& u.image@ == implementations[p.0].image_spec(p.1)
}

/// Schedule the campaign.
///
/// A JIT generates code for the machine it runs on and cannot do otherwise:
/// it declares `native` only, and building it under `baseline` as well would
/// measure the same image under two names. So a requested mode the
/// implementation does not declare is skipped. An implementation whose
/// toolchain does not exist for this architecture is skipped before any build
/// is spent on finding out. Both skips are reported, in order.
pub fn schedule(implementations: &Vec<Implementation>, requested: &Vec<Mode>, host: Option<
    Architecture,
>) -> (r: (Vec<Unit>, Vec<Skip>))
    ensures
        r.0@.len() == planned(implementations@, requested@, host).len(),
        forall|x: int|
            0 <= x < r.0@.len() ==> unit_is(
                #[trigger] r.0@[x],
                implementations@,
                planned(implementations@, requested@, host)[x],
            ),
        r.1@ == skipped(implementations@, requested@, host),
{
    let mut units: Vec<Unit> = Vec::new();
    let mut skips: Vec<Skip> = Vec::new();
    let mut i: usize = 0;
    while i < implementations.len()
        invariant
            i <= implementations@.len(),
            units@.len() == planned(implementations@.take(i as int), requested@, host).len(),
            forall|x: int|
                0 <= x < units@.len() ==> unit_is(
                    #[trigger] units@[x],
                    implementations@,
                    planned(implementations@.take(i as int), requested@, host)[x],
                ),
            skips@ == skipped(implementations@.take(i as int), requested@, host),
        decreases implementations.len() - i,
    {
        let ghost t = implementations@.take(i + 1);
        assert(t.drop_last() =~= implementations@.take(i as int));
        assert(t[i as int] == implementations@[i as int]);
        let ghost before = planned(implementations@.take(i as int), requested@, host);
        let ghost skipped_before = skips@;
        let implementation = &implementations[i];
        if !implementation.supports(host) {
            skips.push(Skip::Architecture { implementation: i });
            assert(planned(t, requested@, host) =~= before);
            assert(skips@ =~= skipped(t, requested@, host));
        } else {
            let ghost added = selected(requested@, implementation.fp_modes@).map_values(
                |m: Mode| (i as int, m),
            );
            assert(planned(t, requested@, host) == before + added);
            let mut k: usize = 0;
            let ghost start = units@.len();
            while k < requested.len()
                invariant
                    k <= requested@.len(),
                    i < implementations@.len(),
                    skips@ == skipped_before + unselected(
                        requested@.take(k as int),
                        implementation.fp_modes@,
                    ).map_values(|m: Mode| Skip::Mode { implementation: i, mode: m }),
                    implementation == implementations@[i as int],
                    start == before.len(),
                    units@.len() == start + selected(
                        requested@.take(k as int),
                        implementation.fp_modes@,
                    ).len(),
                    forall|x: int|
                        0 <= x < start ==> unit_is(
                            #[trigger] units@[x],
                            implementations@,
                            before[x],
                        ),
                    forall|x: int|
                        start <= x < units@.len() ==> unit_is(
                            #[trigger] units@[x],
                            implementations@,
                            (
                                i as int,
                                selected(requested@.take(k as int), implementation.fp_modes@)[x
                                    - start],
                            ),
                        ),
                decreases requested.len() - k,
            {
                let mode = requested[k];
                let ghost tk = requested@.take(k + 1);
                assert(tk.drop_last() =~= requested@.take(k as int));
                assert(tk.last() == mode);
                if crate::discovery::has_mode(&implementation.fp_modes, mode) {
                    let image = implementation.image(mode);
                    units.push(Unit { implementation: implementation.duplicate(), mode, image });
                } else {
                    skips.push(Skip::Mode { implementation: i, mode });
                }
                proof {
                    let f = |m: Mode| Skip::Mode { implementation: i, mode: m };
                    assert(unselected(tk, implementation.fp_modes@).map_values(f) =~= if implementation.fp_modes@.contains(mode) {
                        unselected(requested@.take(k as int), implementation.fp_modes@).map_values(f)
                    } else {
                        unselected(requested@.take(k as int), implementation.fp_modes@).map_values(f).push(f(mode))
                    });
                }
                k += 1;
            }
            assert(requested@.take(k as int) =~= requested@);
            assert(skips@ =~= skipped(t, requested@, host));
            assert forall|x: int| 0 <= x < units@.len() implies unit_is(
                #[trigger] units@[x],
                implementations@,
                planned(t, requested@, host)[x],
            ) by {
                if x < start {
                    assert(planned(t, requested@, host)[x] == before[x]);
                } else {
                    assert(planned(t, requested@, host)[x] == added[x - start]);
                }
            }
        }
        i += 1;
    }
    assert(implementations@.take(i as int) =~= implementations@);
    (units, skips)
}

/// A log field that is sometimes absent cannot be filtered on: a backend that
/// compiles nothing says `none`.
pub fn none_if_absent(value: Option<&str>) -> (r: &str)
    ensures
        r@ == match value {
            Some(v) => v@,
            None => "none"@,
        },
{
    match value {
        Some(v) => v,
        None => "none",
    }
}

// ---------------------------------------------------------------------------
// Building and running a unit

pub open spec fn arg_views(v: Seq<(String, String)>) -> Seq<(Seq<char>, Seq<char>)> {
    v.map_values(|p: (String, String)| (p.0@, p.1@))
}

/// The build args of a unit's image: the job count, and the ISA target. That
/// choice is the mode: `MARCH` is the pinned baseline in `baseline` mode
/// (none when the architecture has no pinned baseline), and the literal
/// `native` in `native` mode. There is no floating-point build arg: the
/// arithmetic is strict in every mode.
pub open spec fn build_args_of(mode: Mode, cpu: usize, march: Seq<char>) -> Seq<(Seq<char>, Seq<char>)> {
    seq![("JOBS"@, crate::text::decimal(cpu as nat))] + match mode {
        Mode::Native => seq![("MARCH"@, "native"@)],
        Mode::Baseline => if march.len() == 0 {
            Seq::empty()
        } else {
            seq![("MARCH"@, march)]
        },
    }
}

/// What a unit's image is built with.
pub fn image_build_args(mode: Mode, cpu: usize, march: &str) -> (r: Vec<(String, String)>)
    ensures
        arg_views(r@) == build_args_of(mode, cpu, march@),
{
    let mut args: Vec<(String, String)> = Vec::new();
    args.push((owned("JOBS"), usize_to_string(cpu)));
    match mode {
        Mode::Native => args.push((owned("MARCH"), owned("native"))),
        Mode::Baseline => {
            if !march.is_empty() {
                args.push((owned("MARCH"), owned(march)));
            }
        },
    }
    assert(arg_views(args@) =~= build_args_of(mode, cpu, march@));
    args
}

/// What the container is run with: the phase, then — for a run — the
/// workload's params in declaration order, then the thread count.
pub open spec fn container_args_of(workload: Workload, cpu: usize, phase: Phase) -> Seq<Seq<char>> {
    match phase {
        Phase::Build => seq!["build"@, crate::text::decimal(cpu as nat)],
        Phase::Run => seq!["run"@] + crate::workload::argv_of(workload.params@) + seq![
            crate::text::decimal(cpu as nat),
        ],
    }
}

pub fn container_args(workload: &Workload, cpu: usize, phase: Phase) -> (r: Vec<String>)
    ensures
        views(r@) == container_args_of(*workload, cpu, phase),
{
    let mut args: Vec<String> = Vec::new();
    match phase {
        Phase::Build => {
            args.push(owned("build"));
            args.push(usize_to_string(cpu));
        },
        Phase::Run => {
            args.push(owned("run"));
            let params = workload.argv();
            let mut i: usize = 0;
            while i < params.len()
                invariant
                    i <= params@.len(),
                    params@.len() == workload.params@.len(),
                    forall|q: int|
                        0 <= q < params@.len() ==> #[trigger] params@[q]@ == value_text(
                            workload.params@[q].value@,
                        ),
                    args@.len() == i + 1,
                    views(args@) == seq!["run"@] + crate::workload::argv_of(
                        workload.params@.take(i as int),
                    ),
                decreases params.len() - i,
            {
                let ghost before = views(args@);
                args.push(params[i].clone());
                assert(views(args@) =~= before.push(params@[i as int]@));
                assert(crate::workload::argv_of(workload.params@.take(i + 1)) =~= crate::workload::argv_of(
                    workload.params@.take(i as int),
                ).push(value_text(workload.params@[i as int].value@)));
                i += 1;
            }
            assert(workload.params@.take(i as int) =~= workload.params@);
            args.push(usize_to_string(cpu));
        },
    }
    assert(views(args@) =~= container_args_of(*workload, cpu, phase));
    args
}

/// The sample a run becomes: the manifest's fields, the run's position in the
/// campaign, and what the container and the harness's own clock measured.
pub open spec fn sample_is(
    s: Sample,
    unit: Unit,
    phase: Phase,
    round: u32,
    warmup: bool,
    cpu: usize,
    wall_ns: u64,
    record: ContainerRecord,
) -> bool {
    let i = unit.implementation;
    &&& s.workload@ == i.workload@
    &&& s.language@ == i.language@
    &&& opt_text(s.compiler) == opt_text(i.compiler)
    &&& opt_text(s.interpreter) == opt_text(i.interpreter)
    &&& s.description@ == i.description@
    &&& opt_text(s.comments) == opt_text(i.comments)
    &&& s.mode == unit.mode
    &&& s.phase == phase
    &&& s.round == round
    &&& s.warmup == warmup
    &&& s.cpu == cpu
    &&& s.wall_ns == wall_ns
    &&& s.elapsed_ns == record.elapsed_ns
    &&& s.user_usec == record.user_usec
    &&& s.system_usec == record.system_usec
    &&& s.peak_bytes == record.peak_bytes
    &&& s.source_bytes == Some(i.source_bytes)
    &&& s.checksum == record.checksum
    &&& s.binary_bytes == record.binary_bytes
    &&& s.binary_stripped_bytes == record.binary_stripped_bytes
    &&& s.text_bytes == record.text_bytes
}

/// A measured run, as the sample it becomes. The source size comes off the
/// manifest, not off the container: the image never sees the source.
pub fn sample_of(
    unit: &Unit,
    phase: Phase,
    round: u32,
    warmup: bool,
    cpu: usize,
    wall_ns: u64,
    record: &ContainerRecord,
) -> (r: Sample)
    ensures
        sample_is(r, *unit, phase, round, warmup, cpu, wall_ns, *record),
{
    let i = &unit.implementation;
    Sample {
        workload: i.workload.clone(),
        language: i.language.clone(),
        compiler: crate::analysis::clone_opt(&i.compiler),
        interpreter: crate::analysis::clone_opt(&i.interpreter),
        description: i.description.clone(),
        comments: crate::analysis::clone_opt(&i.comments),
        mode: unit.mode,
        phase,
        round,
        warmup,
        cpu,
        wall_ns,
        elapsed_ns: record.elapsed_ns,
        user_usec: record.user_usec,
        system_usec: record.system_usec,
        peak_bytes: record.peak_bytes,
        source_bytes: Some(i.source_bytes),
        checksum: record.checksum,
        binary_bytes: record.binary_bytes,
        binary_stripped_bytes: record.binary_stripped_bytes,
        text_bytes: record.text_bytes,
    }
}

/// The record of a unit that left the campaign, with the full error that took
/// it out.
pub fn failure_of(unit: &Unit, stage: Stage, phase: Option<Phase>, round: Option<u32>, error: String) -> (r:
    Failure)
    ensures
        r.workload@ == unit.implementation.workload@,
        r.language@ == unit.implementation.language@,
        opt_text(r.compiler) == opt_text(unit.implementation.compiler),
        opt_text(r.interpreter) == opt_text(unit.implementation.interpreter),
        r.description@ == unit.implementation.description@,
        opt_text(r.comments) == opt_text(unit.implementation.comments),
        r.mode == unit.mode,
        r.stage == stage,
        r.phase == phase,
        r.round == round,
        r.error@ == error@,
{
    let i = &unit.implementation;
    Failure {
        workload: i.workload.clone(),
        language: i.language.clone(),
        compiler: crate::analysis::clone_opt(&i.compiler),
        interpreter: crate::analysis::clone_opt(&i.interpreter),
        description: i.description.clone(),
        comments: crate::analysis::clone_opt(&i.comments),
        mode: unit.mode,
        stage,
        phase,
        round,
        error,
    }
}

// ---------------------------------------------------------------------------
// The checksum gate

/// The value every run must agree on, bit for bit, in every mode.
#[derive(Debug, PartialEq, Eq)]
pub struct Gate {
    /// Seeded from the workload's declared checksum when it has one; else the
    /// first checksum a run produced.
    pub reference: Option<u64>,
    /// Whether the reference came from the workload rather than from a run.
    pub declared: bool,
    /// The workload's id, for the message.
    pub workload: String,
}

/// A run that disagrees with the reference: wrong, not slow.
pub struct Mismatch {
    pub workload: String,
    pub backend: String,
    pub produced: u64,
    pub reference: u64,
    /// Whether the reference is the workload's declared answer.
    pub declared: bool,
    /// The workload's id.
    pub id: String,
}

/// What a run that disagrees with the reference is told.
pub open spec fn mismatch_text(
    workload: Seq<char>,
    backend: Seq<char>,
    produced: u64,
    reference: u64,
    declared: bool,
    id: Seq<char>,
) -> Seq<char> {
    "strict-mode checksum mismatch on "@ + workload + ": "@ + backend + " produced "@
            + decimal(produced as nat) + if declared {
            ", but the `"@ + id + "` workload declares the answer is "@ + decimal(
                reference as nat,
            )
                + ". This backend is wrong — not slow, wrong — and a wrong run never enters the statistics. In strict mode every compiler, language and architecture agrees bit for bit; a divergence is a bug in the code or the flags, never a rounding difference."@
        } else {
            ", and the backends before it produced "@ + decimal(reference as nat)
                + ". In strict mode every compiler, language and architecture must agree bit for bit; a divergence is a bug in the code or the flags, never a rounding difference. Note that `"@
                + id
                + "` declares no `checksum`, so the reference here is simply whichever backend ran first — declare one and the answer stops depending on the schedule."@
        }
}

impl Mismatch {
    pub open spec fn message_text(self) -> Seq<char> {
        mismatch_text(
            self.workload@,
            self.backend@,
            self.produced,
            self.reference,
            self.declared,
            self.id@,
        )
    }

    pub fn message(&self) -> (r: String)
        ensures
            r@ == self.message_text(),
    {
        let mut m = owned("strict-mode checksum mismatch on ");
        push_str(&mut m, self.workload.as_str());
        push_str(&mut m, ": ");
        push_str(&mut m, self.backend.as_str());
        push_str(&mut m, " produced ");
        push_str(&mut m, u64_to_string(self.produced).as_str());
        if self.declared {
            push_str(&mut m, ", but the `");
            push_str(&mut m, self.id.as_str());
            push_str(&mut m, "` workload declares the answer is ");
            push_str(&mut m, u64_to_string(self.reference).as_str());
            push_str(
                &mut m,
                ". This backend is wrong — not slow, wrong — and a wrong run never enters the statistics. In strict mode every compiler, language and architecture agrees bit for bit; a divergence is a bug in the code or the flags, never a rounding difference.",
            );
        } else {
            push_str(&mut m, ", and the backends before it produced ");
            push_str(&mut m, u64_to_string(self.reference).as_str());
            push_str(
                &mut m,
                ". In strict mode every compiler, language and architecture must agree bit for bit; a divergence is a bug in the code or the flags, never a rounding difference. Note that `",
            );
            push_str(&mut m, self.id.as_str());
            push_str(
                &mut m,
                "` declares no `checksum`, so the reference here is simply whichever backend ran first — declare one and the answer stops depending on the schedule.",
            );
        }
        m
    }
}

impl Gate {
    /// A fresh `Gate` for a campaign on `workload`.
    pub fn new(workload: &Workload) -> (r: Gate)
        ensures
            r.reference == workload.checksum,
            r.declared == (workload.checksum is Some),
            r.workload@ == workload.id@,
    {
        Gate {
            reference: workload.checksum,
            declared: workload.checksum.is_some(),
            workload: workload.id.clone(),
        }
    }

    /// Check a run, warmup included, whatever its mode: every mode is strict
    /// IEEE 754, so every run that carries a checksum is checked. The first
    /// one, when nothing was declared, becomes the reference.
    pub fn verify(&mut self, sample: &Sample) -> (r: Result<(), Mismatch>)
        ensures
            final(self).declared == old(self).declared,
            final(self).workload@ == old(self).workload@,
            sample.checksum is None ==> r is Ok && final(self).reference == old(self).reference,
            sample.checksum is Some ==> match old(self).reference {
                None => r is Ok && final(self).reference == sample.checksum,
                Some(reference) => final(self).reference == old(self).reference && (
                reference == sample.checksum->0 <==> r is Ok) && (r matches Err(m) ==> m.produced
                    == sample.checksum->0 && m.reference == reference && m.declared == old(
                    self,
                ).declared && m.workload@ == sample.workload@ && m.backend@ == sample.slug()
                    && m.id@ == old(self).workload@),
            },
    {
        let checksum = match sample.checksum {
            Some(c) => c,
            None => {
                return Ok(());
            },
        };
        match self.reference {
            None => {
                self.reference = Some(checksum);
                Ok(())
            },
            Some(reference) => {
                if reference == checksum {
                    Ok(())
                } else {
                    Err(
                        Mismatch {
                            workload: sample.workload.clone(),
                            backend: sample.backend(),
                            produced: checksum,
                            reference,
                            declared: self.declared,
                            id: self.workload.clone(),
                        },
                    )
                }
            },
        }
    }
}

// ---------------------------------------------------------------------------
// The order of a phase

/// Where a phase is: the round, and the unit within it.
#[derive(Clone, Copy, Debug, PartialEq, Eq, Structural)]
pub struct Cursor {
    pub round: u32,
    pub unit: usize,
}

/// Whether unit `u` has been quarantined.
pub open spec fn is_quarantined(units: Seq<Unit>, quarantined: Seq<Seq<char>>, u: int) -> bool {
    quarantined.contains(units[u].image@)
}

/// `(round, unit)` is due: in range, and not quarantined.
pub open spec fn due(units: Seq<Unit>, quarantined: Seq<Seq<char>>, total: u32, round: int, u: int) -> bool {
    0 <= round < total && 0 <= u < units.len() && !is_quarantined(units, quarantined, u)
}

/// `(a, b)` comes at or after `(c, d)`: rounds outermost, units innermost.
pub open spec fn at_or_after(a: int, b: int, c: int, d: int) -> bool {
    a > c || (a == c && b >= d)
}

fn quarantined_image(quarantined: &Vec<String>, image: &str) -> (r: bool)
    ensures
        r == views(quarantined@).contains(image@),
{
    crate::text::has_string(quarantined, image)
}

/// The next invocation of a phase, at or after `from`: outer loop over rounds,
/// inner loop over units, never the reverse — blocking by implementation turns
/// ambient noise into bias. A quarantined unit is skipped in every remaining
/// round.
pub fn next_invocation(units: &Vec<Unit>, quarantined: &Vec<String>, total: u32, from: Cursor) -> (r:
    Option<Cursor>)
    ensures
        match r {
            Some(c) => due(units@, views(quarantined@), total, c.round as int, c.unit as int)
                && at_or_after(c.round as int, c.unit as int, from.round as int, from.unit as int)
                && forall|a: int, b: int|
                #![trigger due(units@, views(quarantined@), total, a, b)]
                at_or_after(a, b, from.round as int, from.unit as int) && !at_or_after(
                    a,
                    b,
                    c.round as int,
                    c.unit as int,
                ) ==> !due(units@, views(quarantined@), total, a, b),
            None => forall|a: int, b: int|
                #![trigger due(units@, views(quarantined@), total, a, b)]
                at_or_after(a, b, from.round as int, from.unit as int) ==> !due(
                    units@,
                    views(quarantined@),
                    total,
                    a,
                    b,
                ),
        },
{
    let ghost q = views(quarantined@);
    let mut round = from.round;
    let mut u = from.unit;
    while round < total
        invariant
            q == views(quarantined@),
            at_or_after(round as int, u as int, from.round as int, from.unit as int),
            round == from.round ==> u >= from.unit,
            round > from.round ==> u == 0 || u <= units@.len(),
            forall|a: int, b: int|
                #![trigger due(units@, q, total, a, b)]
                at_or_after(a, b, from.round as int, from.unit as int) && !at_or_after(
                    a,
                    b,
                    round as int,
                    u as int,
                ) ==> !due(units@, q, total, a, b),
        decreases total - round, units@.len() + 1 - u,
    {
        if u < units.len() {
            if !quarantined_image(quarantined, units[u].image.as_str()) {
                return Some(Cursor { round, unit: u });
            }
            u += 1;
        } else {
            round += 1;
            u = 0;
        }
    }
    None
}

// ---------------------------------------------------------------------------
// What a campaign learns from each build and each run

/// What a campaign has done so far: which units it quarantined, how many
/// samples it wrote, and the checksum every mode is checked against.
pub struct Progress {
    /// The images of the units that failed: the one token unique per
    /// `(implementation, mode)`. A unit is quarantined, never the campaign.
    pub quarantined: Vec<String>,
    /// Samples written so far. They are streamed to disk, never accumulated.
    pub written: usize,
    /// Units lost so far.
    pub failed: usize,
    pub gate: Gate,
}

/// What a measured run becomes: a sample to write, or a failure that retires
/// its unit. A wrong run never enters the statistics.
pub enum Measured {
    Sample(Sample),
    Quarantined(Failure),
}

/// The failure of `unit` at `stage`, as a campaign records it.
pub open spec fn failure_is(
    f: Failure,
    unit: Unit,
    stage: Stage,
    phase: Option<Phase>,
    round: Option<u32>,
    error: Seq<char>,
) -> bool {
    &&& f.workload@ == unit.implementation.workload@
    &&& f.language@ == unit.implementation.language@
    &&& opt_text(f.compiler) == opt_text(unit.implementation.compiler)
    &&& opt_text(f.interpreter) == opt_text(unit.implementation.interpreter)
    &&& f.description@ == unit.implementation.description@
    &&& opt_text(f.comments) == opt_text(unit.implementation.comments)
    &&& f.mode == unit.mode
    &&& f.stage == stage
    &&& f.phase == phase
    &&& f.round == round
    &&& f.error@ == error
}

impl Progress {
    /// A campaign that has done nothing yet, on `workload`.
    pub fn new(workload: &Workload) -> (r: Progress)
        ensures
            r.quarantined@.len() == 0,
            r.written == 0,
            r.failed == 0,
            r.gate.reference == workload.checksum,
            r.gate.declared == (workload.checksum is Some),
            r.gate.workload@ == workload.id@,
    {
        Progress { quarantined: Vec::new(), written: 0, failed: 0, gate: Gate::new(workload) }
    }

    /// Whether `unit` is still part of the campaign.
    pub fn live(&self, unit: &Unit) -> (r: bool)
        ensures
            r == !views(self.quarantined@).contains(unit.image@),
    {
        !quarantined_image(&self.quarantined, unit.image.as_str())
    }

    /// Take `unit` out of the campaign for every remaining round and phase.
    fn quarantine(
        &mut self,
        unit: &Unit,
        stage: Stage,
        phase: Option<Phase>,
        round: Option<u32>,
        error: String,
    ) -> (r: Failure)
        requires
            old(self).failed < usize::MAX,
        ensures
            failure_is(r, *unit, stage, phase, round, error@),
            views(final(self).quarantined@) == views(old(self).quarantined@).push(unit.image@),
            final(self).failed == old(self).failed + 1,
            final(self).written == old(self).written,
            final(self).gate == old(self).gate,
    {
        proof {
            crate::text::lemma_views_push(self.quarantined@, unit.image);
        }
        self.quarantined.push(unit.image.clone());
        self.failed = self.failed + 1;
        failure_of(unit, stage, phase, round, error)
    }

    /// What a build of `unit` means: nothing, or a failure that retires the
    /// unit before it is ever run. The error is the build's, with its context.
    pub fn prepared(&mut self, unit: &Unit, built: Result<(), String>) -> (r: Option<Failure>)
        requires
            old(self).failed < usize::MAX,
        ensures
            final(self).written == old(self).written,
            final(self).gate == old(self).gate,
            match built {
                Ok(()) => r is None && final(self).failed == old(self).failed
                    && final(self).quarantined@ == old(self).quarantined@,
                Err(error) => r matches Some(f) && failure_is(
                    f,
                    *unit,
                    Stage::Prepare,
                    None,
                    None,
                    error@,
                ) && final(self).failed == old(self).failed + 1 && views(final(self).quarantined@)
                    == views(old(self).quarantined@).push(unit.image@),
            },
    {
        match built {
            Ok(()) => None,
            Err(error) => Some(self.quarantine(unit, Stage::Prepare, None, None, error)),
        }
    }

    /// What one invocation means. A run the engine could not complete, and a
    /// run in any mode whose checksum disagrees with the reference, retire the
    /// unit; any other run is a sample, counted as written.
    pub fn measured(
        &mut self,
        unit: &Unit,
        phase: Phase,
        round: u32,
        warmup: bool,
        cpu: usize,
        run: Result<(u64, ContainerRecord), String>,
    ) -> (r: Measured)
        requires
            old(self).failed < usize::MAX,
            old(self).written < usize::MAX,
        ensures
            final(self).gate.declared == old(self).gate.declared,
            final(self).gate.workload@ == old(self).gate.workload@,
            match run {
                Err(error) => r matches Measured::Quarantined(f) && failure_is(
                    f,
                    *unit,
                    Stage::Measure,
                    Some(phase),
                    Some(round),
                    error@,
                ) && final(self).failed == old(self).failed + 1 && final(self).written == old(
                    self,
                ).written && views(final(self).quarantined@) == views(old(self).quarantined@).push(
                    unit.image@,
                ) && final(self).gate == old(self).gate,
                Ok((wall_ns, record)) => {
                    let checked = record.checksum is Some;
                    let agrees = match old(self).gate.reference {
                        Some(reference) => reference == record.checksum->0,
                        None => true,
                    };
                    if !checked || agrees {
                        &&& r matches Measured::Sample(s) && sample_is(
                            s,
                            *unit,
                            phase,
                            round,
                            warmup,
                            cpu,
                            wall_ns,
                            record,
                        )
                        &&& final(self).written == old(self).written + 1
                        &&& final(self).failed == old(self).failed
                        &&& final(self).quarantined@ == old(self).quarantined@
                        &&& final(self).gate.reference == if checked {
                            record.checksum
                        } else {
                            old(self).gate.reference
                        }
                    } else {
                        &&& r matches Measured::Quarantined(f) && failure_is(
                            f,
                            *unit,
                            Stage::Measure,
                            Some(phase),
                            Some(round),
                            mismatch_text(
                                unit.implementation.workload@,
                                unit.implementation.slug_spec(),
                                record.checksum->0,
                                old(self).gate.reference->0,
                                old(self).gate.declared,
                                old(self).gate.workload@,
                            ),
                        )
                        &&& final(self).failed == old(self).failed + 1
                        &&& final(self).written == old(self).written
                        &&& views(final(self).quarantined@) == views(old(self).quarantined@).push(
                            unit.image@,
                        )
                        &&& final(self).gate.reference == old(self).gate.reference
                    }
                },
            },
    {
        match run {
            Err(error) => Measured::Quarantined(
                self.quarantine(unit, Stage::Measure, Some(phase), Some(round), error),
            ),
            Ok((wall_ns, record)) => {
                let sample = sample_of(unit, phase, round, warmup, cpu, wall_ns, &record);
                match self.gate.verify(&sample) {
                    Ok(()) => {
                        self.written = self.written + 1;
                        Measured::Sample(sample)
                    },
                    Err(mismatch) => Measured::Quarantined(
                        self.quarantine(
                            unit,
                            Stage::Measure,
                            Some(phase),
                            Some(round),
                            mismatch.message(),
                        ),
                    ),
                }
            },
        }
    }
}

// ---------------------------------------------------------------------------
// Before and after a campaign

/// Why a campaign's correctness gate is weaker than it could be.
#[derive(Debug, PartialEq, Eq, Structural)]
pub enum ChecksumNotice {
    /// Params were overridden: the declared answer is not the answer to this work.
    Overridden,
    /// The workload declares no answer at all.
    Undeclared,
}

impl ChecksumNotice {
    pub open spec fn message_text(self) -> Seq<char> {
        match self {
            ChecksumNotice::Overridden => "params were overridden, so the workload's declared checksum does not apply to this campaign — it is the answer to the declared work, not to this one. Correctness is still enforced *within* the campaign: every backend must agree with the first one. Nothing pins that agreement to a value from outside it. Publish from the declared params."@,
            ChecksumNotice::Undeclared => "this workload declares no `checksum`, so this campaign has NO correctness gate. It can only establish that its backends agree with each other — which a campaign where every one of them is wrong the same way passes, and which claims nothing at all against any other campaign. A backend that computes nothing and returns instantly would top this table. If the work is deterministic, declare the answer."@,
        }
    }

    pub fn message(&self) -> (r: String)
        ensures
            r@ == self.message_text(),
    {
        match self {
            ChecksumNotice::Overridden => owned(
                "params were overridden, so the workload's declared checksum does not apply to this campaign — it is the answer to the declared work, not to this one. Correctness is still enforced *within* the campaign: every backend must agree with the first one. Nothing pins that agreement to a value from outside it. Publish from the declared params.",
            ),
            ChecksumNotice::Undeclared => owned(
                "this workload declares no `checksum`, so this campaign has NO correctness gate. It can only establish that its backends agree with each other — which a campaign where every one of them is wrong the same way passes, and which claims nothing at all against any other campaign. A backend that computes nothing and returns instantly would top this table. If the work is deterministic, declare the answer.",
            ),
        }
    }
}

/// What a campaign says about its gate before it starts, from the declared
/// checksum and the one that applies to what will run.
pub fn checksum_notice(declared: Option<u64>, effective: Option<u64>) -> (r: Option<ChecksumNotice>)
    ensures
        r == match (declared, effective) {
            (Some(_), None) => Some(ChecksumNotice::Overridden),
            (None, _) => Some(ChecksumNotice::Undeclared),
            (Some(_), Some(_)) => None::<ChecksumNotice>,
        },
{
    match (declared, effective) {
        (Some(_), None) => Some(ChecksumNotice::Overridden),
        (None, _) => Some(ChecksumNotice::Undeclared),
        (Some(_), Some(_)) => None,
    }
}

/// The names of the requested modes, joined by `, `.
pub open spec fn mode_names(modes: Seq<Mode>) -> Seq<Seq<char>> {
    modes.map_values(|m: Mode| m.name())
}

pub fn mode_strings(modes: &Vec<Mode>) -> (r: Vec<String>)
    ensures
        views(r@) == mode_names(modes@),
{
    let mut r: Vec<String> = Vec::new();
    let mut i: usize = 0;
    while i < modes.len()
        invariant
            i <= modes@.len(),
            views(r@) == mode_names(modes@.take(i as int)),
        decreases modes.len() - i,
    {
        let ghost before = views(r@);
        r.push(owned(modes[i].as_str()));
        assert(views(r@) =~= before.push(modes@[i as int].name()));
        assert(mode_names(modes@.take(i + 1)) =~= mode_names(modes@.take(i as int)).push(
            modes@[i as int].name(),
        ));
        i += 1;
    }
    assert(modes@.take(i as int) =~= modes@);
    r
}

/// Why nothing was scheduled. Two ways to schedule nothing, and they call for
/// different fixes: a mode nobody declares is a flag to change, an
/// architecture nobody builds on is a machine to change.
pub fn nothing_scheduled(host: Option<Architecture>, machine_arch: &str, requested: &Vec<Mode>) -> (r:
    String)
    ensures
        r@ == "no implementation is buildable on "@ + match host {
            Some(h) => h.name(),
            None => "this machine ("@ + machine_arch@ + ")"@,
        } + " in any of the requested modes ("@ + crate::text::join(mode_names(requested@), ", "@)
            + "). Every discovered implementation either declares a narrower `modes` list, or declares an `architecture` list that does not include this machine."@,
{
    let mut m = owned("no implementation is buildable on ");
    match host {
        Some(h) => push_str(&mut m, h.as_str()),
        None => {
            push_str(&mut m, "this machine (");
            push_str(&mut m, machine_arch);
            push_str(&mut m, ")");
        },
    }
    push_str(&mut m, " in any of the requested modes (");
    push_str(&mut m, crate::text::join_strings(&mode_strings(requested), ", ").as_str());
    push_str(
        &mut m,
        "). Every discovered implementation either declares a narrower `modes` list, or declares an `architecture` list that does not include this machine.",
    );
    m
}

/// The header a campaign records: the workload as it will actually run, and
/// the parameters it was run with.
pub fn campaign_header(args: &crate::cli::RunArgs, workload: &Workload, version: &str, timestamp: &str) -> (r:
    crate::sample::Campaign)
    ensures
        r.langbench_version@ == version@,
        r.timestamp@ == timestamp@,
        r.cpu == args.cpu,
        r.workload.same_as(*workload),
        r.rounds == args.rounds,
        r.build_rounds == args.build_rounds,
        r.warmup_rounds == args.warmup_rounds,
        r.march@ == args.march@,
        views(r.modes@) == mode_names(args.mode@),
{
    crate::sample::Campaign {
        langbench_version: owned(version),
        timestamp: owned(timestamp),
        cpu: args.cpu,
        workload: workload.duplicate(),
        rounds: args.rounds,
        build_rounds: args.build_rounds,
        warmup_rounds: args.warmup_rounds,
        march: args.march.clone(),
        modes: mode_strings(&args.mode),
    }
}

/// Every unit failed: there is no campaign, only a list of things that broke.
pub struct Collapsed {
    pub failures: usize,
}

impl Collapsed {
    pub open spec fn message_text(self) -> Seq<char> {
        "every unit of the campaign failed ("@ + decimal(self.failures as nat)
            + " of them); no sample was measured. The first failure is usually the only one worth reading — a daemon that is not running, or an image that does not build, fails identically for everyone."@
    }

    pub fn message(&self) -> (r: String)
        ensures
            r@ == self.message_text(),
    {
        let mut m = owned("every unit of the campaign failed (");
        push_str(&mut m, usize_to_string(self.failures).as_str());
        push_str(
            &mut m,
            " of them); no sample was measured. The first failure is usually the only one worth reading — a daemon that is not running, or an image that does not build, fails identically for everyone.",
        );
        m
    }
}

/// How a campaign ends. One that wrote no sample failed — unless it was told
/// to stop, which is the one case where zero samples means the harness did
/// exactly what it was asked.
pub fn verdict(interrupted: bool, written: usize, failures: usize) -> (r: Result<(), Collapsed>)
    ensures
        r is Ok <==> (interrupted || written > 0),
        r matches Err(c) ==> c.failures == failures,
{
    if interrupted || written > 0 {
        Ok(())
    } else {
        Err(Collapsed { failures })
    }
}

} // verus!
