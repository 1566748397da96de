//! Whole campaigns, driven the way the binary drives them: every image built
//! once, then round after round in the order the library schedules, each
//! outcome handed back to the library to become a sample or a failure. The
//! container engine is a script.

use langbench::cli::Architecture;
use langbench::discovery::Implementation;
use langbench::mode::Mode;
use langbench::runner::{
    next_invocation, nothing_scheduled, schedule, verdict, Collapsed, Cursor, Measured, Progress,
    Unit,
};
use langbench::sample::{ContainerRecord, Failure, Phase, Sample, Stage};
use langbench::workload::Workload;

/// What the script answers for one run.
enum Run {
    Checksum(u64),
    Failed(String),
    Interrupted,
}

struct Outcome {
    samples: Vec<Sample>,
    failures: Vec<Failure>,
    builds: Vec<String>,
    runs: Vec<String>,
    verdict: Result<(), Collapsed>,
}

struct Rounds {
    warmup: u32,
    build: u32,
    run: u32,
}

fn record(checksum: Option<u64>) -> ContainerRecord {
    ContainerRecord {
        elapsed_ns: 1_000,
        user_usec: 10,
        system_usec: 1,
        checksum,
        peak_bytes: Some(4_194_304),
        binary_bytes: None,
        binary_stripped_bytes: None,
        text_bytes: None,
    }
}

/// The kernel every fixture declares is this many bytes on disk.
const SOURCE_BYTES: u64 = 24;

fn implementation_for(workload: &str, backend: &str, modes: &[Mode]) -> Implementation {
    let (language, compiler) = backend.split_once('-').expect("<language>-<compiler>");
    Implementation {
        workload: workload.to_owned(),
        language: language.to_owned(),
        compiler: Some(compiler.to_owned()),
        interpreter: None,
        description: format!("{backend}, as the fixture declares it."),
        comments: None,
        context: format!("benchmarks/{workload}/{backend}"),
        source: "kernel.txt".to_owned(),
        source_bytes: SOURCE_BYTES,
        fp_modes: modes.to_vec(),
        architectures: Architecture::ALL.to_vec(),
    }
}

fn units(workload: &str, backends: &[&str], modes: &[Mode]) -> Vec<Unit> {
    let implementations: Vec<Implementation> = backends
        .iter()
        .map(|backend| implementation_for(workload, backend, &Mode::ALL))
        .collect();
    schedule(&implementations, &modes.to_vec(), Some(Architecture::X86_64)).0
}

fn workload(id: &str) -> Workload {
    let mut workload = Workload::fixture();
    workload.id = id.to_owned();
    workload
}

fn campaign(
    workload: &Workload,
    units: &Vec<Unit>,
    rounds: Rounds,
    build: impl Fn(&str) -> Result<(), String>,
    mut run: impl FnMut(&str) -> Run,
) -> Outcome {
    let mut progress = Progress::new(workload);
    let mut outcome = Outcome {
        samples: Vec::new(),
        failures: Vec::new(),
        builds: Vec::new(),
        runs: Vec::new(),
        verdict: Ok(()),
    };
    for unit in units {
        outcome.builds.push(unit.image.clone());
        if let Some(failure) = progress.prepared(unit, build(&unit.image)) {
            outcome.failures.push(failure);
        }
    }
    let mut interrupted = false;
    'phases: for (phase, measured) in [(Phase::Build, rounds.build), (Phase::Run, rounds.run)] {
        let total = rounds.warmup + measured;
        let mut at = Cursor { round: 0, unit: 0 };
        while let Some(next) = next_invocation(units, &progress.quarantined, total, at) {
            let unit = &units[next.unit];
            outcome.runs.push(unit.image.clone());
            let result = match run(&unit.image) {
                Run::Checksum(checksum) => Ok((2_000, record(Some(checksum)))),
                Run::Failed(error) => Err(error),
                Run::Interrupted => {
                    interrupted = true;
                    break 'phases;
                }
            };
            match progress.measured(unit, phase, next.round, next.round < rounds.warmup, 4, result) {
                Measured::Sample(sample) => outcome.samples.push(sample),
                Measured::Quarantined(failure) => outcome.failures.push(failure),
            }
            at = Cursor { round: next.round, unit: next.unit + 1 };
        }
    }
    outcome.verdict = verdict(interrupted, progress.written, progress.failed);
    outcome
}

fn measured_only(run: u32) -> Rounds {
    Rounds { warmup: 0, build: 0, run }
}

#[test]
fn a_sample_carries_its_memory_and_the_size_of_its_source() {
    let units = units("mandelbrot", &["c-gcc"], &[Mode::Baseline]);
    let outcome = campaign(
        &workload("mandelbrot"),
        &units,
        measured_only(1),
        |_| Ok(()),
        |_| Run::Checksum(42),
    );
    let sample = &outcome.samples[0];
    assert_eq!(sample.peak_bytes, Some(4_194_304));
    assert_eq!(sample.source_bytes, Some(SOURCE_BYTES));
    assert_eq!(sample.wall_ns, 2_000);
    assert_eq!(sample.checksum, Some(42));
}

#[test]
fn every_unit_is_prepared_once_and_measured_every_round() {
    let units = units("mandelbrot", &["c-gcc", "rust-llvm"], &[Mode::Baseline, Mode::Native]);
    let outcome = campaign(
        &workload("mandelbrot"),
        &units,
        Rounds { warmup: 1, build: 1, run: 2 },
        |_| Ok(()),
        |_| Run::Checksum(42),
    );
    // 2 implementations x 2 modes.
    assert_eq!(outcome.builds.len(), 4);
    // 4 units x ((1 warmup + 1 build round) + (1 warmup + 2 run rounds)).
    assert_eq!(outcome.runs.len(), 4 * 5);
    assert!(outcome.verdict.is_ok());
}

#[test]
fn requesting_only_modes_nobody_distinguishes_is_an_error() {
    let cpython = implementation_for("mandelbrot", "python-cpython", &[Mode::Baseline]);
    let (scheduled, _) = schedule(&vec![cpython], &vec![Mode::Native], Some(Architecture::X86_64));
    assert!(scheduled.is_empty());

    let err = nothing_scheduled(Some(Architecture::X86_64), "x86_64", &vec![Mode::Native]);
    assert!(err.contains("no implementation is buildable"), "{err}");
    assert!(err.contains("modes"), "{err}");
    assert!(err.contains("architecture"), "{err}");
}

#[test]
fn a_strict_mode_checksum_divergence_quarantines_the_backend_not_the_campaign() {
    let units = units("mandelbrot", &["c-gcc", "c-clang"], &[Mode::Baseline]);
    let outcome = campaign(
        &workload("mandelbrot"),
        &units,
        measured_only(3),
        |_| Ok(()),
        |image| Run::Checksum(if image.contains("clang") { 9 } else { 7 }),
    );
    assert!(outcome.verdict.is_ok());

    assert_eq!(outcome.samples.len(), 3);
    let survivor = outcome.samples[0].backend();
    assert!(outcome.samples.iter().all(|sample| sample.backend() == survivor));

    assert_eq!(outcome.failures.len(), 1);
    let failure = &outcome.failures[0];
    assert_ne!(failure.backend(), survivor);
    assert_eq!(failure.stage, Stage::Measure);
    assert!(failure.error.contains("checksum mismatch"), "{failure:?}");
}

#[test]
fn two_algorithms_are_each_verified_against_their_own_reference() {
    let by_workload = |image: &str| Run::Checksum(if image.contains("nbody") { 9 } else { 7 });
    for id in ["mandelbrot", "nbody"] {
        let units = units(id, &["c-gcc"], &[Mode::Baseline]);
        let outcome =
            campaign(&workload(id), &units, measured_only(2), |_| Ok(()), by_workload);
        assert!(outcome.verdict.is_ok());
        assert!(outcome.failures.is_empty(), "{id}");
        assert_eq!(outcome.samples.len(), 2);
    }
}

#[test]
fn an_interrupted_campaign_succeeds_and_keeps_every_sample_it_wrote() {
    let units = units("mandelbrot", &["c-gcc"], &[Mode::Baseline]);
    let mut remaining = 2;
    let outcome = campaign(
        &workload("mandelbrot"),
        &units,
        measured_only(4),
        |_| Ok(()),
        |_| {
            if remaining == 0 {
                return Run::Interrupted;
            }
            remaining -= 1;
            Run::Checksum(42)
        },
    );
    assert!(outcome.verdict.is_ok());
    assert_eq!(outcome.samples.len(), 2);
}

#[test]
fn a_crashing_backend_is_quarantined_and_the_others_carry_on() {
    let units = units("mandelbrot", &["c-gcc", "rust-llvm"], &[Mode::Baseline]);
    let outcome = campaign(
        &workload("mandelbrot"),
        &units,
        measured_only(4),
        |_| Ok(()),
        |image| {
            if image.contains("rust") {
                Run::Failed(format!("`docker run` failed for {image}:\nSegmentation fault"))
            } else {
                Run::Checksum(42)
            }
        },
    );
    assert!(outcome.verdict.is_ok());
    assert_eq!(outcome.samples.len(), 4, "four rounds of the C backend");
    assert_eq!(outcome.failures.len(), 1, "the crash is recorded once");
    assert_eq!(outcome.failures[0].backend(), "rust-llvm");
    assert_eq!(outcome.failures[0].round, Some(0));
}

#[test]
fn an_image_that_does_not_build_is_quarantined_before_it_is_ever_run() {
    let units = units("mandelbrot", &["c-gcc", "rust-llvm"], &[Mode::Baseline]);
    let outcome = campaign(
        &workload("mandelbrot"),
        &units,
        measured_only(2),
        |image| {
            if image.contains("rust") {
                Err(format!("`docker build` failed for {image}"))
            } else {
                Ok(())
            }
        },
        |image| {
            assert!(image.contains("c-gcc"), "ran a unit that never built");
            Run::Checksum(42)
        },
    );
    assert_eq!(outcome.runs.len(), 2);
    assert_eq!(outcome.failures.len(), 1);
    assert_eq!(outcome.failures[0].stage, Stage::Prepare);
    assert_eq!(outcome.failures[0].round, None);
}

#[test]
fn quarantine_takes_the_unit_and_not_the_whole_implementation() {
    let units = units("mandelbrot", &["c-gcc"], &[Mode::Baseline, Mode::Native]);
    let outcome = campaign(
        &workload("mandelbrot"),
        &units,
        measured_only(1),
        |image| {
            if image.ends_with(":native") {
                Err("`docker build` failed: -march=native is not a flag this fixture likes".to_owned())
            } else {
                Ok(())
            }
        },
        |_| Run::Checksum(42),
    );
    assert_eq!(outcome.samples.len(), 1);
    assert_eq!(outcome.samples[0].mode, Mode::Baseline);
    assert_eq!(outcome.failures.len(), 1);
    assert_eq!(outcome.failures[0].mode, Mode::Native);
}

#[test]
fn a_campaign_where_every_unit_failed_still_fails() {
    let units = units("mandelbrot", &["c-gcc"], &[Mode::Baseline]);
    let outcome = campaign(
        &workload("mandelbrot"),
        &units,
        measured_only(1),
        |_| Ok(()),
        |_| Run::Failed("`docker run` failed for langbench/mandelbrot-c-gcc:baseline".to_owned()),
    );
    let error = outcome.verdict.unwrap_err();
    assert!(error.message().contains("every unit"), "{}", error.message());
}
