use langbench::analysis::{analyze, failure, Analysis, Options};
use langbench::compare::MINIMUM_SAMPLES_FOR_DISPERSION;
use langbench::machine::Machine;
use langbench::mode::Mode;
use langbench::report::{delta, failure_row, one_line, or_na, stage, with_one_newline};
use langbench::sample::{Campaign, Failure, Phase, Recording, Sample, Stage};
use langbench::workload::Workload;

fn lost() -> Failure {
    Failure {
        workload: "mandelbrot".to_owned(),
        language: "rust".to_owned(),
        compiler: Some("llvm".to_owned()),
        interpreter: None,
        description: "Rust, as the fixture declares it.".to_owned(),
        comments: None,
        mode: Mode::Baseline,
        stage: Stage::Measure,
        phase: Some(Phase::Run),
        round: Some(2),
        error: "`docker run` failed\nSegmentation fault | core dumped".to_owned(),
    }
}

#[test]
fn the_report_names_the_backends_the_campaign_lost() {
    let row = failure_row(&failure(&lost()));
    assert_eq!(row.backend, "rust-llvm");
    assert_eq!(row.stage, "run round 3");
    assert_eq!(row.error, "`docker run` failed · Segmentation fault \\| core dumped");
    assert_eq!(row.compiler, "llvm");
    assert_eq!(row.interpreter, "n/a");
    assert_eq!(row.mode, "baseline");
    assert_eq!(row.workload, "mandelbrot");
}

#[test]
fn an_image_that_never_built_was_lost_at_the_build() {
    assert_eq!(stage(Stage::Prepare, None, None), "build");
    assert_eq!(stage(Stage::Measure, None, None), "run");
    assert_eq!(stage(Stage::Measure, Some(Phase::Build), Some(0)), "build round 1");
}

#[test]
fn a_message_becomes_one_table_cell() {
    assert_eq!(one_line("  first  \n\n   \nsecond\r\nthird|x  "), "first · second · third\\|x");
    assert_eq!(one_line(""), "");
    assert_eq!(one_line("no newline"), "no newline");
}

#[test]
fn a_strict_mode_row_shows_a_bare_zero_delta() {
    assert_eq!(delta(Some(0)), "0");
}

#[test]
fn a_row_reports_its_signed_distance_from_the_reference() {
    assert_eq!(delta(Some(-2)), "-2");
    assert_eq!(delta(Some(3)), "+3");
    assert_eq!(delta(None), "n/a");
    assert_eq!(delta(Some(-18446744073709551615)), "-18446744073709551615");
}

#[test]
fn an_absent_half_of_the_triple_is_spelled_not_available() {
    assert_eq!(or_na(&None), "n/a");
    assert_eq!(or_na(&Some("cpython".to_owned())), "cpython");
}

#[test]
fn a_rendered_report_ends_with_exactly_one_newline() {
    assert_eq!(with_one_newline("# Report\n\n\n"), "# Report\n");
    assert_eq!(with_one_newline("# Report"), "# Report\n");
    assert_eq!(with_one_newline("  \n"), "\n");
    assert_eq!(with_one_newline("  lead\t \n"), "  lead\n");
}

// The report's rows are the default analysis of the campaign: these check the
// numbers each row is printed from.

fn campaign() -> Campaign {
    Campaign {
        langbench_version: "0.1.0".to_owned(),
        timestamp: "2026-07-09T12:00:00Z".to_owned(),
        cpu: 8,
        workload: Workload::fixture(),
        rounds: 30,
        build_rounds: 5,
        warmup_rounds: 2,
        march: "x86-64-v3".to_owned(),
        modes: vec!["baseline".to_owned()],
    }
}

fn sample(backend: &str, mode: Mode, phase: Phase, warmup: bool, wall: u64) -> Sample {
    let (language, compiler) = backend.split_once('-').expect("<language>-<compiler>");
    Sample {
        workload: "mandelbrot".to_owned(),
        language: language.to_owned(),
        compiler: Some(compiler.to_owned()),
        interpreter: None,
        description: format!("{backend}, as the fixture declares it"),
        comments: None,
        mode,
        phase,
        round: 0,
        warmup,
        cpu: 8,
        wall_ns: wall,
        elapsed_ns: wall / 2,
        user_usec: 1_000,
        system_usec: 0,
        peak_bytes: Some(12_582_912),
        source_bytes: Some(2_048),
        checksum: Some(42),
        binary_bytes: Some(2048),
        binary_stripped_bytes: None,
        text_bytes: Some(1024),
    }
}

fn report(samples: Vec<Sample>) -> Analysis {
    analyze(
        &Recording { machine: Machine::default(), campaign: campaign(), samples, failures: Vec::new() },
        Options::default(),
    )
}

fn implementations(analysis: &Analysis) -> Vec<&str> {
    analysis.workloads[0].aggregates.iter().map(|row| row.backend.as_str()).collect()
}

#[test]
fn warmup_samples_never_enter_the_aggregates() {
    let data = report(vec![
        sample("c-gcc", Mode::Baseline, Phase::Run, true, 9_000_000_000),
        sample("c-gcc", Mode::Baseline, Phase::Run, false, 2_000_000_000),
    ]);
    let run = data.workloads[0].aggregates[0].run_wall.unwrap();
    assert_eq!(run.n, 1);
    assert_eq!(run.min, 2_000_000_000);
}

#[test]
fn build_and_run_phases_land_in_separate_columns() {
    let data = report(vec![
        sample("c-gcc", Mode::Baseline, Phase::Build, false, 800_000_000),
        sample("c-gcc", Mode::Baseline, Phase::Run, false, 2_000_000_000),
    ]);
    let row = &data.workloads[0].aggregates[0];
    assert_eq!(row.build_elapsed.unwrap().min, 400_000_000);
    assert_eq!(row.run_wall.unwrap().min, 2_000_000_000);
}

#[test]
fn the_build_column_excludes_container_creation() {
    let mut build_sample = sample("c-gcc", Mode::Baseline, Phase::Build, false, 0);
    build_sample.wall_ns = 142_000_000;
    build_sample.elapsed_ns = 30_000_000;
    let data = report(vec![build_sample]);
    assert_eq!(data.workloads[0].aggregates[0].build_elapsed.unwrap().min, 30_000_000);
}

#[test]
fn an_implementation_with_no_build_phase_reports_not_available() {
    let data = report(vec![sample("py-cpython", Mode::Baseline, Phase::Run, false, 1_000_000)]);
    assert_eq!(data.workloads[0].aggregates[0].build_elapsed, None);
}

#[test]
fn a_relaxed_mode_reports_its_distance_from_the_strict_reference() {
    let reference = sample("c-gcc", Mode::Baseline, Phase::Run, false, 1_000_000);
    let mut divergent = sample("c-gcc", Mode::Native, Phase::Run, false, 1_000_000);
    divergent.checksum = Some(40);
    let data = report(vec![reference, divergent]);
    assert_eq!(delta(data.workloads[0].aggregates[1].checksum_delta), "-2");
}

#[test]
fn a_campaign_that_recorded_no_checksum_has_no_reference_to_measure_against() {
    let mut silent = sample("c-gcc", Mode::Native, Phase::Run, false, 1_000_000);
    silent.checksum = None;
    let data = report(vec![silent]);
    assert_eq!(data.workloads[0].strict_checksum, None);
    assert_eq!(delta(data.workloads[0].aggregates[0].checksum_delta), "n/a");
}

#[test]
fn a_native_only_campaign_is_measured_against_its_own_first_checksum() {
    // Every mode is strict IEEE 754: a native row is as good a reference as a
    // baseline one.
    let mut first = sample("c-gcc", Mode::Native, Phase::Run, false, 1_000_000);
    first.checksum = Some(40);
    let data = report(vec![first]);
    assert_eq!(data.workloads[0].strict_checksum, Some(40));
    assert_eq!(delta(data.workloads[0].aggregates[0].checksum_delta), "0");
}

#[test]
fn each_algorithm_measures_its_delta_against_its_own_reference() {
    let first = sample("c-gcc", Mode::Baseline, Phase::Run, false, 1_000_000);

    let mut second = sample("c-gcc", Mode::Baseline, Phase::Run, false, 1_000_000);
    second.workload = "nbody".to_owned();
    second.checksum = Some(1_000);

    let mut relaxed = sample("c-gcc", Mode::Native, Phase::Run, false, 1_000_000);
    relaxed.workload = "nbody".to_owned();
    relaxed.checksum = Some(997);

    let data = report(vec![first, second, relaxed]);
    assert_eq!(data.workloads[0].strict_checksum, Some(42));
    assert_eq!(data.workloads[1].strict_checksum, Some(1_000));
    assert_eq!(delta(data.workloads[1].aggregates[0].checksum_delta), "0");
    assert_eq!(delta(data.workloads[1].aggregates[1].checksum_delta), "-3");
}

#[test]
fn startup_is_the_smallest_gap_of_a_single_run_not_the_difference_of_the_minima() {
    let mut fast_wall = sample("c-gcc", Mode::Baseline, Phase::Run, false, 0);
    fast_wall.wall_ns = 350_000_000;
    fast_wall.elapsed_ns = 240_000_000;

    let mut fast_compute = sample("c-gcc", Mode::Baseline, Phase::Run, false, 0);
    fast_compute.wall_ns = 400_000_000;
    fast_compute.elapsed_ns = 230_000_000;

    let data = report(vec![fast_wall, fast_compute]);
    let row = &data.workloads[0].aggregates[0];
    assert_eq!(row.run_wall.unwrap().min, 350_000_000);
    assert_eq!(row.run_elapsed.unwrap().min, 230_000_000);
    assert_eq!(row.run_startup.unwrap().min, 110_000_000);
}

#[test]
fn dispersion_below_three_samples_is_not_reported_as_zero() {
    let data = report(vec![
        sample("c-gcc", Mode::Baseline, Phase::Run, false, 1_000_000),
        sample("c-gcc", Mode::Baseline, Phase::Run, false, 5_000_000),
    ]);
    let run = data.workloads[0].aggregates[0].run_wall.unwrap();
    assert_eq!(run.n, 2);
    assert!(run.n < MINIMUM_SAMPLES_FOR_DISPERSION);
}

#[test]
fn rows_of_equal_speed_keep_the_schedule_order() {
    let data = report(vec![
        sample("c-gcc", Mode::Baseline, Phase::Run, false, 1_000_000),
        sample("rust-llvm", Mode::Baseline, Phase::Run, false, 1_000_000),
        sample("c-gcc", Mode::Baseline, Phase::Run, false, 1_000_000),
    ]);
    assert_eq!(implementations(&data), ["c-gcc", "rust-llvm"]);
}

#[test]
fn every_row_links_to_a_backend_section_that_exists() {
    let data = report(vec![
        sample("c-gcc", Mode::Baseline, Phase::Run, false, 1_000_000),
        sample("c-gcc", Mode::Native, Phase::Run, false, 1_000_000),
        sample("python-cpython", Mode::Baseline, Phase::Run, false, 9_000_000),
    ]);
    assert_eq!(data.backends.len(), 2);
    for row in &data.workloads[0].aggregates {
        assert!(
            data.backends.iter().any(|backend| backend.id == row.backend_id),
            "`{}` links to a section that does not exist",
            row.backend_id,
        );
    }
}

#[test]
fn rows_are_sorted_fastest_first() {
    let data = report(vec![
        sample("c-gcc", Mode::Baseline, Phase::Run, false, 3_000_000),
        sample("python-cpython", Mode::Baseline, Phase::Run, false, 9_000_000),
        sample("rust-llvm", Mode::Baseline, Phase::Run, false, 1_000_000),
    ]);
    assert_eq!(implementations(&data), ["rust-llvm", "c-gcc", "python-cpython"]);
}

#[test]
fn the_ranking_is_on_the_minimum_not_the_first_sample() {
    let data = report(vec![
        sample("c-gcc", Mode::Baseline, Phase::Run, false, 1_000_000),
        sample("c-gcc", Mode::Baseline, Phase::Run, false, 9_000_000),
        sample("rust-llvm", Mode::Baseline, Phase::Run, false, 2_000_000),
        sample("rust-llvm", Mode::Baseline, Phase::Run, false, 2_000_000),
    ]);
    assert_eq!(implementations(&data), ["c-gcc", "rust-llvm"]);
}
