use langbench::analysis::{analyze, Options};
use langbench::machine::Machine;
use langbench::mode::Mode;
use langbench::sample::{Campaign, Phase, Recording, Sample};
use langbench::workload::Workload;

fn recording(samples: Vec<Sample>) -> Recording {
    Recording {
        machine: Machine::default(),
        campaign: campaign(),
        samples,
        failures: Vec::new(),
    }
}

fn campaign() -> Campaign {
    Campaign {
        langbench_version: "0.1.0".to_owned(),
        timestamp: "2026-07-09T12:00:00Z".to_owned(),
        cpu: 8,
        workload: Workload::fixture(),
        rounds: 30,
        build_rounds: 5,
        warmup_rounds: 2,
        march: "x86-64-v3".to_owned(),
        modes: vec!["baseline".to_owned()],
    }
}

fn sample(backend: &str, mode: Mode, warmup: bool, wall: u64, checksum: u64) -> Sample {
    let (language, compiler) = backend.split_once('-').expect("<language>-<compiler>");
    Sample {
        workload: "mandelbrot".to_owned(),
        language: language.to_owned(),
        compiler: Some(compiler.to_owned()),
        interpreter: None,
        description: format!("{backend}, as the fixture declares it"),
        comments: None,
        mode,
        phase: Phase::Run,
        round: 0,
        warmup,
        cpu: 8,
        wall_ns: wall,
        elapsed_ns: wall / 2,
        user_usec: 1_000,
        system_usec: 0,
        peak_bytes: Some(12_582_912),
        source_bytes: Some(2_048),
        checksum: Some(checksum),
        binary_bytes: Some(2048),
        binary_stripped_bytes: None,
        text_bytes: Some(1024),
    }
}

#[test]
fn aggregates_are_sorted_fastest_first() {
    let samples = vec![
        sample("c-clang", Mode::Baseline, false, 3_000_000_000, 42),
        sample("c-gcc", Mode::Baseline, false, 2_000_000_000, 42),
    ];
    let analysis = analyze(&recording(samples), Options::default());
    let backends: Vec<&str> = analysis.workloads[0]
        .aggregates
        .iter()
        .map(|aggregate| aggregate.backend.as_str())
        .collect();
    assert_eq!(backends, ["c-gcc", "c-clang"]);
}

#[test]
fn warmup_samples_are_excluded_by_default_and_included_on_request() {
    let samples = vec![
        sample("c-gcc", Mode::Baseline, true, 9_000_000_000, 42),
        sample("c-gcc", Mode::Baseline, false, 2_000_000_000, 42),
    ];

    let cold = analyze(&recording(samples.clone()), Options::default());
    let run = cold.workloads[0].aggregates[0].run_wall.unwrap();
    assert_eq!(run.n, 1);
    assert_eq!(run.min, 2_000_000_000);

    let warm = analyze(&recording(samples), Options { include_warmup: true });
    let run = warm.workloads[0].aggregates[0].run_wall.unwrap();
    assert_eq!(run.n, 2);
    assert_eq!(run.min, 2_000_000_000);
}

#[test]
fn the_checksum_is_read_from_a_warmup_sample_too() {
    let samples = vec![sample("c-gcc", Mode::Baseline, true, 9_000_000_000, 7)];
    let analysis = analyze(&recording(samples), Options::default());
    let aggregate = &analysis.workloads[0].aggregates[0];
    assert_eq!(aggregate.checksum, Some(7));
    assert!(aggregate.run_wall.is_none());
}

#[test]
fn a_relaxed_mode_is_scored_against_the_strict_reference_of_its_own_algorithm() {
    let samples = vec![
        sample("c-gcc", Mode::Baseline, false, 2_000_000_000, 1_000),
        sample("c-gcc", Mode::Native, false, 1_000_000_000, 994),
    ];
    let analysis = analyze(&recording(samples), Options::default());
    assert_eq!(analysis.workloads[0].strict_checksum, Some(1_000));

    let fast = analysis.workloads[0]
        .aggregates
        .iter()
        .find(|aggregate| aggregate.mode == Mode::Native)
        .unwrap();
    assert_eq!(fast.checksum_delta, Some(-6));
}

#[test]
fn the_analysis_carries_the_isa_the_campaign_ran_on() {
    let mut recording = recording(vec![sample("c-gcc", Mode::Baseline, false, 2_000_000_000, 42)]);
    recording.machine.architecture = "x86_64".to_owned();
    recording.machine.hostname = Some("bench-01".to_owned());

    let analysis = analyze(&recording, Options::default());
    assert_eq!(analysis.architecture, "x86_64");
    assert_eq!(analysis.hostname.as_deref(), Some("bench-01"));
}

#[test]
fn startup_is_summarized_per_sample_never_as_a_difference_of_minima() {
    let mut fast_start = sample("c-gcc", Mode::Baseline, false, 2_000_000_000, 42);
    fast_start.elapsed_ns = 1_900_000_000;
    let mut slow_start = sample("c-gcc", Mode::Baseline, false, 2_500_000_000, 42);
    slow_start.elapsed_ns = 1_800_000_000;

    let analysis = analyze(&recording(vec![fast_start, slow_start]), Options::default());
    let aggregate = &analysis.workloads[0].aggregates[0];

    assert_eq!(aggregate.run_startup.unwrap().min, 100_000_000);
    assert_eq!(aggregate.run_wall.unwrap().min, 2_000_000_000);
    assert_eq!(aggregate.run_elapsed.unwrap().min, 1_800_000_000);
}

#[test]
fn the_core_count_is_summarized_from_the_median_not_the_minimum() {
    let mut clean = sample("c-gcc", Mode::Baseline, false, 2_000_000_000, 42);
    clean.cpu = 8;
    clean.elapsed_ns = 1_000_000_000;
    clean.user_usec = 7_800_000;
    let mut contended = clean.clone();
    contended.user_usec = 3_100_000;

    let analysis = analyze(&recording(vec![clean, contended]), Options::default());
    let cores = analysis.workloads[0].aggregates[0].run_cores.unwrap();
    assert_eq!(cores.n, 2);
    assert_eq!(cores.median, 3_100);
    assert_eq!(analysis.workloads[0].aggregates[0].cpu, 8);
}

#[test]
fn a_serial_backend_and_a_parallel_one_are_told_apart_by_their_cores() {
    let mut parallel = sample("c-gcc", Mode::Baseline, false, 2_000_000_000, 42);
    parallel.cpu = 8;
    parallel.elapsed_ns = 1_000_000_000;
    parallel.user_usec = 8_000_000;

    let mut serial = sample("python-cpython", Mode::Baseline, false, 9_000_000_000, 42);
    serial.cpu = 8;
    serial.elapsed_ns = 8_000_000_000;
    serial.user_usec = 8_000_000;

    let analysis = analyze(&recording(vec![parallel, serial]), Options::default());
    let cores = |backend: &str| {
        analysis.workloads[0]
            .aggregates
            .iter()
            .find(|aggregate| aggregate.backend == backend)
            .unwrap()
            .run_cores
            .unwrap()
            .median
    };
    assert_eq!(cores("c-gcc"), 8_000);
    assert_eq!(cores("python-cpython"), 1_000);
}

#[test]
fn peak_memory_is_the_smallest_high_water_mark_the_campaign_saw() {
    let mut lean = sample("c-gcc", Mode::Baseline, false, 2_000_000_000, 42);
    lean.peak_bytes = Some(10_000_000);
    let mut fat = sample("c-gcc", Mode::Baseline, false, 2_100_000_000, 42);
    fat.peak_bytes = Some(14_000_000);

    let analysis = analyze(&recording(vec![lean, fat]), Options::default());
    assert_eq!(analysis.workloads[0].aggregates[0].run_peak_bytes.unwrap().min, 10_000_000);
}

#[test]
fn a_campaign_with_no_memory_peak_reports_an_absence_never_a_zero() {
    let mut blind = sample("c-gcc", Mode::Baseline, false, 2_000_000_000, 42);
    blind.peak_bytes = None;

    let analysis = analyze(&recording(vec![blind]), Options::default());
    let aggregate = &analysis.workloads[0].aggregates[0];
    assert_eq!(aggregate.run_peak_bytes, None);
    assert_eq!(aggregate.run_wall.unwrap().min, 2_000_000_000);
}

#[test]
fn a_round_that_reported_no_memory_peak_is_left_out_rather_than_counted_as_zero() {
    let measured = sample("c-gcc", Mode::Baseline, false, 2_000_000_000, 42);
    let mut blind = sample("c-gcc", Mode::Baseline, false, 2_100_000_000, 42);
    blind.peak_bytes = None;

    let analysis = analyze(&recording(vec![measured, blind]), Options::default());
    let peak = analysis.workloads[0].aggregates[0].run_peak_bytes.unwrap();
    assert_eq!(peak.n, 1);
    assert_eq!(peak.min, 12_582_912);
}

#[test]
fn the_source_size_travels_onto_the_row_and_onto_the_backend_card() {
    let analysis = analyze(
        &recording(vec![sample("c-gcc", Mode::Baseline, false, 2_000_000_000, 42)]),
        Options::default(),
    );
    assert_eq!(analysis.workloads[0].aggregates[0].source_bytes, Some(2_048));
    assert_eq!(analysis.backends[0].source_bytes, Some(2_048));
}

#[test]
fn rows_of_equal_speed_keep_the_order_they_were_first_seen_in() {
    let samples = vec![
        sample("c-gcc", Mode::Baseline, false, 2_000_000_000, 42),
        sample("c-clang", Mode::Baseline, false, 2_000_000_000, 42),
        sample("c-tcc", Mode::Baseline, false, 1_000_000_000, 42),
    ];
    let analysis = analyze(&recording(samples), Options::default());
    let backends: Vec<&str> =
        analysis.workloads[0].aggregates.iter().map(|a| a.backend.as_str()).collect();
    assert_eq!(backends, ["c-tcc", "c-gcc", "c-clang"]);
}

#[test]
fn a_row_without_a_measured_run_sorts_last() {
    let samples = vec![
        sample("c-gcc", Mode::Baseline, true, 1_000_000_000, 42),
        sample("c-clang", Mode::Baseline, false, 5_000_000_000, 42),
    ];
    let analysis = analyze(&recording(samples), Options::default());
    let backends: Vec<&str> =
        analysis.workloads[0].aggregates.iter().map(|a| a.backend.as_str()).collect();
    assert_eq!(backends, ["c-clang", "c-gcc"]);
}

#[test]
fn every_row_links_to_a_backend_card_that_exists() {
    let samples = vec![
        sample("c-gcc", Mode::Baseline, false, 2_000_000_000, 42),
        sample("c-gcc", Mode::Native, false, 1_000_000_000, 42),
        sample("c-clang", Mode::Baseline, false, 3_000_000_000, 42),
    ];
    let analysis = analyze(&recording(samples), Options::default());
    assert_eq!(analysis.backends.len(), 2);
    for aggregate in &analysis.workloads[0].aggregates {
        assert!(analysis.backends.iter().any(|b| b.id == aggregate.backend_id));
    }
    assert_eq!(analysis.workloads[0].aggregates[0].backend_id, "mandelbrot-c-gcc");
}
