use langbench::analysis::{analyze, Analysis, Options};
use langbench::compare::{
    compare, compare_across, fractions, verdict, Comparison, Fractions, Metric, Row, Selection,
    Verdict,
};
use langbench::machine::Machine;
use langbench::mode::Mode;
use langbench::sample::{Campaign, Phase, Recording, Sample};
use langbench::workload::Workload;

fn campaign() -> Campaign {
    Campaign {
        langbench_version: "0.1.0".to_owned(),
        timestamp: "2026-07-11T12:00:00Z".to_owned(),
        cpu: 8,
        workload: Workload::fixture(),
        rounds: 30,
        build_rounds: 5,
        warmup_rounds: 2,
        march: "x86-64-v3".to_owned(),
        modes: vec!["baseline".to_owned()],
    }
}

fn sample(backend: &str, mode: Mode, wall: u64, checksum: u64) -> Sample {
    let (language, compiler) = backend.split_once('-').expect("<language>-<compiler>");
    Sample {
        workload: "mandelbrot".to_owned(),
        language: language.to_owned(),
        compiler: Some(compiler.to_owned()),
        interpreter: None,
        description: format!("{backend}, as the fixture declares it"),
        comments: None,
        mode,
        phase: Phase::Run,
        round: 0,
        warmup: false,
        cpu: 8,
        wall_ns: wall,
        elapsed_ns: wall / 2,
        user_usec: wall / 1_000,
        system_usec: 0,
        peak_bytes: Some(12_582_912),
        source_bytes: Some(2_048),
        checksum: Some(checksum),
        binary_bytes: Some(2048),
        binary_stripped_bytes: None,
        text_bytes: Some(1024),
    }
}

fn rows(backend: &str, mode: Mode, walls: &[u64], checksum: u64) -> Vec<Sample> {
    walls.iter().map(|wall| sample(backend, mode, *wall, checksum)).collect()
}

fn analysis(samples: Vec<Sample>) -> Analysis {
    on_arch("x86_64", samples)
}

fn on_arch(architecture: &str, samples: Vec<Sample>) -> Analysis {
    let machine = Machine { architecture: architecture.to_owned(), ..Machine::default() };
    analyze(
        &Recording { machine, campaign: campaign(), samples, failures: Vec::new() },
        Options::default(),
    )
}

fn row(backend: &str, mode: Mode) -> Row {
    Row { backend: backend.to_owned(), mode }
}

fn selection(left: &str, right: &str) -> Selection {
    Selection {
        workload: "mandelbrot".to_owned(),
        left: row(left, Mode::Baseline),
        right: row(right, Mode::Baseline),
    }
}

fn metric<'a>(comparison: &'a Comparison, key: &str) -> &'a Metric {
    comparison
        .metrics
        .iter()
        .find(|metric| metric.key == key)
        .expect("the comparison publishes this metric")
}

// The library decides every verdict on integers; a reader is shown the same
// numbers as fractions, taken here the way the site takes them.
fn ratio(metric: &Metric) -> Option<f64> {
    fractions(metric.left, metric.right)
        .map(|f| f.ratio_numerator as f64 / f.ratio_denominator as f64)
}

fn gap_pct(metric: &Metric) -> Option<f64> {
    fractions(metric.left, metric.right)
        .map(|f| f.gap_numerator as f64 / f.gap_denominator as f64 * 100.0)
}

fn noise_pct(metric: &Metric) -> Option<f64> {
    metric.noise.map(|noise| noise.mad as f64 / noise.median as f64 * 100.0)
}

fn quiet() -> Analysis {
    let mut samples = rows(
        "c-gcc",
        Mode::Baseline,
        &[2_000_000_000, 2_000_000_000, 2_010_000_000],
        42,
    );
    samples.extend(rows(
        "c-clang",
        Mode::Baseline,
        &[3_000_000_000, 3_000_000_000, 3_010_000_000],
        42,
    ));
    analysis(samples)
}

#[test]
fn the_ratio_is_the_right_hand_row_over_the_left_hand_one() {
    let comparison = compare(&quiet(), &selection("c-gcc", "c-clang")).unwrap();
    let run = metric(&comparison, "run");
    assert_eq!(run.left, Some(2_000_000_000));
    assert_eq!(run.right, Some(3_000_000_000));
    assert!((ratio(run).unwrap() - 1.5).abs() < 1e-9);
    assert!((gap_pct(run).unwrap() - 50.0).abs() < 1e-9);
    assert_eq!(run.verdict, Verdict::Left);
}

#[test]
fn the_comparison_is_symmetric() {
    let analysis = quiet();
    let forward = compare(&analysis, &selection("c-gcc", "c-clang")).unwrap();
    let backward = compare(&analysis, &selection("c-clang", "c-gcc")).unwrap();

    assert_eq!(metric(&forward, "run").verdict, Verdict::Left);
    assert_eq!(metric(&backward, "run").verdict, Verdict::Right);

    let forward_ratio = ratio(metric(&forward, "run")).unwrap();
    let backward_ratio = ratio(metric(&backward, "run")).unwrap();
    assert!((forward_ratio * backward_ratio - 1.0).abs() < 1e-9);
    assert_eq!(gap_pct(metric(&forward, "run")), gap_pct(metric(&backward, "run")));
    assert_eq!(metric(&forward, "run").left, metric(&backward, "run").right);
    assert_eq!(metric(&forward, "run").right, metric(&backward, "run").left);
    assert_eq!(forward.metrics.len(), backward.metrics.len());
}

#[test]
fn a_gap_smaller_than_the_dispersion_is_a_tie_not_a_win() {
    let mut samples = rows(
        "c-gcc",
        Mode::Baseline,
        &[1_000_000_000, 1_100_000_000, 1_200_000_000],
        42,
    );
    samples.extend(rows(
        "c-clang",
        Mode::Baseline,
        &[1_030_000_000, 1_130_000_000, 1_230_000_000],
        42,
    ));
    let comparison = compare(&analysis(samples), &selection("c-gcc", "c-clang")).unwrap();
    let run = metric(&comparison, "run");

    assert!(run.left.unwrap() < run.right.unwrap());
    assert!(gap_pct(run).unwrap() < noise_pct(run).unwrap());
    let noise = run.noise.unwrap();
    assert_eq!((noise.mad, noise.median), (100_000_000, 1_100_000_000));
    assert_eq!(run.verdict, Verdict::Tie);
}

#[test]
fn a_dispersion_below_three_samples_is_unknown_never_zero() {
    let mut samples = rows("c-gcc", Mode::Baseline, &[1_000_000_000, 1_500_000_000], 42);
    samples.extend(rows("c-clang", Mode::Baseline, &[1_010_000_000, 1_510_000_000], 42));
    let comparison = compare(&analysis(samples), &selection("c-gcc", "c-clang")).unwrap();
    let run = metric(&comparison, "run");

    assert_eq!(run.noise, None);
    assert_eq!(run.verdict, Verdict::Left);
}

#[test]
fn an_absent_number_is_never_a_zero_and_never_a_winner() {
    let mut samples = rows("c-gcc", Mode::Baseline, &[2_000_000_000], 42);
    let mut interpreted = rows("python-cpython", Mode::Baseline, &[9_000_000_000], 42);
    for sample in &mut interpreted {
        sample.binary_bytes = None;
        sample.text_bytes = None;
    }
    samples.append(&mut interpreted);

    let comparison = compare(&analysis(samples), &selection("c-gcc", "python-cpython")).unwrap();

    let binary = metric(&comparison, "binary");
    assert_eq!(binary.left, Some(2048));
    assert_eq!(binary.right, None);
    assert_eq!(ratio(binary), None);
    assert_eq!(binary.noise, None);
    assert_eq!(binary.verdict, Verdict::Unmeasured);
}

#[test]
fn a_native_row_that_diverges_from_its_baseline_violates_the_invariant() {
    let mut samples = rows("c-gcc", Mode::Baseline, &[2_000_000_000], 1_000);
    samples.extend(rows("c-gcc", Mode::Native, &[1_000_000_000], 994));

    let comparison = compare(
        &analysis(samples),
        &Selection {
            workload: "mandelbrot".to_owned(),
            left: row("c-gcc", Mode::Baseline),
            right: row("c-gcc", Mode::Native),
        },
    )
    .unwrap();
    assert_eq!(comparison.checksums.same, Some(false));
    assert!(comparison.checksums.violates_checksum_invariant);
}

#[test]
fn two_strict_rows_that_disagree_violate_the_invariant() {
    let mut samples = rows("c-gcc", Mode::Baseline, &[2_000_000_000], 1_000);
    samples.extend(rows("c-clang", Mode::Baseline, &[2_000_000_000], 1_001));

    let comparison = compare(&analysis(samples), &selection("c-gcc", "c-clang")).unwrap();
    assert_eq!(comparison.checksums.same, Some(false));
    assert!(comparison.checksums.violates_checksum_invariant);
}

#[test]
fn a_row_the_campaign_never_measured_is_refused_never_invented() {
    let error = compare(&quiet(), &selection("c-gcc", "fortran-gfortran")).unwrap_err();
    assert!(error.message().contains("fortran-gfortran"), "{}", error.message());
}

#[test]
fn an_algorithm_the_campaign_never_ran_is_refused() {
    let error = compare(
        &quiet(),
        &Selection {
            workload: "nbody".to_owned(),
            left: row("c-gcc", Mode::Baseline),
            right: row("c-clang", Mode::Baseline),
        },
    )
    .unwrap_err();
    assert!(error.message().contains("nbody"), "{}", error.message());
}

#[test]
fn a_pair_drawn_from_two_architectures_says_so() {
    let x86 = on_arch("x86_64", rows("c-gcc", Mode::Baseline, &[1_000_000_000; 5], 42));
    let arm = on_arch("aarch64", rows("rust-rustc", Mode::Baseline, &[1_500_000_000; 5], 42));

    let across = compare_across(&x86, &arm, &selection("c-gcc", "rust-rustc")).unwrap();
    assert!(across.cross_architecture);
    assert_eq!(across.left.architecture, "x86_64");
    assert_eq!(across.right.architecture, "aarch64");

    let run = across.metrics.iter().find(|metric| metric.key == "run").unwrap();
    assert_eq!(run.left, Some(1_000_000_000));
    assert_eq!(run.right, Some(1_500_000_000));

    assert_eq!(across.checksums.same, Some(true));
    assert!(!across.checksums.violates_checksum_invariant);
}

#[test]
fn two_rows_of_one_campaign_are_not_a_cross_architecture_pair() {
    let campaign = analysis(
        [
            rows("c-gcc", Mode::Baseline, &[1_000_000_000; 5], 42),
            rows("rust-rustc", Mode::Baseline, &[1_100_000_000; 5], 42),
        ]
        .concat(),
    );
    let same = compare(&campaign, &selection("c-gcc", "rust-rustc")).unwrap();
    assert!(!same.cross_architecture);
    assert_eq!(same.left.architecture, "x86_64");
}

#[test]
fn a_strict_checksum_that_does_not_survive_the_crossing_is_a_violation() {
    let x86 = on_arch("x86_64", rows("c-gcc", Mode::Baseline, &[1_000_000_000; 5], 42));
    let arm = on_arch("aarch64", rows("c-gcc", Mode::Baseline, &[1_000_000_000; 5], 43));
    let across = compare_across(&x86, &arm, &selection("c-gcc", "c-gcc")).unwrap();
    assert!(across.cross_architecture);
    assert!(across.checksums.violates_checksum_invariant);
}

#[test]
fn the_metrics_come_in_their_published_order() {
    let comparison = compare(&quiet(), &selection("c-gcc", "c-clang")).unwrap();
    let keys: Vec<&str> = comparison.metrics.iter().map(|m| m.key.as_str()).collect();
    assert_eq!(
        keys,
        ["run", "compute", "startup", "cpu", "memory", "build", "binary", "text", "source"]
    );
    // The same source, compiled twice, is a tie and an honest one.
    assert_eq!(metric(&comparison, "source").verdict, Verdict::Tie);
    // No build phase was measured: an absence on both sides.
    assert_eq!(metric(&comparison, "build").verdict, Verdict::Unmeasured);
}

#[test]
fn a_zero_timing_is_not_a_fast_one() {
    assert_eq!(verdict(Some(0), Some(5), None), Verdict::Unmeasured);
    assert_eq!(verdict(Some(5), Some(0), None), Verdict::Unmeasured);
    assert_eq!(verdict(Some(0), Some(0), None), Verdict::Tie);
    assert_eq!(fractions(Some(0), Some(5)), None);
    assert_eq!(fractions(Some(5), Some(0)), None);
    assert_eq!(fractions(Some(5), None), None);
}

#[test]
fn the_fractions_are_the_ratio_and_the_gap_over_the_smaller_number() {
    assert_eq!(
        fractions(Some(2_000), Some(3_000)),
        Some(Fractions {
            ratio_numerator: 3_000,
            ratio_denominator: 2_000,
            gap_numerator: 1_000,
            gap_denominator: 2_000,
        })
    );
    assert_eq!(
        fractions(Some(3_000), Some(2_000)).map(|f| (f.gap_numerator, f.gap_denominator)),
        Some((1_000, 2_000))
    );
}

#[test]
fn a_run_that_measured_zero_wins_nothing_in_a_comparison() {
    let mut samples = rows("c-gcc", Mode::Baseline, &[2_000_000_000], 42);
    let mut broken = rows("c-clang", Mode::Baseline, &[3_000_000_000], 42);
    for sample in &mut broken {
        sample.wall_ns = 0;
    }
    samples.append(&mut broken);
    let comparison = compare(&analysis(samples), &selection("c-gcc", "c-clang")).unwrap();
    let run = metric(&comparison, "run");
    assert_eq!(run.right, Some(0));
    assert_eq!(ratio(run), None);
    assert_eq!(gap_pct(run), None);
    assert_eq!(run.verdict, Verdict::Unmeasured);
}
