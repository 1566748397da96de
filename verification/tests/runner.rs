use langbench::cli::Architecture;
use langbench::discovery::Implementation;
use langbench::mode::Mode;
use langbench::runner::{
    checksum_notice, container_args, image_build_args, next_invocation, schedule, verdict,
    ChecksumNotice, Cursor, Gate, Skip, Unit,
};
use langbench::sample::{Phase, Sample};
use langbench::workload::Workload;

fn implementation(language: &str, compiler: &str, modes: &[Mode], architectures: &[Architecture]) -> Implementation {
    Implementation {
        workload: "mandelbrot".to_owned(),
        language: language.to_owned(),
        compiler: Some(compiler.to_owned()),
        interpreter: None,
        description: format!("{language}-{compiler}, as the fixture declares it."),
        comments: None,
        context: format!("benchmarks/mandelbrot/{language}-{compiler}"),
        source: "kernel.txt".to_owned(),
        source_bytes: 24,
        fp_modes: modes.to_vec(),
        architectures: architectures.to_vec(),
    }
}

fn unit(image: &str) -> Unit {
    Unit {
        implementation: implementation("c", "gcc", &Mode::ALL, &Architecture::ALL),
        mode: Mode::Baseline,
        image: image.to_owned(),
    }
}

fn strict_sample(backend_compiler: &str, checksum: Option<u64>, mode: Mode) -> Sample {
    Sample {
        workload: "mandelbrot".to_owned(),
        language: "c".to_owned(),
        compiler: Some(backend_compiler.to_owned()),
        interpreter: None,
        description: "C.".to_owned(),
        comments: None,
        mode,
        phase: Phase::Run,
        round: 0,
        warmup: false,
        cpu: 8,
        wall_ns: 1,
        elapsed_ns: 1,
        user_usec: 1,
        system_usec: 0,
        peak_bytes: None,
        source_bytes: Some(24),
        checksum,
        binary_bytes: None,
        binary_stripped_bytes: None,
        text_bytes: None,
    }
}

#[test]
fn an_implementation_is_never_built_under_a_mode_it_does_not_distinguish() {
    let implementations = vec![
        implementation("c", "gcc", &Mode::ALL, &Architecture::ALL),
        implementation("python", "cpython", &[Mode::Baseline], &Architecture::ALL),
    ];
    let (units, skips) = schedule(&implementations, &vec![Mode::Baseline, Mode::Native], Some(Architecture::X86_64));
    let images: Vec<&str> = units.iter().map(|u| u.image.as_str()).collect();
    assert_eq!(
        images,
        [
            "langbench/mandelbrot-c-gcc:baseline",
            "langbench/mandelbrot-c-gcc:native",
            "langbench/mandelbrot-python-cpython:baseline",
        ]
    );
    assert!(matches!(skips[..], [Skip::Mode { implementation: 1, mode: Mode::Native }]));
}

#[test]
fn an_implementation_is_skipped_on_an_architecture_it_cannot_build_on() {
    let implementations = vec![
        implementation("kotlin", "kotlin-native", &[Mode::Baseline], &[Architecture::X86_64]),
        implementation("c", "gcc", &[Mode::Baseline], &Architecture::ALL),
    ];
    let (units, skips) = schedule(&implementations, &vec![Mode::Baseline], Some(Architecture::Aarch64));
    assert_eq!(units.len(), 1);
    assert_eq!(units[0].image, "langbench/mandelbrot-c-gcc:baseline");
    assert!(matches!(skips[..], [Skip::Architecture { implementation: 0 }]));

    let (nothing, _) = schedule(&implementations, &vec![Mode::Baseline], None);
    assert!(nothing.is_empty());
}

#[test]
fn every_skip_is_reported_once_and_in_order() {
    let implementations = vec![
        implementation("c", "gcc", &Mode::ALL, &Architecture::ALL),
        implementation("python", "cpython", &[Mode::Baseline], &Architecture::ALL),
        implementation("kotlin", "kotlin-native", &[Mode::Baseline], &[Architecture::X86_64]),
    ];
    let (units, skips) = schedule(
        &implementations,
        &vec![Mode::Native, Mode::Baseline],
        Some(Architecture::Aarch64),
    );
    assert_eq!(units.len(), 3);
    assert!(matches!(
        skips[..],
        [
            Skip::Mode { implementation: 1, mode: Mode::Native },
            Skip::Architecture { implementation: 2 },
        ]
    ));
}

#[test]
fn units_are_interleaved_round_robin_not_blocked_by_implementation() {
    let units = vec![unit("a"), unit("b")];
    let quarantined: Vec<String> = Vec::new();
    let mut order = Vec::new();
    let mut at = Cursor { round: 0, unit: 0 };
    while let Some(next) = next_invocation(&units, &quarantined, 2, at) {
        order.push((next.round, units[next.unit].image.clone()));
        at = Cursor { round: next.round, unit: next.unit + 1 };
    }
    assert_eq!(
        order,
        [(0, "a".to_owned()), (0, "b".to_owned()), (1, "a".to_owned()), (1, "b".to_owned())]
    );
}

#[test]
fn a_quarantined_unit_is_never_run_again() {
    let units = vec![unit("a"), unit("b"), unit("c")];
    let quarantined = vec!["b".to_owned()];
    let mut seen = Vec::new();
    let mut at = Cursor { round: 0, unit: 0 };
    while let Some(next) = next_invocation(&units, &quarantined, 3, at) {
        seen.push(units[next.unit].image.clone());
        at = Cursor { round: next.round, unit: next.unit + 1 };
    }
    assert_eq!(seen.len(), 6);
    assert!(!seen.contains(&"b".to_owned()));
}

#[test]
fn every_unit_is_prepared_with_its_mode_and_the_pinned_baseline() {
    assert_eq!(
        image_build_args(Mode::Baseline, 8, "x86-64-v3"),
        [
            ("JOBS".to_owned(), "8".to_owned()),
            ("MARCH".to_owned(), "x86-64-v3".to_owned()),
        ]
    );
    // The mode *is* the `MARCH` a native image is built with.
    assert_eq!(
        image_build_args(Mode::Native, 8, "x86-64-v3"),
        [
            ("JOBS".to_owned(), "8".to_owned()),
            ("MARCH".to_owned(), "native".to_owned()),
        ]
    );
    // An architecture without a pinned baseline passes no `MARCH` at all.
    assert_eq!(image_build_args(Mode::Baseline, 2, ""), [("JOBS".to_owned(), "2".to_owned())]);
}

#[test]
fn a_run_hands_the_kernel_its_params_then_its_threads() {
    let workload = Workload::fixture();
    assert_eq!(container_args(&workload, 8, Phase::Run), ["run", "4096", "1000", "8"]);
    assert_eq!(container_args(&workload, 8, Phase::Build), ["build", "8"]);
}

#[test]
fn a_strict_mode_checksum_divergence_is_a_mismatch_against_the_first_reference() {
    let mut gate = Gate::new(&Workload::fixture());
    assert!(gate.verify(&strict_sample("gcc", Some(42), Mode::Baseline)).is_ok());
    assert_eq!(gate.reference, Some(42));
    let mismatch = gate.verify(&strict_sample("clang", Some(43), Mode::Baseline)).unwrap_err();
    assert_eq!(mismatch.produced, 43);
    assert_eq!(mismatch.reference, 42);
    assert_eq!(mismatch.backend, "c-clang");
    assert!(mismatch.message().contains("declares no `checksum`"));
}

#[test]
fn a_native_mode_checksum_is_gated_like_a_baseline_one() {
    let mut workload = Workload::fixture();
    workload.checksum = Some(42);
    let mut gate = Gate::new(&workload);
    assert!(gate.verify(&strict_sample("gcc", None, Mode::Native)).is_ok());
    assert!(gate.verify(&strict_sample("gcc", Some(42), Mode::Native)).is_ok());
    let mismatch = gate.verify(&strict_sample("gcc", Some(7), Mode::Native)).unwrap_err();
    assert!(mismatch.declared);
    assert!(mismatch.message().contains("declares the answer is 42"));
    let mismatch = gate.verify(&strict_sample("gcc", Some(7), Mode::Baseline)).unwrap_err();
    assert_eq!(mismatch.produced, 7);
}

#[test]
fn the_first_checksum_of_any_mode_is_the_reference_of_every_mode() {
    let mut gate = Gate::new(&Workload::fixture());
    assert!(gate.verify(&strict_sample("gcc", Some(9), Mode::Native)).is_ok());
    assert_eq!(gate.reference, Some(9));
    let mismatch = gate.verify(&strict_sample("clang", Some(8), Mode::Baseline)).unwrap_err();
    assert_eq!(mismatch.reference, 9);
}

#[test]
fn an_interrupted_campaign_succeeds_and_one_where_everything_failed_does_not() {
    assert!(verdict(true, 0, 3).is_ok());
    assert!(verdict(false, 5, 1).is_ok());
    let collapsed = verdict(false, 0, 3).unwrap_err();
    assert_eq!(collapsed.failures, 3);
    assert!(collapsed.message().contains("3 of them"));
}

#[test]
fn a_campaign_says_why_its_checksum_gate_is_weaker() {
    assert_eq!(checksum_notice(Some(1), None), Some(ChecksumNotice::Overridden));
    assert_eq!(checksum_notice(None, None), Some(ChecksumNotice::Undeclared));
    assert_eq!(checksum_notice(Some(1), Some(1)), None);
}
