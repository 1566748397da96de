use langbench::machine::Machine;
use langbench::mode::Mode;
use langbench::sample::{
    assemble, container_line, escape, to_csv, Campaign, LoadError, Phase, Record, Sample,
    StdoutError, CSV_COLUMNS,
};
use langbench::workload::Workload;

fn sample(phase: Phase, checksum: Option<u64>) -> Sample {
    Sample {
        workload: "mandelbrot".to_owned(),
        language: "c".to_owned(),
        compiler: Some("gcc".to_owned()),
        interpreter: None,
        description: "The reference C kernel.".to_owned(),
        comments: None,
        mode: Mode::Baseline,
        phase,
        round: 3,
        warmup: false,
        cpu: 8,
        wall_ns: 313_600_000,
        elapsed_ns: 213_300_000,
        user_usec: 860_000,
        system_usec: 4_000,
        peak_bytes: Some(12_582_912),
        source_bytes: Some(2_048),
        checksum,
        binary_bytes: Some(70_984),
        binary_stripped_bytes: Some(67_568),
        text_bytes: Some(1_340),
    }
}

#[test]
fn rejects_extra_stdout_lines() {
    let err = container_line("compiling...\n{\"elapsed_ns\":1,\"user_usec\":1,\"system_usec\":1}")
        .unwrap_err();
    assert_eq!(err, StdoutError::MoreThanOneLine);
    assert!(err.message().contains("more than one line"));
}

#[test]
fn rejects_empty_stdout() {
    assert!(container_line("   \n").is_err());
}

#[test]
fn the_one_line_of_a_container_is_its_record_whatever_blank_lines_surround_it() {
    assert_eq!(container_line("\n  \n{\"a\":1}\n\n").unwrap(), "{\"a\":1}");
    assert_eq!(container_line("").unwrap_err(), StdoutError::Nothing);
}

#[test]
fn the_csv_rendering_starts_with_the_column_header() {
    let csv = to_csv(&vec![sample(Phase::Run, Some(1))]);
    let mut lines = csv.lines();
    assert_eq!(lines.next().unwrap(), CSV_COLUMNS.join(","));
    assert_eq!(lines.next().unwrap().split(',').count(), CSV_COLUMNS.len());
    assert_eq!(lines.next(), None);
}

#[test]
fn a_csv_row_has_exactly_one_field_per_declared_column() {
    let row = sample(Phase::Run, Some(448_356_792)).csv_row();
    assert_eq!(row.split(',').count(), CSV_COLUMNS.len());
}

#[test]
fn a_csv_row_carries_raw_values_in_column_order() {
    let row = sample(Phase::Run, Some(448_356_792)).csv_row();
    assert_eq!(
        row,
        "mandelbrot,c,gcc,,The reference C kernel.,,baseline,run,3,false,8,313600000,\
         213300000,860000,4000,12582912,2048,448356792,70984,67568,1340",
    );
}

#[test]
fn a_missing_value_is_an_empty_field_never_the_word_not_available() {
    let row = sample(Phase::Build, None).csv_row();
    assert!(row.contains(",,"), "empty checksum field: {row}");
    assert!(!row.contains("n/a"));
    assert_eq!(row.split(',').count(), CSV_COLUMNS.len());
}

#[test]
fn a_field_containing_a_separator_is_quoted() {
    let mut awkward = sample(Phase::Run, Some(1));
    awkward.description = "Fast, in theory.".to_owned();
    assert!(awkward.csv_row().contains("\"Fast, in theory.\""));
}

#[test]
fn a_field_containing_a_quote_doubles_it() {
    assert_eq!(escape("say \"hi\""), "\"say \"\"hi\"\"\"");
    assert_eq!(escape("plain"), "plain");
}

#[test]
fn a_field_containing_a_newline_is_quoted() {
    assert_eq!(escape("two\nlines"), "\"two\nlines\"");
}

#[test]
fn startup_is_the_gap_between_the_two_clocks() {
    let mut measured = sample(Phase::Run, Some(1));
    measured.wall_ns = 4_300_000_000;
    measured.elapsed_ns = 4_100_000_000;
    measured.user_usec = 1;
    measured.system_usec = 2;

    assert_eq!(measured.startup_ns(), 200_000_000);
    assert_eq!(measured.cpu_usec(), 3);
}

#[test]
fn a_clock_that_ran_backwards_gives_no_negative_startup() {
    let mut measured = sample(Phase::Run, Some(1));
    measured.wall_ns = 1;
    measured.elapsed_ns = 2;
    assert_eq!(measured.startup_ns(), 0);
}

#[test]
fn cores_are_the_cpu_time_over_the_compute_time() {
    let mut measured = sample(Phase::Run, Some(1));
    measured.cpu = 8;
    measured.elapsed_ns = 1_000_000_000;
    measured.user_usec = 8_000_000;
    measured.system_usec = 0;
    assert_eq!(measured.cores_milli(), Some(8_000));
}

#[test]
fn a_backend_that_cannot_use_the_machine_says_so_in_one_core() {
    let mut measured = sample(Phase::Run, Some(1));
    measured.cpu = 8;
    measured.elapsed_ns = 10_000_000_000;
    measured.user_usec = 10_000_000;
    measured.system_usec = 0;
    assert_eq!(measured.cores_milli(), Some(1_000));
}

#[test]
fn cores_may_exceed_the_thread_count_and_that_is_a_result() {
    let mut measured = sample(Phase::Run, Some(1));
    measured.cpu = 4;
    measured.elapsed_ns = 1_000_000_000;
    measured.user_usec = 5_500_000;
    measured.system_usec = 0;
    assert_eq!(measured.cores_milli(), Some(5_500));
}

#[test]
fn a_run_that_reported_no_compute_time_has_no_core_count() {
    let mut measured = sample(Phase::Run, Some(1));
    measured.elapsed_ns = 0;
    assert_eq!(measured.cores_milli(), None);
}

#[test]
fn a_long_run_does_not_overflow_the_core_count() {
    let mut measured = sample(Phase::Run, Some(1));
    measured.elapsed_ns = 600_000_000_000;
    measured.user_usec = 4_800_000_000;
    measured.system_usec = 0;
    assert_eq!(measured.cores_milli(), Some(8_000));
}

#[test]
fn a_sample_names_its_backend_by_its_triple() {
    let s = sample(Phase::Run, Some(1));
    assert_eq!(s.backend(), "c-gcc");
    let mut interpreted = sample(Phase::Run, Some(1));
    interpreted.language = "python".to_owned();
    interpreted.compiler = Some("cython".to_owned());
    interpreted.interpreter = Some("cpython".to_owned());
    assert_eq!(interpreted.backend(), "python-cython-cpython");
}

fn campaign() -> Campaign {
    Campaign {
        langbench_version: "0.1.0".to_owned(),
        timestamp: "2026-07-11T12:00:00Z".to_owned(),
        cpu: 8,
        workload: Workload::fixture(),
        rounds: 10,
        build_rounds: 3,
        warmup_rounds: 1,
        march: "x86-64-v3".to_owned(),
        modes: vec!["baseline".to_owned()],
    }
}

fn header() -> Record {
    Record::Header { machine: Machine::default(), campaign: campaign() }
}

// Each line of a campaign file, numbered from zero, as the JSON reader left it.
#[test]
fn an_interrupted_campaign_keeps_every_sample_before_the_torn_line() {
    let mut lines = vec![
        (0, Ok(header())),
        (1, Ok(Record::Sample(sample(Phase::Run, Some(7))))),
        (2, Err("EOF while parsing a string at line 1 column 38".to_owned())),
    ];
    let (recording, torn) = assemble(&mut lines).unwrap();
    assert_eq!(recording.samples.len(), 1);
    assert_eq!(recording.samples[0].checksum, Some(7));
    assert!(torn.is_some());
}

#[test]
fn a_truncation_that_is_not_the_last_line_is_still_an_error() {
    let mut lines = vec![
        (0, Ok(header())),
        (1, Err("EOF while parsing a string at line 1 column 38".to_owned())),
        (2, Err("EOF while parsing a string at line 1 column 38".to_owned())),
    ];
    assert!(assemble(&mut lines).is_err());
}

#[test]
fn a_file_that_does_not_open_on_a_header_is_refused_rather_than_half_read() {
    let mut lines = vec![(0, Ok(Record::Sample(sample(Phase::Run, Some(1)))))];
    let error = assemble(&mut lines).unwrap_err();
    assert!(matches!(error, LoadError::NoHeader));
    assert!(error.message().contains("header"), "{}", error.message());
}
