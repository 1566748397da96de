use langbench::cli::{default_march, parse_march, ConvertArgs, SampleFormat};

#[test]
fn parse_march_rejects_native() {
    assert!(parse_march("native").is_err());
    assert!(parse_march("NATIVE").is_err());
}

#[test]
fn parse_march_accepts_a_pinned_baseline() {
    assert_eq!(parse_march("x86-64-v3").unwrap(), "x86-64-v3");
}

#[test]
fn a_mixed_case_native_is_refused_too() {
    assert!(parse_march("Native").is_err());
    assert!(parse_march("nativ").is_ok());
}

#[test]
fn each_architecture_has_its_pinned_baseline() {
    assert_eq!(default_march("x86_64"), "x86-64-v3");
    assert_eq!(default_march("aarch64"), "armv8.2-a");
    assert_eq!(default_march("riscv64"), "");
}

#[test]
fn a_conversion_that_names_no_output_lands_where_its_format_says() {
    assert_eq!(
        ConvertArgs {
            samples: "samples.ndjson".to_owned(),
            format: SampleFormat::Csv,
            output: None,
        }
        .output(),
        "samples.csv",
    );
}

#[test]
fn a_conversion_that_names_its_output_lands_there() {
    assert_eq!(
        ConvertArgs {
            samples: "samples.ndjson".to_owned(),
            format: SampleFormat::Csv,
            output: Some("out/x.csv".to_owned()),
        }
        .output(),
        "out/x.csv",
    );
}
