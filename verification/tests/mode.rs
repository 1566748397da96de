use langbench::mode::Mode;

#[test]
fn parse_round_trips_every_mode_and_rejects_anything_else() {
    for mode in Mode::ALL {
        assert_eq!(Mode::parse(mode.as_str()), Some(mode));
    }
    assert_eq!(Mode::parse("march=native"), None);
}

#[test]
fn the_floating_point_modes_are_gone_and_do_not_parse() {
    for legacy in ["strict", "fma", "fast"] {
        assert_eq!(Mode::parse(legacy), None);
    }
}

#[test]
fn the_mode_names_are_the_manifest_spellings() {
    assert_eq!(Mode::Baseline.as_str(), "baseline");
    assert_eq!(Mode::Native.as_str(), "native");
}
