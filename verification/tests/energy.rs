use langbench::energy::{is_package_zone, meter_of, Domain, EnergyMeter, Reading, Zone};

fn meter(max_ranges: &[u64]) -> EnergyMeter {
    EnergyMeter {
        domains: max_ranges
            .iter()
            .enumerate()
            .map(|(index, &max_range)| Domain {
                energy: format!("/sys/class/powercap/intel-rapl:{index}"),
                max_range,
            })
            .collect(),
    }
}

#[test]
fn a_package_zone_is_the_top_level_one_never_its_sub_domains() {
    assert!(is_package_zone("intel-rapl:0"));
    assert!(is_package_zone("intel-rapl:12"));
    assert!(!is_package_zone("intel-rapl:0:0"));
    assert!(!is_package_zone("intel-rapl:1:2"));
    assert!(!is_package_zone("intel-rapl"));
    assert!(!is_package_zone("dtpm"));
}

#[test]
fn energy_is_summed_across_every_package() {
    let meter = meter(&[1_000_000, 1_000_000]);
    let before = Reading(vec![100, 200]);
    let after = Reading(vec![400, 900]);
    assert_eq!(meter.delta(Some(&before), Some(&after)), Some(300 + 700));
}

#[test]
fn a_counter_that_wrapped_reports_the_energy_it_actually_burned() {
    let meter = meter(&[1_000]);
    let before = Reading(vec![900]);
    let after = Reading(vec![100]);
    assert_eq!(meter.delta(Some(&before), Some(&after)), Some(200));
}

#[test]
fn a_meter_with_no_counter_measures_nothing_rather_than_zero() {
    let meter = EnergyMeter::default();
    assert!(!meter.available());
    assert_eq!(meter.read(&Vec::new()), None);
    assert_eq!(meter.source(), None);
    assert_eq!(meter.delta(None, None), None);
}

#[test]
fn a_reading_that_does_not_match_the_meter_is_refused() {
    let meter = meter(&[1_000, 1_000]);
    let partial = Reading(vec![10]);
    let full = Reading(vec![10, 20]);
    assert_eq!(meter.delta(Some(&partial), Some(&full)), None);
    assert_eq!(meter.delta(Some(&full), None), None);
}

#[test]
fn the_source_names_how_many_packages_it_summed() {
    assert_eq!(meter(&[1_000]).source().unwrap(), "powercap RAPL (1 package domain)");
    assert_eq!(meter(&[1_000, 1_000]).source().unwrap(), "powercap RAPL (2 package domains)");
}

#[test]
fn a_counter_that_stopped_answering_gives_no_reading() {
    let meter = meter(&[1_000, 1_000]);
    assert_eq!(meter.read(&vec![Some(5), None]), None);
    assert_eq!(meter.read(&vec![Some(5)]), None);
    assert_eq!(meter.read(&vec![Some(5), Some(7)]), Some(Reading(vec![5, 7])));
}

#[test]
fn no_time_between_two_readings_burns_no_energy() {
    let meter = meter(&[1_000, 2_000]);
    let reading = Reading(vec![300, 1_999]);
    assert_eq!(meter.delta(Some(&reading), Some(&reading)), Some(0));
}

#[test]
fn the_meter_keeps_only_readable_package_zones_sorted_by_counter() {
    let zone = |name: &str, energy: &str, uj: Option<u64>, range: Option<u64>| Zone {
        name: name.to_owned(),
        energy: energy.to_owned(),
        energy_uj: uj,
        max_energy_range_uj: range,
    };
    let meter = meter_of(&vec![
        zone("intel-rapl:1", "/p/intel-rapl:1/energy_uj", Some(1), Some(20)),
        zone("intel-rapl:0:0", "/p/intel-rapl:0:0/energy_uj", Some(1), Some(30)),
        zone("intel-rapl:0", "/p/intel-rapl:0/energy_uj", Some(1), Some(10)),
        zone("intel-rapl:2", "/p/intel-rapl:2/energy_uj", None, Some(40)),
    ]);
    assert_eq!(meter.domains.len(), 2);
    assert_eq!(meter.domains[0].energy, "/p/intel-rapl:0/energy_uj");
    assert_eq!(meter.domains[0].max_range, 10);
    assert_eq!(meter.domains[1].energy, "/p/intel-rapl:1/energy_uj");
    assert_eq!(meter.domains[1].max_range, 20);
}
