use langbench::machine::{
    cgroup_version, memory_total_kb, parse_count, parse_flag, turbo_disabled, virtualization,
    CpuInfo, Machine,
};

fn virtualization_of(machine: &Machine) -> String {
    machine
        .fields()
        .into_iter()
        .find(|field| field.label == "Virtualization")
        .expect("the machine table has a Virtualization row")
        .value
}

#[test]
fn missing_values_render_as_not_available() {
    let machine = Machine::default();
    let fields = machine.fields();
    let hostname = fields.iter().find(|f| f.label == "Hostname").unwrap();
    assert_eq!(hostname.value, "n/a");
}

#[test]
fn a_non_linux_host_is_flagged() {
    let machine = Machine::default();
    assert!(machine.warnings().iter().any(|w| w.contains("Linux")));
}

#[test]
fn a_host_we_cannot_probe_reports_unknown_not_none() {
    let machine = Machine {
        linux: false,
        virtualization: None,
        ..Machine::default()
    };
    assert!(virtualization_of(&machine).starts_with("unknown"));
}

#[test]
fn a_linux_host_with_no_hypervisor_evidence_reports_none_detected() {
    let machine = Machine {
        linux: true,
        virtualization: None,
        ..Machine::default()
    };
    assert_eq!(virtualization_of(&machine), "none detected");
}

#[test]
fn evidence_of_a_hypervisor_is_reported_verbatim() {
    let machine = Machine {
        linux: true,
        virtualization: Some("DMI vendor is `QEMU`".to_owned()),
        ..Machine::default()
    };
    assert_eq!(virtualization_of(&machine), "DMI vendor is `QEMU`");
}

#[test]
fn the_console_report_aligns_every_label_and_lists_the_warnings() {
    let machine = Machine {
        linux: true,
        virtualization: Some("DMI vendor is `QEMU`".to_owned()),
        hostname: Some("bench-01".to_owned()),
        ..Machine::default()
    };
    let report = machine.console_report();

    let value_column = report.lines().next().unwrap().find("VALUE").unwrap();
    let rows = report.lines().skip(2).take_while(|line| !line.is_empty());
    for row in rows {
        let chars: Vec<char> = row.chars().collect();
        assert_eq!(chars[value_column - 1], ' ', "row is padded: {row:?}");
        assert_ne!(chars[value_column], ' ', "value starts here: {row:?}");
    }

    assert!(report.contains("bench-01"));
    assert!(report.contains("1 warning(s):"));
    assert!(report.contains("! Running under a hypervisor (DMI vendor is `QEMU`)"));
}

#[test]
fn the_console_report_says_so_when_nothing_is_wrong() {
    let machine = Machine {
        linux: true,
        turbo_disabled: Some(true),
        scaling_governor: Some("performance".to_owned()),
        smt_active: Some(false),
        ..Machine::default()
    };
    let report = machine.console_report();
    assert!(report.contains("No warning"));
    assert!(!report.contains("warning(s):"));
}

#[test]
fn a_virtual_machine_is_flagged_even_when_proc_looks_healthy() {
    let machine = Machine {
        linux: true,
        virtualization: Some("kernel release contains `orbstack`".to_owned()),
        ..Machine::default()
    };
    let warnings = machine.warnings();
    assert_eq!(warnings.len(), 1);
    assert!(warnings[0].contains("hypervisor"));
}

#[test]
fn a_containerized_harness_is_flagged() {
    let machine = Machine {
        linux: true,
        containerized: true,
        ..Machine::default()
    };
    assert!(machine.warnings().iter().any(|w| w.contains("container")));
}

#[test]
fn the_x86_hypervisor_flag_wins_over_every_other_signal() {
    let evidence = virtualization(Some("6.1.0-generic"), true, None, None).unwrap();
    assert_eq!(evidence, "hypervisor CPU flag");
}

#[test]
fn a_virtual_dmi_vendor_is_evidence() {
    let evidence = virtualization(Some("6.1.0-generic"), false, None, Some("QEMU")).unwrap();
    assert!(evidence.contains("QEMU"));
}

#[test]
fn a_desktop_virtualization_kernel_is_evidence() {
    let evidence = virtualization(Some("7.0.5-orbstack-00330-ge3df4e19"), false, None, None);
    assert!(evidence.unwrap().contains("orbstack"));
    let evidence = virtualization(Some("6.6.12-linuxkit"), false, None, None);
    assert!(evidence.unwrap().contains("linuxkit"));
}

#[test]
fn a_bare_metal_host_yields_no_evidence() {
    assert_eq!(
        virtualization(Some("6.8.0-45-generic"), false, None, Some("Dell Inc.")),
        None,
    );
}

#[test]
fn cpuinfo_parses_an_x86_block_and_spots_the_hypervisor_flag() {
    let info = CpuInfo::parse(
        "processor\t: 0\n\
         vendor_id\t: GenuineIntel\n\
         model name\t: Intel(R) Xeon(R) Platinum 8370C\n\
         physical id\t: 0\n\
         core id\t\t: 0\n\
         flags\t\t: fpu sse2 avx2 fma hypervisor\n\
         \n\
         processor\t: 1\n\
         physical id\t: 0\n\
         core id\t\t: 0\n",
    );
    assert_eq!(info.logical_cpus, Some(2));
    assert_eq!(info.physical_cores, Some(1));
    assert!(info.hypervisor_flag);
    assert_eq!(info.isa_extensions, ["sse2", "avx2", "fma"]);
    assert_eq!(info.vendor.as_deref(), Some("GenuineIntel"));
}

#[test]
fn cpuinfo_parses_an_aarch64_block_which_names_no_model_and_no_cores() {
    let info = CpuInfo::parse(
        "processor\t: 0\n\
         Features\t: fp asimd bf16\n\
         CPU implementer\t: 0x61\n\
         \n\
         processor\t: 1\n\
         Features\t: fp asimd bf16\n",
    );
    assert_eq!(info.logical_cpus, Some(2));
    assert_eq!(info.physical_cores, None);
    assert!(!info.hypervisor_flag);
    assert_eq!(info.isa_extensions, ["asimd", "bf16"]);
    assert_eq!(info.model, None);
}

#[test]
fn an_absent_cpuinfo_yields_an_empty_description() {
    assert_eq!(CpuInfo::parse(""), CpuInfo::default());
}

#[test]
fn enabled_turbo_and_a_lazy_governor_are_flagged() {
    let machine = Machine {
        linux: true,
        turbo_disabled: Some(false),
        scaling_governor: Some("powersave".to_owned()),
        smt_active: Some(true),
        ..Machine::default()
    };
    let warnings = machine.warnings();
    assert_eq!(warnings.len(), 3);
    assert!(warnings.iter().any(|w| w.contains("Turbo")));
    assert!(warnings.iter().any(|w| w.contains("powersave")));
    assert!(warnings.iter().any(|w| w.contains("SMT")));
}

#[test]
fn a_properly_prepared_host_raises_nothing() {
    let machine = Machine {
        linux: true,
        virtualization: None,
        containerized: false,
        turbo_disabled: Some(true),
        scaling_governor: Some("performance".to_owned()),
        smt_active: Some(false),
        ..Machine::default()
    };
    assert!(machine.warnings().is_empty());
}

#[test]
fn a_meminfo_names_its_total_in_kilobytes() {
    assert_eq!(memory_total_kb("MemFree: 10 kB\nMemTotal:       16318412 kB\n"), Some(16318412));
    assert_eq!(memory_total_kb("MemFree: 10 kB\n"), None);
}

#[test]
fn a_flag_file_reads_as_a_boolean_or_nothing() {
    assert_eq!(parse_flag("1\n"), Some(true));
    assert_eq!(parse_flag(" 0 "), Some(false));
    assert_eq!(parse_flag("yes"), None);
    assert_eq!(parse_flag("   "), None);
    assert_eq!(parse_count("2\n"), Some(2));
    assert_eq!(parse_count("two"), None);
}

#[test]
fn turbo_is_read_from_either_knob() {
    assert_eq!(turbo_disabled(Some(true), Some(true)), Some(true));
    assert_eq!(turbo_disabled(None, Some(true)), Some(false));
    assert_eq!(turbo_disabled(None, None), None);
    assert_eq!(cgroup_version(true, true), Some(2));
    assert_eq!(cgroup_version(false, true), Some(1));
    assert_eq!(cgroup_version(false, false), None);
}
