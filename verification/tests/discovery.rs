use langbench::cli::Architecture;
use langbench::discovery::{
    discover, find_workload, unclaimed, validate, DiscoveryError, Implementation, Manifest, Root,
};
use langbench::document::Node;
use langbench::mode::Mode;
use langbench::workload::Workload;

const WORKLOAD: &str = "mandelbrot";
const SOURCE: &str = "kernel.txt";
const SOURCE_BYTES: u64 = 24;

fn text(s: &str) -> Node {
    Node::Str(s.to_owned())
}

fn list(items: &[&str]) -> Node {
    Node::List(items.iter().map(|s| text(s)).collect())
}

/// A `bench.yaml`, as its document. A fixture that does not spell `source:`
/// gets one, pointing at the kernel every fixture ships.
fn document(entries: Vec<(&str, Node)>) -> Node {
    let mut entries: Vec<(String, Node)> =
        entries.into_iter().map(|(k, v)| (k.to_owned(), v)).collect();
    if !entries.iter().any(|(k, _)| k == "source") {
        entries.push(("source".to_owned(), text(SOURCE)));
    }
    Node::Mapping(entries)
}

fn c_gcc() -> Vec<(&'static str, Node)> {
    vec![
        ("language", text("c")),
        ("compiler", text("gcc")),
        ("modes", text("all")),
        ("description", text("The reference C kernel.")),
    ]
}

/// What discovery does with one manifest found at `dir`: read it, check it
/// against what sits beside it, and hand the result to the campaign.
fn load_at(dir: &str, entries: Vec<(&str, Node)>, has_dockerfile: bool) -> Result<Implementation, String> {
    let path = format!("{dir}/bench.yaml");
    let manifest = Manifest::from_node(&document(entries)).map_err(|error| {
        DiscoveryError::Manifest { path: path.clone(), error }.message()
    })?;
    // Only the fixture's kernel exists on disk.
    let source_bytes = if manifest.source == SOURCE { Some(SOURCE_BYTES) } else { None };
    let source = format!("{dir}/{}", manifest.source);
    Implementation::load(manifest, &path, WORKLOAD, dir, &source, source_bytes, has_dockerfile)
        .map_err(|error| error.message())
}

fn one(entries: Vec<(&str, Node)>) -> Result<Vec<Implementation>, String> {
    let found = load_at("benchmarks/mandelbrot/anywhere", entries, true)?;
    discover(vec![found]).map_err(|error| error.message())
}

#[test]
fn the_source_is_read_off_disk_and_its_size_recorded() {
    let found = one(c_gcc()).unwrap();
    assert_eq!(found[0].source.rsplit('/').next().unwrap(), SOURCE);
    assert_eq!(found[0].source_bytes, SOURCE_BYTES);
}

#[test]
fn a_source_that_is_not_there_fails_the_campaign() {
    let error = one(vec![
        ("language", text("c")),
        ("compiler", text("gcc")),
        ("source", text("typo.c")),
        ("modes", text("all")),
        ("description", text("The reference C kernel.")),
    ])
    .unwrap_err();
    assert!(error.contains("typo.c"), "{error}");
}

#[test]
fn a_manifest_that_declares_no_source_fails_the_campaign() {
    let error = one(vec![
        ("language", text("c")),
        ("compiler", text("gcc")),
        ("source", Node::Null),
        ("modes", text("all")),
        ("description", text("The reference C kernel.")),
    ])
    .unwrap_err();
    assert!(error.contains("source"), "{error}");
}

#[test]
fn the_manifest_and_not_the_path_describes_the_implementation() {
    let found = load_at(
        "benchmarks/mandelbrot/some/deeply/nested/folder",
        vec![
            ("language", text("python")),
            ("compiler", text("cython")),
            ("interpreter", text("cpython")),
            ("modes", list(&["baseline"])),
            ("description", text("Cython compiles the kernel; CPython runs the result.")),
            ("comments", text("Slower than the interpreter it compiles.")),
        ],
        true,
    )
    .unwrap();
    let found = discover(vec![found]).unwrap();

    assert_eq!(found.len(), 1);
    assert_eq!(found[0].workload, "mandelbrot");
    assert_eq!(found[0].language, "python");
    assert_eq!(found[0].compiler.as_deref(), Some("cython"));
    assert_eq!(found[0].interpreter.as_deref(), Some("cpython"));
    assert!(found[0].description.starts_with("Cython compiles"));
    assert!(found[0].comments.is_some());
    assert_eq!(found[0].fp_modes, [Mode::Baseline]);
}

#[test]
fn the_slug_is_derived_from_the_identity() {
    let compiled = one(c_gcc()).unwrap();
    assert_eq!(compiled[0].slug(), "c-gcc");
    assert_eq!(compiled[0].image(Mode::Baseline), "langbench/mandelbrot-c-gcc:baseline");

    let interpreted = one(vec![
        ("language", text("python")),
        ("interpreter", text("cpython")),
        ("modes", list(&["baseline"])),
        ("description", text("CPython, no compiler.")),
    ])
    .unwrap();
    assert_eq!(interpreted[0].slug(), "python-cpython");

    let both = one(vec![
        ("language", text("python")),
        ("compiler", text("cython")),
        ("interpreter", text("cpython")),
        ("modes", list(&["baseline"])),
        ("description", text("Both.")),
    ])
    .unwrap();
    assert_eq!(both[0].slug(), "python-cython-cpython");
}

#[test]
fn every_unit_gets_an_image_tag_of_its_own() {
    let compiled = one(c_gcc()).unwrap().remove(0);
    let interpreted = one(vec![
        ("language", text("python")),
        ("interpreter", text("cpython")),
        ("modes", list(&["baseline"])),
        ("description", text("CPython, no compiler.")),
    ])
    .unwrap()
    .remove(0);
    let mut tags = Vec::new();
    for implementation in [&compiled, &interpreted] {
        for mode in Mode::ALL {
            tags.push(implementation.image(mode));
        }
    }
    let mut unique = tags.clone();
    unique.sort();
    unique.dedup();
    assert_eq!(unique.len(), tags.len());
    assert_eq!(tags[3], "langbench/mandelbrot-python-cpython:native");
}

#[test]
fn a_manifest_that_says_nothing_about_arch_builds_on_both() {
    let found = one(c_gcc()).unwrap();
    assert_eq!(found[0].architectures, Architecture::ALL);
    assert!(found[0].supports(Some(Architecture::X86_64)));
    assert!(found[0].supports(Some(Architecture::Aarch64)));
}

#[test]
fn a_backend_may_declare_it_only_builds_on_one_architecture() {
    let found = one(vec![
        ("language", text("kotlin")),
        ("compiler", text("kotlin-native")),
        ("modes", list(&["baseline"])),
        ("architectures", list(&["x86_64"])),
        ("description", text("No linux-aarch64 host compiler exists.")),
    ])
    .unwrap();

    assert_eq!(found[0].architectures, [Architecture::X86_64]);
    assert!(found[0].supports(Some(Architecture::X86_64)));
    assert!(!found[0].supports(Some(Architecture::Aarch64)));
}

#[test]
fn an_unknown_host_architecture_supports_nothing() {
    assert!(!one(c_gcc()).unwrap()[0].supports(None));
}

#[test]
fn a_misspelled_architecture_fails_the_campaign() {
    let error = one(vec![
        ("language", text("c")),
        ("compiler", text("gcc")),
        ("modes", text("all")),
        ("architectures", list(&["x86-64"])),
        ("description", text("An architecture spelled the -march way, not the uname way.")),
    ])
    .unwrap_err();
    assert!(error.contains("x86-64"), "{error}");
}

#[test]
fn the_schedule_is_ordered_by_identity_not_by_where_the_files_sit() {
    let zzz = load_at("benchmarks/mandelbrot/zzz", c_gcc(), true).unwrap();
    let aaa = load_at(
        "benchmarks/mandelbrot/aaa",
        vec![
            ("language", text("python")),
            ("interpreter", text("cpython")),
            ("modes", list(&["baseline"])),
            ("description", text("CPython.")),
        ],
        true,
    )
    .unwrap();
    // The walk visits `aaa` first; the schedule does not care.
    let slugs: Vec<String> =
        discover(vec![aaa, zzz]).unwrap().iter().map(Implementation::slug).collect();
    assert_eq!(slugs, ["c-gcc", "python-cpython"]);
}

#[test]
fn the_same_identity_declared_twice_fails_the_campaign() {
    let here = load_at("benchmarks/mandelbrot/here", c_gcc(), true).unwrap();
    let there = load_at("benchmarks/mandelbrot/there", c_gcc(), true).unwrap();
    let error = discover(vec![here, there]).unwrap_err().message();
    assert!(error.contains("c-gcc"), "{error}");
}

#[test]
fn a_manifest_without_a_dockerfile_fails_the_campaign() {
    let error = load_at("benchmarks/mandelbrot/c-gcc", c_gcc(), false).unwrap_err();
    assert!(error.contains("Dockerfile"), "{error}");
}

fn root(id: &str) -> Root {
    let mut workload = Workload::fixture();
    workload.id = id.to_owned();
    Root { workload, dir: format!("benchmarks/{id}") }
}

#[test]
fn an_unknown_workload_fails_the_campaign() {
    let roots = vec![root("mandelbrot")];
    let error = find_workload(&roots, "mandlebrot", "benchmarks").unwrap_err().message();
    assert!(error.contains("mandlebrot"), "{error}");
    assert!(error.contains("mandelbrot"), "{error}");
}

#[test]
fn a_campaign_finds_the_workload_it_names() {
    let roots = vec![root("mandelbrot"), root("nbody")];
    assert_eq!(find_workload(&roots, "nbody", "benchmarks").unwrap(), 1);
    assert_eq!(find_workload(&roots, "mandelbrot", "benchmarks").unwrap(), 0);
}

#[test]
fn the_same_backend_may_implement_two_workloads() {
    let mandelbrot = load_at("benchmarks/mandelbrot/c", c_gcc(), true).unwrap();
    let mut nbody = load_at("benchmarks/nbody/c", c_gcc(), true).unwrap();
    nbody.workload = "nbody".to_owned();
    assert_eq!(discover(vec![mandelbrot]).unwrap()[0].slug(), "c-gcc");
    assert_eq!(discover(vec![nbody]).unwrap()[0].slug(), "c-gcc");
}

#[test]
fn the_all_keyword_declares_every_mode() {
    assert_eq!(one(c_gcc()).unwrap()[0].fp_modes, Mode::ALL);
}

#[test]
fn modes_may_be_an_explicit_list() {
    let found = one(vec![
        ("language", text("go")),
        ("compiler", text("gc")),
        ("modes", list(&["native", "baseline"])),
        ("description", text("Go, gc backend.")),
    ])
    .unwrap();
    assert_eq!(found[0].fp_modes, [Mode::Native, Mode::Baseline]);
}

#[test]
fn an_unknown_mode_fails_the_campaign() {
    let error = one(vec![
        ("language", text("c")),
        ("compiler", text("gcc")),
        ("modes", list(&["stcirt"])),
        ("description", text("Typo.")),
    ])
    .unwrap_err();
    assert!(error.contains("stcirt"), "{error}");
}

#[test]
fn a_backend_that_neither_compiles_nor_interprets_fails_the_campaign() {
    let error = one(vec![
        ("language", text("c")),
        ("modes", text("all")),
        ("description", text("Nothing turns this into instructions.")),
    ])
    .unwrap_err();
    assert!(error.contains("compiler"), "{error}");
}

#[test]
fn an_unknown_key_fails_the_campaign() {
    let error = one(vec![
        ("language", text("c")),
        ("compiler", text("gcc")),
        ("modes", text("all")),
        ("description", text("Fine.")),
        ("compilr", text("gcc")),
    ])
    .unwrap_err();
    assert!(error.contains("compilr"), "{error}");
}

#[test]
fn a_missing_description_fails_the_campaign() {
    let error = one(vec![
        ("language", text("c")),
        ("compiler", text("gcc")),
        ("modes", text("all")),
    ])
    .unwrap_err();
    assert!(error.contains("description"), "{error}");
}

#[test]
fn selected_modes_intersect_the_request_with_the_declaration() {
    let found = one(vec![
        ("language", text("python")),
        ("interpreter", text("cpython")),
        ("modes", list(&["baseline"])),
        ("description", text("CPython, no compiler.")),
    ])
    .unwrap();

    assert!(found[0].compiler.is_none());
    assert_eq!(found[0].selected_modes(&Mode::ALL.to_vec()), [Mode::Baseline]);
    assert!(found[0].selected_modes(&vec![Mode::Native]).is_empty());
}

#[test]
fn validate_reports_every_broken_manifest_not_only_the_first() {
    let good = load_at("benchmarks/mandelbrot/good", c_gcc(), true).unwrap();
    let typo = load_at(
        "benchmarks/mandelbrot/typo",
        vec![
            ("language", text("rust")),
            ("compiler", text("llvm")),
            ("modes", list(&["stcirt"])),
            ("description", text("A misspelled mode.")),
        ],
        true,
    );
    let nameless = load_at(
        "benchmarks/mandelbrot/nameless",
        vec![
            ("language", text("go")),
            ("modes", text("all")),
            ("description", text("Neither compiled nor interpreted.")),
        ],
        true,
    );
    let broken = [typo.is_err(), nameless.is_err()].iter().filter(|b| **b).count();
    let error = validate(&vec![good], broken).unwrap_err().message();
    assert!(error.contains('2'), "{error}");
}

#[test]
fn validate_catches_a_duplicate_identity_across_the_tree() {
    let here = load_at("benchmarks/mandelbrot/here", c_gcc(), true).unwrap();
    let there = load_at("benchmarks/mandelbrot/there", c_gcc(), true).unwrap();
    let error = validate(&vec![here, there], 0).unwrap_err().message();
    assert!(error.contains("rejected"), "{error}");
}

#[test]
fn validate_catches_a_manifest_no_workload_declares() {
    let listed = load_at("benchmarks/mandelbrot/c-gcc", c_gcc(), true).unwrap();
    // A second implementation on disk, absent from the workload's list.
    let on_disk = vec![
        "benchmarks/mandelbrot/c-gcc/bench.yaml".to_owned(),
        "benchmarks/mandelbrot/rust-rustc/bench.yaml".to_owned(),
    ];
    let claimed = vec!["benchmarks/mandelbrot/c-gcc/bench.yaml".to_owned()];
    let strays = unclaimed(&on_disk, &claimed);
    assert_eq!(strays, ["benchmarks/mandelbrot/rust-rustc/bench.yaml"]);

    let error = validate(&vec![listed], strays.len()).unwrap_err().message();
    assert!(error.contains("rejected"), "{error}");
}

#[test]
fn a_tree_where_every_manifest_is_claimed_has_no_stray() {
    let on_disk = vec!["a/bench.yaml".to_owned(), "b/bench.yaml".to_owned()];
    let claimed = vec!["b/bench.yaml".to_owned(), "a/bench.yaml".to_owned()];
    assert!(unclaimed(&on_disk, &claimed).is_empty());
    assert_eq!(unclaimed(&on_disk, &vec![]), on_disk);
}

#[test]
fn validate_counts_the_implementations_of_a_clean_tree() {
    let only = load_at("benchmarks/mandelbrot/c-gcc", c_gcc(), true).unwrap();
    assert_eq!(validate(&vec![only], 0).unwrap(), 1);
}

#[test]
fn all_in_any_case_declares_every_mode_and_a_repeat_is_said_once() {
    let found = one(vec![
        ("language", text("c")),
        ("compiler", text("gcc")),
        ("modes", text("ALL")),
        ("description", text("Shouting.")),
    ])
    .unwrap();
    assert_eq!(found[0].fp_modes, Mode::ALL);
    let repeated = one(vec![
        ("language", text("c")),
        ("compiler", text("gcc")),
        ("modes", list(&["native", "baseline", "native"])),
        ("description", text("Twice.")),
    ])
    .unwrap();
    assert_eq!(repeated[0].fp_modes, [Mode::Native, Mode::Baseline]);
}

#[test]
fn an_empty_mode_list_fails_the_campaign() {
    assert!(one(vec![
        ("language", text("c")),
        ("compiler", text("gcc")),
        ("modes", list(&[])),
        ("description", text("Nothing.")),
    ])
    .is_err());
}
