use langbench::discovery::Implementation;
use langbench::cli::Architecture;
use langbench::mode::Mode;
use langbench::output::{implementation_listing, workload_listing};
use langbench::workload::Workload;

#[test]
fn a_workload_is_listed_with_its_size_and_params() {
    let mut workload = Workload::fixture();
    workload.implementations = vec!["c-gcc".to_owned(), "rust".to_owned()];
    assert_eq!(
        workload_listing(&workload),
        "mandelbrot\n  Escape-time Mandelbrot over a fixed grid.\n  implementations: 2\n  params: grid_size=4096 max_iter=1000\n",
    );
}

#[test]
fn an_implementation_is_listed_with_its_triple_and_modes() {
    let implementation = Implementation {
        workload: "mandelbrot".to_owned(),
        language: "python".to_owned(),
        compiler: None,
        interpreter: Some("cpython".to_owned()),
        description: "CPython.".to_owned(),
        comments: None,
        context: "benchmarks/mandelbrot/python".to_owned(),
        source: "benchmarks/mandelbrot/python/kernel.py".to_owned(),
        source_bytes: 10,
        fp_modes: vec![Mode::Baseline, Mode::Native],
        architectures: vec![Architecture::X86_64],
    };
    assert_eq!(
        implementation_listing(&implementation),
        "python-cpython\n  language: python\n  compiler: n/a\n  interpreter: cpython\n  modes: baseline, native\n",
    );
}
