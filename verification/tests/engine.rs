use langbench::engine::{build_args, container_name, run_args, BuildSpec, RunSpec};

fn spec(args: &[&str], tmpfs_size_mb: u64) -> RunSpec {
    RunSpec {
        image: "img".to_owned(),
        args: args.iter().map(|arg| (*arg).to_owned()).collect(),
        tmpfs_size_mb,
        memory_limit_mb: 8192,
        timeout_secs: 60,
    }
}

#[test]
fn build_args_carry_every_build_arg_then_the_context() {
    let args = build_args(&BuildSpec {
        image: "langbench/mandelbrot-c-gcc:baseline".to_owned(),
        context: "benchmarks/mandelbrot/c-gcc".to_owned(),
        build_args: vec![
            ("JOBS".to_owned(), "8".to_owned()),
            ("MARCH".to_owned(), "x86-64-v3".to_owned()),
        ],
    });
    assert_eq!(
        args,
        [
            "build",
            "--build-arg",
            "JOBS=8",
            "--build-arg",
            "MARCH=x86-64-v3",
            "--tag",
            "langbench/mandelbrot-c-gcc:baseline",
            "benchmarks/mandelbrot/c-gcc",
        ]
    );
}

#[test]
fn a_measured_run_is_always_isolated_from_the_network() {
    let args = run_args(&spec(&["run", "4096"], 2048), "langbench-1-0");
    assert!(args.contains(&"--network=none".to_owned()));
    assert!(args.contains(&"--rm".to_owned()));
}

#[test]
fn a_measured_run_is_named_so_a_timeout_can_kill_the_container() {
    let args = run_args(&spec(&[], 1), "langbench-42-7");
    let index = args.iter().position(|arg| arg == "--name").unwrap();
    assert_eq!(args[index + 1], "langbench-42-7");
}

#[test]
fn every_measured_container_is_capped_at_its_memory_budget_with_swap_off() {
    let mut budget = spec(&["run", "4096"], 2048);
    budget.memory_limit_mb = 1024;
    let args = run_args(&budget, "langbench-1-0");
    let image = args.iter().position(|arg| arg == "img").unwrap();
    let memory = args.iter().position(|arg| arg == "--memory=1024m").unwrap();
    let swap = args.iter().position(|arg| arg == "--memory-swap=1024m").unwrap();
    assert!(memory < image && swap < image);
    assert_eq!(
        args,
        [
            "run",
            "--rm",
            "--name",
            "langbench-1-0",
            "--network=none",
            "--memory=1024m",
            "--memory-swap=1024m",
            "--tmpfs",
            "/build:rw,exec,size=2048m",
            "img",
            "run",
            "4096",
        ]
    );
}

#[test]
fn the_build_directory_is_a_sized_tmpfs() {
    let args = run_args(&spec(&[], 512), "n");
    let index = args.iter().position(|arg| arg == "--tmpfs").unwrap();
    assert_eq!(args[index + 1], "/build:rw,exec,size=512m");
}

#[test]
fn container_arguments_come_after_the_image() {
    let args = run_args(&spec(&["run", "4096", "1000"], 1), "n");
    let image = args.iter().position(|arg| arg == "img").unwrap();
    assert_eq!(&args[image + 1..], ["run", "4096", "1000"]);
}

#[test]
fn container_names_are_unique_across_invocations() {
    assert_ne!(container_name(4242, 0), container_name(4242, 1));
    assert_ne!(container_name(12, 34), container_name(123, 4));
    assert_eq!(container_name(4242, 7), "langbench-4242-7");
}

#[test]
fn a_build_with_no_build_args_is_tag_then_context() {
    let args = build_args(&BuildSpec {
        image: "i".to_owned(),
        context: "c".to_owned(),
        build_args: Vec::new(),
    });
    assert_eq!(args, ["build", "--tag", "i", "c"]);
}

#[test]
fn a_run_lays_out_every_flag_before_the_image() {
    let args = run_args(&spec(&["x"], 0), "name");
    assert_eq!(
        args,
        [
            "run",
            "--rm",
            "--name",
            "name",
            "--network=none",
            "--memory=8192m",
            "--memory-swap=8192m",
            "--tmpfs",
            "/build:rw,exec,size=0m",
            "img",
            "x",
        ]
    );
}
