//! What the container engine is asked to do: `docker build` prepares,
//! `docker run` measures.
//!
//! The command lines are decided here; the binary spawns them, drains their
//! pipes and watches the clock.
use vstd::prelude::*;

use crate::sample::ContainerRecord;
use crate::text::{
    decimal, is_digit, lemma_decimal_injective, lemma_decimal_is_digits, lemma_views_push, lemma_views_take, owned, push_char, push_str, push_u128,
    u64_to_string, views,
};

verus! {

/// An image to prepare, and where its Dockerfile lives.
#[derive(Debug)]
pub struct BuildSpec {
    pub image: String,
    /// The build context, as the path is displayed.
    pub context: String,
    pub build_args: Vec<(String, String)>,
}

/// A prepared image to run, with its arguments and its limits.
#[derive(Debug)]
pub struct RunSpec {
    pub image: String,
    pub args: Vec<String>,
    pub tmpfs_size_mb: u64,
    /// The container's memory budget, in MiB, with swap off. Part of the
    /// measurement: a garbage-collected runtime sizes its heap from what its
    /// cgroup shows it, so every measured container gets the same one.
    pub memory_limit_mb: u64,
    /// A wall-clock ceiling for one invocation, in seconds. A container that
    /// exceeds it is killed and the campaign fails: a hung run must not be
    /// mistaken for a slow one.
    pub timeout_secs: u64,
}

/// What one measured run gave back.
#[derive(Debug)]
pub struct Execution {
    /// External wall-clock, measured around the child process.
    pub wall_ns: u64,
    pub record: ContainerRecord,
}

/// `--build-arg KEY=VALUE` for each build argument, in order.
pub open spec fn build_arg_flags(args: Seq<(String, String)>) -> Seq<Seq<char>>
    decreases args.len(),
{
    if args.len() == 0 {
        Seq::empty()
    } else {
        let last = args.last();
        build_arg_flags(args.drop_last()) + seq!["--build-arg"@, last.0@.push('=') + last.1@]
    }
}

/// The arguments of `docker build` for `spec`: every build argument, then the
/// tag, then the context.
pub open spec fn build_args_of(spec: BuildSpec) -> Seq<Seq<char>> {
    seq!["build"@] + build_arg_flags(spec.build_args@) + seq![
        "--tag"@,
        spec.image@,
        spec.context@,
    ]
}

/// The size option of the tmpfs the container compiles in. A tmpfs, so codegen
/// output never touches overlayfs and the tree is empty on every run.
pub open spec fn tmpfs_option(size_mb: u64) -> Seq<char> {
    "/build:rw,exec,size="@ + decimal(size_mb as nat) + seq!['m']
}

/// A memory flag of `docker run`, given as `--memory=` or `--memory-swap=`,
/// set to `mb` MiB. With both at the same value the container has no swap.
pub open spec fn memory_option(flag: Seq<char>, mb: u64) -> Seq<char> {
    flag + decimal(mb as nat) + seq!['m']
}

/// The arguments of `docker run` for `spec`, in a container called `name`:
/// removed when it exits, named so a timeout can kill it, cut off from the
/// network, capped at its memory budget with swap off, compiling in a sized
/// tmpfs; then the image and its arguments.
pub open spec fn run_args_of(spec: RunSpec, name: Seq<char>) -> Seq<Seq<char>> {
    seq![
        "run"@,
        "--rm"@,
        "--name"@,
        name,
        "--network=none"@,
        memory_option("--memory="@, spec.memory_limit_mb),
        memory_option("--memory-swap="@, spec.memory_limit_mb),
        "--tmpfs"@,
        tmpfs_option(spec.tmpfs_size_mb),
        spec.image@,
    ] + views(spec.args@)
}

/// The name of the `invocation`-th container started by process `pid`. Not
/// random: the harness is sequential and a PID plus a counter is unique.
pub open spec fn container_name_of(pid: u32, invocation: u64) -> Seq<char> {
    "langbench-"@ + decimal(pid as nat) + seq!['-'] + decimal(invocation as nat)
}

/// Container names are unique across invocations, and across processes: two
/// containers are given one name only if they were started by the same process
/// at the same invocation.
pub proof fn lemma_container_names_are_unique(pid: u32, invocation: u64, other_pid: u32, other: u64)
    requires
        container_name_of(pid, invocation) == container_name_of(other_pid, other),
    ensures
        pid == other_pid,
        invocation == other,
{
    let prefix = "langbench-"@;
    let a = decimal(pid as nat);
    let b = decimal(other_pid as nat);
    let x = decimal(invocation as nat);
    let y = decimal(other as nat);
    lemma_decimal_is_digits(pid as nat);
    lemma_decimal_is_digits(other_pid as nat);
    lemma_decimal_is_digits(invocation as nat);
    lemma_decimal_is_digits(other as nat);
    let left = container_name_of(pid, invocation);
    let right = container_name_of(other_pid, other);
    let l = a + seq!['-'] + x;
    let r = b + seq!['-'] + y;
    assert(left =~= prefix + l);
    assert(right =~= prefix + r);
    assert(l =~= left.subrange(prefix.len() as int, left.len() as int));
    assert(r =~= right.subrange(prefix.len() as int, right.len() as int));
    assert(l == r);
    // The first dash after the prefix ends the process id on both sides.
    if a.len() < b.len() {
        assert(l[a.len() as int] == '-');
        assert(r[a.len() as int] == b[a.len() as int]);
        assert(is_digit(b[a.len() as int]));
    } else if b.len() < a.len() {
        assert(r[b.len() as int] == '-');
        assert(l[b.len() as int] == a[b.len() as int]);
        assert(is_digit(a[b.len() as int]));
    }
    assert(a.len() == b.len());
    assert(a =~= l.take(a.len() as int));
    assert(b =~= r.take(b.len() as int));
    assert(x =~= l.skip(a.len() as int + 1));
    assert(y =~= r.skip(b.len() as int + 1));
    lemma_decimal_injective(pid as nat, other_pid as nat);
    lemma_decimal_injective(invocation as nat, other as nat);
}

/// What to do next while a container runs: nothing has happened yet, it has
/// exited, or it has to be killed.
#[derive(Clone, Copy, Debug, PartialEq, Eq, Structural)]
pub enum Watch {
    /// It exited: collect its status.
    Exited,
    /// A signal arrived: kill the container by name, and stop the campaign.
    Interrupt,
    /// It outlived its timeout: kill it, and fail the run. A hung run is not a
    /// slow run.
    TimedOut,
    /// Keep waiting, one tick more.
    Wait,
}

/// The decision at each tick of a wait. An exit wins over everything, a signal
/// over the clock; a build has no timeout.
pub open spec fn watch_of(exited: bool, interrupted: bool, elapsed_ns: u64, timeout_secs: Option<u64>) -> Watch {
    if exited {
        Watch::Exited
    } else if interrupted {
        Watch::Interrupt
    } else if timeout_secs matches Some(t) && elapsed_ns >= t * 1_000_000_000 {
        Watch::TimedOut
    } else {
        Watch::Wait
    }
}

/// Decide, at one tick of a wait, what to do about a container.
pub fn watch(exited: bool, interrupted: bool, elapsed_ns: u64, timeout_secs: Option<u64>) -> (r: Watch)
    ensures
        r == watch_of(exited, interrupted, elapsed_ns, timeout_secs),
{
    if exited {
        Watch::Exited
    } else if interrupted {
        Watch::Interrupt
    } else {
        match timeout_secs {
            Some(t) => if (elapsed_ns as u128) >= (t as u128) * 1_000_000_000 {
                Watch::TimedOut
            } else {
                Watch::Wait
            },
            None => Watch::Wait,
        }
    }
}

/// A wall-clock in nanoseconds, as a sample records it: saturating at the
/// largest `u64`, five centuries away.
pub fn wall_ns_of(elapsed_ns: u128) -> (r: u64)
    ensures
        r == if elapsed_ns > u64::MAX {
            u64::MAX
        } else {
            elapsed_ns as u64
        },
{
    if elapsed_ns > u64::MAX as u128 {
        u64::MAX
    } else {
        elapsed_ns as u64
    }
}

/// What a run that outlived its timeout is told.
pub open spec fn timeout_text(timeout_secs: u64, name: Seq<char>, killed: Seq<char>) -> Seq<char> {
    "`docker run` exceeded the "@ + decimal(timeout_secs as nat) + " s timeout and container `"@
        + name + "` was killed ("@ + killed
        + "). A hung run is not a slow run: raise --run-timeout if the workload is genuinely this slow, or look for a deadlock."@
}

/// The error of a run that outlived its timeout, naming the container that was
/// killed and how the kill went.
pub fn timeout_message(timeout_secs: u64, name: &str, killed: &str) -> (r: String)
    ensures
        r@ == timeout_text(timeout_secs, name@, killed@),
{
    let mut m = owned("`docker run` exceeded the ");
    push_str(&mut m, u64_to_string(timeout_secs).as_str());
    push_str(&mut m, " s timeout and container `");
    push_str(&mut m, name);
    push_str(&mut m, "` was killed (");
    push_str(&mut m, killed);
    push_str(
        &mut m,
        "). A hung run is not a slow run: raise --run-timeout if the workload is genuinely this slow, or look for a deadlock.",
    );
    m
}

/// A container that never reports is killed: once its timeout has passed and
/// it has not exited, and no signal came first, the wait always ends in a kill.
pub proof fn lemma_a_hung_run_is_always_killed(elapsed_ns: u64, timeout_secs: u64)
    requires
        elapsed_ns >= timeout_secs * 1_000_000_000,
    ensures
        watch_of(false, false, elapsed_ns, Some(timeout_secs)) == Watch::TimedOut,
        watch_of(false, true, elapsed_ns, Some(timeout_secs)) == Watch::Interrupt,
{
}

/// The arguments of `docker build` for `spec`.
pub fn build_args(spec: &BuildSpec) -> (r: Vec<String>)
    ensures
        views(r@) == build_args_of(*spec),
{
    let mut args: Vec<String> = Vec::new();
    args.push(owned("build"));
    let mut i: usize = 0;
    while i < spec.build_args.len()
        invariant
            i <= spec.build_args@.len(),
            views(args@) == seq!["build"@] + build_arg_flags(spec.build_args@.take(i as int)),
        decreases spec.build_args.len() - i,
    {
        let (key, value) = &spec.build_args[i];
        let flag = owned("--build-arg");
        let mut pair = owned(key.as_str());
        push_char(&mut pair, '=');
        push_str(&mut pair, value.as_str());
        proof {
            lemma_views_push(args@, flag);
            lemma_views_push(args@.push(flag), pair);
        }
        args.push(flag);
        args.push(pair);
        let ghost t = spec.build_args@.take(i + 1);
        assert(t.drop_last() =~= spec.build_args@.take(i as int));
        i += 1;
        assert(views(args@) =~= seq!["build"@] + build_arg_flags(t));
    }
    assert(spec.build_args@.take(i as int) =~= spec.build_args@);
    args.push(owned("--tag"));
    args.push(spec.image.clone());
    args.push(spec.context.clone());
    assert(views(args@) =~= build_args_of(*spec));
    args
}

/// The arguments of `docker run` for `spec`, in a container called `name`.
pub fn run_args(spec: &RunSpec, name: &str) -> (r: Vec<String>)
    ensures
        views(r@) == run_args_of(*spec, name@),
        // Every measured container is capped at its budget, swap off, and the
        // cap comes before the image: after it, it would be the kernel's argument.
        r@.len() == 10 + spec.args@.len(),
        r@[5]@ == memory_option("--memory="@, spec.memory_limit_mb),
        r@[6]@ == memory_option("--memory-swap="@, spec.memory_limit_mb),
        r@[9]@ == spec.image@,
{
    let mut tmpfs = owned("/build:rw,exec,size=");
    push_u128(&mut tmpfs, spec.tmpfs_size_mb as u128);
    push_char(&mut tmpfs, 'm');
    assert(tmpfs@ =~= tmpfs_option(spec.tmpfs_size_mb));
    let mut memory = owned("--memory=");
    push_u128(&mut memory, spec.memory_limit_mb as u128);
    push_char(&mut memory, 'm');
    assert(memory@ =~= memory_option("--memory="@, spec.memory_limit_mb));
    let mut swap = owned("--memory-swap=");
    push_u128(&mut swap, spec.memory_limit_mb as u128);
    push_char(&mut swap, 'm');
    assert(swap@ =~= memory_option("--memory-swap="@, spec.memory_limit_mb));
    let mut args: Vec<String> = Vec::new();
    args.push(owned("run"));
    args.push(owned("--rm"));
    args.push(owned("--name"));
    args.push(owned(name));
    args.push(owned("--network=none"));
    args.push(memory);
    args.push(swap);
    args.push(owned("--tmpfs"));
    args.push(tmpfs);
    args.push(spec.image.clone());
    let ghost head = views(args@);
    assert(head =~= seq![
        "run"@,
        "--rm"@,
        "--name"@,
        name@,
        "--network=none"@,
        memory_option("--memory="@, spec.memory_limit_mb),
        memory_option("--memory-swap="@, spec.memory_limit_mb),
        "--tmpfs"@,
        tmpfs_option(spec.tmpfs_size_mb),
        spec.image@,
    ]);
    let mut i: usize = 0;
    while i < spec.args.len()
        invariant
            i <= spec.args@.len(),
            views(args@) == head + views(spec.args@.take(i as int)),
        decreases spec.args.len() - i,
    {
        proof {
            lemma_views_push(args@, spec.args@[i as int]);
            lemma_views_take(spec.args@, i as int);
        }
        args.push(spec.args[i].clone());
        i += 1;
        assert(views(args@) =~= head + views(spec.args@.take(i as int)));
    }
    assert(spec.args@.take(i as int) =~= spec.args@);
    assert(views(args@) =~= run_args_of(*spec, name@));
    assert(views(args@)[5] == args@[5]@ && views(args@)[6] == args@[6]@ && views(args@)[9]
        == args@[9]@);
    args
}

/// The name of the `invocation`-th container started by process `pid`.
pub fn container_name(pid: u32, invocation: u64) -> (r: String)
    ensures
        r@ == container_name_of(pid, invocation),
{
    let mut name = owned("langbench-");
    push_u128(&mut name, pid as u128);
    push_char(&mut name, '-');
    push_str(&mut name, u64_to_string(invocation).as_str());
    assert(name@ =~= container_name_of(pid, invocation));
    name
}

} // verus!
