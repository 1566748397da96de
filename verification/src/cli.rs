//! The values a command line carries, once it has been read.
//!
//! The argument parser itself is the binary's business; what is decided about
//! the values — which architecture a name means, where a conversion lands, which
//! `-march` is a baseline — is decided here.
use vstd::prelude::*;

use crate::text::{ascii_lower, chars_of, lower, owned, str_eq};

verus! {

/// A CPU architecture a backend can be built and measured on.
#[derive(Clone, Copy, Debug, PartialEq, Eq, Hash, Structural)]
pub enum Architecture {
    /// 64-bit x86.
    X86_64,
    /// 64-bit ARM.
    Aarch64,
}

impl Architecture {
    pub const ALL: [Architecture; 2] = [Architecture::X86_64, Architecture::Aarch64];

    pub open spec fn name(self) -> Seq<char> {
        match self {
            Architecture::X86_64 => "x86_64"@,
            Architecture::Aarch64 => "aarch64"@,
        }
    }

    pub fn as_str(self) -> (r: &'static str)
        ensures
            r@ == self.name(),
    {
        match self {
            Architecture::X86_64 => "x86_64",
            Architecture::Aarch64 => "aarch64",
        }
    }

    /// Parse an architecture as a `bench.yaml` spells it.
    pub fn parse(value: &str) -> (r: Option<Architecture>)
        ensures
            forall|a: Architecture| #[trigger] a.name() == value@ <==> r == Some(a),
    {
        let r = if str_eq(Architecture::X86_64.as_str(), value) {
            Some(Architecture::X86_64)
        } else if str_eq(Architecture::Aarch64.as_str(), value) {
            Some(Architecture::Aarch64)
        } else {
            None
        };
        proof {
            assert forall|a: Architecture| #[trigger] a.name() == value@ <==> r == Some(a) by {
                lemma_architecture_names_distinct(a, Architecture::X86_64);
                lemma_architecture_names_distinct(a, Architecture::Aarch64);
            }
        }
        r
    }
}

/// Two architectures never print the same name, so parsing what one prints
/// gives it back.
pub proof fn lemma_architecture_names_distinct(a: Architecture, b: Architecture)
    ensures
        a.name() == b.name() <==> a == b,
{
    reveal_strlit("x86_64");
    reveal_strlit("aarch64");
    if a != b {
        assert(a.name().len() != b.name().len());
    }
}

/// What `sample convert` can write.
#[derive(Clone, Copy, Debug, PartialEq, Eq, Structural)]
pub enum SampleFormat {
    /// One row per sample, the columns `samples.ndjson` carries.
    Csv,
}

impl SampleFormat {
    pub open spec fn default_output_spec(self) -> Seq<char> {
        match self {
            SampleFormat::Csv => "samples.csv"@,
        }
    }

    /// Where this format lands when nobody says otherwise.
    pub fn default_output(self) -> (r: String)
        ensures
            r@ == self.default_output_spec(),
    {
        match self {
            SampleFormat::Csv => owned("samples.csv"),
        }
    }

    /// How the command line spells this format.
    pub fn as_str(self) -> (r: &'static str)
        ensures
            r@ == (match self {
                SampleFormat::Csv => "csv"@,
            }),
    {
        match self {
            SampleFormat::Csv => "csv",
        }
    }
}

/// The one file a campaign writes, and the one file a conversion reads.
pub const DEFAULT_SAMPLES_OUTPUT: &'static str = "samples.ndjson";

/// Where the implementation manifest's schema is written.
pub const DEFAULT_BENCH_SCHEMA_OUTPUT: &'static str = "bench.schema.json";

/// Where the workload manifest's schema is written.
pub const DEFAULT_WORKLOAD_SCHEMA_OUTPUT: &'static str = "workload.schema.json";

/// Where a schema is written.
pub struct JsonSchemaArgs {
    pub output: Option<String>,
}

impl JsonSchemaArgs {
    /// The path this schema is written to: the one given, else `default`.
    pub fn output_or(&self, default: &str) -> (r: String)
        ensures
            r@ == (match self.output {
                Some(path) => path@,
                None => default@,
            }),
    {
        match &self.output {
            Some(path) => path.clone(),
            None => owned(default),
        }
    }
}

/// Reading a campaign back, into another format.
pub struct ConvertArgs {
    /// The `samples.ndjson` a campaign wrote.
    pub samples: String,
    pub format: SampleFormat,
    pub output: Option<String>,
}

impl ConvertArgs {
    /// The file this conversion writes: the one given, else the format's own.
    pub fn output(&self) -> (r: String)
        ensures
            r@ == (match self.output {
                Some(path) => path@,
                None => self.format.default_output_spec(),
            }),
    {
        match &self.output {
            Some(path) => path.clone(),
            None => self.format.default_output(),
        }
    }
}

/// `str::eq_ignore_ascii_case`.
pub open spec fn eq_ignore_ascii_case(a: Seq<char>, b: Seq<char>) -> bool {
    a.len() == b.len() && forall|i: int|
        0 <= i < a.len() ==> ascii_lower(#[trigger] a[i]) == ascii_lower(b[i])
}

pub fn eq_ignore_ascii_case_exec(a: &str, b: &str) -> (r: bool)
    ensures
        r == eq_ignore_ascii_case(a@, b@),
{
    let x = chars_of(a);
    let y = chars_of(b);
    if x.len() != y.len() {
        return false;
    }
    let mut i: usize = 0;
    while i < x.len()
        invariant
            x@ == a@,
            y@ == b@,
            x.len() == y.len(),
            i <= x.len(),
            forall|j: int| 0 <= j < i ==> ascii_lower(#[trigger] x@[j]) == ascii_lower(y@[j]),
        decreases x.len() - i,
    {
        if lower(x[i]) != lower(y[i]) {
            return false;
        }
        i += 1;
    }
    true
}

/// The `-march` of the `baseline` mode, as the command line gives it.
///
/// `native` — in any case — is refused: it is a mode, not a baseline, and a
/// baseline that varies with the CPU that built it is not a baseline.
pub fn parse_march(value: &str) -> (r: Result<String, String>)
    ensures
        r is Err <==> eq_ignore_ascii_case(value@, "native"@),
        r matches Ok(v) ==> v@ == value@,
{
    if eq_ignore_ascii_case_exec(value, "native") {
        return Err(
            owned(
                "`--march native` is a contradiction: this flag is the *baseline* mode's value, and a baseline that varies with the CPU that built it is not a baseline. Native targeting is not forbidden here — it is a mode. Ask for it with `--mode native`, which builds a second image beside this one and publishes both, instead of quietly turning the pinned column into an unpinned one.",
            ),
        );
    }
    Ok(owned(value))
}

/// A pinned baseline per architecture, as `uname -m` names it. Empty means
/// "pass no `-march`".
pub fn default_march(arch: &str) -> (r: String)
    ensures
        arch@ == "x86_64"@ ==> r@ == "x86-64-v3"@,
        arch@ == "aarch64"@ ==> r@ == "armv8.2-a"@,
        arch@ != "x86_64"@ && arch@ != "aarch64"@ ==> r@.len() == 0,
{
    proof {
        reveal_strlit("x86_64");
        reveal_strlit("aarch64");
        assert("x86_64"@.len() != "aarch64"@.len());
    }
    if str_eq(arch, "x86_64") {
        owned("x86-64-v3")
    } else if str_eq(arch, "aarch64") {
        owned("armv8.2-a")
    } else {
        String::new()
    }
}

/// A listing is read by a person and by a script.
pub struct ListArgs {
    /// Root of the tree to walk for `workload.yaml` manifests.
    pub benchmarks_dir: String,
    /// Emit JSON rather than a table.
    pub json: bool,
}

pub struct ImplementationListArgs {
    /// The workload whose implementations to list.
    pub workload: String,
    pub list: ListArgs,
}

pub struct ValidateArgs {
    /// Directories to walk; the whole tree by default.
    pub paths: Vec<String>,
}

/// One campaign: one machine measuring one workload.
pub struct RunArgs {
    /// The workload to measure, by the `id` its `workload.yaml` declares.
    pub workload: String,
    /// `name=value` overrides of the workload's params.
    pub params: Vec<String>,
    /// The modes to build and measure: the pinned baseline, the machine itself, or both.
    pub mode: Vec<crate::mode::Mode>,
    /// Threads handed to the kernels and to the compilers.
    pub cpu: usize,
    /// The `samples.ndjson` this campaign writes.
    pub output: String,
    pub benchmarks_dir: String,
    /// Measured rounds of the run phase.
    pub rounds: u32,
    /// Measured rounds of the build phase.
    pub build_rounds: u32,
    /// Rounds recorded but flagged as warmup, for both phases.
    pub warmup_rounds: u32,
    /// The pinned ISA baseline, passed to the compilers as `-march`.
    pub march: String,
    /// Size of the tmpfs mounted on the container's build directory.
    pub tmpfs_size_mb: u64,
    /// Memory budget of every measured container, in MiB. Swap is off.
    pub memory_limit_mb: u64,
    /// Wall-clock ceiling for a single container invocation, in seconds.
    pub run_timeout: u64,
}

pub enum WorkloadCommand {
    /// Every workload declared on disk.
    List(ListArgs),
    /// Build every implementation of a workload and measure it.
    Run(RunArgs),
    /// Write the JSON Schema of a `workload.yaml`.
    Jsonschema(JsonSchemaArgs),
}

pub enum ImplementationCommand {
    /// Every implementation a workload declares.
    List(ImplementationListArgs),
    /// Write the JSON Schema of a `bench.yaml`.
    Jsonschema(JsonSchemaArgs),
}

pub enum SampleCommand {
    /// Convert a campaign's samples into another format.
    Convert(ConvertArgs),
}

/// Three resources, and the verbs that act on them; and the two commands that
/// are about everything at once.
pub enum Command {
    Workload(WorkloadCommand),
    Implementation(ImplementationCommand),
    Sample(SampleCommand),
    /// Check every manifest on disk, and report all of them at once.
    Validate(ValidateArgs),
    /// Describe this machine, and why it may be a poor benchmark target.
    Machine,
}

/// The command line, once read.
pub struct Cli {
    /// The log filter directive.
    pub log_filter: String,
    pub command: Command,
}

} // verus!
