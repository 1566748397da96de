//! Raw samples, one NDJSON line per measured invocation.
//!
//! `samples.ndjson` is the only thing a campaign writes, and the only thing that
//! cannot be recomputed. Every other artifact — the CSV, the report — is a
//! rendering of these lines.
use vstd::prelude::*;

use crate::machine::Machine;
use crate::mode::Mode;
use crate::text::{content_lines, content_of, lines_of, numbered_views, decimal, join, join_strings, owned, push_char, push_str, u64_to_string, usize_to_string, views};
use crate::workload::{bool_text, bool_to_string, Workload};

verus! {

/// Which half of a backend's life a sample timed.
#[derive(Clone, Copy, Debug, PartialEq, Eq, Structural)]
pub enum Phase {
    /// A timed recompile from a clean tree, artifacts discarded.
    Build,
    /// A timed execution of the binary the image ships.
    Run,
}

impl Phase {
    pub open spec fn name(self) -> Seq<char> {
        match self {
            Phase::Build => "build"@,
            Phase::Run => "run"@,
        }
    }

    pub fn as_str(self) -> (r: &'static str)
        ensures
            r@ == self.name(),
    {
        match self {
            Phase::Build => "build",
            Phase::Run => "run",
        }
    }
}

/// The single JSON object a container writes on stdout.
///
/// The checksum is an integer: a sum of 64-bit iteration counts, and the
/// correctness gate of the whole harness.
#[derive(Debug, PartialEq, Eq)]
pub struct ContainerRecord {
    pub elapsed_ns: u64,
    pub user_usec: u64,
    pub system_usec: u64,
    pub checksum: Option<u64>,
    /// The cgroup's memory high-water mark; `None` on a kernel that exposes none.
    pub peak_bytes: Option<u64>,
    pub binary_bytes: Option<u64>,
    pub binary_stripped_bytes: Option<u64>,
    pub text_bytes: Option<u64>,
}

/// One measured invocation, as written to `samples.ndjson`.
#[derive(Clone, Debug)]
pub struct Sample {
    pub workload: String,
    pub language: String,
    /// `None` for a backend that compiles nothing ahead of the run.
    pub compiler: Option<String>,
    /// `None` for a backend that ships machine code and no runtime.
    pub interpreter: Option<String>,
    pub description: String,
    pub comments: Option<String>,
    pub mode: Mode,
    pub phase: Phase,
    pub round: u32,
    /// Warmup samples are recorded and flagged, never dropped.
    pub warmup: bool,
    pub cpu: usize,
    /// External wall-clock: container create + runtime init + compute.
    pub wall_ns: u64,
    /// Self-reported by the program: compute only.
    pub elapsed_ns: u64,
    pub user_usec: u64,
    pub system_usec: u64,
    pub peak_bytes: Option<u64>,
    /// Bytes of the one source file the manifest declares.
    pub source_bytes: Option<u64>,
    pub checksum: Option<u64>,
    pub binary_bytes: Option<u64>,
    pub binary_stripped_bytes: Option<u64>,
    pub text_bytes: Option<u64>,
}

/// The view of an optional string.
pub open spec fn opt_text(o: Option<String>) -> Option<Seq<char>> {
    match o {
        Some(s) => Some(s@),
        None => None,
    }
}

/// The view of an optional string slice.
pub open spec fn opt_str(o: Option<&str>) -> Option<Seq<char>> {
    match o {
        Some(s) => Some(s@),
        None => None,
    }
}

/// `-` and a part, when there is one.
pub open spec fn dash_part(o: Option<Seq<char>>) -> Seq<char> {
    match o {
        Some(p) => seq!['-'] + p,
        None => Seq::empty(),
    }
}

/// The identity of a backend as one token: the present parts of
/// `(language, compiler, interpreter)`, joined by `-`.
pub open spec fn slug_text(
    language: Seq<char>,
    compiler: Option<Seq<char>>,
    interpreter: Option<Seq<char>>,
) -> Seq<char> {
    language + dash_part(compiler) + dash_part(interpreter)
}

/// The identity of a backend, flattened into one token: `c-gcc`,
/// `python-cpython`, `python-cython-cpython`.
pub fn backend_slug(language: &str, compiler: Option<&str>, interpreter: Option<&str>) -> (r:
    String)
    ensures
        r@ == slug_text(language@, opt_str(compiler), opt_str(interpreter)),
{
    let mut r = owned(language);
    if let Some(c) = compiler {
        push_char(&mut r, '-');
        push_str(&mut r, c);
    }
    let ghost middle = r@;
    if let Some(i) = interpreter {
        push_char(&mut r, '-');
        push_str(&mut r, i);
    }
    proof {
        assert(middle =~= language@ + dash_part(opt_str(compiler)));
        assert(r@ =~= middle + dash_part(opt_str(interpreter)));
    }
    r
}

/// An optional owned string, borrowed.
pub fn as_opt_str(o: &Option<String>) -> (r: Option<&str>)
    ensures
        opt_str(r) == opt_text(*o),
{
    match o {
        Some(s) => Some(s.as_str()),
        None => None,
    }
}

impl Sample {
    /// CPU time fits the counter it is summed into.
    pub open spec fn cpu_fits(&self) -> bool {
        self.user_usec + self.system_usec <= u64::MAX
    }

    pub open spec fn slug(&self) -> Seq<char> {
        slug_text(self.language@, opt_text(self.compiler), opt_text(self.interpreter))
    }

    /// This sample's backend, as one token.
    pub fn backend(&self) -> (r: String)
        ensures
            r@ == self.slug(),
    {
        backend_slug(
            self.language.as_str(),
            as_opt_str(&self.compiler),
            as_opt_str(&self.interpreter),
        )
    }

    /// Container startup plus runtime init: `wall - elapsed`, saturating, because
    /// the two clocks are independent.
    pub fn startup_ns(&self) -> (r: u64)
        ensures
            r == if self.wall_ns >= self.elapsed_ns {
                (self.wall_ns - self.elapsed_ns) as u64
            } else {
                0u64
            },
    {
        if self.wall_ns >= self.elapsed_ns {
            self.wall_ns - self.elapsed_ns
        } else {
            0
        }
    }

    pub fn cpu_usec(&self) -> (r: u64)
        requires
            self.cpu_fits(),
        ensures
            r == self.user_usec + self.system_usec,
    {
        self.user_usec + self.system_usec
    }

    /// How many cores this run kept busy, in thousandths of a core.
    pub open spec fn cores(&self) -> Option<u64> {
        cores_of(self.user_usec + self.system_usec, self.elapsed_ns as int)
    }

    /// CPU time over compute time, in thousandths of a core; `None` when the
    /// program reported no elapsed time. It can exceed the thread count.
    pub fn cores_milli(&self) -> (r: Option<u64>)
        requires
            self.cpu_fits(),
        ensures
            r == self.cores(),
    {
        if self.elapsed_ns == 0 {
            return None;
        }
        let cpu_ns: u128 = self.cpu_usec() as u128 * 1000;
        let milli: u128 = cpu_ns * 1000 / (self.elapsed_ns as u128);
        if milli > u64::MAX as u128 {
            Some(u64::MAX)
        } else {
            Some(milli as u64)
        }
    }
}

/// `cpu_usec` microseconds of CPU over `elapsed_ns` nanoseconds of compute, in
/// thousandths of a core, capped at `u64::MAX`.
pub open spec fn cores_of(cpu_usec: int, elapsed_ns: int) -> Option<u64> {
    if elapsed_ns == 0 {
        None
    } else {
        let milli = cpu_usec * 1_000_000 / elapsed_ns;
        if milli > u64::MAX {
            Some(u64::MAX)
        } else {
            Some(milli as u64)
        }
    }
}

/// Parameters of a campaign, recorded once in the header.
#[derive(Debug)]
pub struct Campaign {
    pub langbench_version: String,
    pub timestamp: String,
    pub cpu: usize,
    /// A snapshot of the workload the campaign ran, params as overridden.
    pub workload: Workload,
    pub rounds: u32,
    pub build_rounds: u32,
    pub warmup_rounds: u32,
    pub march: String,
    pub modes: Vec<String>,
}

/// Where a backend died.
#[derive(Clone, Copy, Debug, PartialEq, Eq, Structural)]
pub enum Stage {
    /// `docker build` failed: the image does not exist.
    Prepare,
    /// The container ran and did not produce a valid record.
    Measure,
}

impl Stage {
    pub open spec fn name(self) -> Seq<char> {
        match self {
            Stage::Prepare => "prepare"@,
            Stage::Measure => "measure"@,
        }
    }

    pub fn as_str(self) -> (r: &'static str)
        ensures
            r@ == self.name(),
    {
        match self {
            Stage::Prepare => "prepare",
            Stage::Measure => "measure",
        }
    }
}

/// A backend that left the campaign, and what it left on. Not a sample: it
/// carries no timing, and nothing aggregates it.
#[derive(Debug)]
pub struct Failure {
    pub workload: String,
    pub language: String,
    pub compiler: Option<String>,
    pub interpreter: Option<String>,
    pub description: String,
    pub comments: Option<String>,
    pub mode: Mode,
    pub stage: Stage,
    pub phase: Option<Phase>,
    /// The round it died in; `None` when the image never built.
    pub round: Option<u32>,
    /// The error, rendered with its full context chain.
    pub error: String,
}

impl Failure {
    pub open spec fn slug(&self) -> Seq<char> {
        slug_text(self.language@, opt_text(self.compiler), opt_text(self.interpreter))
    }

    /// This failure's backend, as one token.
    pub fn backend(&self) -> (r: String)
        ensures
            r@ == self.slug(),
    {
        backend_slug(
            self.language.as_str(),
            as_opt_str(&self.compiler),
            as_opt_str(&self.interpreter),
        )
    }
}

// ---------------------------------------------------------------------------
// The CSV rendering

/// Columns of the CSV rendering, in the order `Sample` declares them.
pub const CSV_COLUMNS: [&'static str; 21] = [
    "workload",
    "language",
    "compiler",
    "interpreter",
    "description",
    "comments",
    "mode",
    "phase",
    "round",
    "warmup",
    "cpu",
    "wall_ns",
    "elapsed_ns",
    "user_usec",
    "system_usec",
    "peak_bytes",
    "source_bytes",
    "checksum",
    "binary_bytes",
    "binary_stripped_bytes",
    "text_bytes",
];

/// The CSV header line, without its newline.
pub open spec fn csv_header() -> Seq<char> {
    join(CSV_COLUMNS@.map_values(|c: &str| c@), ","@)
}

/// A value that would break a CSV field: a separator, a quote or a newline.
pub open spec fn needs_quotes(s: Seq<char>) -> bool {
    s.contains(',') || s.contains('"') || s.contains('\n')
}

/// `s` with every `"` doubled.
pub open spec fn double_quotes(s: Seq<char>) -> Seq<char>
    decreases s.len(),
{
    if s.len() == 0 {
        Seq::empty()
    } else {
        double_quotes(s.drop_last()) + if s.last() == '"' {
            seq!['"', '"']
        } else {
            seq![s.last()]
        }
    }
}

/// A field as the CSV carries it: quoted, with its quotes doubled, when it
/// holds anything that would break the row; verbatim otherwise.
pub open spec fn escaped(s: Seq<char>) -> Seq<char> {
    if needs_quotes(s) {
        seq!['"'] + double_quotes(s) + seq!['"']
    } else {
        s
    }
}

/// A missing string is an empty field.
pub open spec fn or_empty(o: Option<String>) -> Seq<char> {
    match o {
        Some(s) => s@,
        None => Seq::empty(),
    }
}

/// A missing number is an empty field, never `n/a`.
pub open spec fn opt_decimal(v: Option<u64>) -> Seq<char> {
    match v {
        Some(x) => decimal(x as nat),
        None => Seq::empty(),
    }
}

/// The fields of one sample's row, in column order.
pub open spec fn csv_fields(s: Sample) -> Seq<Seq<char>> {
    seq![
        escaped(s.workload@),
        escaped(s.language@),
        escaped(or_empty(s.compiler)),
        escaped(or_empty(s.interpreter)),
        escaped(s.description@),
        escaped(or_empty(s.comments)),
        s.mode.name(),
        s.phase.name(),
        decimal(s.round as nat),
        bool_text(s.warmup),
        decimal(s.cpu as nat),
        decimal(s.wall_ns as nat),
        decimal(s.elapsed_ns as nat),
        decimal(s.user_usec as nat),
        decimal(s.system_usec as nat),
        opt_decimal(s.peak_bytes),
        opt_decimal(s.source_bytes),
        opt_decimal(s.checksum),
        opt_decimal(s.binary_bytes),
        opt_decimal(s.binary_stripped_bytes),
        opt_decimal(s.text_bytes),
    ]
}

/// One sample's row, without its newline.
pub open spec fn csv_row_text(s: Sample) -> Seq<char> {
    join(csv_fields(s), ","@)
}

/// The rows of every sample, each ended by a newline.
pub open spec fn csv_rows(samples: Seq<Sample>) -> Seq<char>
    decreases samples.len(),
{
    if samples.len() == 0 {
        Seq::empty()
    } else {
        csv_rows(samples.drop_last()) + csv_row_text(samples.last()) + seq!['\n']
    }
}

/// The whole CSV: the header line, then one line per sample.
pub open spec fn csv_text(samples: Seq<Sample>) -> Seq<char> {
    csv_header() + seq!['\n'] + csv_rows(samples)
}

fn csv_header_line() -> (r: String)
    ensures
        r@ == csv_header(),
{
    let ghost cols = CSV_COLUMNS@.map_values(|c: &str| c@);
    let mut r = String::new();
    let mut i: usize = 0;
    while i < 21
        invariant
            i <= 21,
            cols == CSV_COLUMNS@.map_values(|c: &str| c@),
            r@ == join(cols.take(i as int), ","@),
        decreases 21 - i,
    {
        let ghost before = cols.take(i as int);
        if i > 0 {
            push_char(&mut r, ',');
        }
        push_str(&mut r, CSV_COLUMNS[i]);
        proof {
            let after = cols.take(i + 1);
            assert(after.drop_last() =~= before);
            assert(","@ =~= seq![',']) by {
                reveal_strlit(",");
            }
            if i == 0 {
                assert(r@ =~= after[0]);
            } else {
                assert(r@ =~= join(after.drop_last(), ","@) + ","@ + after.last());
            }
        }
        i += 1;
    }
    assert(cols.take(21) =~= cols);
    r
}

/// Appends `s` with every `"` doubled.
fn push_doubled(out: &mut String, s: &Vec<char>, from: usize)
    requires
        from <= s.len(),
    ensures
        final(out)@ == old(out)@ + double_quotes(s@.subrange(from as int, s@.len() as int)),
    decreases s.len() - from,
{
    let ghost start = old(out)@;
    let mut i = s.len();
    let mut k = from;
    while k < s.len()
        invariant
            from <= k <= s.len(),
            out@ == start + double_quotes(s@.subrange(from as int, k as int)),
        decreases s.len() - k,
    {
        let c = s[k];
        if c == '"' {
            push_char(out, '"');
            push_char(out, '"');
        } else {
            push_char(out, c);
        }
        proof {
            let t = s@.subrange(from as int, k + 1);
            assert(t.drop_last() =~= s@.subrange(from as int, k as int));
            assert(t.last() == c);
        }
        k += 1;
        assert(out@ =~= start + double_quotes(s@.subrange(from as int, k as int)));
    }
}

/// A field as the CSV carries it.
pub fn escape(value: &str) -> (r: String)
    ensures
        r@ == escaped(value@),
{
    let cs = crate::text::chars_of(value);
    let mut quote = false;
    let mut i: usize = 0;
    while i < cs.len()
        invariant
            cs@ == value@,
            i <= cs.len(),
            quote <==> exists|k: int|
                0 <= k < i && (cs@[k] == ',' || cs@[k] == '"' || cs@[k] == '\n'),
        decreases cs.len() - i,
    {
        let c = cs[i];
        if c == ',' || c == '"' || c == '\n' {
            quote = true;
        }
        i += 1;
    }
    proof {
        if quote {
            let k = choose|k: int|
                0 <= k < i && (cs@[k] == ',' || cs@[k] == '"' || cs@[k] == '\n');
            assert(value@[k] == cs@[k]);
        } else {
            assert(!value@.contains(','));
            assert(!value@.contains('"'));
            assert(!value@.contains('\n'));
        }
    }
    if quote {
        let mut r = String::new();
        push_char(&mut r, '"');
        push_doubled(&mut r, &cs, 0);
        push_char(&mut r, '"');
        assert(cs@.subrange(0, cs@.len() as int) =~= value@);
        assert(r@ =~= escaped(value@));
        r
    } else {
        owned(value)
    }
}

/// `decimal(v)`, or an empty field when there is no value.
pub fn optional(value: Option<u64>) -> (r: String)
    ensures
        r@ == opt_decimal(value),
{
    match value {
        Some(v) => u64_to_string(v),
        None => String::new(),
    }
}

fn escape_opt(o: &Option<String>) -> (r: String)
    ensures
        r@ == escaped(or_empty(*o)),
{
    match o {
        Some(s) => {
            let r = escape(s.as_str());
            assert(or_empty(*o) == s@);
            r
        },
        None => {
            let r = escape("");
            proof {
                reveal_strlit("");
            }
            assert(or_empty(*o) =~= ""@);
            r
        },
    }
}

impl Sample {
    /// A flat view of the same record `samples.ndjson` carries. Missing values
    /// are empty, never `n/a`.
    pub fn csv_row(&self) -> (r: String)
        ensures
            r@ == csv_row_text(*self),
    {
        let mut cols: Vec<String> = Vec::new();
        cols.push(escape(self.workload.as_str()));
        cols.push(escape(self.language.as_str()));
        cols.push(escape_opt(&self.compiler));
        cols.push(escape_opt(&self.interpreter));
        cols.push(escape(self.description.as_str()));
        cols.push(escape_opt(&self.comments));
        cols.push(owned(self.mode.as_str()));
        cols.push(owned(self.phase.as_str()));
        cols.push(u64_to_string(self.round as u64));
        cols.push(bool_to_string(self.warmup));
        cols.push(usize_to_string(self.cpu));
        cols.push(u64_to_string(self.wall_ns));
        cols.push(u64_to_string(self.elapsed_ns));
        cols.push(u64_to_string(self.user_usec));
        cols.push(u64_to_string(self.system_usec));
        cols.push(optional(self.peak_bytes));
        cols.push(optional(self.source_bytes));
        cols.push(optional(self.checksum));
        cols.push(optional(self.binary_bytes));
        cols.push(optional(self.binary_stripped_bytes));
        cols.push(optional(self.text_bytes));
        assert(views(cols@) =~= csv_fields(*self));
        join_strings(&cols, ",")
    }
}

/// The flat view of the samples a spreadsheet can read: the header line, then
/// one row per sample.
pub fn to_csv(samples: &Vec<Sample>) -> (r: String)
    ensures
        r@ == csv_text(samples@),
{
    let mut out = csv_header_line();
    push_char(&mut out, '\n');
    let ghost head = out@;
    let mut i: usize = 0;
    while i < samples.len()
        invariant
            i <= samples@.len(),
            head == csv_header() + seq!['\n'],
            out@ == head + csv_rows(samples@.take(i as int)),
        decreases samples.len() - i,
    {
        let row = samples[i].csv_row();
        push_str(&mut out, row.as_str());
        push_char(&mut out, '\n');
        proof {
            let t = samples@.take(i + 1);
            assert(t.drop_last() =~= samples@.take(i as int));
            assert(t.last() == samples@[i as int]);
        }
        i += 1;
        assert(out@ =~= head + csv_rows(samples@.take(i as int)));
    }
    assert(samples@.take(i as int) =~= samples@);
    out
}

// ---------------------------------------------------------------------------
// What a container prints

/// Why a container's stdout holds no record.
#[derive(Debug, PartialEq, Eq, Structural)]
pub enum StdoutError {
    /// Nothing but whitespace.
    Nothing,
    /// More than one line that holds something: a build tool wrote to stdout.
    MoreThanOneLine,
}

impl StdoutError {
    pub open spec fn message_text(self) -> Seq<char> {
        match self {
            StdoutError::Nothing => "container printed nothing on stdout; expected one JSON record"@,
            StdoutError::MoreThanOneLine => "container printed more than one line on stdout; build tools must write to stderr"@,
        }
    }

    pub fn message(&self) -> (r: String)
        ensures
            r@ == self.message_text(),
    {
        match self {
            StdoutError::Nothing => owned(
                "container printed nothing on stdout; expected one JSON record",
            ),
            StdoutError::MoreThanOneLine => owned(
                "container printed more than one line on stdout; build tools must write to stderr",
            ),
        }
    }
}

/// The one line of a container's stdout that carries its record.
///
/// Build tools write to stderr; stdout carries exactly one line. Anything else
/// is a broken entrypoint.
pub fn container_line(stdout: &str) -> (r: Result<String, StdoutError>)
    ensures
        content_of(lines_of(stdout@)).len() == 0 <==> r == Err::<String, StdoutError>(
            StdoutError::Nothing,
        ),
        content_of(lines_of(stdout@)).len() > 1 <==> r == Err::<String, StdoutError>(
            StdoutError::MoreThanOneLine,
        ),
        r matches Ok(line) ==> content_of(lines_of(stdout@)).len() == 1 && line@ == content_of(
            lines_of(stdout@),
        )[0].1,
{
    let content = content_lines(stdout);
    if content.len() == 0 {
        return Err(StdoutError::Nothing);
    }
    if content.len() > 1 {
        return Err(StdoutError::MoreThanOneLine);
    }
    assert(numbered_views(content@)[0].1 == content@[0].1@);
    Ok(content[0].1.clone())
}

// ---------------------------------------------------------------------------
// A campaign, as recorded

impl Campaign {
    /// Two headers that say the same thing.
    pub open spec fn same_as(self, other: Campaign) -> bool {
        &&& self.langbench_version@ == other.langbench_version@
        &&& self.timestamp@ == other.timestamp@
        &&& self.cpu == other.cpu
        &&& self.workload.same_as(other.workload)
        &&& self.rounds == other.rounds
        &&& self.build_rounds == other.build_rounds
        &&& self.warmup_rounds == other.warmup_rounds
        &&& self.march@ == other.march@
        &&& views(self.modes@) == views(other.modes@)
    }

    /// A copy of this header.
    pub fn duplicate(&self) -> (r: Campaign)
        ensures
            r.same_as(*self),
    {
        Campaign {
            langbench_version: self.langbench_version.clone(),
            timestamp: self.timestamp.clone(),
            cpu: self.cpu,
            workload: self.workload.duplicate(),
            rounds: self.rounds,
            build_rounds: self.build_rounds,
            warmup_rounds: self.warmup_rounds,
            march: self.march.clone(),
            modes: crate::text::clone_strings(&self.modes),
        }
    }
}

/// Everything one campaign recorded: its context, every measured invocation,
/// and every backend it lost on the way.
#[derive(Debug)]
pub struct Recording {
    pub machine: Machine,
    pub campaign: Campaign,
    pub samples: Vec<Sample>,
    /// Empty on a campaign where everything worked.
    pub failures: Vec<Failure>,
}

// ---------------------------------------------------------------------------
// Reading a campaign back

/// A line of `samples.ndjson`.
#[derive(Debug)]
pub enum Record {
    Header { machine: Machine, campaign: Campaign },
    Sample(Sample),
    Failure(Failure),
}

/// Why a `samples.ndjson` cannot be read back.
#[derive(Debug)]
pub enum LoadError {
    /// Nothing but blank lines.
    Empty,
    /// The first line is a sample or a failure: it was not written by a campaign.
    NoHeader,
    /// A line that is not a record, and not the last one: a torn write can only
    /// ever be the last line.
    Unreadable { line: usize, error: String },
    /// Two campaigns were appended to one file.
    SecondHeader { line: usize },
}

impl LoadError {
    pub open spec fn message_text(self) -> Seq<char> {
        match self {
            LoadError::Empty => "the campaign is empty"@,
            LoadError::NoHeader => "the campaign does not start with a header record; it was not written by `langbench run`"@,
            LoadError::Unreadable { line, error } => "line "@ + decimal(line as nat) + ": "@ + error@,
            LoadError::SecondHeader { line } => "line "@ + decimal(line as nat)
                + ": a second header record; two campaigns were appended to one file"@,
        }
    }

    pub fn message(&self) -> (r: String)
        ensures
            r@ == self.message_text(),
    {
        match self {
            LoadError::Empty => owned("the campaign is empty"),
            LoadError::NoHeader => owned(
                "the campaign does not start with a header record; it was not written by `langbench run`",
            ),
            LoadError::Unreadable { line, error } => {
                let mut m = owned("line ");
                push_str(&mut m, usize_to_string(*line).as_str());
                push_str(&mut m, ": ");
                push_str(&mut m, error.as_str());
                m
            },
            LoadError::SecondHeader { line } => {
                let mut m = owned("line ");
                push_str(&mut m, usize_to_string(*line).as_str());
                push_str(
                    &mut m,
                    ": a second header record; two campaigns were appended to one file",
                );
                m
            },
        }
    }
}

/// A line that stops the reading when it is not the last one: one that is
/// not a record, or a second header. Lines are numbered from one.
pub open spec fn line_error(l: (usize, Result<Record, String>)) -> Option<LoadError> {
    match l.1 {
        Err(e) => Some(LoadError::Unreadable { line: (l.0 + 1) as usize, error: e }),
        Ok(Record::Header { .. }) => Some(LoadError::SecondHeader { line: (l.0 + 1) as usize }),
        _ => None,
    }
}

/// The first stopping line among `lines`.
pub open spec fn first_error(lines: Seq<(usize, Result<Record, String>)>) -> Option<LoadError>
    decreases lines.len(),
{
    if lines.len() == 0 {
        None
    } else {
        match first_error(lines.drop_last()) {
            Some(e) => Some(e),
            None => line_error(lines.last()),
        }
    }
}

/// The samples among `lines`, in order.
pub open spec fn samples_in(lines: Seq<(usize, Result<Record, String>)>) -> Seq<Sample>
    decreases lines.len(),
{
    if lines.len() == 0 {
        Seq::empty()
    } else {
        match lines.last().1 {
            Ok(Record::Sample(s)) => samples_in(lines.drop_last()).push(s),
            _ => samples_in(lines.drop_last()),
        }
    }
}

/// The failures among `lines`, in order.
pub open spec fn failures_in(lines: Seq<(usize, Result<Record, String>)>) -> Seq<Failure>
    decreases lines.len(),
{
    if lines.len() == 0 {
        Seq::empty()
    } else {
        match lines.last().1 {
            Ok(Record::Failure(f)) => failures_in(lines.drop_last()).push(f),
            _ => failures_in(lines.drop_last()),
        }
    }
}

/// The lines a campaign keeps: all after the header, less a last line that did
/// not parse — a campaign killed mid-write leaves exactly that.
pub open spec fn kept(lines: Seq<(usize, Result<Record, String>)>) -> Seq<
    (usize, Result<Record, String>),
> {
    if lines.last().1 is Err {
        lines.subrange(1, lines.len() - 1)
    } else {
        lines.subrange(1, lines.len() as int)
    }
}

/// What reading a campaign back gives, from its non-blank lines and what each
/// parsed as. Only the last line may be torn: it is dropped, and its error is
/// handed back so the caller can say so.
pub open spec fn load_outcome(lines: Seq<(usize, Result<Record, String>)>) -> Result<
    (Seq<Sample>, Seq<Failure>, Option<String>),
    LoadError,
> {
    if lines.len() == 0 {
        Err(LoadError::Empty)
    } else {
        match lines[0].1 {
            Err(e) => Err(LoadError::Unreadable { line: (lines[0].0 + 1) as usize, error: e }),
            Ok(Record::Header { .. }) => {
                let middle = lines.subrange(1, lines.len() - 1);
                if lines.len() > 1 && first_error(middle) is Some {
                    Err(first_error(middle)->0)
                } else if lines.len() > 1 && lines.last().1 matches Ok(Record::Header { .. }) {
                    Err(LoadError::SecondHeader { line: (lines.last().0 + 1) as usize })
                } else {
                    Ok(
                        (
                            samples_in(kept(lines)),
                            failures_in(kept(lines)),
                            if lines.len() > 1 && lines.last().1 is Err {
                                Some(lines.last().1->Err_0)
                            } else {
                                None
                            },
                        ),
                    )
                }
            },
            _ => Err(LoadError::NoHeader),
        }
    }
}

/// Read a campaign back, from its non-blank lines — each with its index among
/// all the lines — and what each parsed as.
///
/// A campaign killed mid-round leaves a truncated last line: that is a fact
/// about the run, not a reason to lose the samples before it, so the last line
/// is dropped and its error handed back. A bad line anywhere else is an error.
pub fn assemble(lines: &mut Vec<(usize, Result<Record, String>)>) -> (r: Result<
    (Recording, Option<String>),
    LoadError,
>)
    requires
        forall|i: int| 0 <= i < old(lines)@.len() ==> (#[trigger] old(lines)@[i]).0 < usize::MAX,
    ensures
        r matches Ok(p) ==> {
            &&& old(lines)@[0].1 matches Ok(Record::Header { machine, campaign })
            &&& p.0.machine == machine
            &&& p.0.campaign == campaign
            &&& load_outcome(old(lines)@) == Ok::<
                (Seq<Sample>, Seq<Failure>, Option<String>),
                LoadError,
            >((p.0.samples@, p.0.failures@, p.1))
        },
        r matches Err(e) ==> load_outcome(old(lines)@) == Err::<
            (Seq<Sample>, Seq<Failure>, Option<String>),
            LoadError,
        >(e),
        r matches Ok(p) ==> {
            &&& p.0.samples@.len() == sample_lines(kept(old(lines)@)).len()
            &&& forall|k: int|
                0 <= k < p.0.samples@.len() ==> sample_lines(kept(old(lines)@))[k].1 == Ok::<
                    Record,
                    String,
                >(Record::Sample(#[trigger] p.0.samples@[k]))
            &&& p.0.failures@.len() == failure_lines(kept(old(lines)@)).len()
            &&& forall|k: int|
                0 <= k < p.0.failures@.len() ==> failure_lines(kept(old(lines)@))[k].1 == Ok::<
                    Record,
                    String,
                >(Record::Failure(#[trigger] p.0.failures@[k]))
        },
{
    proof {
        lemma_every_record_is_kept(old(lines)@);
    }
    let ghost orig = old(lines)@;
    let n = lines.len();
    let mut rev: Vec<(usize, Result<Record, String>)> = Vec::new();
    while lines.len() > 0
        invariant
            n == orig.len(),
            orig == old(lines)@,
            lines@.len() + rev@.len() == n,
            lines@ == orig.take(lines@.len() as int),
            forall|j: int| 0 <= j < rev@.len() ==> #[trigger] rev@[j] == orig[n - 1 - j],
        decreases lines@.len(),
    {
        let ghost before = lines@;
        let l = lines.pop().unwrap();
        assert(lines@ =~= orig.take(lines@.len() as int));
        rev.push(l);
    }
    if n == 0 {
        return Err(LoadError::Empty);
    }
    let (first_index, first) = rev.pop().unwrap();
    assert(orig[0] == (first_index, first));
    let (machine, campaign) = match first {
        Err(e) => {
            return Err(LoadError::Unreadable { line: first_index + 1, error: e });
        },
        Ok(Record::Header { machine, campaign }) => (machine, campaign),
        Ok(_) => {
            return Err(LoadError::NoHeader);
        },
    };
    let mut samples: Vec<Sample> = Vec::new();
    let mut failures: Vec<Failure> = Vec::new();
    let mut torn: Option<String> = None;
    if n == 1 {
        assert(kept(orig) =~= Seq::<(usize, Result<Record, String>)>::empty());
        return Ok((Recording { machine, campaign, samples, failures }, torn));
    }
    let mut k: usize = 1;
    assert(orig.subrange(1, 1) =~= Seq::<(usize, Result<Record, String>)>::empty());
    while k < n
        invariant
            1 <= k <= n,
            n == orig.len(),
            orig == old(lines)@,
            n > 1,
            forall|i: int| 0 <= i < orig.len() ==> (#[trigger] orig[i]).0 < usize::MAX,
            rev@.len() == n - k,
            forall|j: int| 0 <= j < rev@.len() ==> #[trigger] rev@[j] == orig[n - 1 - j],
            k < n ==> first_error(orig.subrange(1, k as int)) is None,
            k < n ==> torn is None,
            k < n ==> samples@ == samples_in(orig.subrange(1, k as int)),
            k < n ==> failures@ == failures_in(orig.subrange(1, k as int)),
            k == n ==> samples@ == samples_in(kept(orig)),
            k == n ==> failures@ == failures_in(kept(orig)),
            k == n ==> first_error(orig.subrange(1, n - 1)) is None,
            k == n ==> !(orig.last().1 matches Ok(Record::Header { .. })),
            k == n ==> torn == if n > 1 && orig.last().1 is Err {
                Some(orig.last().1->Err_0)
            } else {
                None::<String>
            },
            orig[0].1 matches Ok(Record::Header { .. }),
        decreases n - k,
    {
        let (index, outcome) = rev.pop().unwrap();
        let ghost t = orig.subrange(1, k + 1);
        assert(t.drop_last() =~= orig.subrange(1, k as int));
        assert(orig[k as int] == (index, outcome));
        assert(t.last() == orig[k as int]);
        let last = k + 1 == n;
        if last {
            assert(orig.last() == orig[k as int]);
        }
        match outcome {
            Err(e) => {
                if !last {
                    let err = LoadError::Unreadable { line: index + 1, error: e };
                    proof {
                        assert(line_error(t.last()) == Some(err));
                        assert(first_error(t) == Some(err));
                        lemma_first_error_prefix(orig.subrange(1, n - 1), k as int);
                        assert(orig.subrange(1, n - 1).take(k as int) =~= t);
                        assert(first_error(orig.subrange(1, n - 1)) == Some(err));
                        assert(orig[0].1 matches Ok(Record::Header { .. }));
                        assert(load_outcome(orig) == Err::<
                            (Seq<Sample>, Seq<Failure>, Option<String>),
                            LoadError,
                        >(err));
                    }
                    return Err(err);
                }
                torn = Some(e);
                assert(kept(orig) =~= orig.subrange(1, k as int));
            },
            Ok(Record::Header { .. }) => {
                proof {
                    if !last {
                        lemma_first_error_prefix(orig.subrange(1, n - 1), k as int);
                        assert(orig.subrange(1, n - 1).take(k as int) =~= t);
                    }
                }
                return Err(LoadError::SecondHeader { line: index + 1 });
            },
            Ok(Record::Sample(sample)) => {
                samples.push(sample);
                if last {
                    assert(kept(orig) =~= t);
                }
            },
            Ok(Record::Failure(failure)) => {
                failures.push(failure);
                if last {
                    assert(kept(orig) =~= t);
                }
            },
        }
        proof {
            if last {
                assert(orig.subrange(1, n - 1) =~= orig.subrange(1, k as int));
            }
        }
        k += 1;
    }
    Ok((Recording { machine, campaign, samples, failures }, torn))
}

/// A stopping line within a prefix is the first stopping line of the whole.
proof fn lemma_first_error_prefix(lines: Seq<(usize, Result<Record, String>)>, m: int)
    requires
        0 <= m <= lines.len(),
        first_error(lines.take(m)) is Some,
    ensures
        first_error(lines) == first_error(lines.take(m)),
    decreases lines.len() - m,
{
    if m < lines.len() {
        assert(lines.take(m + 1).drop_last() =~= lines.take(m));
        lemma_first_error_prefix(lines, m + 1);
    } else {
        assert(lines.take(m) =~= lines);
    }
}

proof fn lemma_first_error_some(lines: Seq<(usize, Result<Record, String>)>)
    ensures
        first_error(lines) is None <==> forall|i: int|
            0 <= i < lines.len() ==> line_error(#[trigger] lines[i]) is None,
    decreases lines.len(),
{
    if lines.len() > 0 {
        lemma_first_error_some(lines.drop_last());
        if first_error(lines) is None {
            assert forall|i: int| 0 <= i < lines.len() implies line_error(
                #[trigger] lines[i],
            ) is None by {
                if i < lines.len() - 1 {
                    assert(lines[i] == lines.drop_last()[i]);
                }
            }
        }
        if forall|i: int| 0 <= i < lines.len() ==> line_error(#[trigger] lines[i]) is None {
            assert forall|i: int| 0 <= i < lines.drop_last().len() implies line_error(
                #[trigger] lines.drop_last()[i],
            ) is None by {
                assert(lines[i] == lines.drop_last()[i]);
            }
            assert(line_error(lines[lines.len() - 1]) is None);
        }
    }
}

/// Only the last line can be a torn write: a line that does not parse anywhere
/// before it fails the whole reading.
pub proof fn lemma_a_bad_line_before_the_last_is_an_error(
    lines: Seq<(usize, Result<Record, String>)>,
    i: int,
)
    requires
        0 <= i < lines.len() - 1,
        lines[i].1 is Err,
    ensures
        load_outcome(lines) is Err,
{
    if i > 0 && lines[0].1 matches Ok(Record::Header { .. }) {
        let middle = lines.subrange(1, lines.len() - 1);
        assert(middle[i - 1] == lines[i]);
        lemma_first_error_some(middle);
    }
}

/// A campaign interrupted mid-write keeps every sample and every failure before
/// its torn last line, and says what tore it.
pub proof fn lemma_a_torn_last_line_keeps_everything_before_it(
    lines: Seq<(usize, Result<Record, String>)>,
)
    requires
        lines.len() >= 2,
        lines[0].1 matches Ok(Record::Header { .. }),
        forall|i: int| 0 < i < lines.len() - 1 ==> line_error(#[trigger] lines[i]) is None,
        lines.last().1 is Err,
    ensures
        load_outcome(lines) == Ok::<(Seq<Sample>, Seq<Failure>, Option<String>), LoadError>(
            (
                samples_in(lines.subrange(1, lines.len() - 1)),
                failures_in(lines.subrange(1, lines.len() - 1)),
                Some(lines.last().1->Err_0),
            ),
        ),
{
    let middle = lines.subrange(1, lines.len() - 1);
    assert forall|i: int| 0 <= i < middle.len() implies line_error(#[trigger] middle[i]) is None by {
        assert(middle[i] == lines[i + 1]);
    }
    lemma_first_error_some(middle);
}

/// The lines of `lines` that are failure records, in order.
pub open spec fn failure_lines(lines: Seq<(usize, Result<Record, String>)>) -> Seq<
    (usize, Result<Record, String>),
> {
    lines.filter(|l: (usize, Result<Record, String>)| l.1 matches Ok(Record::Failure(_)))
}

/// The lines of `lines` that are sample records, in order.
pub open spec fn sample_lines(lines: Seq<(usize, Result<Record, String>)>) -> Seq<
    (usize, Result<Record, String>),
> {
    lines.filter(|l: (usize, Result<Record, String>)| l.1 matches Ok(Record::Sample(_)))
}

proof fn lemma_failures_in_are_the_failure_lines(lines: Seq<(usize, Result<Record, String>)>)
    ensures
        failures_in(lines).len() == failure_lines(lines).len(),
        forall|k: int|
            0 <= k < failures_in(lines).len() ==> failure_lines(lines)[k].1 == Ok::<
                Record,
                String,
            >(Record::Failure(#[trigger] failures_in(lines)[k])),
    decreases lines.len(),
{
    reveal(Seq::filter);
    if lines.len() > 0 {
        lemma_failures_in_are_the_failure_lines(lines.drop_last());
    }
}

proof fn lemma_samples_in_are_the_sample_lines(lines: Seq<(usize, Result<Record, String>)>)
    ensures
        samples_in(lines).len() == sample_lines(lines).len(),
        forall|k: int|
            0 <= k < samples_in(lines).len() ==> sample_lines(lines)[k].1 == Ok::<
                Record,
                String,
            >(Record::Sample(#[trigger] samples_in(lines)[k])),
    decreases lines.len(),
{
    reveal(Seq::filter);
    if lines.len() > 0 {
        lemma_samples_in_are_the_sample_lines(lines.drop_last());
    }
}

/// Reading a campaign back keeps every record after its header, whatever it
/// is: its samples are exactly the sample lines, and its failures exactly the
/// failure lines, in file order, whatever their stage or phase, less only a
/// torn last line.
pub proof fn lemma_every_record_is_kept(lines: Seq<(usize, Result<Record, String>)>)
    ensures
        load_outcome(lines) matches Ok((samples, failures, _)) ==> {
            &&& samples.len() == sample_lines(kept(lines)).len()
            &&& forall|k: int|
                0 <= k < samples.len() ==> sample_lines(kept(lines))[k].1 == Ok::<Record, String>(
                    Record::Sample(#[trigger] samples[k]),
                )
            &&& failures.len() == failure_lines(kept(lines)).len()
            &&& forall|k: int|
                0 <= k < failures.len() ==> failure_lines(kept(lines))[k].1 == Ok::<
                    Record,
                    String,
                >(Record::Failure(#[trigger] failures[k]))
        },
{
    lemma_failures_in_are_the_failure_lines(kept(lines));
    lemma_samples_in_are_the_sample_lines(kept(lines));
}

} // verus!
