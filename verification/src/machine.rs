//! Everything about the machine under the benchmark that could plausibly
//! explain a difference between two campaigns.
//!
//! Collection reads `/proc` and `/sys`, and is the binary's business. What is
//! decided from what was read — what the report prints, which signals are
//! evidence of a hypervisor, what makes a host a poor target — is decided here.
use vstd::prelude::*;

use crate::text::{decimal, join, join_strings, owned, push_char, push_str, u64_to_string, usize_to_string, views};
use crate::workload::{bool_text, bool_to_string};

verus! {

/// A `label: value` pair for the human-facing report.
#[derive(Debug)]
pub struct Field {
    pub label: String,
    pub value: String,
}

/// What a campaign records about the host that measured it.
#[derive(Debug)]
pub struct Machine {
    /// A Linux `/proc` is visible, determined at run time.
    pub linux: bool,
    /// Evidence that this is a virtual machine, if any was found. `None` proves
    /// nothing: it means no marker was detected.
    pub virtualization: Option<String>,
    /// The harness itself is running inside a container.
    pub containerized: bool,
    pub architecture: String,
    pub hostname: Option<String>,
    pub os: Option<String>,
    pub kernel: Option<String>,
    pub cpu_model: Option<String>,
    pub cpu_vendor: Option<String>,
    pub logical_cpus: Option<usize>,
    pub physical_cores: Option<usize>,
    pub available_parallelism: Option<usize>,
    pub smt_active: Option<bool>,
    pub isa_extensions: Vec<String>,
    pub numa_nodes: Option<usize>,
    pub scaling_governor: Option<String>,
    pub scaling_min_khz: Option<u64>,
    pub scaling_max_khz: Option<u64>,
    pub scaling_cur_khz: Option<u64>,
    /// `true` means turbo/boost is off, which is what a benchmark host wants.
    pub turbo_disabled: Option<bool>,
    pub isolated_cpus: Option<String>,
    pub memory_total_kb: Option<u64>,
    /// The one-, five- and fifteen-minute load averages at start, two decimals
    /// each, as the report prints them.
    pub load_average: Option<String>,
    pub cgroup_version: Option<u8>,
    pub docker_version: Option<String>,
    pub docker_storage_driver: Option<String>,
}

/// A host nothing is known about: no Linux `/proc`, no evidence, no values.
impl Default for Machine {
    fn default() -> (r: Machine)
        ensures
            !r.linux,
            r.virtualization is None,
            !r.containerized,
            r.architecture@.len() == 0,
            r.hostname is None,
            r.os is None,
            r.kernel is None,
            r.cpu_model is None,
            r.cpu_vendor is None,
            r.logical_cpus is None,
            r.physical_cores is None,
            r.available_parallelism is None,
            r.smt_active is None,
            r.isa_extensions@.len() == 0,
            r.numa_nodes is None,
            r.scaling_governor is None,
            r.scaling_min_khz is None,
            r.scaling_max_khz is None,
            r.scaling_cur_khz is None,
            r.turbo_disabled is None,
            r.isolated_cpus is None,
            r.memory_total_kb is None,
            r.load_average is None,
            r.cgroup_version is None,
            r.docker_version is None,
            r.docker_storage_driver is None,
    {
        Machine {
            linux: false,
            virtualization: None,
            containerized: false,
            architecture: String::new(),
            hostname: None,
            os: None,
            kernel: None,
            cpu_model: None,
            cpu_vendor: None,
            logical_cpus: None,
            physical_cores: None,
            available_parallelism: None,
            smt_active: None,
            isa_extensions: Vec::new(),
            numa_nodes: None,
            scaling_governor: None,
            scaling_min_khz: None,
            scaling_max_khz: None,
            scaling_cur_khz: None,
            turbo_disabled: None,
            isolated_cpus: None,
            memory_total_kb: None,
            load_average: None,
            cgroup_version: None,
            docker_version: None,
            docker_storage_driver: None,
        }
    }
}

/// What a missing value renders as: a missing field is information.
pub open spec fn na() -> Seq<char> {
    "n/a"@
}

pub open spec fn text_or_na(o: Option<String>) -> Seq<char> {
    match o {
        Some(s) => s@,
        None => na(),
    }
}

pub open spec fn count_or_na(o: Option<usize>) -> Seq<char> {
    match o {
        Some(n) => decimal(n as nat),
        None => na(),
    }
}

pub open spec fn flag_or_na(o: Option<bool>) -> Seq<char> {
    match o {
        Some(b) => bool_text(b),
        None => na(),
    }
}

/// A frequency in kHz, printed in whole MHz.
pub open spec fn mhz_or_na(o: Option<u64>) -> Seq<char> {
    match o {
        Some(khz) => decimal((khz / 1000) as nat) + " MHz"@,
        None => na(),
    }
}

/// `kb` kibibytes in gibibytes, in tenths, rounded half to even.
pub open spec fn gib_tenths(kb: nat) -> nat {
    let q = kb * 10 / 1048576;
    let r = kb * 10 % 1048576;
    if 2 * r > 1048576 || (2 * r == 1048576 && q % 2 == 1) {
        q + 1
    } else {
        q
    }
}

/// A memory size, as `{:.1} GiB`.
pub open spec fn gib_text(kb: nat) -> Seq<char> {
    decimal(gib_tenths(kb) / 10) + seq!['.'] + decimal(gib_tenths(kb) % 10) + " GiB"@
}

pub open spec fn memory_or_na(o: Option<u64>) -> Seq<char> {
    match o {
        Some(kb) => gib_text(kb as nat),
        None => na(),
    }
}

/// The architecture extensions, or `n/a` when none was recorded.
pub open spec fn extensions_text(v: Seq<String>) -> Seq<char> {
    if v.len() == 0 {
        na()
    } else {
        join(views(v), ", "@)
    }
}

pub open spec fn cgroup_or_na(o: Option<u8>) -> Seq<char> {
    match o {
        Some(n) => decimal(n as nat),
        None => na(),
    }
}

pub const UNKNOWN_VIRTUALIZATION: &'static str = "unknown (the probes need Linux; see the warning above)";

impl Machine {
    /// What the hypervisor probes established. Off Linux none of them could
    /// look, so the answer is "unknown", never "none detected".
    pub open spec fn virtualization_text(self) -> Seq<char> {
        match self.virtualization {
            Some(evidence) => evidence@,
            None => if self.linux {
                "none detected"@
            } else {
                UNKNOWN_VIRTUALIZATION@
            },
        }
    }

    /// The report's table of the host, in order.
    pub open spec fn field_list(self) -> Seq<(Seq<char>, Seq<char>)> {
        seq![
            ("Hostname"@, text_or_na(self.hostname)),
            ("Architecture"@, if self.architecture@.len() == 0 { na() } else { self.architecture@ }),
            ("OS"@, text_or_na(self.os)),
            ("Kernel"@, text_or_na(self.kernel)),
            ("Virtualization"@, self.virtualization_text()),
            ("Harness containerized"@, bool_text(self.containerized)),
            ("CPU model"@, text_or_na(self.cpu_model)),
            ("CPU vendor"@, text_or_na(self.cpu_vendor)),
            ("Logical CPUs"@, count_or_na(self.logical_cpus)),
            ("Physical cores"@, count_or_na(self.physical_cores)),
            ("available_parallelism"@, count_or_na(self.available_parallelism)),
            ("SMT active"@, flag_or_na(self.smt_active)),
            ("NUMA nodes"@, count_or_na(self.numa_nodes)),
            ("architecture extensions"@, extensions_text(self.isa_extensions@)),
            ("Scaling governor"@, text_or_na(self.scaling_governor)),
            ("Frequency min"@, mhz_or_na(self.scaling_min_khz)),
            ("Frequency max"@, mhz_or_na(self.scaling_max_khz)),
            ("Frequency at start"@, mhz_or_na(self.scaling_cur_khz)),
            ("Turbo disabled"@, flag_or_na(self.turbo_disabled)),
            ("Isolated CPUs"@, text_or_na(self.isolated_cpus)),
            ("Memory"@, memory_or_na(self.memory_total_kb)),
            ("Load average at start"@, text_or_na(self.load_average)),
            ("cgroup version"@, cgroup_or_na(self.cgroup_version)),
            ("Docker version"@, text_or_na(self.docker_version)),
            ("Docker storage driver"@, text_or_na(self.docker_storage_driver)),
        ]
    }
}

/// The views of a list of fields.
pub open spec fn field_views(v: Seq<Field>) -> Seq<(Seq<char>, Seq<char>)> {
    v.map_values(|f: Field| (f.label@, f.value@))
}

/// An optional string, or `n/a`.
pub fn opt(value: &Option<String>) -> (r: String)
    ensures
        r@ == text_or_na(*value),
{
    match value {
        Some(v) => v.clone(),
        None => owned("n/a"),
    }
}

pub fn opt_num(value: Option<usize>) -> (r: String)
    ensures
        r@ == count_or_na(value),
{
    match value {
        Some(v) => usize_to_string(v),
        None => owned("n/a"),
    }
}

pub fn opt_bool(value: Option<bool>) -> (r: String)
    ensures
        r@ == flag_or_na(value),
{
    match value {
        Some(v) => bool_to_string(v),
        None => owned("n/a"),
    }
}

/// A frequency in kHz, as whole MHz.
pub fn opt_mhz(khz: Option<u64>) -> (r: String)
    ensures
        r@ == mhz_or_na(khz),
{
    match khz {
        Some(v) => {
            let mut r = u64_to_string(v / 1000);
            push_str(&mut r, " MHz");
            r
        },
        None => owned("n/a"),
    }
}

/// A memory size in kB, as GiB with one decimal.
pub fn memory_text(kb: Option<u64>) -> (r: String)
    ensures
        r@ == memory_or_na(kb),
{
    match kb {
        Some(v) => {
            let scaled: u128 = v as u128 * 10;
            let q: u128 = scaled / 1048576;
            let rem: u128 = scaled % 1048576;
            let tenths: u128 = if 2 * rem > 1048576 || (2 * rem == 1048576 && q % 2 == 1) {
                q + 1
            } else {
                q
            };
            assert(tenths == gib_tenths(v as nat));
            let mut r = String::new();
            crate::text::push_u128(&mut r, tenths / 10);
            push_char(&mut r, '.');
            crate::text::push_u128(&mut r, tenths % 10);
            push_str(&mut r, " GiB");
            assert(r@ =~= gib_text(v as nat));
            r
        },
        None => owned("n/a"),
    }
}

fn field(label: &str, value: String) -> (r: Field)
    ensures
        r.label@ == label@,
        r.value@ == value@,
{
    Field { label: owned(label), value }
}

impl Machine {
    fn virtualization_field(&self) -> (r: String)
        ensures
            r@ == self.virtualization_text(),
    {
        match &self.virtualization {
            Some(evidence) => evidence.clone(),
            None => if self.linux {
                owned("none detected")
            } else {
                owned(UNKNOWN_VIRTUALIZATION)
            },
        }
    }

    /// Ordered `label: value` pairs for the report. `None` renders as `n/a`
    /// rather than being dropped.
    pub fn fields(&self) -> (r: Vec<Field>)
        ensures
            field_views(r@) == self.field_list(),
    {
        let mut f: Vec<Field> = Vec::new();
        f.push(field("Hostname", opt(&self.hostname)));
        let architecture = if self.architecture.as_str().is_empty() {
            owned("n/a")
        } else {
            self.architecture.clone()
        };
        f.push(field("Architecture", architecture));
        f.push(field("OS", opt(&self.os)));
        f.push(field("Kernel", opt(&self.kernel)));
        f.push(field("Virtualization", self.virtualization_field()));
        f.push(field("Harness containerized", bool_to_string(self.containerized)));
        f.push(field("CPU model", opt(&self.cpu_model)));
        f.push(field("CPU vendor", opt(&self.cpu_vendor)));
        f.push(field("Logical CPUs", opt_num(self.logical_cpus)));
        f.push(field("Physical cores", opt_num(self.physical_cores)));
        f.push(field("available_parallelism", opt_num(self.available_parallelism)));
        f.push(field("SMT active", opt_bool(self.smt_active)));
        f.push(field("NUMA nodes", opt_num(self.numa_nodes)));
        let extensions = if self.isa_extensions.len() == 0 {
            owned("n/a")
        } else {
            join_strings(&self.isa_extensions, ", ")
        };
        f.push(field("architecture extensions", extensions));
        f.push(field("Scaling governor", opt(&self.scaling_governor)));
        f.push(field("Frequency min", opt_mhz(self.scaling_min_khz)));
        f.push(field("Frequency max", opt_mhz(self.scaling_max_khz)));
        f.push(field("Frequency at start", opt_mhz(self.scaling_cur_khz)));
        f.push(field("Turbo disabled", opt_bool(self.turbo_disabled)));
        f.push(field("Isolated CPUs", opt(&self.isolated_cpus)));
        f.push(field("Memory", memory_text(self.memory_total_kb)));
        f.push(field("Load average at start", opt(&self.load_average)));
        let cgroup = match self.cgroup_version {
            Some(v) => u64_to_string(v as u64),
            None => owned("n/a"),
        };
        f.push(field("cgroup version", cgroup));
        f.push(field("Docker version", opt(&self.docker_version)));
        f.push(field("Docker storage driver", opt(&self.docker_storage_driver)));
        assert(field_views(f@) =~= self.field_list());
        f
    }
}

// ---------------------------------------------------------------------------
// Warnings

pub const NOT_LINUX: &'static str = "No Linux `/proc` is visible. Containers run inside a VM, so timings measure the hypervisor as much as the backend. Development only.";

pub const HYPERVISOR_PREFIX: &'static str = "Running under a hypervisor (";

pub const HYPERVISOR_SUFFIX: &'static str = "). Timings measure the VM's vCPU scheduling as much as the backend, and the host may throttle or migrate the guest at any moment.";

pub const CONTAINERIZED: &'static str = "The harness itself runs in a container. Machine metadata describes what the container can see, which is not always the host: pass `--hostname` and check the CPU fields before trusting them.";

pub const TURBO: &'static str = "Turbo/boost is enabled. Early rounds run at a higher clock than late ones; that is drift, not noise, and no median rescues it.";

pub const GOVERNOR_PREFIX: &'static str = "CPU governor is `";

pub const GOVERNOR_SUFFIX: &'static str = "`, not `performance`. Frequency will vary with load.";

pub const SMT: &'static str = "SMT is active. Sibling threads share execution units, so a neighbour can halve this benchmark's IPC.";

/// `w`, when `c` holds.
pub open spec fn when(c: bool, w: Seq<char>) -> Seq<Seq<char>> {
    if c {
        seq![w]
    } else {
        Seq::empty()
    }
}

impl Machine {
    /// Reasons this host is a poor benchmark target, in the order the report
    /// lists them.
    pub open spec fn warning_list(self) -> Seq<Seq<char>> {
        when(!self.linux, NOT_LINUX@) + match self.virtualization {
            Some(e) => seq![HYPERVISOR_PREFIX@ + e@ + HYPERVISOR_SUFFIX@],
            None => Seq::empty(),
        } + when(self.containerized, CONTAINERIZED@) + when(
            self.turbo_disabled == Some(false),
            TURBO@,
        ) + match self.scaling_governor {
            Some(g) => when(g@ != "performance"@, GOVERNOR_PREFIX@ + g@ + GOVERNOR_SUFFIX@),
            None => Seq::empty(),
        } + when(self.smt_active == Some(true), SMT@)
    }

    /// Reasons this host is a poor benchmark target, in plain English. A
    /// campaign with warnings is not invalid, but its numbers do not support
    /// percentage-level claims.
    pub fn warnings(&self) -> (r: Vec<String>)
        ensures
            views(r@) == self.warning_list(),
    {
        let mut w: Vec<String> = Vec::new();
        if !self.linux {
            w.push(owned(NOT_LINUX));
        }
        let ghost a = views(w@);
        if let Some(evidence) = &self.virtualization {
            let mut m = owned(HYPERVISOR_PREFIX);
            push_str(&mut m, evidence.as_str());
            push_str(&mut m, HYPERVISOR_SUFFIX);
            w.push(m);
        }
        let ghost b = views(w@);
        if self.containerized {
            w.push(owned(CONTAINERIZED));
        }
        let ghost c = views(w@);
        if self.turbo_disabled == Some(false) {
            w.push(owned(TURBO));
        }
        let ghost d = views(w@);
        if let Some(governor) = &self.scaling_governor {
            if !crate::text::str_eq(governor.as_str(), "performance") {
                let mut m = owned(GOVERNOR_PREFIX);
                push_str(&mut m, governor.as_str());
                push_str(&mut m, GOVERNOR_SUFFIX);
                w.push(m);
            }
        }
        let ghost e = views(w@);
        if self.smt_active == Some(true) {
            w.push(owned(SMT));
        }
        proof {
            assert(a =~= when(!self.linux, NOT_LINUX@));
            assert(b =~= a + match self.virtualization {
                Some(e) => seq![HYPERVISOR_PREFIX@ + e@ + HYPERVISOR_SUFFIX@],
                None => Seq::<Seq<char>>::empty(),
            });
            assert(c =~= b + when(self.containerized, CONTAINERIZED@));
            assert(d =~= c + when(self.turbo_disabled == Some(false), TURBO@));
            assert(e =~= d + match self.scaling_governor {
                Some(g) => when(g@ != "performance"@, GOVERNOR_PREFIX@ + g@ + GOVERNOR_SUFFIX@),
                None => Seq::<Seq<char>>::empty(),
            });
            assert(views(w@) =~= e + when(self.smt_active == Some(true), SMT@));
        }
        w
    }
}

// ---------------------------------------------------------------------------
// The console report

/// `n` copies of `c`.
pub open spec fn repeat(c: char, n: nat) -> Seq<char> {
    Seq::new(n, |i: int| c)
}

/// `s`, padded with spaces to `width` characters: `{:<width$}`.
pub open spec fn pad(s: Seq<char>, width: nat) -> Seq<char> {
    if s.len() < width {
        s + repeat(' ', (width - s.len()) as nat)
    } else {
        s
    }
}

/// The longest of `v`, and never less than `floor`.
pub open spec fn widest(v: Seq<Seq<char>>, floor: nat) -> nat
    decreases v.len(),
{
    if v.len() == 0 {
        floor
    } else {
        let w = widest(v.drop_last(), floor);
        if v.last().len() > w {
            v.last().len()
        } else {
            w
        }
    }
}

/// The table's rows, each label padded to `width`.
pub open spec fn table_rows(fields: Seq<(Seq<char>, Seq<char>)>, width: nat) -> Seq<char>
    decreases fields.len(),
{
    if fields.len() == 0 {
        Seq::empty()
    } else {
        table_rows(fields.drop_last(), width) + pad(fields.last().0, width) + "   "@
            + fields.last().1 + seq!['\n']
    }
}

/// One line per warning, each flagged with `!`.
pub open spec fn warning_lines(ws: Seq<Seq<char>>) -> Seq<char>
    decreases ws.len(),
{
    if ws.len() == 0 {
        Seq::empty()
    } else {
        warning_lines(ws.drop_last()) + "  ! "@ + ws.last() + seq!['\n']
    }
}

pub const NO_WARNING: &'static str = "\nNo warning: this host looks like a usable target.\n";

impl Machine {
    /// A two-column table of the host, then its warnings.
    pub open spec fn console_text(self) -> Seq<char> {
        let f = self.field_list();
        let width = widest(f.map_values(|p: (Seq<char>, Seq<char>)| p.0), 8);
        let value_width = widest(f.map_values(|p: (Seq<char>, Seq<char>)| p.1), 5);
        let ws = self.warning_list();
        pad("PROPERTY"@, width) + "   VALUE\n"@ + repeat('-', width) + "   "@ + repeat(
            '-',
            value_width,
        ) + seq!['\n'] + table_rows(f, width) + if ws.len() == 0 {
            NO_WARNING@
        } else {
            seq!['\n'] + decimal(ws.len()) + " warning(s):\n"@ + warning_lines(ws)
        }
    }
}

fn push_repeat(out: &mut String, c: char, n: usize)
    ensures
        final(out)@ == old(out)@ + repeat(c, n as nat),
{
    let ghost start = old(out)@;
    let mut i: usize = 0;
    while i < n
        invariant
            i <= n,
            out@ == start + repeat(c, i as nat),
        decreases n - i,
    {
        push_char(out, c);
        i += 1;
        assert(out@ =~= start + repeat(c, i as nat));
    }
}

/// Appends `s` padded to `width` characters.
fn push_padded(out: &mut String, s: &str, width: usize)
    ensures
        final(out)@ == old(out)@ + pad(s@, width as nat),
{
    let n = crate::text::chars_of(s).len();
    push_str(out, s);
    if n < width {
        push_repeat(out, ' ', width - n);
    }
    assert(final(out)@ =~= old(out)@ + pad(s@, width as nat));
}

/// The widest of the labels (`labels`) or of the values, never below `floor`.
fn widest_of(fields: &Vec<Field>, labels: bool, floor: usize) -> (r: usize)
    ensures
        r == widest(
            if labels {
                field_views(fields@).map_values(|p: (Seq<char>, Seq<char>)| p.0)
            } else {
                field_views(fields@).map_values(|p: (Seq<char>, Seq<char>)| p.1)
            },
            floor as nat,
        ),
{
    let ghost all = if labels {
        field_views(fields@).map_values(|p: (Seq<char>, Seq<char>)| p.0)
    } else {
        field_views(fields@).map_values(|p: (Seq<char>, Seq<char>)| p.1)
    };
    let mut w = floor;
    let mut i: usize = 0;
    while i < fields.len()
        invariant
            i <= fields@.len(),
            all.len() == fields@.len(),
            all == if labels {
                field_views(fields@).map_values(|p: (Seq<char>, Seq<char>)| p.0)
            } else {
                field_views(fields@).map_values(|p: (Seq<char>, Seq<char>)| p.1)
            },
            w == widest(all.take(i as int), floor as nat),
        decreases fields.len() - i,
    {
        let n = if labels {
            crate::text::chars_of(fields[i].label.as_str()).len()
        } else {
            crate::text::chars_of(fields[i].value.as_str()).len()
        };
        proof {
            let t = all.take(i + 1);
            assert(t.drop_last() =~= all.take(i as int));
            assert(t.last() == all[i as int]);
            assert(n == all[i as int].len());
        }
        if n > w {
            w = n;
        }
        i += 1;
    }
    assert(all.take(i as int) =~= all);
    w
}

impl Machine {
    /// A two-column table plus the host's warnings, for `langbench machine`.
    pub fn console_report(&self) -> (r: String)
        ensures
            r@ == self.console_text(),
    {
        let fields = self.fields();
        let width = widest_of(&fields, true, 8);
        let value_width = widest_of(&fields, false, 5);
        let mut out = String::new();
        push_padded(&mut out, "PROPERTY", width);
        push_str(&mut out, "   VALUE\n");
        push_repeat(&mut out, '-', width);
        push_str(&mut out, "   ");
        push_repeat(&mut out, '-', value_width);
        push_char(&mut out, '\n');
        let ghost head = out@;
        let mut i: usize = 0;
        while i < fields.len()
            invariant
                i <= fields@.len(),
                out@ == head + table_rows(field_views(fields@).take(i as int), width as nat),
            decreases fields.len() - i,
        {
            push_padded(&mut out, fields[i].label.as_str(), width);
            push_str(&mut out, "   ");
            push_str(&mut out, fields[i].value.as_str());
            push_char(&mut out, '\n');
            proof {
                let t = field_views(fields@).take(i + 1);
                assert(t.drop_last() =~= field_views(fields@).take(i as int));
                assert(t.last() == (fields@[i as int].label@, fields@[i as int].value@));
            }
            i += 1;
            assert(out@ =~= head + table_rows(field_views(fields@).take(i as int), width as nat));
        }
        assert(field_views(fields@).take(i as int) =~= field_views(fields@));
        let ghost table = out@;
        let warnings = self.warnings();
        if warnings.len() == 0 {
            push_str(&mut out, NO_WARNING);
        } else {
            push_char(&mut out, '\n');
            crate::text::push_u128(&mut out, warnings.len() as u128);
            push_str(&mut out, " warning(s):\n");
            let ghost mid = out@;
            let mut k: usize = 0;
            while k < warnings.len()
                invariant
                    k <= warnings@.len(),
                    out@ == mid + warning_lines(views(warnings@).take(k as int)),
                decreases warnings.len() - k,
            {
                push_str(&mut out, "  ! ");
                push_str(&mut out, warnings[k].as_str());
                push_char(&mut out, '\n');
                proof {
                    let t = views(warnings@).take(k + 1);
                    assert(t.drop_last() =~= views(warnings@).take(k as int));
                    assert(t.last() == warnings@[k as int]@);
                }
                k += 1;
                assert(out@ =~= mid + warning_lines(views(warnings@).take(k as int)));
            }
            assert(views(warnings@).take(k as int) =~= views(warnings@));
        }
        assert(out@ =~= self.console_text());
        out
    }
}

// ---------------------------------------------------------------------------
// Evidence of a hypervisor

/// DMI vendors that only ever appear under a hypervisor.
pub const VIRTUAL_DMI_VENDORS: [&'static str; 9] = [
    "QEMU",
    "VMware",
    "Xen",
    "Microsoft Corporation",
    "Amazon EC2",
    "Google",
    "innotek GmbH",
    "Parallels",
    "Apple Inc.",
];

/// Kernel release markers left by the usual desktop virtualization stacks.
pub const VIRTUAL_KERNEL_MARKERS: [&'static str; 4] = [
    "linuxkit",
    "orbstack",
    "microsoft-standard",
    "wsl",
];

pub open spec fn str_views(v: Seq<&str>) -> Seq<Seq<char>> {
    v.map_values(|s: &str| s@)
}

/// The first of `markers` that `release` contains.
pub open spec fn first_marker(release: Seq<char>, markers: Seq<Seq<char>>) -> Option<Seq<char>>
    decreases markers.len(),
{
    if markers.len() == 0 {
        None
    } else if crate::text::contains_text(release, markers[0]) {
        Some(markers[0])
    } else {
        first_marker(release, markers.drop_first())
    }
}

/// Evidence that we are inside a VM, or `None` if no marker was found. The
/// signals are weighed in order: the x86 CPU flag, `/sys/hypervisor/type`, a
/// DMI vendor that only a hypervisor reports, a desktop virtualization kernel.
pub open spec fn evidence_of(
    kernel: Option<Seq<char>>,
    hypervisor_flag: bool,
    hypervisor_type: Option<Seq<char>>,
    dmi_vendor: Option<Seq<char>>,
) -> Option<Seq<char>> {
    if hypervisor_flag {
        Some("hypervisor CPU flag"@)
    } else if hypervisor_type is Some {
        Some("/sys/hypervisor/type is `"@ + hypervisor_type->0 + "`"@)
    } else if dmi_vendor is Some && str_views(VIRTUAL_DMI_VENDORS@).contains(dmi_vendor->0) {
        Some("DMI vendor is `"@ + dmi_vendor->0 + "`"@)
    } else {
        match kernel {
            None => None,
            Some(k) => match first_marker(
                crate::text::ascii_lowercase(k),
                str_views(VIRTUAL_KERNEL_MARKERS@),
            ) {
                Some(m) => Some("kernel release contains `"@ + m + "`"@),
                None => None,
            },
        }
    }
}

fn is_virtual_vendor(vendor: &str) -> (r: bool)
    ensures
        r == str_views(VIRTUAL_DMI_VENDORS@).contains(vendor@),
{
    let mut i: usize = 0;
    while i < 9
        invariant
            i <= 9,
            forall|j: int| 0 <= j < i ==> VIRTUAL_DMI_VENDORS@[j]@ != vendor@,
        decreases 9 - i,
    {
        if crate::text::str_eq(VIRTUAL_DMI_VENDORS[i], vendor) {
            assert(str_views(VIRTUAL_DMI_VENDORS@)[i as int] == vendor@);
            return true;
        }
        i += 1;
    }
    proof {
        if str_views(VIRTUAL_DMI_VENDORS@).contains(vendor@) {
            let j = choose|j: int|
                0 <= j < str_views(VIRTUAL_DMI_VENDORS@).len() && str_views(
                    VIRTUAL_DMI_VENDORS@,
                )[j] == vendor@;
            assert(VIRTUAL_DMI_VENDORS@[j]@ == vendor@);
        }
    }
    false
}

fn kernel_marker(release: &str) -> (r: Option<&'static str>)
    ensures
        opt_marker(r) == first_marker(release@, str_views(VIRTUAL_KERNEL_MARKERS@)),
{
    let ghost all = str_views(VIRTUAL_KERNEL_MARKERS@);
    assert(all.len() == 4);
    assert(all.subrange(0, 4) =~= all);
    let mut i: usize = 0;
    while i < 4
        invariant
            i <= 4,
            all == str_views(VIRTUAL_KERNEL_MARKERS@),
            first_marker(release@, all) == first_marker(release@, all.subrange(i as int, 4)),
        decreases 4 - i,
    {
        let ghost rest = all.subrange(i as int, 4);
        assert(rest[0] == VIRTUAL_KERNEL_MARKERS@[i as int]@);
        if crate::text::contains_str(release, VIRTUAL_KERNEL_MARKERS[i]) {
            return Some(VIRTUAL_KERNEL_MARKERS[i]);
        }
        assert(rest.drop_first() =~= all.subrange(i + 1, 4));
        i += 1;
    }
    None
}

pub open spec fn opt_marker(o: Option<&str>) -> Option<Seq<char>> {
    match o {
        Some(m) => Some(m@),
        None => None,
    }
}

fn quoted(prefix: &str, value: &str) -> (r: String)
    ensures
        r@ == prefix@ + value@ + "`"@,
{
    let mut r = owned(prefix);
    push_str(&mut r, value);
    push_str(&mut r, "`");
    r
}

/// Evidence that we are inside a VM, or `None` if no marker was found. `None`
/// does not prove bare metal: it only means every cheap check came back empty.
pub fn virtualization(
    kernel: Option<&str>,
    hypervisor_flag: bool,
    hypervisor_type: Option<&str>,
    dmi_vendor: Option<&str>,
) -> (r: Option<String>)
    ensures
        crate::sample::opt_text(r) == evidence_of(
            crate::sample::opt_str(kernel),
            hypervisor_flag,
            crate::sample::opt_str(hypervisor_type),
            crate::sample::opt_str(dmi_vendor),
        ),
{
    if hypervisor_flag {
        return Some(owned("hypervisor CPU flag"));
    }
    if let Some(kind) = hypervisor_type {
        return Some(quoted("/sys/hypervisor/type is `", kind));
    }
    if let Some(vendor) = dmi_vendor {
        if is_virtual_vendor(vendor) {
            return Some(quoted("DMI vendor is `", vendor));
        }
    }
    match kernel {
        None => None,
        Some(k) => {
            let release = crate::text::to_ascii_lowercase(k);
            match kernel_marker(release.as_str()) {
                Some(m) => Some(quoted("kernel release contains `", m)),
                None => None,
            }
        },
    }
}

// ---------------------------------------------------------------------------
// `/proc/cpuinfo`

/// Architecture extensions worth recording. Anything else is noise in a report.
pub const NOTABLE_FLAGS: [&'static str; 10] = [
    "sse2",
    "avx",
    "avx2",
    "avx512f",
    "fma",
    "neon",
    "asimd",
    "sve",
    "sve2",
    "bf16",
];

/// What `/proc/cpuinfo` has to say.
#[derive(Debug, PartialEq, Eq)]
pub struct CpuInfo {
    pub model: Option<String>,
    pub vendor: Option<String>,
    pub logical_cpus: Option<usize>,
    pub physical_cores: Option<usize>,
    pub isa_extensions: Vec<String>,
    /// x86 sets this flag whenever the CPU is virtualized. AArch64 never does.
    pub hypervisor_flag: bool,
}

impl Default for CpuInfo {
    fn default() -> (r: CpuInfo)
        ensures
            r.model is None,
            r.vendor is None,
            r.logical_cpus is None,
            r.physical_cores is None,
            r.isa_extensions@.len() == 0,
            !r.hypervisor_flag,
    {
        CpuInfo {
            model: None,
            vendor: None,
            logical_cpus: None,
            physical_cores: None,
            isa_extensions: Vec::new(),
            hypervisor_flag: false,
        }
    }
}

/// What a scan of `/proc/cpuinfo` has gathered so far.
pub struct CpuScan {
    pub model: Option<Seq<char>>,
    pub vendor: Option<Seq<char>>,
    pub extensions: Seq<Seq<char>>,
    pub hypervisor: bool,
    /// `processor` lines seen: one per logical CPU.
    pub logical: nat,
    /// The distinct `(physical id, core id)` pairs seen, in order.
    pub cores: Seq<(Seq<char>, Seq<char>)>,
    /// The `physical id` of the block being read.
    pub physical_id: Option<Seq<char>>,
}

/// The notable flags among `flags`, in order.
pub open spec fn notable(flags: Seq<Seq<char>>) -> Seq<Seq<char>>
    decreases flags.len(),
{
    if flags.len() == 0 {
        Seq::empty()
    } else if str_views(NOTABLE_FLAGS@).contains(flags.last()) {
        notable(flags.drop_last()).push(flags.last())
    } else {
        notable(flags.drop_last())
    }
}

pub open spec fn empty_scan() -> CpuScan {
    CpuScan {
        model: None,
        vendor: None,
        extensions: Seq::empty(),
        hypervisor: false,
        logical: 0,
        cores: Seq::empty(),
        physical_id: None,
    }
}

/// One `key: value` line of `/proc/cpuinfo`, read into the scan. A line with
/// no `:` says nothing.
pub open spec fn scan_line(st: CpuScan, line: Seq<char>) -> CpuScan {
    match crate::text::find_char(line, ':') {
        None => st,
        Some(i) => {
            let key = crate::text::trim(line.subrange(0, i));
            let value = crate::text::trim(line.subrange(i + 1, line.len() as int));
            if key == "processor"@ {
                CpuScan { logical: st.logical + 1, ..st }
            } else if key == "physical id"@ {
                CpuScan { physical_id: Some(value), ..st }
            } else if key == "core id"@ {
                let pair = (
                    match st.physical_id {
                        Some(p) => p,
                        None => Seq::empty(),
                    },
                    value,
                );
                CpuScan {
                    cores: if st.cores.contains(pair) {
                        st.cores
                    } else {
                        st.cores.push(pair)
                    },
                    ..st
                }
            } else if (key == "model name"@ || key == "Model Name"@ || key == "Hardware"@)
                && st.model is None {
                CpuScan { model: Some(value), ..st }
            } else if (key == "vendor_id"@ || key == "CPU implementer"@) && st.vendor is None {
                CpuScan { vendor: Some(value), ..st }
            } else if (key == "flags"@ || key == "Features"@) && st.extensions.len() == 0 {
                let flags = crate::text::words_of(value);
                CpuScan {
                    hypervisor: st.hypervisor || flags.contains("hypervisor"@),
                    extensions: notable(flags),
                    ..st
                }
            } else {
                st
            }
        },
    }
}

/// Every line, read in order.
pub open spec fn scan_lines(lines: Seq<Seq<char>>) -> CpuScan
    decreases lines.len(),
{
    if lines.len() == 0 {
        empty_scan()
    } else {
        scan_line(scan_lines(lines.drop_last()), lines.last())
    }
}

impl CpuInfo {
    /// What the scan of `raw` establishes.
    pub open spec fn parsed_from(self, raw: Seq<char>) -> bool {
        let st = scan_lines(crate::text::lines_of(raw));
        &&& crate::sample::opt_text(self.model) == st.model
        &&& crate::sample::opt_text(self.vendor) == st.vendor
        &&& views(self.isa_extensions@) == st.extensions
        &&& self.hypervisor_flag == st.hypervisor
        &&& self.logical_cpus == if st.logical > 0 {
            Some(st.logical as usize)
        } else {
            None::<usize>
        }
        &&& self.physical_cores == if st.cores.len() > 0 {
            Some(st.cores.len() as usize)
        } else {
            None::<usize>
        }
    }
}

pub open spec fn pair_views(v: Seq<(String, String)>) -> Seq<(Seq<char>, Seq<char>)> {
    v.map_values(|p: (String, String)| (p.0@, p.1@))
}

fn has_pair(v: &Vec<(String, String)>, a: &str, b: &str) -> (r: bool)
    ensures
        r == pair_views(v@).contains((a@, b@)),
{
    let mut i: usize = 0;
    while i < v.len()
        invariant
            i <= v@.len(),
            forall|j: int| 0 <= j < i ==> pair_views(v@)[j] != (a@, b@),
        decreases v.len() - i,
    {
        if crate::text::str_eq(v[i].0.as_str(), a) && crate::text::str_eq(v[i].1.as_str(), b) {
            assert(pair_views(v@)[i as int] == (a@, b@));
            return true;
        }
        i += 1;
    }
    false
}

fn is_notable(flag: &str) -> (r: bool)
    ensures
        r == str_views(NOTABLE_FLAGS@).contains(flag@),
{
    let mut i: usize = 0;
    while i < 10
        invariant
            i <= 10,
            forall|j: int| 0 <= j < i ==> NOTABLE_FLAGS@[j]@ != flag@,
        decreases 10 - i,
    {
        if crate::text::str_eq(NOTABLE_FLAGS[i], flag) {
            assert(str_views(NOTABLE_FLAGS@)[i as int] == flag@);
            return true;
        }
        i += 1;
    }
    proof {
        if str_views(NOTABLE_FLAGS@).contains(flag@) {
            let j = choose|j: int|
                0 <= j < str_views(NOTABLE_FLAGS@).len() && str_views(NOTABLE_FLAGS@)[j] == flag@;
            assert(NOTABLE_FLAGS@[j]@ == flag@);
        }
    }
    false
}

/// The notable flags among `flags`, and whether `hypervisor` is one of them.
fn read_flags(flags: &Vec<String>) -> (r: (Vec<String>, bool))
    ensures
        views(r.0@) == notable(views(flags@)),
        r.1 == views(flags@).contains("hypervisor"@),
{
    let mut out: Vec<String> = Vec::new();
    let mut hypervisor = false;
    let mut i: usize = 0;
    while i < flags.len()
        invariant
            i <= flags@.len(),
            views(out@) == notable(views(flags@).take(i as int)),
            hypervisor == views(flags@).take(i as int).contains("hypervisor"@),
        decreases flags.len() - i,
    {
        let ghost t = views(flags@).take(i + 1);
        assert(t.drop_last() =~= views(flags@).take(i as int));
        assert(t.last() == flags@[i as int]@);
        let ghost before = views(out@);
        if is_notable(flags[i].as_str()) {
            out.push(flags[i].clone());
            assert(views(out@) =~= before.push(flags@[i as int]@));
        }
        let is_hypervisor = crate::text::str_eq(flags[i].as_str(), "hypervisor");
        proof {
            let p = views(flags@).take(i as int);
            let h = "hypervisor"@;
            if t.contains(h) {
                let j = choose|j: int| 0 <= j < t.len() && t[j] == h;
                if j < i {
                    assert(p[j] == t[j]);
                }
            }
            if p.contains(h) {
                let j = choose|j: int| 0 <= j < p.len() && p[j] == h;
                assert(t[j] == p[j]);
            }
            if is_hypervisor {
                assert(t[i as int] == h);
            }
            assert(t.contains(h) == (p.contains(h) || is_hypervisor));
        }
        hypervisor = hypervisor || is_hypervisor;
        i += 1;
    }
    assert(views(flags@).take(i as int) =~= views(flags@));
    (out, hypervisor)
}

pub open spec fn scan_matches(
    st: CpuScan,
    model: Option<String>,
    vendor: Option<String>,
    extensions: Seq<String>,
    hypervisor: bool,
    logical: usize,
    cores: Seq<(String, String)>,
    physical_id: Option<String>,
) -> bool {
    &&& crate::sample::opt_text(model) == st.model
    &&& crate::sample::opt_text(vendor) == st.vendor
    &&& views(extensions) == st.extensions
    &&& hypervisor == st.hypervisor
    &&& logical == st.logical
    &&& pair_views(cores) == st.cores
    &&& crate::sample::opt_text(physical_id) == st.physical_id
}

impl CpuInfo {
    /// Read `/proc/cpuinfo`. One `processor` line per logical CPU; a physical
    /// core is a distinct `(physical id, core id)`; the first model, vendor and
    /// flag lines win.
    pub fn parse(raw: &str) -> (r: CpuInfo)
        ensures
            r.parsed_from(raw@),
    {
        let all = crate::text::lines(raw);
        let mut model: Option<String> = None;
        let mut vendor: Option<String> = None;
        let mut extensions: Vec<String> = Vec::new();
        let mut hypervisor = false;
        let mut logical: usize = 0;
        let mut cores: Vec<(String, String)> = Vec::new();
        let mut physical_id: Option<String> = None;
        let mut i: usize = 0;
        assert(views(all@).take(0) =~= Seq::<Seq<char>>::empty());
        assert(views(extensions@) =~= Seq::<Seq<char>>::empty());
        assert(pair_views(cores@) =~= Seq::<(Seq<char>, Seq<char>)>::empty());
        while i < all.len()
            invariant
                i <= all@.len(),
                views(all@) == crate::text::lines_of(raw@),
                logical <= i,
                scan_matches(
                    scan_lines(views(all@).take(i as int)),
                    model,
                    vendor,
                    extensions@,
                    hypervisor,
                    logical,
                    cores@,
                    physical_id,
                ),
            decreases all.len() - i,
        {
            let ghost t = views(all@).take(i + 1);
            assert(t.drop_last() =~= views(all@).take(i as int));
            assert(t.last() == all@[i as int]@);
            let ghost st = scan_lines(views(all@).take(i as int));
            let ghost line = all@[i as int]@;
            assert(scan_lines(t) == scan_line(st, line));
            let cs = crate::text::chars_of(all[i].as_str());
            assert(cs@.subrange(0, cs@.len() as int) =~= cs@);
            if let Some(colon) = crate::text::find_char_from(&cs, 0, ':') {
                assert(crate::text::find_char(line, ':') == Some(colon as int));
                let key = crate::text::trimmed(crate::text::string_of(&cs, 0, colon).as_str());
                let value = crate::text::trimmed(
                    crate::text::string_of(&cs, colon + 1, cs.len()).as_str(),
                );
                if crate::text::str_eq(key.as_str(), "processor") {
                    logical = logical + 1;
                } else if crate::text::str_eq(key.as_str(), "physical id") {
                    physical_id = Some(value);
                } else if crate::text::str_eq(key.as_str(), "core id") {
                    let pid = match &physical_id {
                        Some(p) => p.clone(),
                        None => String::new(),
                    };
                    if !has_pair(&cores, pid.as_str(), value.as_str()) {
                        let ghost before = pair_views(cores@);
                        cores.push((pid, value));
                        assert(pair_views(cores@) =~= before.push((pid@, value@)));
                    }
                } else if (crate::text::str_eq(key.as_str(), "model name")
                    || crate::text::str_eq(key.as_str(), "Model Name")
                    || crate::text::str_eq(key.as_str(), "Hardware")) && model.is_none() {
                    model = Some(value);
                } else if (crate::text::str_eq(key.as_str(), "vendor_id")
                    || crate::text::str_eq(key.as_str(), "CPU implementer")) && vendor.is_none() {
                    vendor = Some(value);
                } else if (crate::text::str_eq(key.as_str(), "flags")
                    || crate::text::str_eq(key.as_str(), "Features")) && extensions.len() == 0 {
                    let flags = crate::text::split_whitespace(value.as_str());
                    let (found, seen) = read_flags(&flags);
                    extensions = found;
                    hypervisor = hypervisor || seen;
                }
                assert(scan_matches(
                    scan_line(st, line),
                    model,
                    vendor,
                    extensions@,
                    hypervisor,
                    logical,
                    cores@,
                    physical_id,
                ));
            } else {
                assert(crate::text::find_char(line, ':') is None);
            }
            i += 1;
        }
        assert(views(all@).take(i as int) =~= views(all@));
        CpuInfo {
            model,
            vendor,
            logical_cpus: if logical > 0 {
                Some(logical)
            } else {
                None
            },
            physical_cores: if cores.len() > 0 {
                Some(cores.len())
            } else {
                None
            },
            isa_extensions: extensions,
            hypervisor_flag: hypervisor,
        }
    }
}

// ---------------------------------------------------------------------------
// Reading `/proc` and `/sys` values

/// A file's content, trimmed; `None` when nothing is left.
pub open spec fn meaningful_text(raw: Seq<char>) -> Option<Seq<char>> {
    if crate::text::trim(raw).len() == 0 {
        None
    } else {
        Some(crate::text::trim(raw))
    }
}

/// What a `/sys` value reads as: its trimmed content, when there is any.
pub fn meaningful(raw: &str) -> (r: Option<String>)
    ensures
        crate::sample::opt_text(r) == meaningful_text(raw@),
{
    let t = crate::text::trimmed(raw);
    if t.as_str().is_empty() {
        None
    } else {
        Some(t)
    }
}

/// A `/sys` switch: `1` is on, `0` is off, anything else says nothing.
pub open spec fn flag_value(raw: Seq<char>) -> Option<bool> {
    match meaningful_text(raw) {
        Some(t) => if t == "1"@ {
            Some(true)
        } else if t == "0"@ {
            Some(false)
        } else {
            None
        },
        None => None,
    }
}

pub fn parse_flag(raw: &str) -> (r: Option<bool>)
    ensures
        r == flag_value(raw@),
{
    match meaningful(raw) {
        Some(t) => if crate::text::str_eq(t.as_str(), "1") {
            Some(true)
        } else if crate::text::str_eq(t.as_str(), "0") {
            Some(false)
        } else {
            None
        },
        None => None,
    }
}

/// A `/sys` number, such as a frequency in kHz.
pub fn parse_count(raw: &str) -> (r: Option<u64>)
    ensures
        r == match meaningful_text(raw@) {
            Some(t) => crate::text::parse_u64(t),
            None => None::<u64>,
        },
{
    match meaningful(raw) {
        Some(t) => crate::text::parse_u64_exec(t.as_str()),
        None => None,
    }
}

/// Intel exposes `no_turbo` (1 = off); AMD exposes `boost` (1 = on). Intel's
/// answer wins when there is one.
pub fn turbo_disabled(no_turbo: Option<bool>, boost: Option<bool>) -> (r: Option<bool>)
    ensures
        no_turbo is Some ==> r == no_turbo,
        no_turbo is None ==> r == match boost {
            Some(b) => Some(!b),
            None => None::<bool>,
        },
{
    if no_turbo.is_some() {
        return no_turbo;
    }
    match boost {
        Some(b) => Some(!b),
        None => None,
    }
}

/// cgroup v2 when its controllers file exists, else v1 when its memory
/// hierarchy does.
pub fn cgroup_version(v2_controllers: bool, v1_memory: bool) -> (r: Option<u8>)
    ensures
        r == if v2_controllers {
            Some(2u8)
        } else if v1_memory {
            Some(1u8)
        } else {
            None::<u8>
        },
{
    if v2_controllers {
        Some(2)
    } else if v1_memory {
        Some(1)
    } else {
        None
    }
}

/// `MemTotal:`, and what follows it on its line.
pub open spec fn mem_total_rest(lines: Seq<Seq<char>>) -> Option<Seq<char>>
    decreases lines.len(),
{
    if lines.len() == 0 {
        None
    } else if lines[0].len() >= 9 && lines[0].subrange(0, 9) == "MemTotal:"@ {
        Some(lines[0].subrange(9, lines[0].len() as int))
    } else {
        mem_total_rest(lines.drop_first())
    }
}

/// The `MemTotal` of `/proc/meminfo`, in kB.
pub open spec fn mem_total_of(meminfo: Seq<char>) -> Option<u64> {
    match mem_total_rest(crate::text::lines_of(meminfo)) {
        Some(rest) => if crate::text::words_of(rest).len() > 0 {
            crate::text::parse_u64(crate::text::words_of(rest)[0])
        } else {
            None
        },
        None => None,
    }
}

/// The `MemTotal` of `/proc/meminfo`, in kB.
pub fn memory_total_kb(meminfo: &str) -> (r: Option<u64>)
    ensures
        r == mem_total_of(meminfo@),
{
    proof {
        reveal_strlit("MemTotal:");
    }
    let all = crate::text::lines(meminfo);
    let prefix = crate::text::chars_of("MemTotal:");
    assert(prefix@.len() == 9);
    assert(views(all@).subrange(0, all@.len() as int) =~= views(all@));
    let mut i: usize = 0;
    while i < all.len()
        invariant
            i <= all@.len(),
            views(all@) == crate::text::lines_of(meminfo@),
            prefix@ == "MemTotal:"@,
            prefix@.len() == 9,
            mem_total_rest(views(all@)) == mem_total_rest(views(all@).subrange(
                i as int,
                all@.len() as int,
            )),
        decreases all.len() - i,
    {
        let ghost rest = views(all@).subrange(i as int, all@.len() as int);
        assert(rest[0] == all@[i as int]@);
        let cs = crate::text::chars_of(all[i].as_str());
        let mut matches = cs.len() >= 9;
        let mut k: usize = 0;
        while matches && k < 9
            invariant
                k <= 9,
                prefix@ == "MemTotal:"@,
                prefix@.len() == 9,
                matches ==> cs@.len() >= 9,
                matches ==> forall|j: int| 0 <= j < k ==> cs@[j] == prefix@[j],
                !matches ==> !(cs@.len() >= 9 && cs@.subrange(0, 9) == "MemTotal:"@),
            decreases 9 - k,
        {
            if cs[k] != prefix[k] {
                assert(cs@.subrange(0, 9)[k as int] != prefix@[k as int]);
                matches = false;
            }
            k += 1;
        }
        if matches {
            assert(cs@.subrange(0, 9) =~= prefix@);
            let tail = crate::text::string_of(&cs, 9, cs.len());
            let words = crate::text::split_whitespace(tail.as_str());
            if words.len() == 0 {
                return None;
            }
            assert(views(words@)[0] == words@[0]@);
            return crate::text::parse_u64_exec(words[0].as_str());
        }
        assert(rest.drop_first() =~= views(all@).subrange(i + 1, all@.len() as int));
        i += 1;
    }
    None
}

/// Whether a directory entry of `/sys/devices/system/node` is a node.
pub open spec fn is_node(name: Seq<char>) -> bool {
    name.len() >= 4 && name.subrange(0, 4) == "node"@
}

/// How many of `names` are nodes.
pub open spec fn node_count(names: Seq<Seq<char>>) -> nat
    decreases names.len(),
{
    if names.len() == 0 {
        0
    } else {
        node_count(names.drop_last()) + if is_node(names.last()) {
            1nat
        } else {
            0nat
        }
    }
}

fn starts_with_node(name: &str) -> (r: bool)
    ensures
        r == is_node(name@),
{
    proof {
        reveal_strlit("node");
    }
    let cs = crate::text::chars_of(name);
    if cs.len() < 4 {
        return false;
    }
    let r = cs[0] == 'n' && cs[1] == 'o' && cs[2] == 'd' && cs[3] == 'e';
    proof {
        if r {
            assert(cs@.subrange(0, 4) =~= "node"@);
        } else {
            if cs@.subrange(0, 4) == "node"@ {
                assert(cs@.subrange(0, 4)[0] == 'n');
                assert(cs@.subrange(0, 4)[1] == 'o');
                assert(cs@.subrange(0, 4)[2] == 'd');
                assert(cs@.subrange(0, 4)[3] == 'e');
            }
        }
    }
    r
}

/// The NUMA nodes, from the entries of `/sys/devices/system/node`: `None`
/// when there is none to count, never a zero.
pub fn numa_nodes(names: &Vec<String>) -> (r: Option<usize>)
    ensures
        r == if node_count(views(names@)) == 0 {
            None::<usize>
        } else {
            Some(node_count(views(names@)) as usize)
        },
{
    let mut count: usize = 0;
    let mut i: usize = 0;
    while i < names.len()
        invariant
            i <= names@.len(),
            count == node_count(views(names@).take(i as int)),
            count <= i,
        decreases names.len() - i,
    {
        let ghost t = views(names@).take(i + 1);
        assert(t.drop_last() =~= views(names@).take(i as int));
        assert(t.last() == names@[i as int]@);
        if starts_with_node(names[i].as_str()) {
            count = count + 1;
        }
        i += 1;
    }
    assert(views(names@).take(i as int) =~= views(names@));
    if count == 0 {
        None
    } else {
        Some(count)
    }
}

} // verus!
