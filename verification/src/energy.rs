//! Energy, from the CPU package counters the kernel exposes under `powercap`.
//!
//! The number this meter produces is an envelope: the energy the whole package
//! burned while the container ran, the energy equivalent of `wall_ns`. Reading
//! the counters is the binary's business; which counters count, and what two
//! readings mean, is decided here.
use vstd::prelude::*;

use crate::text::{owned, push_str, usize_to_string};

verus! {

/// Where the kernel publishes the CPU package energy counters.
pub const POWERCAP: &'static str = "/sys/class/powercap";

/// One RAPL package domain: a CPU socket.
pub struct Domain {
    /// The monotonic microjoule counter. It wraps.
    pub energy: String,
    /// The value it wraps at, read once: a property of the hardware.
    pub max_range: u64,
}

/// The host's package counters, discovered once and read around every run.
/// Empty when the machine has none, or hides them behind root.
pub struct EnergyMeter {
    pub domains: Vec<Domain>,
}

/// The counters, at one instant, positionally aligned with the meter's domains.
#[derive(Debug, PartialEq, Eq)]
pub struct Reading(pub Vec<u64>);

impl Default for EnergyMeter {
    fn default() -> (r: EnergyMeter)
        ensures
            r.domains@.len() == 0,
    {
        EnergyMeter { domains: Vec::new() }
    }
}

/// `intel-rapl:<digits>`: a package zone, never one of its sub-domains, whose
/// joules its parent already counts.
pub open spec fn package_zone(name: Seq<char>) -> bool {
    let prefix = "intel-rapl:"@;
    &&& name.len() > prefix.len()
    &&& name.subrange(0, prefix.len() as int) == prefix
    &&& forall|i: int| prefix.len() <= i < name.len() ==> crate::text::is_digit(#[trigger] name[i])
}

/// `intel-rapl:0` is a package; `intel-rapl:0:0` is one of its sub-domains.
/// AMD is no special case: Zen exposes the very same zones.
pub fn is_package_zone(name: &str) -> (r: bool)
    ensures
        r == package_zone(name@),
{
    proof {
        reveal_strlit("intel-rapl:");
    }
    let cs = crate::text::chars_of(name);
    let prefix = crate::text::chars_of("intel-rapl:");
    assert(prefix@.len() == 11);
    if cs.len() <= prefix.len() {
        return false;
    }
    let mut i: usize = 0;
    while i < prefix.len()
        invariant
            i <= prefix@.len(),
            prefix@ == "intel-rapl:"@,
            prefix@.len() == 11,
            cs@ == name@,
            cs@.len() > 11,
            forall|j: int| 0 <= j < i ==> cs@[j] == prefix@[j],
        decreases prefix.len() - i,
    {
        if cs[i] != prefix[i] {
            assert(cs@.subrange(0, 11)[i as int] != prefix@[i as int]);
            return false;
        }
        i += 1;
    }
    assert(cs@.subrange(0, 11) =~= prefix@);
    let mut k: usize = 11;
    while k < cs.len()
        invariant
            11 <= k <= cs@.len(),
            cs@ == name@,
            "intel-rapl:"@.len() == 11,
            cs@.subrange(0, 11) == "intel-rapl:"@,
            forall|j: int| 11 <= j < k ==> crate::text::is_digit(#[trigger] cs@[j]),
        decreases cs.len() - k,
    {
        if !('0' <= cs[k] && cs[k] <= '9') {
            assert(!crate::text::is_digit(name@[k as int]));
            return false;
        }
        k += 1;
    }
    true
}

/// What the counters burned between `start` and `end`, for a counter that
/// wraps at `max_range`: once, and only once.
pub open spec fn burned(start: u64, end: u64, max_range: u64) -> u64 {
    if end >= start {
        (end - start) as u64
    } else {
        let to_ceiling: u64 = if max_range >= start {
            (max_range - start) as u64
        } else {
            0
        };
        if to_ceiling + end > u64::MAX {
            u64::MAX
        } else {
            (to_ceiling + end) as u64
        }
    }
}

/// The energy burned over every domain, summed, saturating.
pub open spec fn total_burned(before: Seq<u64>, after: Seq<u64>, domains: Seq<Domain>, n: int) -> u64
    decreases n,
{
    if n <= 0 {
        0
    } else {
        let rest = total_burned(before, after, domains, n - 1);
        let b = burned(before[n - 1], after[n - 1], domains[n - 1].max_range);
        if rest + b > u64::MAX {
            u64::MAX
        } else {
            (rest + b) as u64
        }
    }
}

/// No time between two readings burns no energy: the same reading taken twice
/// is a zero, on any meter.
pub proof fn lemma_no_time_no_energy(reading: Seq<u64>, domains: Seq<Domain>, n: int)
    ensures
        total_burned(reading, reading, domains, n) == 0,
    decreases n,
{
    if n > 0 {
        lemma_no_time_no_energy(reading, domains, n - 1);
    }
}

/// A counter that did not wrap burned exactly the difference: the correction
/// for a wrap never touches a plain run.
pub proof fn lemma_an_unwrapped_counter_is_a_difference(start: u64, end: u64, max_range: u64)
    requires
        start <= end,
    ensures
        burned(start, end, max_range) == end - start,
{
}

/// A counter that wrapped once between two readings burned what it took to
/// reach its ceiling, then what it counted past zero: `(max_range - start) +
/// end`, saturating only at `u64::MAX`. So, short of saturating, the energy
/// burned closes the loop: start, plus what was burned, is the ceiling plus
/// where the counter ended.
pub proof fn lemma_a_wrapped_counter_burned_what_it_crossed(start: u64, end: u64, max_range: u64)
    requires
        end < start <= max_range,
    ensures
        burned(start, end, max_range) as int == if (max_range - start) + end <= u64::MAX {
            (max_range - start) + end
        } else {
            u64::MAX as int
        },
        (max_range - start) + end <= u64::MAX ==> start + burned(start, end, max_range)
            == max_range + end,
        burned(start, end, max_range) >= end,
{
}

/// Over a meter, the energy burned is each domain's, summed: what one domain
/// burned never exceeds the total, and a meter of one domain burns exactly
/// what that domain did.
pub proof fn lemma_a_meter_sums_its_domains(before: Seq<u64>, after: Seq<u64>, domains: Seq<Domain>, n: int)
    requires
        0 < n,
    ensures
        total_burned(before, after, domains, n) >= burned(
            before[n - 1],
            after[n - 1],
            domains[n - 1].max_range,
        ),
        n == 1 ==> total_burned(before, after, domains, n) == burned(
            before[0],
            after[0],
            domains[0].max_range,
        ),
{
    if n == 1 {
        assert(total_burned(before, after, domains, 0) == 0);
    }
}

impl EnergyMeter {
    /// Whether this campaign will be able to report energy at all.
    pub fn available(&self) -> (r: bool)
        ensures
            r == (self.domains@.len() > 0),
    {
        self.domains.len() > 0
    }

    /// How the counters were read, for the machine record: `None` when they
    /// could not be.
    pub fn source(&self) -> (r: Option<String>)
        ensures
            self.domains@.len() == 0 ==> r is None,
            self.domains@.len() > 0 ==> (r matches Some(s) && s@ == "powercap RAPL ("@
                + crate::text::decimal(self.domains@.len()) + " package domain"@ + (if self.domains@.len()
                == 1 {
                ""@
            } else {
                "s"@
            }) + ")"@),
    {
        if self.domains.len() == 0 {
            return None;
        }
        let mut s = owned("powercap RAPL (");
        push_str(&mut s, usize_to_string(self.domains.len()).as_str());
        push_str(&mut s, " package domain");
        if self.domains.len() == 1 {
            push_str(&mut s, "");
        } else {
            push_str(&mut s, "s");
        }
        push_str(&mut s, ")");
        Some(s)
    }

    /// Every package counter, now, from what each domain's file read as. `None`
    /// if any of them has stopped answering: a partial sum is not a smaller
    /// measurement, it is a wrong one.
    pub fn read(&self, counters: &Vec<Option<u64>>) -> (r: Option<Reading>)
        ensures
            r is Some <==> (self.domains@.len() > 0 && counters@.len() == self.domains@.len()
                && forall|i: int| 0 <= i < counters@.len() ==> (#[trigger] counters@[i]) is Some),
            r matches Some(reading) ==> reading.0@.len() == counters@.len() && forall|i: int|
                0 <= i < counters@.len() ==> counters@[i] == Some(#[trigger] reading.0@[i]),
    {
        if self.domains.len() == 0 || counters.len() != self.domains.len() {
            return None;
        }
        let mut values: Vec<u64> = Vec::new();
        let mut i: usize = 0;
        while i < counters.len()
            invariant
                self.domains@.len() > 0,
                counters@.len() == self.domains@.len(),
                i <= counters@.len(),
                values@.len() == i,
                forall|j: int| 0 <= j < i ==> counters@[j] == Some(#[trigger] values@[j]),
            decreases counters.len() - i,
        {
            match counters[i] {
                Some(v) => values.push(v),
                None => {
                    return None;
                },
            }
            i += 1;
        }
        assert forall|j: int| 0 <= j < counters@.len() implies (#[trigger] counters@[j]) is Some by {
            assert(counters@[j] == Some(values@[j]));
        }
        Some(Reading(values))
    }

    /// The microjoules burned between two readings, summed over every package.
    ///
    /// The counter wraps at `max_energy_range_uj`; a naive subtraction would
    /// report more energy than the machine can produce, so the wrap is
    /// corrected. `None` if either reading is absent, or came from another
    /// meter.
    pub fn delta(&self, before: Option<&Reading>, after: Option<&Reading>) -> (r: Option<u64>)
        ensures
            r == match (before, after) {
                (Some(b), Some(a)) => if b.0@.len() == self.domains@.len() && a.0@.len()
                    == self.domains@.len() {
                    Some(total_burned(b.0@, a.0@, self.domains@, self.domains@.len() as int))
                } else {
                    None::<u64>
                },
                _ => None::<u64>,
            },
    {
        let (b, a) = match (before, after) {
            (Some(b), Some(a)) => (b, a),
            _ => {
                return None;
            },
        };
        if b.0.len() != self.domains.len() || a.0.len() != self.domains.len() {
            return None;
        }
        let mut total: u64 = 0;
        let mut i: usize = 0;
        while i < self.domains.len()
            invariant
                i <= self.domains@.len(),
                b.0@.len() == self.domains@.len(),
                a.0@.len() == self.domains@.len(),
                total == total_burned(b.0@, a.0@, self.domains@, i as int),
            decreases self.domains.len() - i,
        {
            let start = b.0[i];
            let end = a.0[i];
            let spent = if end >= start {
                end - start
            } else {
                self.domains[i].max_range.saturating_sub(start).saturating_add(end)
            };
            total = total.saturating_add(spent);
            i += 1;
        }
        Some(total)
    }
}

/// A zone the meter found under `powercap`: its name, its counter's path, and
/// what its two files read as, if they could be read.
pub struct Zone {
    pub name: String,
    pub energy: String,
    pub energy_uj: Option<u64>,
    pub max_energy_range_uj: Option<u64>,
}

/// The meter of the zones a host exposes: only the package zones, and only
/// those whose counter and range could both be read — a counter that needs
/// root is absent, not zero. Sorted by counter, so that a reading taken before
/// a run lines up with the one taken after it.
pub fn meter_of(zones: &Vec<Zone>) -> (r: EnergyMeter)
    ensures
        exists|order: Seq<int>|
            crate::discovery::sorted_by_text(order, kept_energy(zones@)) && r.domains@.len()
                == order.len() && forall|x: int|
                0 <= x < order.len() ==> (#[trigger] r.domains@[x]).energy@ == kept_energy(
                    zones@,
                )[order[x]] && r.domains@[x].max_range == kept_range(zones@)[order[x]],
{
    let mut names: Vec<String> = Vec::new();
    let mut ranges: Vec<u64> = Vec::new();
    let mut i: usize = 0;
    while i < zones.len()
        invariant
            i <= zones@.len(),
            names@.len() == ranges@.len(),
            crate::text::views(names@) == kept_energy(zones@.take(i as int)),
            ranges@ == kept_range(zones@.take(i as int)),
        decreases zones.len() - i,
    {
        let ghost t = zones@.take(i + 1);
        assert(t.drop_last() =~= zones@.take(i as int));
        assert(t.last() == zones@[i as int]);
        let z = &zones[i];
        if is_package_zone(z.name.as_str()) && z.energy_uj.is_some()
            && z.max_energy_range_uj.is_some() {
            let ghost before = crate::text::views(names@);
            names.push(z.energy.clone());
            ranges.push(z.max_energy_range_uj.unwrap());
            assert(crate::text::views(names@) =~= before.push(z.energy@));
        }
        i += 1;
    }
    assert(zones@.take(i as int) =~= zones@);
    let order = crate::discovery::text_order(&names);
    let ghost ov = crate::analysis::index_view(order@);
    let mut domains: Vec<Domain> = Vec::new();
    let mut x: usize = 0;
    while x < order.len()
        invariant
            x <= order@.len(),
            ov == crate::analysis::index_view(order@),
            crate::discovery::sorted_by_text(ov, crate::text::views(names@)),
            names@.len() == ranges@.len(),
            domains@.len() == x,
            forall|y: int|
                0 <= y < x ==> (#[trigger] domains@[y]).energy@ == crate::text::views(names@)[ov[y]]
                    && domains@[y].max_range == ranges@[ov[y]],
        decreases order.len() - x,
    {
        assert(ov[x as int] == order@[x as int] as int);
        let k = order[x];
        domains.push(Domain { energy: names[k].clone(), max_range: ranges[k] });
        x += 1;
    }
    EnergyMeter { domains }
}

/// Whether a zone is one the meter keeps.
pub open spec fn kept(z: Zone) -> bool {
    package_zone(z.name@) && z.energy_uj is Some && z.max_energy_range_uj is Some
}

/// The counters of the zones the meter keeps, in the order found.
pub open spec fn kept_energy(zones: Seq<Zone>) -> Seq<Seq<char>>
    decreases zones.len(),
{
    if zones.len() == 0 {
        Seq::empty()
    } else if kept(zones.last()) {
        kept_energy(zones.drop_last()).push(zones.last().energy@)
    } else {
        kept_energy(zones.drop_last())
    }
}

/// The ranges of the zones the meter keeps, in the order found.
pub open spec fn kept_range(zones: Seq<Zone>) -> Seq<u64>
    decreases zones.len(),
{
    if zones.len() == 0 {
        Seq::empty()
    } else if kept(zones.last()) {
        kept_range(zones.drop_last()).push(zones.last().max_energy_range_uj->0)
    } else {
        kept_range(zones.drop_last())
    }
}

} // verus!
