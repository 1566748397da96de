//! The ISA target the kernels are compiled for: a pinned baseline, or the
//! machine itself. Every mode is `-O3` and strict IEEE 754, so the checksum
//! gates both: widening a vector reorders nothing. Every recorded sample,
//! image tag and manifest `modes:` list is spelled in it.
use vstd::prelude::*;

use crate::text::str_eq;

verus! {

/// The ISA target the kernels are compiled for.
#[derive(Clone, Copy, Debug, PartialEq, Eq, Hash, Structural)]
pub enum Mode {
    /// A pinned ISA baseline, identical for every backend on the architecture.
    Baseline,
    /// Whatever this CPU offers, resolved by the toolchain on the machine it is on.
    Native,
}

impl Mode {
    pub const ALL: [Mode; 2] = [Mode::Baseline, Mode::Native];

    /// How a manifest, a campaign and a sample spell this mode.
    pub open spec fn name(self) -> Seq<char> {
        match self {
            Mode::Baseline => "baseline"@,
            Mode::Native => "native"@,
        }
    }

    pub fn as_str(self) -> (r: &'static str)
        ensures
            r@ == self.name(),
    {
        match self {
            Mode::Baseline => "baseline",
            Mode::Native => "native",
        }
    }

    /// Parse a mode as a `bench.yaml` spells it. Anything else is `None`.
    pub fn parse(value: &str) -> (r: Option<Mode>)
        ensures
            forall|m: Mode| #[trigger] m.name() == value@ <==> r == Some(m),
            r is None <==> (value@ != Mode::Baseline.name() && value@ != Mode::Native.name()),
    {
        proof {
            reveal_strlit("baseline");
            reveal_strlit("native");
        }
        let r = if str_eq(Mode::Baseline.as_str(), value) {
            Some(Mode::Baseline)
        } else if str_eq(Mode::Native.as_str(), value) {
            Some(Mode::Native)
        } else {
            None
        };
        proof {
            assert forall|m: Mode| #[trigger] m.name() == value@ <==> r == Some(m) by {
                lemma_mode_round_trip(m, Mode::Baseline);
                lemma_mode_round_trip(m, Mode::Native);
            }
        }
        r
    }
}

/// Parsing what a mode prints gives the mode back, and two modes never print
/// the same name.
pub proof fn lemma_mode_round_trip(m: Mode, n: Mode)
    ensures
        m.name() == n.name() <==> m == n,
{
    reveal_strlit("baseline");
    reveal_strlit("native");
    if m != n {
        assert(m.name().len() != n.name().len());
    }
}

} // verus!
