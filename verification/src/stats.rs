//! Min-of-N, median and median absolute deviation.
//!
//! Contention noise is one-sided: it can only slow a run down, never speed it
//! up. So the minimum estimates the machine's capability, and the dispersion is
//! a verdict on the campaign rather than an error bar on the result.
use vstd::prelude::*;
use vstd::relations::{sorted_by, total_ordering};

verus! {

/// The order the samples are ranked by.
pub open spec fn le(a: u64, b: u64) -> bool {
    a <= b
}

/// `s`, in non-decreasing order.
pub open spec fn sorted(s: Seq<u64>) -> Seq<u64> {
    s.sort_by(|a: u64, b: u64| le(a, b))
}

/// The lower median: the samples are timings, and interpolating between two
/// observations would invent one that never happened.
pub open spec fn median_of(s: Seq<u64>) -> u64 {
    sorted(s)[(s.len() - 1) / 2]
}

/// The smallest of `s`.
pub open spec fn min_of(s: Seq<u64>) -> u64
    decreases s.len(),
{
    if s.len() <= 1 {
        s[0]
    } else {
        let m = min_of(s.drop_last());
        if s.last() < m {
            s.last()
        } else {
            m
        }
    }
}

pub open spec fn abs_diff(a: u64, b: u64) -> u64 {
    if a >= b {
        (a - b) as u64
    } else {
        (b - a) as u64
    }
}

/// How far each sample lies from `center`.
pub open spec fn deviations(s: Seq<u64>, center: u64) -> Seq<u64> {
    s.map_values(|v: u64| abs_diff(v, center))
}

/// The median absolute deviation of `s`, in the samples' own unit.
pub open spec fn mad_of(s: Seq<u64>) -> u64 {
    median_of(deviations(s, median_of(s)))
}

/// A summary of a non-empty set of samples.
#[derive(Clone, Copy, Debug, PartialEq, Eq, Structural)]
pub struct Summary {
    pub n: usize,
    pub min: u64,
    pub median: u64,
    /// Median absolute deviation, in the same unit as the samples.
    pub mad: u64,
}

/// What `summarize` reports of `s`.
pub open spec fn summary_of(s: Seq<u64>) -> Option<Summary> {
    if s.len() == 0 {
        None
    } else {
        Some(Summary { n: s.len() as usize, min: min_of(s), median: median_of(s), mad: mad_of(s) })
    }
}

/// `slice::sort_unstable` on `u64`s, which sorts in non-decreasing order and
/// neither adds nor drops an element.
#[verifier::external_body]
fn sort_unstable(v: &mut Vec<u64>)
    ensures
        final(v)@.to_multiset() == old(v)@.to_multiset(),
        sorted_by(final(v)@, |a: u64, b: u64| le(a, b)),
{
    v.sort_unstable();
}

proof fn lemma_le_total()
    ensures
        total_ordering(|a: u64, b: u64| le(a, b)),
{
}

/// The sorted copy of `s` has its length, and is the one sequence that is
/// sorted and holds its elements.
proof fn lemma_sorted(s: Seq<u64>, t: Seq<u64>)
    requires
        t.to_multiset() == s.to_multiset(),
        sorted_by(t, |a: u64, b: u64| le(a, b)),
    ensures
        t == sorted(s),
        sorted(s).len() == s.len(),
{
    lemma_le_total();
    s.lemma_sort_by_ensures(|a: u64, b: u64| le(a, b));
    vstd::seq_lib::lemma_sorted_unique(t, sorted(s), |a: u64, b: u64| le(a, b));
    vstd::seq_lib::to_multiset_len(s);
    vstd::seq_lib::to_multiset_len(t);
}

/// The lower median of a non-empty set of samples.
pub fn median(values: &Vec<u64>) -> (r: u64)
    requires
        values@.len() > 0,
    ensures
        r == median_of(values@),
{
    let mut sorted_values = values.clone();
    sort_unstable(&mut sorted_values);
    proof {
        lemma_sorted(values@, sorted_values@);
    }
    sorted_values[(sorted_values.len() - 1) / 2]
}

fn minimum(values: &Vec<u64>) -> (r: u64)
    requires
        values@.len() > 0,
    ensures
        r == min_of(values@),
{
    let mut m = values[0];
    let mut i: usize = 1;
    assert(values@.take(1).len() == 1);
    while i < values.len()
        invariant
            1 <= i <= values@.len(),
            m == min_of(values@.take(i as int)),
        decreases values.len() - i,
    {
        let ghost t = values@.take(i + 1);
        assert(t.drop_last() =~= values@.take(i as int));
        if values[i] < m {
            m = values[i];
        }
        i += 1;
    }
    assert(values@.take(i as int) =~= values@);
    m
}

fn deviations_from(values: &Vec<u64>, center: u64) -> (r: Vec<u64>)
    ensures
        r@ == deviations(values@, center),
{
    let mut r: Vec<u64> = Vec::new();
    let mut i: usize = 0;
    while i < values.len()
        invariant
            i <= values@.len(),
            r@ == deviations(values@.take(i as int), center),
        decreases values.len() - i,
    {
        let v = values[i];
        let d = if v >= center {
            v - center
        } else {
            center - v
        };
        r.push(d);
        i += 1;
        assert(r@ =~= deviations(values@.take(i as int), center));
    }
    assert(values@.take(i as int) =~= values@);
    r
}

/// The minimum, the lower median and the median absolute deviation of the
/// samples; `None` for none: a summary of nothing is not zero.
pub fn summarize(values: &Vec<u64>) -> (r: Option<Summary>)
    ensures
        r == summary_of(values@),
{
    if values.len() == 0 {
        return None;
    }
    let center = median(values);
    let spread = deviations_from(values, center);
    let mad = median(&spread);
    Some(Summary { n: values.len(), min: minimum(values), median: center, mad })
}

proof fn lemma_min_is_least(s: Seq<u64>)
    requires
        s.len() > 0,
    ensures
        s.contains(min_of(s)),
        forall|i: int| 0 <= i < s.len() ==> min_of(s) <= #[trigger] s[i],
    decreases s.len(),
{
    if s.len() > 1 {
        lemma_min_is_least(s.drop_last());
        assert forall|i: int| 0 <= i < s.len() implies min_of(s) <= #[trigger] s[i] by {
            if i < s.len() - 1 {
                assert(s[i] == s.drop_last()[i]);
            }
        }
        if min_of(s) != s.last() {
            let k = choose|k: int|
                0 <= k < s.drop_last().len() && s.drop_last()[k] == min_of(s.drop_last());
            assert(s[k] == s.drop_last()[k]);
        }
    }
}

proof fn lemma_median_is_a_sample(s: Seq<u64>)
    requires
        s.len() > 0,
    ensures
        s.contains(median_of(s)),
{
    lemma_le_total();
    s.lemma_sort_by_ensures(|a: u64, b: u64| le(a, b));
    vstd::seq_lib::to_multiset_len(s);
    vstd::seq_lib::to_multiset_len(sorted(s));
    assert(sorted(s).contains(sorted(s)[(s.len() - 1) / 2]));
}

/// A summary never invents a sample: its minimum and its median are values that
/// were measured, the minimum is the least of them, and the median is at least
/// the minimum.
pub proof fn lemma_summary_is_made_of_samples(s: Seq<u64>)
    requires
        s.len() <= usize::MAX,
    ensures
        summary_of(s) is None <==> s.len() == 0,
        summary_of(s) matches Some(sum) ==> {
            &&& sum.n == s.len()
            &&& s.contains(sum.min)
            &&& s.contains(sum.median)
            &&& sum.min <= sum.median
            &&& forall|i: int| 0 <= i < s.len() ==> sum.min <= #[trigger] s[i]
        },
{
    if s.len() > 0 {
        lemma_min_is_least(s);
        lemma_median_is_a_sample(s);
        let k = choose|k: int| 0 <= k < s.len() && s[k] == median_of(s);
        assert(min_of(s) <= s[k]);
    }
}

} // verus!
