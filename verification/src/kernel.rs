//! The integer logic of the benchmark kernels: the merge sort the sorting
//! kernels time, and how a kernel reads its sizes. What they compute in
//! floating point, and how the threaded kernels hand out their work, stays in
//! the kernels.
use vstd::prelude::*;
use vstd::seq_lib::lemma_multiset_commutative;

use crate::text::{parse_u64, parse_u64_exec};

verus! {

/// Every element is at most every later one.
pub open spec fn is_sorted(s: Seq<i32>) -> bool {
    forall|i: int, j: int| 0 <= i <= j < s.len() ==> s[i] <= s[j]
}

/// The merge of two runs: the smaller head first, the left one on a tie.
pub open spec fn merged(a: Seq<i32>, b: Seq<i32>) -> Seq<i32>
    decreases a.len() + b.len(),
{
    if a.len() == 0 {
        b
    } else if b.len() == 0 {
        a
    } else if a[0] <= b[0] {
        seq![a[0]] + merged(a.drop_first(), b)
    } else {
        seq![b[0]] + merged(a, b.drop_first())
    }
}

/// The elements of `s[from..=to]`.
pub open spec fn segment(s: Seq<i32>, from: int, to: int) -> Seq<i32> {
    s.subrange(from, to + 1)
}

/// A merge keeps every element of both runs, and nothing else.
pub proof fn lemma_merged_keeps_elements(a: Seq<i32>, b: Seq<i32>)
    ensures
        merged(a, b).len() == a.len() + b.len(),
        merged(a, b).to_multiset() == a.to_multiset().add(b.to_multiset()),
    decreases a.len() + b.len(),
{
    broadcast use vstd::multiset::group_multiset_axioms;
    broadcast use vstd::seq_lib::group_to_multiset_ensures;

    lemma_multiset_commutative(a, b);
    if a.len() == 0 {
        assert(a + b =~= b);
    } else if b.len() == 0 {
        assert(a + b =~= a);
    } else if a[0] <= b[0] {
        lemma_merged_keeps_elements(a.drop_first(), b);
        lemma_multiset_commutative(a.drop_first(), b);
        lemma_multiset_commutative(seq![a[0]], merged(a.drop_first(), b));
        lemma_multiset_commutative(seq![a[0]], a.drop_first());
        assert(seq![a[0]] + a.drop_first() =~= a);
    } else {
        lemma_merged_keeps_elements(a, b.drop_first());
        lemma_multiset_commutative(seq![b[0]], merged(a, b.drop_first()));
        lemma_multiset_commutative(seq![b[0]], b.drop_first());
        assert(seq![b[0]] + b.drop_first() =~= b);
    }
}

/// The merge of two sorted runs is sorted, and starts with the smaller head.
pub proof fn lemma_merged_sorted(a: Seq<i32>, b: Seq<i32>)
    requires
        is_sorted(a),
        is_sorted(b),
    ensures
        is_sorted(merged(a, b)),
        a.len() > 0 ==> forall|k: int| 0 <= k < merged(a, b).len() ==> #[trigger] merged(a, b)[k]
            >= (if b.len() > 0 && b[0] < a[0] {
            b[0]
        } else {
            a[0]
        }),
        a.len() == 0 && b.len() > 0 ==> forall|k: int|
            0 <= k < merged(a, b).len() ==> #[trigger] merged(a, b)[k] >= b[0],
    decreases a.len() + b.len(),
{
    lemma_merged_keeps_elements(a, b);
    if a.len() == 0 {
    } else if b.len() == 0 {
    } else if a[0] <= b[0] {
        let rest = merged(a.drop_first(), b);
        lemma_merged_sorted(a.drop_first(), b);
        lemma_merged_keeps_elements(a.drop_first(), b);
        assert forall|k: int| 0 <= k < rest.len() implies #[trigger] rest[k] >= a[0] by {
            if a.drop_first().len() > 0 {
                assert(a.drop_first()[0] == a[1]);
            }
        }
        assert(merged(a, b) == seq![a[0]] + rest);
        assert forall|i: int, j: int| 0 <= i <= j < merged(a, b).len() implies merged(a, b)[i]
            <= merged(a, b)[j] by {
            if i > 0 {
                assert(merged(a, b)[i] == rest[i - 1]);
                assert(merged(a, b)[j] == rest[j - 1]);
            } else if j > 0 {
                assert(merged(a, b)[j] == rest[j - 1]);
            }
        }
        assert forall|k: int| 0 <= k < merged(a, b).len() implies #[trigger] merged(a, b)[k]
            >= a[0] by {
            if k > 0 {
                assert(merged(a, b)[k] == rest[k - 1]);
            }
        }
    } else {
        let rest = merged(a, b.drop_first());
        lemma_merged_sorted(a, b.drop_first());
        lemma_merged_keeps_elements(a, b.drop_first());
        assert forall|k: int| 0 <= k < rest.len() implies #[trigger] rest[k] >= b[0] by {
            if b.drop_first().len() > 0 {
                assert(b.drop_first()[0] == b[1]);
            }
        }
        assert(merged(a, b) == seq![b[0]] + rest);
        assert forall|i: int, j: int| 0 <= i <= j < merged(a, b).len() implies merged(a, b)[i]
            <= merged(a, b)[j] by {
            if i > 0 {
                assert(merged(a, b)[i] == rest[i - 1]);
                assert(merged(a, b)[j] == rest[j - 1]);
            } else if j > 0 {
                assert(merged(a, b)[j] == rest[j - 1]);
            }
        }
        assert forall|k: int| 0 <= k < merged(a, b).len() implies #[trigger] merged(a, b)[k]
            >= b[0] by {
            if k > 0 {
                assert(merged(a, b)[k] == rest[k - 1]);
            }
        }
    }
}

/// One step of the merge loop: taking the head of either run.
proof fn lemma_merged_step(a: Seq<i32>, b: Seq<i32>, i: int, j: int)
    requires
        0 <= i < a.len(),
        0 <= j < b.len(),
    ensures
        a[i] <= b[j] ==> merged(a.skip(i), b.skip(j)) == seq![a[i]] + merged(a.skip(i + 1), b.skip(j)),
        a[i] > b[j] ==> merged(a.skip(i), b.skip(j)) == seq![b[j]] + merged(a.skip(i), b.skip(j + 1)),
{
    assert(a.skip(i).drop_first() =~= a.skip(i + 1));
    assert(b.skip(j).drop_first() =~= b.skip(j + 1));
}

/// Merge the sorted runs `arr[left..=mid]` and `arr[mid + 1..=right]` in place.
pub fn merge(arr: &mut Vec<i32>, left: usize, mid: usize, right: usize)
    requires
        left <= mid <= right < old(arr).len(),
    ensures
        final(arr)@ == old(arr)@.take(left as int) + merged(
            segment(old(arr)@, left as int, mid as int),
            segment(old(arr)@, mid + 1, right as int),
        ) + old(arr)@.skip(right + 1),
{
    let ghost a = segment(old(arr)@, left as int, mid as int);
    let ghost b = segment(old(arr)@, mid + 1, right as int);
    let ghost whole = merged(a, b);
    let n1 = mid - left + 1;
    let n2 = right - mid;
    let mut left_arr: Vec<i32> = Vec::new();
    let mut right_arr: Vec<i32> = Vec::new();
    let mut p: usize = left;
    while p <= mid
        invariant
            left <= p <= mid + 1,
            mid <= right < arr.len(),
            arr@ == old(arr)@,
            left_arr@ == old(arr)@.subrange(left as int, p as int),
        decreases mid + 1 - p,
    {
        left_arr.push(arr[p]);
        p += 1;
    }
    let mut q: usize = mid + 1;
    while q <= right
        invariant
            mid + 1 <= q <= right + 1,
            right < arr.len(),
            arr@ == old(arr)@,
            right_arr@ == old(arr)@.subrange(mid + 1, q as int),
        decreases right + 1 - q,
    {
        right_arr.push(arr[q]);
        q += 1;
    }
    proof {
        lemma_merged_keeps_elements(a, b);
        assert(a.skip(0) =~= a);
        assert(b.skip(0) =~= b);
    }
    let mut i: usize = 0;
    let mut j: usize = 0;
    let mut k: usize = left;
    while i < n1 && j < n2
        invariant
            left_arr@ == a,
            right_arr@ == b,
            n1 == a.len(),
            n2 == b.len(),
            i <= n1,
            j <= n2,
            k == left + i + j,
            left + n1 + n2 == right + 1,
            arr@.len() == old(arr)@.len(),
            right < arr.len(),
            whole == merged(a, b),
            whole.len() == a.len() + b.len(),
            forall|x: int| 0 <= x < left ==> arr@[x] == old(arr)@[x],
            forall|x: int| right < x < arr@.len() ==> arr@[x] == old(arr)@[x],
            arr@.subrange(left as int, k as int) + merged(a.skip(i as int), b.skip(j as int)) == whole,
        decreases n1 + n2 - i - j,
    {
        proof {
            lemma_merged_step(a, b, i as int, j as int);
        }
        let ghost before = arr@.subrange(left as int, k as int);
        if left_arr[i] <= right_arr[j] {
            arr.set(k, left_arr[i]);
            i += 1;
        } else {
            arr.set(k, right_arr[j]);
            j += 1;
        }
        k += 1;
        assert(arr@.subrange(left as int, k as int) =~= before.push(arr@[k - 1]));
    }
    while i < n1
        invariant
            left_arr@ == a,
            right_arr@ == b,
            n1 == a.len(),
            n2 == b.len(),
            i <= n1,
            j <= n2,
            i < n1 ==> j == n2,
            k == left + i + j,
            left + n1 + n2 == right + 1,
            arr@.len() == old(arr)@.len(),
            right < arr.len(),
            forall|x: int| 0 <= x < left ==> arr@[x] == old(arr)@[x],
            forall|x: int| right < x < arr@.len() ==> arr@[x] == old(arr)@[x],
            arr@.subrange(left as int, k as int) + merged(a.skip(i as int), b.skip(j as int)) == whole,
        decreases n1 - i,
    {
        let ghost before = arr@.subrange(left as int, k as int);
        assert(b.skip(j as int).len() == 0);
        assert(merged(a.skip(i as int), b.skip(j as int)) == a.skip(i as int));
        assert(a.skip(i as int) =~= seq![a[i as int]] + a.skip(i + 1));
        arr.set(k, left_arr[i]);
        i += 1;
        k += 1;
        assert(arr@.subrange(left as int, k as int) =~= before.push(arr@[k - 1]));
        assert(merged(a.skip(i as int), b.skip(j as int)) == a.skip(i as int));
    }
    while j < n2
        invariant
            left_arr@ == a,
            right_arr@ == b,
            n1 == a.len(),
            n2 == b.len(),
            i == n1,
            j <= n2,
            k == left + i + j,
            left + n1 + n2 == right + 1,
            arr@.len() == old(arr)@.len(),
            right < arr.len(),
            forall|x: int| 0 <= x < left ==> arr@[x] == old(arr)@[x],
            forall|x: int| right < x < arr@.len() ==> arr@[x] == old(arr)@[x],
            arr@.subrange(left as int, k as int) + merged(a.skip(i as int), b.skip(j as int)) == whole,
        decreases n2 - j,
    {
        let ghost before = arr@.subrange(left as int, k as int);
        assert(a.skip(i as int).len() == 0);
        assert(merged(a.skip(i as int), b.skip(j as int)) == b.skip(j as int));
        assert(b.skip(j as int) =~= seq![b[j as int]] + b.skip(j + 1));
        arr.set(k, right_arr[j]);
        j += 1;
        k += 1;
        assert(arr@.subrange(left as int, k as int) =~= before.push(arr@[k - 1]));
        assert(a.skip(i as int).len() == 0);
        assert(merged(a.skip(i as int), b.skip(j as int)) == b.skip(j as int));
    }
    assert(a.skip(i as int).len() == 0 && b.skip(j as int).len() == 0);
    assert(merged(a.skip(i as int), b.skip(j as int)) =~= Seq::<i32>::empty());
    assert(arr@.subrange(left as int, k as int) =~= whole);
    assert(arr@ =~= old(arr)@.take(left as int) + whole + old(arr)@.skip(right + 1));
}

/// Sort `arr[left..=right]` in place, by halves, leaving the rest untouched.
pub fn merge_sort(arr: &mut Vec<i32>, left: usize, right: usize)
    requires
        left < right ==> right < old(arr).len(),
    ensures
        final(arr)@.len() == old(arr)@.len(),
        left >= right ==> final(arr)@ == old(arr)@,
        left < right ==> {
            &&& is_sorted(segment(final(arr)@, left as int, right as int))
            &&& segment(final(arr)@, left as int, right as int).to_multiset() == segment(
                old(arr)@,
                left as int,
                right as int,
            ).to_multiset()
            &&& forall|x: int|
                0 <= x < old(arr)@.len() && (x < left || x > right) ==> final(arr)@[x] == old(
                    arr,
                )@[x]
        },
    decreases right - left,
{
    if left < right {
        let mid = left + (right - left) / 2;
        let ghost start = arr@;
        merge_sort(arr, left, mid);
        let ghost first = arr@;
        merge_sort(arr, mid + 1, right);
        let ghost second = arr@;
        proof {
            // The first half is untouched by the second sort.
            assert(segment(second, left as int, mid as int) =~= segment(first, left as int, mid as int));
            let a = segment(second, left as int, mid as int);
            let b = segment(second, mid + 1, right as int);
            lemma_merged_sorted(a, b);
            lemma_merged_keeps_elements(a, b);
            // The halves of the segment, before and after.
            assert(segment(start, left as int, right as int) =~= segment(start, left as int, mid as int)
                + segment(start, mid + 1, right as int));
            lemma_multiset_commutative(segment(start, left as int, mid as int), segment(start, mid + 1, right as int));
            assert(segment(first, mid + 1, right as int) =~= segment(start, mid + 1, right as int));
        }
        merge(arr, left, mid, right);
        proof {
            let a = segment(second, left as int, mid as int);
            let b = segment(second, mid + 1, right as int);
            assert(segment(arr@, left as int, right as int) =~= merged(a, b));
        }
    }
}

/// A kernel's size argument: a positive integer, or nothing the kernel accepts.
pub open spec fn positive_of(text: Seq<char>) -> Option<u32> {
    match parse_u64(text) {
        Some(v) => if 0 < v <= u32::MAX {
            Some(v as u32)
        } else {
            None
        },
        None => None,
    }
}

/// Read a kernel's size argument. `None` is what the kernel refuses: it then
/// names the argument and exits.
pub fn parse_positive(text: &str) -> (r: Option<u32>)
    ensures
        r == positive_of(text@),
{
    match parse_u64_exec(text) {
        Some(v) => if 0 < v && v <= 0xffff_ffff {
            Some(v as u32)
        } else {
            None
        },
        None => None,
    }
}

} // verus!
