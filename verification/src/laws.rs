//! Properties that relate the reader's operations to one another.
//!
//! Peek operations and searches take the reader by shared reference, so
//! that they leave the position unchanged is enforced by their signatures;
//! the laws here state what cannot be read off a single signature or
//! contract.

use vstd::prelude::*;

use crate::plain::PlainData;
use crate::reader::{is_find_result, occurs_at};

verus! {

/// The sum of a sequence of requested read lengths.
pub open spec fn lens_sum(lens: Seq<int>) -> int
    decreases lens.len(),
{
    if lens.len() == 0 {
        0
    } else {
        lens_sum(lens.drop_last()) + lens.last()
    }
}

/// Where the `k`-th of a run of consuming reads starts: the sum of the
/// lengths requested before it.
pub open spec fn read_start(lens: Seq<int>, k: int) -> int {
    lens_sum(lens.take(k))
}

proof fn lemma_lens_sum_take_succ(lens: Seq<int>, k: int)
    requires
        0 <= k < lens.len(),
    ensures
        lens_sum(lens.take(k + 1)) == lens_sum(lens.take(k)) + lens[k],
{
    assert(lens.take(k + 1).drop_last() =~= lens.take(k));
    assert(lens.take(k + 1).last() == lens[k]);
}

proof fn lemma_read_start_nonneg(lens: Seq<int>, k: int)
    requires
        forall|i: int| 0 <= i < lens.len() ==> lens[i] >= 0,
        0 <= k <= lens.len(),
    ensures
        0 <= read_start(lens, k),
    decreases k,
{
    if k == 0 {
        assert(lens.take(0) =~= Seq::<int>::empty());
    } else {
        lemma_read_start_nonneg(lens, k - 1);
        lemma_lens_sum_take_succ(lens, k - 1);
    }
}

proof fn lemma_read_start_le_sum(lens: Seq<int>, k: int)
    requires
        forall|i: int| 0 <= i < lens.len() ==> lens[i] >= 0,
        0 <= k <= lens.len(),
    ensures
        read_start(lens, k) <= lens_sum(lens),
    decreases lens.len() - k,
{
    if k == lens.len() {
        assert(lens.take(k) =~= lens);
    } else {
        lemma_read_start_le_sum(lens, k + 1);
        lemma_lens_sum_take_succ(lens, k);
    }
}

/// A run of consuming reads walks the region front to back: with
/// nonnegative requested lengths `lens` that sum to at most the region's
/// length, the `k`-th read returns the sub-range that starts at
/// `read_start(lens, k)` (by `read_bytes`'s contract), and these starts
/// say that every returned range immediately follows the one before it,
/// is disjoint from it, and lies inside the region, and that the
/// remaining length at the end is the region's length minus the sum of
/// the requests.
pub proof fn lemma_consuming_reads(region: Seq<u8>, lens: Seq<int>)
    requires
        forall|i: int| 0 <= i < lens.len() ==> lens[i] >= 0,
        lens_sum(lens) <= region.len(),
    ensures
        read_start(lens, 0) == 0,
        forall|k: int|
            0 <= k < lens.len() ==> read_start(lens, k + 1) == read_start(lens, k) + lens[k],
        forall|k: int| 0 <= k <= lens.len() ==> 0 <= #[trigger] read_start(lens, k) <= lens_sum(
            lens,
        ),
        read_start(lens, lens.len() as int) == lens_sum(lens),
{
    assert(lens.take(0) =~= Seq::<int>::empty());
    assert forall|k: int| 0 <= k < lens.len() implies read_start(lens, k + 1) == read_start(
        lens,
        k,
    ) + lens[k] by {
        lemma_lens_sum_take_succ(lens, k);
    }
    assert forall|k: int| 0 <= k <= lens.len() implies 0 <= #[trigger] read_start(lens, k)
        <= lens_sum(lens) by {
        lemma_read_start_nonneg(lens, k);
        lemma_read_start_le_sum(lens, k);
    }
    assert(lens.take(lens.len() as int) =~= lens);
}

/// Two reads that meet at `b` return disjoint ranges that together cover
/// the contiguous block: what `read_bytes` hands out for `a..b` and then
/// for `b..c` concatenates to the region's bytes over `a..c`.
pub proof fn lemma_adjacent_ranges_concat(region: Seq<u8>, a: int, b: int, c: int)
    requires
        0 <= a <= b <= c <= region.len(),
    ensures
        region.subrange(a, b) + region.subrange(b, c) == region.subrange(a, c),
{
    assert(region.subrange(a, b) + region.subrange(b, c) =~= region.subrange(a, c));
}

/// A pattern that occurs exactly once in the remaining bytes is found at
/// its true offset.
pub proof fn lemma_find_unique_occurrence(hay: Seq<u8>, pat: Seq<u8>, r: Option<usize>, i: int)
    requires
        is_find_result(hay, pat, r),
        pat.len() > 0,
        occurs_at(hay, pat, i),
        forall|j: int| occurs_at(hay, pat, j) ==> j == i,
    ensures
        r == Some(i as usize),
{
    match r {
        None => {
            assert(false);
        },
        Some(k) => {
            assert(occurs_at(hay, pat, k as int));
        },
    }
}

/// A pattern that occurs nowhere in the remaining bytes is not found.
pub proof fn lemma_find_absent(hay: Seq<u8>, pat: Seq<u8>, r: Option<usize>)
    requires
        is_find_result(hay, pat, r),
        forall|j: int| !occurs_at(hay, pat, j),
    ensures
        r is None,
{
}

/// A pattern longer than the remaining bytes is never found: no offset
/// could hold it.
pub proof fn lemma_find_long_pattern(hay: Seq<u8>, pat: Seq<u8>, r: Option<usize>)
    requires
        is_find_result(hay, pat, r),
        pat.len() > hay.len(),
    ensures
        r is None,
{
    if let Some(k) = r {
        assert(occurs_at(hay, pat, k as int));
        assert(false);
    }
}

/// Round trip: the value that `read_t` or `peek_t` reads from a sub-range
/// of the region has, as its little-endian byte image, exactly the bytes
/// that `read_bytes` returns for the same sub-range.
pub proof fn lemma_value_round_trip<T: PlainData>(region: Seq<u8>, pos: int)
    requires
        0 <= pos,
        pos + T::spec_size() <= region.len(),
    ensures
        T::spec_from_le(region.subrange(pos, pos + T::spec_size())).spec_to_le()
            == region.subrange(pos, pos + T::spec_size()),
{
    T::lemma_from_to_le(region.subrange(pos, pos + T::spec_size() as int));
}

} // verus!
