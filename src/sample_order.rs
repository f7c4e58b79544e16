use vstd::prelude::*;

verus! {

/// Bit pattern of the sign bit of a binary64 value.
pub const SIGN_BIT: u64 = 0x8000_0000_0000_0000;

/// Bit pattern of positive infinity; every larger magnitude is a NaN.
pub const INFINITY_BITS: u64 = 0x7FF0_0000_0000_0000;

/// Whether the sign bit of the bit pattern `b` is set.
pub open spec fn is_negative_bits(b: u64) -> bool {
    b >= SIGN_BIT
}

/// The bit pattern `b` with its sign bit cleared.
pub open spec fn magnitude(b: u64) -> u64 {
    if is_negative_bits(b) {
        (b - SIGN_BIT) as u64
    } else {
        b
    }
}

/// Whether `b` encodes a NaN: all exponent bits set and a non-zero fraction.
pub open spec fn is_nan_bits(b: u64) -> bool {
    magnitude(b) > INFINITY_BITS
}

/// Whether `b` encodes a zero of either sign.
pub open spec fn is_zero_bits(b: u64) -> bool {
    magnitude(b) == 0
}

/// The IEEE-754 total order on binary64 bit patterns: negative patterns come
/// first, ordered by decreasing magnitude, then positive patterns ordered by
/// increasing magnitude. For non-NaN values it agrees with numeric order,
/// except that negative zero comes before positive zero.
pub open spec fn total_le(a: u64, b: u64) -> bool {
    if is_negative_bits(a) && is_negative_bits(b) {
        b <= a
    } else if !is_negative_bits(a) && !is_negative_bits(b) {
        a <= b
    } else {
        is_negative_bits(a)
    }
}

/// `total_le` orders every pair of bit patterns and is a partial order.
pub proof fn lemma_total_le_is_total_order()
    ensures
        forall|a: u64, b: u64| total_le(a, b) || total_le(b, a),
        forall|a: u64| total_le(a, a),
        forall|a: u64, b: u64| total_le(a, b) && total_le(b, a) ==> a == b,
        forall|a: u64, b: u64, c: u64|
            total_le(a, b) && total_le(b, c) ==> total_le(a, c),
{
}

/// Compares two samples by the total order.
pub fn sample_le(a: u64, b: u64) -> (r: bool)
    ensures
        r == total_le(a, b),
{
    if a >= SIGN_BIT && b >= SIGN_BIT {
        b <= a
    } else if a < SIGN_BIT && b < SIGN_BIT {
        a <= b
    } else {
        a >= SIGN_BIT
    }
}

/// Whether `s` is in ascending total order.
pub open spec fn is_sorted(s: Seq<u64>) -> bool {
    forall|i: int, j: int| 0 <= i <= j < s.len() ==> total_le(#[trigger] s[i], #[trigger] s[j])
}

/// A copy of `samples` in ascending total order; `samples` is left as it was.
/// NaN samples are ordered too: those with the sign bit set before every
/// other sample, the others after every other sample.
pub fn sorted_samples(samples: &Vec<u64>) -> (r: Vec<u64>)
    ensures
        r@.to_multiset() == samples@.to_multiset(),
        is_sorted(r@),
{
    broadcast use vstd::seq_lib::group_to_multiset_ensures;

    proof {
        lemma_total_le_is_total_order();
    }
    let mut r: Vec<u64> = Vec::new();
    let mut i: usize = 0;
    while i < samples.len()
        invariant
            0 <= i <= samples.len(),
            r@.len() == i,
            r@.to_multiset() == samples@.subrange(0, i as int).to_multiset(),
            is_sorted(r@),
        decreases samples.len() - i,
    {
        let x = samples[i];
        let mut pos: usize = 0;
        while pos < r.len() && sample_le(r[pos], x)
            invariant
                0 <= pos <= r@.len(),
                r@.len() == i,
                is_sorted(r@),
                forall|k: int| 0 <= k < pos ==> total_le(#[trigger] r@[k], x),
            decreases r@.len() - pos,
        {
            pos = pos + 1;
        }
        proof {
            assert forall|k: int| pos <= k < r@.len() implies total_le(x, #[trigger] r@[k]) by {
                assert(total_le(r@[pos as int], r@[k]));
            }
            assert(samples@.subrange(0, i + 1) == samples@.subrange(0, i as int).push(x));
        }
        let ghost prev = r@;
        r.insert(pos, x);
        proof {
            assert(r@ == prev.insert(pos as int, x));
            vstd::seq_lib::to_multiset_insert(prev, pos as int, x);
            vstd::seq_lib::to_multiset_build(samples@.subrange(0, i as int), x);
            assert forall|a: int, b: int| 0 <= a <= b < r@.len() implies total_le(
                #[trigger] r@[a],
                #[trigger] r@[b],
            ) by {
                if a < pos && b < pos {
                    assert(total_le(prev[a], prev[b]));
                } else if a < pos && b == pos {
                } else if a < pos {
                    assert(total_le(prev[a], prev[b - 1]));
                } else if a == pos && b > pos {
                    assert(total_le(x, prev[b - 1]));
                } else if a > pos {
                    assert(total_le(prev[a - 1], prev[b - 1]));
                }
            }
        }
        i = i + 1;
    }
    proof {
        assert(samples@.subrange(0, i as int) == samples@);
    }
    r
}

/// The first sample of an ascending copy of `samples` is the least of them
/// in the total order, and the last one the greatest.
pub proof fn lemma_sorted_ends_are_extremes(samples: Seq<u64>, sorted: Seq<u64>)
    requires
        sorted.to_multiset() == samples.to_multiset(),
        is_sorted(sorted),
        samples.len() > 0,
    ensures
        sorted.len() == samples.len(),
        samples.contains(sorted[0]),
        samples.contains(sorted.last()),
        forall|k: int|
            0 <= k < samples.len() ==> total_le(sorted[0], #[trigger] samples[k]) && total_le(
                samples[k],
                sorted.last(),
            ),
{
    broadcast use vstd::seq_lib::group_to_multiset_ensures;

    vstd::seq_lib::to_multiset_len(sorted);
    vstd::seq_lib::to_multiset_len(samples);
    assert(sorted.contains(sorted[0]));
    assert(sorted.contains(sorted.last()));
    vstd::seq_lib::to_multiset_contains(sorted, sorted[0]);
    vstd::seq_lib::to_multiset_contains(samples, sorted[0]);
    vstd::seq_lib::to_multiset_contains(sorted, sorted.last());
    vstd::seq_lib::to_multiset_contains(samples, sorted.last());
    assert forall|k: int| 0 <= k < samples.len() implies total_le(
        sorted[0],
        #[trigger] samples[k],
    ) && total_le(samples[k], sorted.last()) by {
        assert(samples.contains(samples[k]));
        vstd::seq_lib::to_multiset_contains(sorted, samples[k]);
        vstd::seq_lib::to_multiset_contains(samples, samples[k]);
        assert(sorted.contains(samples[k]));
        let j = choose|j: int| 0 <= j < sorted.len() && sorted[j] == samples[k];
        assert(total_le(sorted[0], sorted[j]));
        assert(total_le(sorted[j], sorted[sorted.len() - 1]));
    }
}

/// Two ascending sequences that hold the same samples are equal: the sorted
/// copy depends on which samples there are, not on the order they came in.
pub proof fn lemma_sorted_copy_is_unique(a: Seq<u64>, b: Seq<u64>)
    requires
        is_sorted(a),
        is_sorted(b),
        a.to_multiset() == b.to_multiset(),
    ensures
        a == b,
    decreases a.len(),
{
    vstd::seq_lib::to_multiset_len(a);
    vstd::seq_lib::to_multiset_len(b);
    if a.len() == 0 {
        assert(a =~= b);
    } else {
        lemma_total_le_is_total_order();
        lemma_sorted_ends_are_extremes(a, b);
        lemma_sorted_ends_are_extremes(b, a);
        assert(total_le(b[0], a[0]));
        assert(total_le(a[0], b[0]));
        assert(a[0] == b[0]);
        vstd::seq_lib::to_multiset_remove(a, 0);
        vstd::seq_lib::to_multiset_remove(b, 0);
        assert(a.remove(0) =~= a.drop_first());
        assert(b.remove(0) =~= b.drop_first());
        lemma_sorted_copy_is_unique(a.drop_first(), b.drop_first());
        assert forall|k: int| 0 <= k < a.len() implies a[k] == b[k] by {
            if k > 0 {
                assert(a[k] == a.drop_first()[k - 1]);
                assert(b[k] == b.drop_first()[k - 1]);
            }
        }
        assert(a =~= b);
    }
}

} // verus!
