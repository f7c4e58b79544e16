use vstd::prelude::*;
use crate::sample_order::{
    is_nan_bits, lemma_sorted_ends_are_extremes, is_negative_bits, is_sorted, is_zero_bits, total_le, SIGN_BIT, INFINITY_BITS,
};

verus! {

/// Bit pattern of the binary64 value `1.0`.
pub const ONE_BITS: u64 = 0x3FF0_0000_0000_0000;

/// Whether `q` encodes a number strictly below zero (negative zero is not).
pub open spec fn below_zero(q: u64) -> bool {
    !is_nan_bits(q) && is_negative_bits(q) && !is_zero_bits(q)
}

/// Whether `q` encodes a number strictly above one. Positive binary64
/// values are ordered as their bit patterns are.
pub open spec fn above_one(q: u64) -> bool {
    !is_nan_bits(q) && !is_negative_bits(q) && q > ONE_BITS
}

/// Whether `q` encodes a number in the closed interval from zero to one.
pub open spec fn in_unit_interval(q: u64) -> bool {
    !is_nan_bits(q) && !below_zero(q) && !above_one(q)
}

/// Where a requested quantile fraction lies.
#[derive(PartialEq, Eq, Structural, Clone, Copy, Debug)]
pub enum FractionClass {
    NotANumber,
    BelowRange,
    AboveRange,
    InRange,
}

/// The class of the fraction whose bit pattern is `q`.
pub open spec fn fraction_class_of(q: u64) -> FractionClass {
    if is_nan_bits(q) {
        FractionClass::NotANumber
    } else if below_zero(q) {
        FractionClass::BelowRange
    } else if above_one(q) {
        FractionClass::AboveRange
    } else {
        FractionClass::InRange
    }
}

/// Classifies the quantile fraction whose bit pattern is `q`.
pub fn classify_fraction(q: u64) -> (r: FractionClass)
    ensures
        r == fraction_class_of(q),
{
    let mag: u64 = if q >= SIGN_BIT {
        q - SIGN_BIT
    } else {
        q
    };
    if mag > INFINITY_BITS {
        FractionClass::NotANumber
    } else if q >= SIGN_BIT && mag != 0 {
        FractionClass::BelowRange
    } else if q < SIGN_BIT && q > ONE_BITS {
        FractionClass::AboveRange
    } else {
        FractionClass::InRange
    }
}

/// The value a quantile saturates to when its fraction is out of range.
#[derive(PartialEq, Eq, Structural, Clone, Copy, Debug)]
pub enum Saturation {
    NotANumber,
    PositiveInfinity,
    NegativeInfinity,
}

/// What a quantile request comes to before any arithmetic.
#[derive(PartialEq, Eq, Structural, Clone, Copy, Debug)]
pub enum QuantilePlan {
    /// The fraction is out of range or NaN: the answer is this sentinel,
    /// whatever the samples are.
    Saturated(Saturation),
    /// The fraction is in range but there are no samples.
    NoValue,
    /// The fraction is in range and there are samples: interpolate between
    /// order statistics.
    Interpolate,
}

/// The plan for a request over `sample_count` samples with fraction `q`:
/// the sentinels take priority over the absence of samples.
pub open spec fn plan_of(sample_count: nat, q: u64) -> QuantilePlan {
    match fraction_class_of(q) {
        FractionClass::NotANumber => QuantilePlan::Saturated(Saturation::NotANumber),
        FractionClass::AboveRange => QuantilePlan::Saturated(Saturation::PositiveInfinity),
        FractionClass::BelowRange => QuantilePlan::Saturated(Saturation::NegativeInfinity),
        FractionClass::InRange => if sample_count == 0 {
            QuantilePlan::NoValue
        } else {
            QuantilePlan::Interpolate
        },
    }
}

/// Decides how a quantile with fraction `q` over `sample_count` samples is
/// answered.
pub fn quantile_plan(sample_count: usize, q: u64) -> (r: QuantilePlan)
    ensures
        r == plan_of(sample_count as nat, q),
{
    match classify_fraction(q) {
        FractionClass::NotANumber => QuantilePlan::Saturated(Saturation::NotANumber),
        FractionClass::AboveRange => QuantilePlan::Saturated(Saturation::PositiveInfinity),
        FractionClass::BelowRange => QuantilePlan::Saturated(Saturation::NegativeInfinity),
        FractionClass::InRange => if sample_count == 0 {
            QuantilePlan::NoValue
        } else {
            QuantilePlan::Interpolate
        },
    }
}

/// The order statistics that a quantile at a given rank index reads.
#[derive(PartialEq, Eq, Structural, Clone, Copy, Debug)]
pub enum OrderStatistics {
    /// The index is the last one: this sample is the answer as it is.
    Exact(u64),
    /// The samples at the index and the next one, to interpolate between.
    Between(u64, u64),
}

/// The order statistics at `index` of `sorted`: the sample there alone when
/// it is the last one, else it and the next.
pub open spec fn order_statistics_at(sorted: Seq<u64>, index: int) -> OrderStatistics {
    if index == sorted.len() - 1 {
        OrderStatistics::Exact(sorted[index])
    } else {
        OrderStatistics::Between(sorted[index], sorted[index + 1])
    }
}

/// The order statistics read at `index` of the ascending samples `sorted`.
pub fn order_statistics(sorted: &Vec<u64>, index: usize) -> (r: OrderStatistics)
    requires
        index < sorted@.len(),
    ensures
        r == order_statistics_at(sorted@, index as int),
{
    if index == sorted.len() - 1 {
        OrderStatistics::Exact(sorted[index])
    } else {
        OrderStatistics::Between(sorted[index], sorted[index + 1])
    }
}

/// With no samples, every fraction from zero to one has no value.
pub proof fn lemma_no_samples_no_value(q: u64)
    requires
        in_unit_interval(q),
    ensures
        plan_of(0, q) == QuantilePlan::NoValue,
{
}

/// A fraction above one saturates to positive infinity, one below zero to
/// negative infinity, and a NaN fraction to NaN, however many samples there
/// are, none included.
pub proof fn lemma_saturation_ignores_samples(sample_count: nat, q: u64)
    ensures
        above_one(q) ==> plan_of(sample_count, q) == QuantilePlan::Saturated(
            Saturation::PositiveInfinity,
        ),
        below_zero(q) ==> plan_of(sample_count, q) == QuantilePlan::Saturated(
            Saturation::NegativeInfinity,
        ),
        is_nan_bits(q) ==> plan_of(sample_count, q) == QuantilePlan::Saturated(
            Saturation::NotANumber,
        ),
{
}

/// Over an ascending copy of non-empty samples, the fractions zero and one
/// are interpolated, the last rank index reads the greatest sample alone, and
/// the first one reads the least sample (alone when it is the only one).
pub proof fn lemma_extreme_ranks_read_extremes(samples: Seq<u64>, sorted: Seq<u64>)
    requires
        sorted.to_multiset() == samples.to_multiset(),
        is_sorted(sorted),
        samples.len() > 0,
    ensures
        plan_of(samples.len(), 0) == QuantilePlan::Interpolate,
        plan_of(samples.len(), ONE_BITS) == QuantilePlan::Interpolate,
        order_statistics_at(sorted, samples.len() - 1) == OrderStatistics::Exact(sorted.last()),
        samples.len() == 1 ==> order_statistics_at(sorted, 0) == OrderStatistics::Exact(sorted[0]),
        samples.len() > 1 ==> order_statistics_at(sorted, 0) == OrderStatistics::Between(
            sorted[0],
            sorted[1],
        ),
        samples.contains(sorted[0]),
        samples.contains(sorted.last()),
        forall|k: int|
            0 <= k < samples.len() ==> total_le(sorted[0], #[trigger] samples[k]) && total_le(
                samples[k],
                sorted.last(),
            ),
{
    lemma_sorted_ends_are_extremes(samples, sorted);
}

/// For ascending samples, the order statistics read at a rank index never
/// come before those read at a smaller one.
pub proof fn lemma_order_statistics_nondecreasing(sorted: Seq<u64>, i: int, j: int)
    requires
        is_sorted(sorted),
        0 <= i <= j < sorted.len(),
    ensures
        total_le(sorted[i], sorted[j]),
        j < sorted.len() - 1 ==> total_le(sorted[i + 1], sorted[j + 1]),
{
}

} // verus!
