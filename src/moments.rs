use vstd::prelude::*;

verus! {

/// The divisor of the mean and of the population variance computed from the
/// samples alone: their count, or none when there are no samples, in which
/// case neither statistic has a value.
pub fn sample_divisor(sample_count: usize) -> (r: Option<usize>)
    ensures
        sample_count == 0 ==> r == None::<usize>,
        sample_count > 0 ==> r == Some(sample_count),
{
    if sample_count > 0 {
        Some(sample_count)
    } else {
        None
    }
}

/// The divisor of the population variance around a mean supplied by the
/// caller together with a count. The count only guards: when it is not
/// positive the variance has no value; otherwise the divisor is the number of
/// samples actually given, whatever the count says.
pub fn known_mean_divisor(sample_count: usize, count: i64) -> (r: Option<usize>)
    ensures
        count <= 0 ==> r == None::<usize>,
        count > 0 ==> r == Some(sample_count),
{
    if count > 0 {
        Some(sample_count)
    } else {
        None
    }
}

} // verus!
