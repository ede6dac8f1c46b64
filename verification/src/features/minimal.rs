//! The minimal catalog: ten descriptors, each naming one scalar statistic, and
//! the fixed order in which the catalog reports them.
//!
//! The library carries observations as an opaque value type `V`; it never does
//! arithmetic on them. A descriptor therefore receives the statistic already
//! computed and attaches its canonical name, so that naming and ordering are
//! decided here, once, whatever numeric type is in use.

use vstd::prelude::*;
use crate::features::common::{FeatureFunctionReturn, Named, named_values};

verus! {

/// Builds the single named result a descriptor reports.
fn single<V>(name: &str, value: V) -> (out: Vec<FeatureFunctionReturn<V>>)
    ensures
        named_values(out@) == seq![(name@, value)],
{
    let mut out: Vec<FeatureFunctionReturn<V>> = Vec::new();
    out.push(FeatureFunctionReturn { name: name.to_owned(), value });
    assert(named_values(out@) =~= seq![(name@, value)]);
    out
}

/// Descriptor of the largest absolute value of a series.
#[derive(Debug, Default, Clone, Copy, PartialEq, Eq)]
pub struct AbsoluteMaximum;

impl AbsoluteMaximum {
    /// The descriptor.
    pub fn new() -> (descriptor: Self) {
        AbsoluteMaximum
    }

    /// The canonical identifier, `absolute_maximum`.
    pub fn name(&self) -> (name: String)
        ensures
            name@ == "absolute_maximum"@,
    {
        "absolute_maximum".to_owned()
    }

    /// Reports `value` as this statistic: exactly one result, under the
    /// canonical identifier.
    pub fn apply<V>(&self, value: V) -> (out: Vec<FeatureFunctionReturn<V>>)
        ensures
            named_values(out@) == seq![("absolute_maximum"@, value)],
    {
        single("absolute_maximum", value)
    }
}

/// Descriptor of the arithmetic mean of a series.
#[derive(Debug, Default, Clone, Copy, PartialEq, Eq)]
pub struct Mean;

impl Mean {
    /// The descriptor.
    pub fn new() -> (descriptor: Self) {
        Mean
    }

    /// The canonical identifier, `mean`.
    pub fn name(&self) -> (name: String)
        ensures
            name@ == "mean"@,
    {
        "mean".to_owned()
    }

    /// Reports `value` as this statistic: exactly one result, under the
    /// canonical identifier.
    pub fn apply<V>(&self, value: V) -> (out: Vec<FeatureFunctionReturn<V>>)
        ensures
            named_values(out@) == seq![("mean"@, value)],
    {
        single("mean", value)
    }
}

/// Descriptor of the median of a series.
#[derive(Debug, Default, Clone, Copy, PartialEq, Eq)]
pub struct Median;

impl Median {
    /// The descriptor.
    pub fn new() -> (descriptor: Self) {
        Median
    }

    /// The canonical identifier, `median`.
    pub fn name(&self) -> (name: String)
        ensures
            name@ == "median"@,
    {
        "median".to_owned()
    }

    /// Reports `value` as this statistic: exactly one result, under the
    /// canonical identifier.
    pub fn apply<V>(&self, value: V) -> (out: Vec<FeatureFunctionReturn<V>>)
        ensures
            named_values(out@) == seq![("median"@, value)],
    {
        single("median", value)
    }
}

/// Descriptor of the population variance of a series.
#[derive(Debug, Default, Clone, Copy, PartialEq, Eq)]
pub struct Variance;

impl Variance {
    /// The descriptor.
    pub fn new() -> (descriptor: Self) {
        Variance
    }

    /// The canonical identifier, `variance`.
    pub fn name(&self) -> (name: String)
        ensures
            name@ == "variance"@,
    {
        "variance".to_owned()
    }

    /// Reports `value` as this statistic: exactly one result, under the
    /// canonical identifier.
    pub fn apply<V>(&self, value: V) -> (out: Vec<FeatureFunctionReturn<V>>)
        ensures
            named_values(out@) == seq![("variance"@, value)],
    {
        single("variance", value)
    }
}

/// Descriptor of the standard deviation of a series.
#[derive(Debug, Default, Clone, Copy, PartialEq, Eq)]
pub struct StandardDeviation;

impl StandardDeviation {
    /// The descriptor.
    pub fn new() -> (descriptor: Self) {
        StandardDeviation
    }

    /// The canonical identifier, `standard_deviation`.
    pub fn name(&self) -> (name: String)
        ensures
            name@ == "standard_deviation"@,
    {
        "standard_deviation".to_owned()
    }

    /// Reports `value` as this statistic: exactly one result, under the
    /// canonical identifier.
    pub fn apply<V>(&self, value: V) -> (out: Vec<FeatureFunctionReturn<V>>)
        ensures
            named_values(out@) == seq![("standard_deviation"@, value)],
    {
        single("standard_deviation", value)
    }
}

/// Descriptor of the number of observations in a series.
#[derive(Debug, Default, Clone, Copy, PartialEq, Eq)]
pub struct Length;

impl Length {
    /// The descriptor.
    pub fn new() -> (descriptor: Self) {
        Length
    }

    /// The canonical identifier, `length`.
    pub fn name(&self) -> (name: String)
        ensures
            name@ == "length"@,
    {
        "length".to_owned()
    }

    /// Reports `value` as this statistic: exactly one result, under the
    /// canonical identifier.
    pub fn apply<V>(&self, value: V) -> (out: Vec<FeatureFunctionReturn<V>>)
        ensures
            named_values(out@) == seq![("length"@, value)],
    {
        single("length", value)
    }
}

/// Descriptor of the largest value of a series.
#[derive(Debug, Default, Clone, Copy, PartialEq, Eq)]
pub struct Maximum;

impl Maximum {
    /// The descriptor.
    pub fn new() -> (descriptor: Self) {
        Maximum
    }

    /// The canonical identifier, `maximum`.
    pub fn name(&self) -> (name: String)
        ensures
            name@ == "maximum"@,
    {
        "maximum".to_owned()
    }

    /// Reports `value` as this statistic: exactly one result, under the
    /// canonical identifier.
    pub fn apply<V>(&self, value: V) -> (out: Vec<FeatureFunctionReturn<V>>)
        ensures
            named_values(out@) == seq![("maximum"@, value)],
    {
        single("maximum", value)
    }
}

/// Descriptor of the smallest value of a series.
#[derive(Debug, Default, Clone, Copy, PartialEq, Eq)]
pub struct Minimum;

impl Minimum {
    /// The descriptor.
    pub fn new() -> (descriptor: Self) {
        Minimum
    }

    /// The canonical identifier, `minimum`.
    pub fn name(&self) -> (name: String)
        ensures
            name@ == "minimum"@,
    {
        "minimum".to_owned()
    }

    /// Reports `value` as this statistic: exactly one result, under the
    /// canonical identifier.
    pub fn apply<V>(&self, value: V) -> (out: Vec<FeatureFunctionReturn<V>>)
        ensures
            named_values(out@) == seq![("minimum"@, value)],
    {
        single("minimum", value)
    }
}

/// Descriptor of the root mean square of a series.
#[derive(Debug, Default, Clone, Copy, PartialEq, Eq)]
pub struct RootMeanSquare;

impl RootMeanSquare {
    /// The descriptor.
    pub fn new() -> (descriptor: Self) {
        RootMeanSquare
    }

    /// The canonical identifier, `root_mean_square`.
    pub fn name(&self) -> (name: String)
        ensures
            name@ == "root_mean_square"@,
    {
        "root_mean_square".to_owned()
    }

    /// Reports `value` as this statistic: exactly one result, under the
    /// canonical identifier.
    pub fn apply<V>(&self, value: V) -> (out: Vec<FeatureFunctionReturn<V>>)
        ensures
            named_values(out@) == seq![("root_mean_square"@, value)],
    {
        single("root_mean_square", value)
    }
}

/// Descriptor of the sum of a series.
#[derive(Debug, Default, Clone, Copy, PartialEq, Eq)]
pub struct SumValues;

impl SumValues {
    /// The descriptor.
    pub fn new() -> (descriptor: Self) {
        SumValues
    }

    /// The canonical identifier, `sum_values`.
    pub fn name(&self) -> (name: String)
        ensures
            name@ == "sum_values"@,
    {
        "sum_values".to_owned()
    }

    /// Reports `value` as this statistic: exactly one result, under the
    /// canonical identifier.
    pub fn apply<V>(&self, value: V) -> (out: Vec<FeatureFunctionReturn<V>>)
        ensures
            named_values(out@) == seq![("sum_values"@, value)],
    {
        single("sum_values", value)
    }
}

/// The ten statistics of one series, as computed by the caller.
#[derive(Debug, PartialEq)]
pub struct Statistics<V> {
    pub absolute_maximum: V,
    pub mean: V,
    pub median: V,
    pub variance: V,
    pub standard_deviation: V,
    pub length: V,
    pub maximum: V,
    pub minimum: V,
    pub root_mean_square: V,
    pub sum_values: V,
}

/// What the minimal catalog reports for a series with the given statistics:
/// each statistic under its canonical identifier, in the catalog's order.
pub open spec fn minimal_results<V>(statistics: Statistics<V>) -> Named<V> {
    seq![
        ("absolute_maximum"@, statistics.absolute_maximum),
        ("mean"@, statistics.mean),
        ("median"@, statistics.median),
        ("variance"@, statistics.variance),
        ("standard_deviation"@, statistics.standard_deviation),
        ("length"@, statistics.length),
        ("maximum"@, statistics.maximum),
        ("minimum"@, statistics.minimum),
        ("root_mean_square"@, statistics.root_mean_square),
        ("sum_values"@, statistics.sum_values),
    ]
}

/// The minimal catalog: the ten descriptors applied together, in a fixed
/// order.
#[derive(Debug, Default, Clone, Copy, PartialEq, Eq)]
pub struct MinimalFeatureSet {}

impl MinimalFeatureSet {
    /// The catalog.
    pub fn new() -> (catalog: Self) {
        MinimalFeatureSet {  }
    }

    /// Reports the statistics of one series: the results of the ten
    /// descriptors, one after the other in the catalog's order.
    pub fn apply<V>(&self, statistics: Statistics<V>) -> (out: Vec<FeatureFunctionReturn<V>>)
        ensures
            named_values(out@) == minimal_results(statistics),
    {
        let mut results: Vec<FeatureFunctionReturn<V>> = Vec::new();
        let ghost mut so_far: Named<V> = Seq::empty();
        assert(named_values(results@) =~= so_far);

        let mut next = AbsoluteMaximum::new().apply(statistics.absolute_maximum);
        proof {
            so_far = so_far + named_values(next@);
        }
        results.append(&mut next);
        assert(named_values(results@) =~= so_far);

        let mut next = Mean::new().apply(statistics.mean);
        proof {
            so_far = so_far + named_values(next@);
        }
        results.append(&mut next);
        assert(named_values(results@) =~= so_far);

        let mut next = Median::new().apply(statistics.median);
        proof {
            so_far = so_far + named_values(next@);
        }
        results.append(&mut next);
        assert(named_values(results@) =~= so_far);

        let mut next = Variance::new().apply(statistics.variance);
        proof {
            so_far = so_far + named_values(next@);
        }
        results.append(&mut next);
        assert(named_values(results@) =~= so_far);

        let mut next = StandardDeviation::new().apply(statistics.standard_deviation);
        proof {
            so_far = so_far + named_values(next@);
        }
        results.append(&mut next);
        assert(named_values(results@) =~= so_far);

        let mut next = Length::new().apply(statistics.length);
        proof {
            so_far = so_far + named_values(next@);
        }
        results.append(&mut next);
        assert(named_values(results@) =~= so_far);

        let mut next = Maximum::new().apply(statistics.maximum);
        proof {
            so_far = so_far + named_values(next@);
        }
        results.append(&mut next);
        assert(named_values(results@) =~= so_far);

        let mut next = Minimum::new().apply(statistics.minimum);
        proof {
            so_far = so_far + named_values(next@);
        }
        results.append(&mut next);
        assert(named_values(results@) =~= so_far);

        let mut next = RootMeanSquare::new().apply(statistics.root_mean_square);
        proof {
            so_far = so_far + named_values(next@);
        }
        results.append(&mut next);
        assert(named_values(results@) =~= so_far);

        let mut next = SumValues::new().apply(statistics.sum_values);
        proof {
            so_far = so_far + named_values(next@);
        }
        results.append(&mut next);
        assert(named_values(results@) =~= so_far);

        assert(so_far =~= minimal_results(statistics));
        results
    }
}

/// Number of observations in a series.
pub fn length<V>(series: &[V]) -> (n: usize)
    ensures
        n == series@.len(),
{
    series.len()
}

} // verus!
