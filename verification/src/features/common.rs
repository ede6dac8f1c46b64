//! The interface every feature capability satisfies.

use vstd::prelude::*;

verus! {

/// One named scalar produced by a feature capability.
#[derive(Debug, PartialEq)]
pub struct FeatureFunctionReturn<V> {
    pub name: String,
    pub value: V,
}

/// The content of a list of named values: each name, as a sequence of
/// characters, paired with its value.
pub type Named<V> = Seq<(Seq<char>, V)>;

/// The content of a list of group results: each id with its named values.
pub type Grouped<V> = Seq<(Seq<char>, Named<V>)>;

/// The content of a list of results.
pub open spec fn named_values<V>(results: Seq<FeatureFunctionReturn<V>>) -> Named<V> {
    results.map_values(|r: FeatureFunctionReturn<V>| (r.name@, r.value))
}

/// The content of a list of named values.
pub open spec fn pairs<V>(features: Seq<(String, V)>) -> Named<V> {
    features.map_values(|p: (String, V)| (p.0@, p.1))
}

/// The content of a list of group results: each id with its named values.
pub open spec fn groups<V>(results: Seq<(String, Vec<(String, V)>)>) -> Grouped<V> {
    results.map_values(|g: (String, Vec<(String, V)>)| (g.0@, pairs(g.1@)))
}

/// A feature capability: a pure function from a series of observations to
/// zero or more named scalars.
///
/// The library is generic in the observation type `V` and never inspects a
/// value, so the numeric work of a capability is supplied by its implementor.
/// An implementation must accept every series, the empty one included, and
/// leave it untouched. One that is itself verified states what it returns in
/// the `ensures` of its `apply`; the contracts of the extraction pipeline
/// speak of a capability through [`yields`] and so carry that statement on.
pub trait FeatureFunction<V> {
    /// Computes the capability on `series`.
    fn apply(&self, series: &[V]) -> Vec<FeatureFunctionReturn<V>>;
}

/// `out` is the content of a result that the capability can return when it
/// is applied to a series of the given content.
pub open spec fn yields<V, F: FeatureFunction<V>>(
    catalog: F,
    series: Seq<V>,
    out: Named<V>,
) -> bool {
    exists|observations: &[V], results: Vec<FeatureFunctionReturn<V>>|
        observations@ == series && named_values(results@) == out && #[trigger] call_ensures(
            F::apply,
            (&catalog, observations),
            results,
        )
}

} // verus!
