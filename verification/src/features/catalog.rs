//! The feature catalog: an ordered list of capabilities applied together.

use vstd::prelude::*;
use crate::features::common::{
    FeatureFunction, FeatureFunctionReturn, Named, named_values, yields,
};

verus! {

/// The sequences of a list laid end to end, in order.
pub open spec fn concatenation<A>(parts: Seq<Seq<A>>) -> Seq<A>
    decreases parts.len(),
{
    if parts.len() == 0 {
        Seq::empty()
    } else {
        concatenation(parts.drop_last()) + parts.last()
    }
}

/// `out` is what a list of capabilities yields for a series: for every
/// capability a result that it can return for the series, one result after
/// the other in the order of the capabilities.
pub open spec fn catalog_outcome<V, F: FeatureFunction<V>>(
    capabilities: Seq<F>,
    series: Seq<V>,
    out: Named<V>,
) -> bool {
    exists|parts: Seq<Named<V>>| #[trigger]
        applied(capabilities, series, parts) && out == concatenation(parts)
}

/// `parts` holds, for each capability, a result that it can return for the
/// series.
pub open spec fn applied<V, F: FeatureFunction<V>>(
    capabilities: Seq<F>,
    series: Seq<V>,
    parts: Seq<Named<V>>,
) -> bool {
    &&& parts.len() == capabilities.len()
    &&& forall|i: int|
        0 <= i < capabilities.len() ==> yields(capabilities[i], series, #[trigger] parts[i])
}

/// An ordered list of capabilities, applied together as one capability.
#[derive(Debug)]
pub struct Catalog<F> {
    pub capabilities: Vec<F>,
}

impl<F> Catalog<F> {
    /// The catalog of the given capabilities, in the given order.
    pub fn new(capabilities: Vec<F>) -> (catalog: Self)
        ensures
            catalog.capabilities == capabilities,
    {
        Catalog { capabilities }
    }
}

impl<V, F: FeatureFunction<V>> FeatureFunction<V> for Catalog<F> {
    /// Applies every capability to the series, in order, and hands back
    /// their results one after the other.
    fn apply(&self, series: &[V]) -> (out: Vec<FeatureFunctionReturn<V>>)
        ensures
            catalog_outcome(self.capabilities@, series@, named_values(out@)),
    {
        let ghost all = self.capabilities@;
        let mut out: Vec<FeatureFunctionReturn<V>> = Vec::new();
        let ghost mut parts: Seq<Named<V>> = Seq::empty();
        let mut i: usize = 0;
        assert(named_values(out@) =~= concatenation(parts));
        while i < self.capabilities.len()
            invariant
                i <= self.capabilities@.len(),
                all == self.capabilities@,
                applied(all.take(i as int), series@, parts),
                named_values(out@) == concatenation(parts),
            decreases self.capabilities@.len() - i,
        {
            let mut results = self.capabilities[i].apply(series);
            proof {
                let part = named_values(results@);
                assert(yields(all[i as int], series@, part)) by {
                    assert(call_ensures(F::apply, (&all[i as int], series), results));
                }
                let earlier = parts;
                parts = parts.push(part);
                assert(parts.drop_last() =~= earlier);
                assert forall|j: int| 0 <= j < i + 1 implies yields(
                    all.take(i + 1)[j],
                    series@,
                    #[trigger] parts[j],
                ) by {
                    if j < i {
                        assert(all.take(i + 1)[j] == all.take(i as int)[j]);
                        assert(parts[j] == earlier[j]);
                    }
                }
            }
            let ghost before = out@;
            let ghost added = results@;
            out.append(&mut results);
            assert(named_values(out@) =~= named_values(before) + named_values(added));
            i += 1;
        }
        assert(all.take(i as int) =~= all);
        out
    }
}

} // verus!
