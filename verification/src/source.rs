//! The [`HistorySource`] contract: the integration point every adapter implements.
use crate::correlate::{correlate, is_correlation, law_correlation_depends_only_on_the_claims, DeviceHistory, DeviceHistoryView};
use crate::model::{Claim, ClaimView};
use crate::order::views;
use vstd::prelude::*;

verus! {

/// A source of USB-history claims — one thin adapter over one reader's output.
pub trait HistorySource {
    /// The claims this source contributes, in emission order. An implementation states
    /// them; one that does not leaves them unknown, so nothing follows about its claims.
    open spec fn claim_views(&self) -> Seq<ClaimView> {
        vstd::pervasive::arbitrary()
    }

    /// Emit every atomic claim this source can contribute.
    fn claims(&self) -> (r: Vec<Claim>)
        ensures
            views(r@) == self.claim_views(),
    ;
}

/// The claims of every source, concatenated in source order.
pub open spec fn all_claims(sources: Seq<&dyn HistorySource>) -> Seq<ClaimView>
    decreases sources.len(),
{
    if sources.len() == 0 {
        Seq::empty()
    } else {
        all_claims(sources.drop_last()) + sources.last().claim_views()
    }
}

/// Gather claims from many sources and correlate them into per-device histories.
pub fn correlate_sources(sources: &[&dyn HistorySource]) -> (r: Vec<DeviceHistory>)
    ensures
        is_correlation(all_claims(sources@), views(r@)),
{
    let mut all: Vec<Claim> = Vec::new();
    let mut i: usize = 0;
    while i < sources.len()
        invariant
            i <= sources.len(),
            views(all@) == all_claims(sources@.take(i as int)),
        decreases sources.len() - i,
    {
        let mut batch = sources[i].claims();
        let ghost before = views(all@);
        all.append(&mut batch);
        proof {
            assert(sources@.take(i + 1).drop_last() =~= sources@.take(i as int));
            assert(views(all@) =~= before + sources@[i as int].claim_views());
        }
        i = i + 1;
    }
    assert(sources@.take(sources.len() as int) =~= sources@);
    correlate(all.as_slice())
}

/// Correlating many sources is correlating their claims concatenated in source order:
/// any correlation of the sources' claims equals any correlation of that concatenation.
pub proof fn law_sources_correlate_as_their_concatenation(
    sources: Seq<&dyn HistorySource>,
    claims: Seq<ClaimView>,
    o1: Seq<DeviceHistoryView>,
    o2: Seq<DeviceHistoryView>,
)
    requires
        claims == all_claims(sources),
        is_correlation(all_claims(sources), o1),
        is_correlation(claims, o2),
    ensures
        o1 == o2,
{
    law_correlation_depends_only_on_the_claims(all_claims(sources), claims, o1, o2);
}

} // verus!
