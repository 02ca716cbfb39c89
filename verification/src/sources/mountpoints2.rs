//! Adapter: a user's `MountPoints2` volume mounts → `LastConnected` claims keyed by the
//! volume GUID (the key's last write time is when the user last mounted the volume).
use crate::model::{Attribute, Claim, ClaimView, SourceKind, ValueView};
use crate::order::views;
use crate::source::HistorySource;
use crate::sources::shared::{claim_of, locator_of, origin_locator, time_claim, RecordOrigin};
use vstd::prelude::*;

verus! {

/// A volume a user mounted, from their `NTUSER.DAT` `MountPoints2` key.
#[derive(Debug, Clone, PartialEq, Eq)]
pub struct UserMount {
    /// The volume GUID (`{…}`).
    pub volume_guid: String,
    /// When the user last mounted it (the key's last write), epoch seconds UTC.
    pub last_mounted: Option<i64>,
    /// Where the record was read.
    pub source: RecordOrigin,
}

/// The claims of the mounts: one `LastConnected` per mount that has a time, in order.
pub open spec fn mount_claims(mounts: Seq<UserMount>) -> Seq<ClaimView>
    decreases mounts.len(),
{
    if mounts.len() == 0 {
        Seq::empty()
    } else {
        let m = mounts.last();
        mount_claims(mounts.drop_last()) + match m.last_mounted {
            Some(when) => seq![
                claim_of(
                    m.volume_guid@,
                    Attribute::LastConnected,
                    ValueView::Timestamp(when),
                    SourceKind::MountPoints2,
                    origin_locator(m.source),
                ),
            ],
            None => Seq::empty(),
        }
    }
}

/// A [`HistorySource`] over decoded `MountPoints2` mounts.
pub struct MountPoints2Source<'a> {
    mounts: &'a [UserMount],
}

impl<'a> MountPoints2Source<'a> {
    /// The mounts this source reads.
    pub closed spec fn mounts(&self) -> Seq<UserMount> {
        self.mounts@
    }

    /// Wrap decoded mounts.
    pub fn new(mounts: &'a [UserMount]) -> (r: Self)
        ensures
            r.mounts() == mounts@,
    {
        MountPoints2Source { mounts }
    }
}

impl<'a> HistorySource for MountPoints2Source<'a> {
    open spec fn claim_views(&self) -> Seq<ClaimView> {
        mount_claims(self.mounts())
    }

    /// A `LastConnected` claim per timed mount, keyed by the volume GUID; an untimed
    /// mount contributes nothing.
    fn claims(&self) -> (r: Vec<Claim>) {
        let mut out: Vec<Claim> = Vec::new();
        let mut i: usize = 0;
        while i < self.mounts.len()
            invariant
                i <= self.mounts@.len(),
                views(out@) == mount_claims(self.mounts@.take(i as int)),
            decreases self.mounts.len() - i,
        {
            let mount = &self.mounts[i];
            proof {
                assert(self.mounts@.take(i + 1).drop_last() =~= self.mounts@.take(i as int));
            }
            if let Some(when) = mount.last_mounted {
                let locator = locator_of(&mount.source);
                let c = time_claim(&mount.volume_guid, Attribute::LastConnected, when, SourceKind::MountPoints2, &locator);
                out.push(c);
            }
            proof {
                assert(views(out@) =~= mount_claims(self.mounts@.take(i + 1)));
            }
            i = i + 1;
        }
        assert(self.mounts@.take(self.mounts@.len() as int) =~= self.mounts@);
        out
    }
}

} // verus!
