//! Adapter: ReadyBoost `EMDMgmt` volume records → claims keyed by the volume serial. The
//! serial (`XXXX-XXXX`) is the same key `.lnk` files carry, so the two sources join.
use crate::model::{Attribute, Claim, ClaimView, SourceKind, ValueView};
use crate::order::views;
use crate::source::HistorySource;
use crate::sources::shared::{claim_of, locator_of, origin_locator, text_claim, RecordOrigin};
use crate::text::{format_volume_serial, volume_serial_text};
use vstd::prelude::*;

verus! {

/// A volume ReadyBoost recorded under `EMDMgmt`.
#[derive(Debug, Clone, PartialEq, Eq)]
pub struct EmdVolume {
    /// The volume label (empty when the volume had none).
    pub volume_label: String,
    /// The 4-byte volume serial number.
    pub volume_serial: u32,
    /// Where the record was read.
    pub source: RecordOrigin,
}

/// The claims of one volume: its serial, then its label when it has one.
pub open spec fn volume_claims(v: EmdVolume) -> Seq<ClaimView> {
    let serial = volume_serial_text(v.volume_serial);
    let locator = origin_locator(v.source);
    seq![
        claim_of(serial, Attribute::VolumeSerial, ValueView::Text(serial), SourceKind::EmdMgmt, locator),
    ] + if v.volume_label@.len() > 0 {
        seq![
            claim_of(
                serial,
                Attribute::VolumeName,
                ValueView::Text(v.volume_label@),
                SourceKind::EmdMgmt,
                locator,
            ),
        ]
    } else {
        Seq::empty()
    }
}

/// The claims of the volumes, in order.
pub open spec fn emd_claims(vols: Seq<EmdVolume>) -> Seq<ClaimView>
    decreases vols.len(),
{
    if vols.len() == 0 {
        Seq::empty()
    } else {
        emd_claims(vols.drop_last()) + volume_claims(vols.last())
    }
}

/// A [`HistorySource`] over decoded `EMDMgmt` volumes.
pub struct EmdMgmtSource<'a> {
    volumes: &'a [EmdVolume],
}

impl<'a> EmdMgmtSource<'a> {
    /// The volumes this source reads.
    pub closed spec fn volumes(&self) -> Seq<EmdVolume> {
        self.volumes@
    }

    /// Wrap decoded `EMDMgmt` volumes.
    pub fn new(volumes: &'a [EmdVolume]) -> (r: Self)
        ensures
            r.volumes() == volumes@,
    {
        EmdMgmtSource { volumes }
    }
}

impl<'a> HistorySource for EmdMgmtSource<'a> {
    open spec fn claim_views(&self) -> Seq<ClaimView> {
        emd_claims(self.volumes())
    }

    /// Per volume: a `VolumeSerial` claim keyed by the serial, and a `VolumeName` claim
    /// when the volume carries a label.
    fn claims(&self) -> (r: Vec<Claim>) {
        let mut out: Vec<Claim> = Vec::new();
        let mut i: usize = 0;
        while i < self.volumes.len()
            invariant
                i <= self.volumes@.len(),
                views(out@) == emd_claims(self.volumes@.take(i as int)),
            decreases self.volumes.len() - i,
        {
            let vol = &self.volumes[i];
            let ghost before = views(out@);
            let serial = format_volume_serial(vol.volume_serial);
            let locator = locator_of(&vol.source);
            out.push(text_claim(&serial, Attribute::VolumeSerial, &serial, SourceKind::EmdMgmt, &locator));
            if !vol.volume_label.as_str().is_empty() {
                out.push(text_claim(&serial, Attribute::VolumeName, &vol.volume_label, SourceKind::EmdMgmt, &locator));
            }
            proof {
                assert(self.volumes@.take(i + 1).drop_last() =~= self.volumes@.take(i as int));
                assert(views(out@) =~= before + volume_claims(*vol));
            }
            i = i + 1;
        }
        assert(self.volumes@.take(self.volumes@.len() as int) =~= self.volumes@);
        out
    }
}

} // verus!
