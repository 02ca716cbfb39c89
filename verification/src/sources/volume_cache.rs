//! Adapter: Windows Search `VolumeInfoCache` volume labels → claims keyed by drive letter.
//! `reconcile_volume_serials` then re-keys each label onto the device mounted at that
//! letter, so a volume's label joins the device's history.
use crate::model::{Attribute, Claim, ClaimView, SourceKind, ValueView};
use crate::order::views;
use crate::source::HistorySource;
use crate::sources::shared::{claim_of, locator_of, origin_locator, text_claim, RecordOrigin};
use vstd::prelude::*;

verus! {

/// A volume label cached under `VolumeInfoCache\<letter>:`.
#[derive(Debug, Clone, PartialEq, Eq)]
pub struct VolumeLabel {
    /// The drive letter the volume was mounted at.
    pub drive_letter: char,
    /// The volume's label.
    pub volume_label: String,
    /// Where the record was read.
    pub source: RecordOrigin,
}

/// The claim a label contributes: its name, keyed by `<letter>:`.
pub open spec fn label_claim(label: VolumeLabel) -> ClaimView {
    claim_of(
        seq![label.drive_letter, ':'],
        Attribute::VolumeName,
        ValueView::Text(label.volume_label@),
        SourceKind::VolumeInfoCache,
        origin_locator(label.source),
    )
}

/// A [`HistorySource`] over decoded `VolumeInfoCache` labels.
pub struct VolumeCacheSource<'a> {
    labels: &'a [VolumeLabel],
}

impl<'a> VolumeCacheSource<'a> {
    /// The labels this source reads.
    pub closed spec fn labels(&self) -> Seq<VolumeLabel> {
        self.labels@
    }

    /// Wrap decoded volume labels.
    pub fn new(labels: &'a [VolumeLabel]) -> (r: Self)
        ensures
            r.labels() == labels@,
    {
        VolumeCacheSource { labels }
    }
}

impl<'a> HistorySource for VolumeCacheSource<'a> {
    open spec fn claim_views(&self) -> Seq<ClaimView> {
        self.labels().map_values(|l: VolumeLabel| label_claim(l))
    }

    /// One `VolumeName` claim per label, keyed by its drive letter, in order.
    fn claims(&self) -> (r: Vec<Claim>) {
        let mut out: Vec<Claim> = Vec::new();
        let mut i: usize = 0;
        while i < self.labels.len()
            invariant
                i <= self.labels@.len(),
                views(out@) == self.labels@.take(i as int).map_values(|l: VolumeLabel| label_claim(l)),
            decreases self.labels.len() - i,
        {
            let label = &self.labels[i];
            let mut device = String::new();
            crate::text::push_char(&mut device, label.drive_letter);
            crate::text::push_char(&mut device, ':');
            let locator = locator_of(&label.source);
            let ghost before = views(out@);
            let c = text_claim(&device, Attribute::VolumeName, &label.volume_label, SourceKind::VolumeInfoCache, &locator);
            out.push(c);
            proof {
                assert(device@ =~= seq![label.drive_letter, ':']);
                assert(c@ == label_claim(*label));
                assert(views(out@) =~= before.push(c@));
                assert(views(out@) =~= self.labels@.take(i + 1).map_values(|l: VolumeLabel| label_claim(l)));
            }
            i = i + 1;
        }
        assert(self.labels@.take(self.labels@.len() as int) =~= self.labels@);
        out
    }
}

} // verus!
