//! Adapter: a user's shellbags (folders browsed in Explorer) → claims keyed by the drive
//! letter of the browsed volume. `reconcile_volume_serials` then re-keys each browsed
//! folder onto the device mounted at that letter.
use crate::model::{Attribute, Claim, ClaimView, SourceKind, ValueView};
use crate::order::views;
use crate::source::HistorySource;
use crate::sources::shared::{claim_of, locator_of, origin_locator, text_claim, RecordOrigin};
use vstd::prelude::*;

verus! {

/// A folder a user browsed, decoded from a `BagMRU` shell item path.
#[derive(Debug, Clone, PartialEq, Eq)]
pub struct ShellbagEntry {
    /// The browsed path as Explorer rendered it.
    pub path: String,
    /// The drive letter of the volume, when the path names one cleanly.
    pub drive_letter: Option<char>,
    /// The key's last write time, epoch seconds UTC.
    pub last_write: Option<i64>,
    /// Where the record was read.
    pub source: RecordOrigin,
}

/// The claims of one entry: with a drive letter, the letter and the browsed folder,
/// both keyed by `<letter>:`; without one, nothing.
pub open spec fn entry_claims(e: ShellbagEntry) -> Seq<ClaimView> {
    match e.drive_letter {
        Some(d) => {
            let key = seq![d, ':'];
            seq![
                claim_of(key, Attribute::DriveLetter, ValueView::Text(key), SourceKind::Shellbag, origin_locator(e.source)),
                claim_of(key, Attribute::BrowsedFolder, ValueView::Text(e.path@), SourceKind::Shellbag, origin_locator(e.source)),
            ]
        },
        None => Seq::empty(),
    }
}

/// The claims of the entries, in order.
pub open spec fn shellbag_claims(entries: Seq<ShellbagEntry>) -> Seq<ClaimView>
    decreases entries.len(),
{
    if entries.len() == 0 {
        Seq::empty()
    } else {
        shellbag_claims(entries.drop_last()) + entry_claims(entries.last())
    }
}

/// A [`HistorySource`] over decoded shellbag entries.
pub struct ShellbagSource<'a> {
    entries: &'a [ShellbagEntry],
}

impl<'a> ShellbagSource<'a> {
    /// The entries this source reads.
    pub closed spec fn entries(&self) -> Seq<ShellbagEntry> {
        self.entries@
    }

    /// Wrap decoded shellbag entries.
    pub fn new(entries: &'a [ShellbagEntry]) -> (r: Self)
        ensures
            r.entries() == entries@,
    {
        ShellbagSource { entries }
    }
}

impl<'a> HistorySource for ShellbagSource<'a> {
    open spec fn claim_views(&self) -> Seq<ClaimView> {
        shellbag_claims(self.entries())
    }

    /// Per entry with a drive letter: a `DriveLetter` claim and a `BrowsedFolder` claim,
    /// both keyed by `<letter>:`. An entry with no clean drive letter has no join key
    /// and contributes nothing.
    fn claims(&self) -> (r: Vec<Claim>) {
        let mut out: Vec<Claim> = Vec::new();
        let mut i: usize = 0;
        while i < self.entries.len()
            invariant
                i <= self.entries@.len(),
                views(out@) == shellbag_claims(self.entries@.take(i as int)),
            decreases self.entries.len() - i,
        {
            let entry = &self.entries[i];
            let ghost before = views(out@);
            if let Some(d) = entry.drive_letter {
                let mut key = String::new();
                crate::text::push_char(&mut key, d);
                crate::text::push_char(&mut key, ':');
                let locator = locator_of(&entry.source);
                out.push(text_claim(&key, Attribute::DriveLetter, &key, SourceKind::Shellbag, &locator));
                out.push(text_claim(&key, Attribute::BrowsedFolder, &entry.path, SourceKind::Shellbag, &locator));
                assert(key@ =~= seq![d, ':']);
            }
            proof {
                assert(self.entries@.take(i + 1).drop_last() =~= self.entries@.take(i as int));
                assert(views(out@) =~= before + entry_claims(*entry));
            }
            i = i + 1;
        }
        assert(self.entries@.take(self.entries@.len() as int) =~= self.entries@);
        out
    }
}

} // verus!
