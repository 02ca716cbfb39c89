//! Adapter: Jump Lists (`*.automaticDestinations-ms`) → claims. Each entry embeds a full
//! Shell Link, read exactly as a `.lnk` is; an entry's DestList last-access time, when
//! recorded, is also a `LastConnected` witness for the volume the target lived on.
use crate::model::{Attribute, Claim, ClaimView, SourceKind, ValueView};
use crate::order::views;
use crate::source::HistorySource;
use crate::sources::lnk::{link_claims, link_serial, link_volume_serial, shell_link_claims, ShellLink};
use crate::sources::shared::{claim_of, time_claim};
use crate::text::{decimal, push_char, push_count, push_str, volume_serial_text};
use vstd::prelude::*;

verus! {

/// An entry's DestList record.
#[derive(Debug, Clone, PartialEq, Eq)]
pub struct DestListEntry {
    /// When the target was last accessed, epoch seconds UTC (0 when unrecorded).
    pub last_access: i64,
}

/// One Jump List entry: an embedded Shell Link with its DestList record.
#[derive(Debug, Clone, PartialEq, Eq)]
pub struct JumpListEntry {
    /// The DestList record, when the list has one for this entry.
    pub destlist: Option<DestListEntry>,
    /// The embedded link.
    pub link: ShellLink,
}

/// A decoded Jump List.
#[derive(Debug, Clone, PartialEq, Eq)]
pub struct JumpList {
    /// Its entries, in stream order.
    pub entries: Vec<JumpListEntry>,
}

/// One decoded Jump List with the path it was read from.
#[derive(Debug, Clone, PartialEq, Eq)]
pub struct JumpListArtifact {
    /// The path of the Jump List file.
    pub source_path: String,
    /// The decoded list.
    pub list: JumpList,
}

/// The locator of entry `idx` of the list at `path`: `path#idx`.
pub open spec fn entry_locator(path: Seq<char>, idx: nat) -> Seq<char> {
    path + seq!['#'] + decimal(idx)
}

/// The claims of one entry: its link's claims, then a `LastConnected` claim keyed by the
/// link's volume serial when the DestList records a non-zero access time.
pub open spec fn entry_claims(e: JumpListEntry, locator: Seq<char>) -> Seq<ClaimView> {
    link_claims(e.link, SourceKind::JumpList, locator) + match e.destlist {
        Some(d) => if d.last_access != 0 {
            match link_serial(e.link) {
                Some(serial) => seq![
                    claim_of(
                        volume_serial_text(serial),
                        Attribute::LastConnected,
                        ValueView::Timestamp(d.last_access),
                        SourceKind::JumpList,
                        locator,
                    ),
                ],
                None => Seq::empty(),
            }
        } else {
            Seq::empty()
        },
        None => Seq::empty(),
    }
}

/// The claims of a list's entries, in order, entry `i` located at `path#i`.
pub open spec fn entries_claims(path: Seq<char>, entries: Seq<JumpListEntry>) -> Seq<ClaimView>
    decreases entries.len(),
{
    if entries.len() == 0 {
        Seq::empty()
    } else {
        entries_claims(path, entries.drop_last()) + entry_claims(
            entries.last(),
            entry_locator(path, (entries.len() - 1) as nat),
        )
    }
}

/// The claims of the artifacts, in order.
pub open spec fn jumplist_claims(artifacts: Seq<JumpListArtifact>) -> Seq<ClaimView>
    decreases artifacts.len(),
{
    if artifacts.len() == 0 {
        Seq::empty()
    } else {
        jumplist_claims(artifacts.drop_last()) + entries_claims(
            artifacts.last().source_path@,
            artifacts.last().list.entries@,
        )
    }
}

/// Append the claims of one entry.
fn push_entry(out: &mut Vec<Claim>, entry: &JumpListEntry, locator: &String)
    ensures
        views(final(out)@) == views(old(out)@) + entry_claims(*entry, locator@),
{
    let ghost before = views(out@);
    let mut batch = shell_link_claims(&entry.link, SourceKind::JumpList, locator);
    let ghost added = views(batch@);
    out.append(&mut batch);
    assert(views(out@) =~= before + added);
    let ghost mid = views(out@);
    if let Some(destlist) = &entry.destlist {
        if destlist.last_access != 0 {
            if let Some(serial) = link_volume_serial(&entry.link) {
                out.push(time_claim(&serial, Attribute::LastConnected, destlist.last_access, SourceKind::JumpList, locator));
            }
        }
    }
    assert(views(out@) =~= before + entry_claims(*entry, locator@));
}

/// A [`HistorySource`] over decoded Jump Lists.
pub struct JumpListSource<'a> {
    artifacts: &'a [JumpListArtifact],
}

impl<'a> JumpListSource<'a> {
    /// The artifacts this source reads.
    pub closed spec fn artifacts(&self) -> Seq<JumpListArtifact> {
        self.artifacts@
    }

    /// Wrap decoded Jump List artifacts.
    pub fn new(artifacts: &'a [JumpListArtifact]) -> (r: Self)
        ensures
            r.artifacts() == artifacts@,
    {
        JumpListSource { artifacts }
    }
}

impl<'a> HistorySource for JumpListSource<'a> {
    open spec fn claim_views(&self) -> Seq<ClaimView> {
        jumplist_claims(self.artifacts())
    }

    /// The claims of every entry of every list, in order.
    fn claims(&self) -> (r: Vec<Claim>) {
        let mut out: Vec<Claim> = Vec::new();
        let mut i: usize = 0;
        while i < self.artifacts.len()
            invariant
                i <= self.artifacts@.len(),
                views(out@) == jumplist_claims(self.artifacts@.take(i as int)),
            decreases self.artifacts.len() - i,
        {
            let artifact = &self.artifacts[i];
            let ghost head = views(out@);
            let entries = &artifact.list.entries;
            let mut k: usize = 0;
            while k < entries.len()
                invariant
                    k <= entries@.len(),
                    views(out@) == head + entries_claims(artifact.source_path@, entries@.take(k as int)),
                decreases entries.len() - k,
            {
                let mut locator = String::new();
                push_str(&mut locator, artifact.source_path.as_str());
                push_char(&mut locator, '#');
                push_count(&mut locator, k);
                assert(locator@ =~= entry_locator(artifact.source_path@, k as nat));
                push_entry(&mut out, &entries[k], &locator);
                assert(entries@.take(k + 1).drop_last() =~= entries@.take(k as int));
                k = k + 1;
            }
            assert(entries@.take(entries@.len() as int) =~= entries@);
            assert(self.artifacts@.take(i + 1).drop_last() =~= self.artifacts@.take(i as int));
            i = i + 1;
        }
        assert(self.artifacts@.take(self.artifacts@.len() as int) =~= self.artifacts@);
        out
    }
}

} // verus!
