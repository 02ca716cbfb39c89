//! Adapter: Windows Shell Links (`.lnk`) → claims keyed by the target volume's serial: the
//! serial itself and the file that was opened from that volume.
use crate::model::{Attribute, Claim, ClaimView, SourceKind, ValueView};
use crate::order::views;
use crate::source::HistorySource;
use crate::sources::shared::{claim_of, text_claim};
use crate::text::{format_volume_serial, owned, volume_serial_text};
use vstd::prelude::*;

verus! {

/// The volume a link's target lived on.
#[derive(Debug, Clone, PartialEq, Eq)]
pub struct VolumeId {
    /// The drive type (removable, fixed, network, …).
    pub drive_type: u32,
    /// The volume serial number (0 when the link did not record one).
    pub drive_serial_number: u32,
    /// The volume label, when recorded.
    pub volume_label: Option<String>,
}

/// The network share a link's target lived on.
#[derive(Debug, Clone, PartialEq, Eq)]
pub struct CommonNetworkRelativeLink {
    /// The share name (`\\server\share`).
    pub net_name: Option<String>,
    /// The mapped device name (`Z:`), when recorded.
    pub device_name: Option<String>,
}

/// A link's `LinkInfo` structure: where its target was.
#[derive(Debug, Clone, PartialEq, Eq)]
pub struct LinkInfo {
    /// The target volume, for a local target.
    pub volume_id: Option<VolumeId>,
    /// The local path of the target.
    pub local_base_path: Option<String>,
    /// The network location of the target.
    pub common_network_relative_link: Option<CommonNetworkRelativeLink>,
}

/// A link's target ID list, rendered as a path.
#[derive(Debug, Clone, PartialEq, Eq)]
pub struct LinkTargetIdList {
    /// The path the shell items spell out, when they resolve to one.
    pub path: Option<String>,
}

/// A decoded Shell Link: what the adapter reads of it.
#[derive(Debug, Clone, PartialEq, Eq)]
pub struct ShellLink {
    /// The target ID list, when present.
    pub link_target_idlist: Option<LinkTargetIdList>,
    /// The `LinkInfo` structure, when present.
    pub link_info: Option<LinkInfo>,
}

/// One decoded `.lnk` file with the path it was read from.
#[derive(Debug, Clone, PartialEq, Eq)]
pub struct LnkArtifact {
    /// The path of the `.lnk` file, used as the claims' locator.
    pub source_path: String,
    /// The decoded link.
    pub link: ShellLink,
}

/// The non-zero volume serial a link records.
pub open spec fn link_serial(link: ShellLink) -> Option<u32> {
    match link.link_info {
        Some(info) => match info.volume_id {
            Some(v) => if v.drive_serial_number != 0 {
                Some(v.drive_serial_number)
            } else {
                None
            },
            None => None,
        },
        None => None,
    }
}

/// The target path a link's `LinkInfo` records: the local base path, else the share name.
pub open spec fn info_path(link: ShellLink) -> Option<Seq<char>> {
    match link.link_info {
        Some(info) => match info.local_base_path {
            Some(p) => Some(p@),
            None => match info.common_network_relative_link {
                Some(c) => match c.net_name {
                    Some(n) => Some(n@),
                    None => None,
                },
                None => None,
            },
        },
        None => None,
    }
}

/// The target path of a link: from `LinkInfo`, else from the ID list; an empty path is
/// no target.
pub open spec fn link_target(link: ShellLink) -> Option<Seq<char>> {
    let candidate = match info_path(link) {
        Some(p) => Some(p),
        None => match link.link_target_idlist {
            Some(t) => match t.path {
                Some(p) => Some(p@),
                None => None,
            },
            None => None,
        },
    };
    match candidate {
        Some(p) => if p.len() > 0 {
            Some(p)
        } else {
            None
        },
        None => None,
    }
}

/// The claims of one link: nothing without a volume serial; else the serial (keyed by
/// itself), then the opened file when the link resolves to a target path.
pub open spec fn link_claims(link: ShellLink, source: SourceKind, locator: Seq<char>) -> Seq<ClaimView> {
    match link_serial(link) {
        None => Seq::empty(),
        Some(serial) => {
            let key = volume_serial_text(serial);
            seq![claim_of(key, Attribute::VolumeSerial, ValueView::Text(key), source, locator)]
                + match link_target(link) {
                Some(p) => seq![claim_of(key, Attribute::AccessedFile, ValueView::Text(p), source, locator)],
                None => Seq::empty(),
            }
        },
    }
}

/// The target path of a link.
fn target_path(link: &ShellLink) -> (r: Option<String>)
    ensures
        r.is_some() == link_target(*link).is_some(),
        r.is_some() ==> r.unwrap()@ == link_target(*link).unwrap(),
{
    let from_info: Option<String> = match &link.link_info {
        Some(info) => match &info.local_base_path {
            Some(p) => Some(p.clone()),
            None => match &info.common_network_relative_link {
                Some(c) => match &c.net_name {
                    Some(n) => Some(n.clone()),
                    None => None,
                },
                None => None,
            },
        },
        None => None,
    };
    let candidate: Option<String> = match from_info {
        Some(p) => Some(p),
        None => match &link.link_target_idlist {
            Some(t) => match &t.path {
                Some(p) => Some(p.clone()),
                None => None,
            },
            None => None,
        },
    };
    match candidate {
        Some(p) => if p.as_str().is_empty() {
            None
        } else {
            Some(p)
        },
        None => None,
    }
}

/// The volume serial of a link, rendered `XXXX-XXXX`; `None` when absent or zero.
pub(crate) fn link_volume_serial(link: &ShellLink) -> (r: Option<String>)
    ensures
        r.is_some() == link_serial(*link).is_some(),
        r.is_some() ==> r.unwrap()@ == volume_serial_text(link_serial(*link).unwrap()),
{
    match &link.link_info {
        Some(info) => match &info.volume_id {
            Some(v) => if v.drive_serial_number != 0 {
                Some(format_volume_serial(v.drive_serial_number))
            } else {
                None
            },
            None => None,
        },
        None => None,
    }
}

/// The claims of one link, with `source` and `locator` as provenance.
pub(crate) fn shell_link_claims(link: &ShellLink, source: SourceKind, locator: &String) -> (r: Vec<Claim>)
    ensures
        views(r@) == link_claims(*link, source, locator@),
{
    let mut out: Vec<Claim> = Vec::new();
    let serial = match link_volume_serial(link) {
        Some(s) => s,
        None => {
            assert(views(out@) =~= link_claims(*link, source, locator@));
            return out;
        },
    };
    out.push(text_claim(&serial, Attribute::VolumeSerial, &serial, source, locator));
    if let Some(path) = target_path(link) {
        out.push(text_claim(&serial, Attribute::AccessedFile, &path, source, locator));
    }
    assert(views(out@) =~= link_claims(*link, source, locator@));
    out
}

/// The claims of the artifacts, in order, each located by its file path.
pub open spec fn lnk_claims(artifacts: Seq<LnkArtifact>) -> Seq<ClaimView>
    decreases artifacts.len(),
{
    if artifacts.len() == 0 {
        Seq::empty()
    } else {
        lnk_claims(artifacts.drop_last()) + link_claims(
            artifacts.last().link,
            SourceKind::Lnk,
            artifacts.last().source_path@,
        )
    }
}

/// Append the claims of one artifact.
fn push_artifact_claims(artifact: &LnkArtifact, out: &mut Vec<Claim>)
    ensures
        views(final(out)@) == views(old(out)@) + link_claims(artifact.link, SourceKind::Lnk, artifact.source_path@),
{
    let ghost before = views(out@);
    let mut batch = shell_link_claims(&artifact.link, SourceKind::Lnk, &artifact.source_path);
    let ghost added = views(batch@);
    out.append(&mut batch);
    assert(views(out@) =~= before + added);
}

/// A [`HistorySource`] over decoded `.lnk` files.
pub struct LnkSource<'a> {
    artifacts: &'a [LnkArtifact],
}

impl<'a> LnkSource<'a> {
    /// The artifacts this source reads.
    pub closed spec fn artifacts(&self) -> Seq<LnkArtifact> {
        self.artifacts@
    }

    /// Wrap decoded `.lnk` artifacts.
    pub fn new(artifacts: &'a [LnkArtifact]) -> (r: Self)
        ensures
            r.artifacts() == artifacts@,
    {
        LnkSource { artifacts }
    }
}

impl<'a> HistorySource for LnkSource<'a> {
    open spec fn claim_views(&self) -> Seq<ClaimView> {
        lnk_claims(self.artifacts())
    }

    /// The claims of every link, in order.
    fn claims(&self) -> (r: Vec<Claim>) {
        let mut out: Vec<Claim> = Vec::new();
        let mut i: usize = 0;
        while i < self.artifacts.len()
            invariant
                i <= self.artifacts@.len(),
                views(out@) == lnk_claims(self.artifacts@.take(i as int)),
            decreases self.artifacts.len() - i,
        {
            push_artifact_claims(&self.artifacts[i], &mut out);
            assert(self.artifacts@.take(i + 1).drop_last() =~= self.artifacts@.take(i as int));
            i = i + 1;
        }
        assert(self.artifacts@.take(self.artifacts@.len() as int) =~= self.artifacts@);
        out
    }
}

} // verus!
