//! Adapter: `Microsoft-Windows-Partition/Diagnostic` event 1006 records → claims. The
//! event fires on every storage attach, so it witnesses a connection time and, where the
//! provider captured the volume boot record, the volume serial.
use crate::model::{Attribute, Claim, ClaimView, SourceKind, ValueView};
use crate::order::views;
use crate::source::HistorySource;
use crate::sources::shared::{claim_of, parse_timestamp, text_claim, time_claim, timestamp_seconds};
use crate::text::{format_volume_serial, hex_fixed, push_char, push_hex, push_str, volume_serial_text};
use vstd::prelude::*;

verus! {

/// A decoded Partition/Diagnostic 1006 event.
#[derive(Debug, Clone, PartialEq, Eq)]
pub struct PartitionDiagEvent {
    /// `System/TimeCreated` as the provider wrote it (ISO 8601 UTC).
    pub timestamp: String,
    /// The event id (1006).
    pub event_id: u32,
    /// The disk number, when present.
    pub disk_number: Option<u32>,
    /// The storage bus type, when present (7 is USB).
    pub bus_type: Option<u32>,
    /// The device model string, when present.
    pub model: Option<String>,
    /// The device serial number (sometimes logged empty).
    pub serial_number: Option<String>,
    /// The disk GUID.
    pub disk_id: Option<String>,
    /// The capacity in bytes, when present.
    pub capacity: Option<u64>,
    /// The parent instance id, when present.
    pub parent_id: Option<String>,
    /// The first volume boot record, hex-encoded, when captured.
    pub vbr0_hex: Option<String>,
    /// The 4-byte FAT/exFAT volume serial read from that record.
    pub fat_volume_serial: Option<u32>,
    /// The 8-byte NTFS volume serial read from that record.
    pub ntfs_volume_serial: Option<u64>,
}

/// The device key of an event: its serial number when non-empty, else its disk GUID.
pub open spec fn diag_device(e: PartitionDiagEvent) -> Option<Seq<char>> {
    match e.serial_number {
        Some(s) if s@.len() > 0 => Some(s@),
        _ => match e.disk_id {
            Some(d) => Some(d@),
            None => None,
        },
    }
}

/// The locator of an event: the channel, event id and disk GUID (`?` when absent).
pub open spec fn diag_locator(e: PartitionDiagEvent) -> Seq<char> {
    "Microsoft-Windows-Partition/Diagnostic#1006 DiskId="@ + match e.disk_id {
        Some(d) => d@,
        None => "?"@,
    }
}

/// The rendered volume serial of an event: FAT as `XXXX-XXXX`, else NTFS as
/// `XXXXXXXX-XXXXXXXX` (a distinct form, so it never collides with a 4-byte serial).
pub open spec fn diag_volume_serial(e: PartitionDiagEvent) -> Option<Seq<char>> {
    match e.fat_volume_serial {
        Some(fat) => Some(volume_serial_text(fat)),
        None => match e.ntfs_volume_serial {
            Some(ntfs) => Some(
                hex_fixed((ntfs / 0x1_0000_0000) as nat, 8) + seq!['-'] + hex_fixed(
                    (ntfs % 0x1_0000_0000) as nat,
                    8,
                ),
            ),
            None => None,
        },
    }
}

/// The claims of one event whose timestamp reads as `when`: none without an identity;
/// else a `LastConnected` claim when there is a time, then a `VolumeSerial` claim when a
/// serial was read.
pub open spec fn diag_claims_at(e: PartitionDiagEvent, when: Option<i64>) -> Seq<ClaimView> {
    match diag_device(e) {
        None => Seq::empty(),
        Some(device) => {
            let loc = diag_locator(e);
            (match when {
                Some(t) => seq![
                    claim_of(device, Attribute::LastConnected, ValueView::Timestamp(t), SourceKind::PartitionDiag, loc),
                ],
                None => Seq::empty(),
            }) + match diag_volume_serial(e) {
                Some(serial) => seq![
                    claim_of(device, Attribute::VolumeSerial, ValueView::Text(serial), SourceKind::PartitionDiag, loc),
                ],
                None => Seq::empty(),
            }
        },
    }
}

/// The claims of one event, at its timestamp as parsed.
pub open spec fn diag_claims(e: PartitionDiagEvent) -> Seq<ClaimView> {
    diag_claims_at(e, timestamp_seconds(e.timestamp@))
}

/// The claims of the events, in order.
pub open spec fn diag_event_claims(events: Seq<PartitionDiagEvent>) -> Seq<ClaimView>
    decreases events.len(),
{
    if events.len() == 0 {
        Seq::empty()
    } else {
        diag_event_claims(events.drop_last()) + diag_claims(events.last())
    }
}

/// The device key of an event.
fn device_key(event: &PartitionDiagEvent) -> (r: Option<String>)
    ensures
        r.is_some() == diag_device(*event).is_some(),
        r.is_some() ==> r.unwrap()@ == diag_device(*event).unwrap(),
{
    match &event.serial_number {
        Some(s) if !s.as_str().is_empty() => Some(s.clone()),
        _ => match &event.disk_id {
            Some(d) => Some(d.clone()),
            None => None,
        },
    }
}

/// The rendered volume serial of an event.
fn volume_serial_string(event: &PartitionDiagEvent) -> (r: Option<String>)
    ensures
        r.is_some() == diag_volume_serial(*event).is_some(),
        r.is_some() ==> r.unwrap()@ == diag_volume_serial(*event).unwrap(),
{
    if let Some(fat) = event.fat_volume_serial {
        return Some(format_volume_serial(fat));
    }
    match event.ntfs_volume_serial {
        Some(ntfs) => {
            let mut out = String::new();
            push_hex(&mut out, ntfs / 0x1_0000_0000, 8);
            push_char(&mut out, '-');
            push_hex(&mut out, ntfs % 0x1_0000_0000, 8);
            Some(out)
        },
        None => None,
    }
}

/// The claims of one event given its parsed timestamp.
pub fn event_claims_at(event: &PartitionDiagEvent, when: Option<i64>) -> (r: Vec<Claim>)
    ensures
        views(r@) == diag_claims_at(*event, when),
{
    let mut out: Vec<Claim> = Vec::new();
    let device = match device_key(event) {
        Some(d) => d,
        None => {
            assert(views(out@) =~= diag_claims_at(*event, when));
            return out;
        },
    };
    let mut locator = String::new();
    push_str(&mut locator, "Microsoft-Windows-Partition/Diagnostic#1006 DiskId=");
    match &event.disk_id {
        Some(d) => push_str(&mut locator, d.as_str()),
        None => push_str(&mut locator, "?"),
    }
    assert(locator@ =~= diag_locator(*event));
    if let Some(t) = when {
        out.push(time_claim(&device, Attribute::LastConnected, t, SourceKind::PartitionDiag, &locator));
    }
    if let Some(serial) = volume_serial_string(event) {
        out.push(text_claim(&device, Attribute::VolumeSerial, &serial, SourceKind::PartitionDiag, &locator));
    }
    assert(views(out@) =~= diag_claims_at(*event, when));
    out
}

/// Append the claims of one event.
fn push_event(event: &PartitionDiagEvent, out: &mut Vec<Claim>)
    ensures
        views(final(out)@) == views(old(out)@) + diag_claims(*event),
{
    let ghost before = out@;
    let when = parse_timestamp(event.timestamp.as_str());
    let mut claims = event_claims_at(event, when);
    let ghost added = claims@;
    out.append(&mut claims);
    assert(views(out@) =~= views(before) + views(added));
}

/// A [`HistorySource`] over decoded Partition/Diagnostic events.
pub struct PartitionDiagSource<'a> {
    events: &'a [PartitionDiagEvent],
}

impl<'a> PartitionDiagSource<'a> {
    /// The events this source reads.
    pub closed spec fn events(&self) -> Seq<PartitionDiagEvent> {
        self.events@
    }

    /// Wrap decoded Partition/Diagnostic events.
    pub fn new(events: &'a [PartitionDiagEvent]) -> (r: Self)
        ensures
            r.events() == events@,
    {
        PartitionDiagSource { events }
    }
}

impl<'a> HistorySource for PartitionDiagSource<'a> {
    open spec fn claim_views(&self) -> Seq<ClaimView> {
        diag_event_claims(self.events())
    }

    /// The claims of every event, in order.
    fn claims(&self) -> (r: Vec<Claim>) {
        let mut out: Vec<Claim> = Vec::new();
        let mut i: usize = 0;
        while i < self.events.len()
            invariant
                i <= self.events@.len(),
                views(out@) == diag_event_claims(self.events@.take(i as int)),
            decreases self.events.len() - i,
        {
            push_event(&self.events[i], &mut out);
            assert(self.events@.take(i + 1).drop_last() =~= self.events@.take(i as int));
            i = i + 1;
        }
        assert(self.events@.take(self.events@.len() as int) =~= self.events@);
        out
    }
}

} // verus!
