//! Adapter: decoded device connections (setupapi first-install times, registry
//! USBSTOR/USB instances, Linux kernel-log attaches) → claims keyed by the device serial,
//! so every origin flows into the same correlation engine.
use crate::model::{Attribute, Claim, ClaimView, SourceKind, ValueView};
use crate::order::views;
use crate::source::HistorySource;
use crate::sources::shared::{claim_of, last_component, last_component_of, text_claim, time_claim, RecordOrigin};
use crate::text::{decimal, push_char, push_count, push_str};
use vstd::prelude::*;

verus! {

/// The bus a device connection was classified on.
#[derive(Debug, Clone, Copy, PartialEq, Eq, Hash, Structural)]
pub enum Bus {
    Usb,
    Mtp,
    FireWire,
    Thunderbolt,
    Pcie,
    Esata,
    SdMmc,
    Bluetooth,
    ExpressCard,
    ScsiSas,
    Nvme,
    Unknown,
}

/// One decoded device connection: what the adapter reads of it.
#[derive(Debug, Clone, PartialEq, Eq)]
pub struct DeviceConnection {
    /// The classified bus.
    pub bus: Bus,
    /// The device's own serial (iSerial), when known.
    pub device_serial: Option<String>,
    /// The full device instance id, e.g. `USB\VID_0781&PID_5583\1234567890AB`.
    pub device_instance_id: String,
    /// First install, epoch seconds UTC.
    pub first_install: Option<i64>,
    /// Last arrival (connect), epoch seconds UTC.
    pub last_arrival: Option<i64>,
    /// Last removal (disconnect), epoch seconds UTC.
    pub last_removal: Option<i64>,
    /// The drive letter the volume was mounted at, when joined.
    pub drive_letter: Option<char>,
    /// Where the record was read.
    pub source: RecordOrigin,
}

/// The device key of a connection: its serial when present, else the last `\` component
/// of its instance id (the bare instance name the registry reader keys by).
pub open spec fn conn_device(c: DeviceConnection) -> Seq<char> {
    match c.device_serial {
        Some(s) => s@,
        None => last_component(c.device_instance_id@),
    }
}

/// The locator of a connection: its registry key path, else `file:line`.
pub open spec fn conn_locator(c: DeviceConnection) -> Seq<char> {
    match c.source.key_path {
        Some(k) => k@,
        None => c.source.file@ + seq![':'] + decimal(c.source.line as nat),
    }
}

/// A timestamp claim when the stamp is present.
pub open spec fn opt_time_claim(
    device: Seq<char>,
    a: Attribute,
    stamp: Option<i64>,
    source: SourceKind,
    locator: Seq<char>,
) -> Seq<ClaimView> {
    match stamp {
        Some(t) => seq![claim_of(device, a, ValueView::Timestamp(t), source, locator)],
        None => Seq::empty(),
    }
}

/// A timestamp claim of a connection when the stamp is present.
pub open spec fn stamp_claim(c: DeviceConnection, a: Attribute, stamp: Option<i64>, source: SourceKind) -> Seq<ClaimView> {
    opt_time_claim(conn_device(c), a, stamp, source, conn_locator(c))
}

/// Append a timestamp claim when the stamp is present.
fn push_opt_time(
    out: &mut Vec<Claim>,
    device: &String,
    a: Attribute,
    stamp: Option<i64>,
    source: SourceKind,
    locator: &String,
)
    ensures
        views(final(out)@) == views(old(out)@) + opt_time_claim(device@, a, stamp, source, locator@),
{
    let ghost before = views(out@);
    if let Some(t) = stamp {
        out.push(time_claim(device, a, t, source, locator));
    }
    assert(views(out@) =~= before + opt_time_claim(device@, a, stamp, source, locator@));
}

/// The drive-letter and device-class claims of a connection.
pub open spec fn tail_claims(c: DeviceConnection, source: SourceKind) -> Seq<ClaimView> {
    (match c.drive_letter {
        Some(d) => seq![claim_of(conn_device(c), Attribute::DriveLetter, ValueView::Text(seq![d, ':']), source, conn_locator(c))],
        None => Seq::empty(),
    }) + if c.bus == Bus::Mtp {
        seq![claim_of(conn_device(c), Attribute::DeviceClass, ValueView::Text("MTP"@), source, conn_locator(c))]
    } else {
        Seq::empty()
    }
}

/// Append the drive-letter and device-class claims of a connection.
fn push_tail(out: &mut Vec<Claim>, conn: &DeviceConnection, source: SourceKind, device: &String, locator: &String)
    requires
        device@ == conn_device(*conn),
        locator@ == conn_locator(*conn),
    ensures
        views(final(out)@) == views(old(out)@) + tail_claims(*conn, source),
{
    let ghost before = views(out@);
    if let Some(letter) = conn.drive_letter {
        let mut text = String::new();
        push_char(&mut text, letter);
        push_char(&mut text, ':');
        assert(text@ =~= seq![letter, ':']);
        out.push(text_claim(device, Attribute::DriveLetter, &text, source, locator));
    }
    let ghost mid = views(out@);
    if conn.bus == Bus::Mtp {
        let text = crate::text::owned("MTP");
        out.push(text_claim(device, Attribute::DeviceClass, &text, source, locator));
    }
    assert(views(out@) =~= before + tail_claims(*conn, source));
}

/// The claims of one connection, in this order: first connected, last connected, last
/// removed, drive letter (`E:`), and `MTP` device class for a portable device.
pub open spec fn conn_claims(c: DeviceConnection, source: SourceKind) -> Seq<ClaimView> {
    stamp_claim(c, Attribute::FirstConnected, c.first_install, source) + stamp_claim(
        c,
        Attribute::LastConnected,
        c.last_arrival,
        source,
    ) + stamp_claim(c, Attribute::LastRemoved, c.last_removal, source) + tail_claims(c, source)
}

/// The claims of the connections, in order.
pub open spec fn connection_claims(conns: Seq<DeviceConnection>, source: SourceKind) -> Seq<ClaimView>
    decreases conns.len(),
{
    if conns.len() == 0 {
        Seq::empty()
    } else {
        connection_claims(conns.drop_last(), source) + conn_claims(conns.last(), source)
    }
}

/// The device key of a connection.
fn conn_device_of(conn: &DeviceConnection) -> (r: String)
    ensures
        r@ == conn_device(*conn),
{
    match &conn.device_serial {
        Some(serial) => serial.clone(),
        None => last_component_of(conn.device_instance_id.as_str()),
    }
}

/// The locator of a connection.
fn conn_locator_of(conn: &DeviceConnection) -> (r: String)
    ensures
        r@ == conn_locator(*conn),
{
    match &conn.source.key_path {
        Some(k) => k.clone(),
        None => {
            let mut l = String::new();
            push_str(&mut l, conn.source.file.as_str());
            push_char(&mut l, ':');
            push_count(&mut l, conn.source.line);
            assert(l@ =~= conn_locator(*conn));
            l
        },
    }
}

/// Append the claims of one connection.
fn push_conn(conn: &DeviceConnection, source: SourceKind, out: &mut Vec<Claim>)
    ensures
        views(final(out)@) == views(old(out)@) + conn_claims(*conn, source),
{
    let ghost before = views(out@);
    let device = conn_device_of(conn);
    let locator = conn_locator_of(conn);
    let ghost a = stamp_claim(*conn, Attribute::FirstConnected, conn.first_install, source);
    let ghost b = stamp_claim(*conn, Attribute::LastConnected, conn.last_arrival, source);
    let ghost c = stamp_claim(*conn, Attribute::LastRemoved, conn.last_removal, source);
    let ghost d = tail_claims(*conn, source);
    push_opt_time(out, &device, Attribute::FirstConnected, conn.first_install, source, &locator);
    assert(views(out@) == before + a);
    push_opt_time(out, &device, Attribute::LastConnected, conn.last_arrival, source, &locator);
    assert(views(out@) == before + a + b);
    push_opt_time(out, &device, Attribute::LastRemoved, conn.last_removal, source, &locator);
    assert(views(out@) == before + a + b + c);
    push_tail(out, conn, source, &device, &locator);
    assert(views(out@) == before + a + b + c + d);
    assert(conn_claims(*conn, source) == a + b + c + d);
    assert(before + a + b + c + d =~= before + (a + b + c + d));
}

/// A [`HistorySource`] over decoded device connections from one origin. The caller knows
/// which [`SourceKind`] the batch came from (setupapi, registry, Linux syslog) and passes
/// it; it is carried verbatim onto every claim's provenance.
pub struct PeripheralSource<'a> {
    conns: &'a [DeviceConnection],
    source: SourceKind,
}

impl<'a> PeripheralSource<'a> {
    /// The connections this source reads.
    pub closed spec fn connections(&self) -> Seq<DeviceConnection> {
        self.conns@
    }

    /// The origin every connection came from.
    pub closed spec fn origin(&self) -> SourceKind {
        self.source
    }

    /// Wrap decoded device connections, all from `source`.
    pub fn new(conns: &'a [DeviceConnection], source: SourceKind) -> (r: Self)
        ensures
            r.connections() == conns@,
            r.origin() == source,
    {
        PeripheralSource { conns, source }
    }
}

impl<'a> HistorySource for PeripheralSource<'a> {
    open spec fn claim_views(&self) -> Seq<ClaimView> {
        connection_claims(self.connections(), self.origin())
    }

    /// The claims of every connection, in order.
    fn claims(&self) -> (r: Vec<Claim>) {
        let mut out: Vec<Claim> = Vec::new();
        let mut i: usize = 0;
        while i < self.conns.len()
            invariant
                i <= self.conns@.len(),
                views(out@) == connection_claims(self.conns@.take(i as int), self.source),
            decreases self.conns.len() - i,
        {
            push_conn(&self.conns[i], self.source, &mut out);
            assert(self.conns@.take(i + 1).drop_last() =~= self.conns@.take(i as int));
            i = i + 1;
        }
        assert(self.conns@.take(self.conns@.len() as int) =~= self.conns@);
        out
    }
}

/// The origin the caller names is carried verbatim onto every claim's provenance.
pub proof fn law_every_claim_carries_the_batch_source(conns: Seq<DeviceConnection>, source: SourceKind)
    ensures
        forall|i: int|
            0 <= i < connection_claims(conns, source).len() ==> (#[trigger] connection_claims(
                conns,
                source,
            )[i]).provenance.source == source,
    decreases conns.len(),
{
    if conns.len() > 0 {
        law_every_claim_carries_the_batch_source(conns.drop_last(), source);
        let head = connection_claims(conns.drop_last(), source);
        let c = conns.last();
        let a = stamp_claim(c, Attribute::FirstConnected, c.first_install, source);
        let b = stamp_claim(c, Attribute::LastConnected, c.last_arrival, source);
        let r = stamp_claim(c, Attribute::LastRemoved, c.last_removal, source);
        let t = tail_claims(c, source);
        let all = connection_claims(conns, source);
        assert(all =~= head + a + b + r + t);
        assert forall|i: int| 0 <= i < all.len() implies (#[trigger] all[i]).provenance.source == source by {
            if i < head.len() {
                assert(all[i] == head[i]);
            } else if i < head.len() + a.len() {
                assert(all[i] == a[i - head.len()]);
            } else if i < head.len() + a.len() + b.len() {
                assert(all[i] == b[i - head.len() - a.len()]);
            } else if i < head.len() + a.len() + b.len() + r.len() {
                assert(all[i] == r[i - head.len() - a.len() - b.len()]);
            } else {
                let j = i - head.len() - a.len() - b.len() - r.len();
                assert(all[i] == t[j]);
            }
        }
    }
}

} // verus!
