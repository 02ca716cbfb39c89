//! Adapter: `Microsoft-Windows-Kernel-PnP/Configuration` records → claims. Windows logs a
//! configuration event each time it configures a Plug-and-Play device — 400 (started),
//! 410 (migrated), 430 (installed); for a USB device the `DeviceInstanceId` carries the
//! same instance serial the registry `Enum` keys record, so the event is an event-log
//! witness that the device was connected at the record's time.
use crate::json::{json_at, json_get, json_str, JsonValue};
use crate::model::{Attribute, Claim, ClaimView, SourceKind, ValueView};
use crate::order::views;
use crate::source::HistorySource;
use crate::sources::driver_framework::{event_id, get_in, is_usb_instance, provider_name, record_system, str_in, system_event_id, system_time, usb_instance};
use crate::sources::shared::{claim_of, last_component, last_component_of, parse_timestamp, time_claim, timestamp_seconds};
use crate::text::{decimal, push_count, push_str, same_text_str};
use vstd::prelude::*;

verus! {

/// A Kernel-PnP configuration event id: 400 (started), 410 (migrated) or 430 (installed).
pub open spec fn configuration_event(id: u32) -> bool {
    id == 400 || id == 410 || id == 430
}

/// A decoded USB Kernel-PnP configuration event.
#[derive(Debug, Clone, PartialEq, Eq)]
pub struct KernelPnpEvent {
    /// `System/TimeCreated` as recorded (ISO 8601 UTC).
    pub timestamp: String,
    /// The configuration event id.
    pub event_id: u32,
    /// `EventData/DeviceInstanceId`, e.g. `USB\VID_0781&PID_5597\4C530000261130109435`.
    pub device_instance_id: String,
    /// `EventData/DriverName`, when present (e.g. `usbstor.inf`).
    pub driver_name: Option<String>,
}

/// The mathematical content of a [`KernelPnpEvent`].
pub struct KernelPnpEventView {
    pub timestamp: Seq<char>,
    pub event_id: u32,
    pub device_instance_id: Seq<char>,
    pub driver_name: Option<Seq<char>>,
}

impl View for KernelPnpEvent {
    type V = KernelPnpEventView;

    open spec fn view(&self) -> KernelPnpEventView {
        KernelPnpEventView {
            timestamp: self.timestamp@,
            event_id: self.event_id,
            device_instance_id: self.device_instance_id@,
            driver_name: match self.driver_name {
                Some(d) => Some(d@),
                None => None,
            },
        }
    }
}

/// A member of a record's `EventData`.
pub open spec fn event_data(record: JsonValue, key: Seq<char>) -> Option<Seq<char>> {
    json_str(json_at(json_at(json_get(record, "Event"@), "EventData"@), key))
}

/// The USB configuration event a record holds, if it holds one.
pub open spec fn pnp_event_of(record: JsonValue) -> Option<KernelPnpEventView> {
    match record_system(record) {
        None => None,
        Some(system) => {
            if provider_name(system) != Some("Microsoft-Windows-Kernel-PnP"@) {
                None
            } else {
                match (system_event_id(system), event_data(record, "DeviceInstanceId"@), system_time(system)) {
                    (Some(id), Some(instance), Some(ts)) => if configuration_event(id) && usb_instance(instance) {
                        Some(
                            KernelPnpEventView {
                                timestamp: ts,
                                event_id: id,
                                device_instance_id: instance,
                                driver_name: event_data(record, "DriverName"@),
                            },
                        )
                    } else {
                        None
                    },
                    _ => None,
                }
            }
        },
    }
}

/// The events the records hold, in record order.
pub open spec fn pnp_events(records: Seq<JsonValue>) -> Seq<KernelPnpEventView>
    decreases records.len(),
{
    if records.len() == 0 {
        Seq::empty()
    } else {
        pnp_events(records.drop_last()) + match pnp_event_of(records.last()) {
            Some(e) => seq![e],
            None => Seq::empty(),
        }
    }
}

/// The USB configuration event a record holds, if it holds one.
fn kernel_pnp_event(record: &JsonValue) -> (r: Option<KernelPnpEvent>)
    ensures
        r.is_some() == pnp_event_of(*record).is_some(),
        r.is_some() ==> r.unwrap()@ == pnp_event_of(*record).unwrap(),
{
    let system = match get_in(record.get("Event"), "System") {
        Some(s) => s,
        None => return None,
    };
    match str_in(get_in(get_in(system.get("Provider"), "#attributes"), "Name")) {
        Some(p) => {
            if !same_text_str(p.as_str(), "Microsoft-Windows-Kernel-PnP") {
                return None;
            }
        },
        None => return None,
    }
    let event_id = match event_id(system) {
        Some(id) => id,
        None => return None,
    };
    if !(event_id == 400 || event_id == 410 || event_id == 430) {
        return None;
    }
    let data = get_in(record.get("Event"), "EventData");
    let device_instance_id = match str_in(get_in(data, "DeviceInstanceId")) {
        Some(id) => id,
        None => return None,
    };
    if !is_usb_instance(device_instance_id.as_str()) {
        return None;
    }
    let timestamp = match str_in(get_in(get_in(system.get("TimeCreated"), "#attributes"), "SystemTime")) {
        Some(t) => t,
        None => return None,
    };
    let driver_name = str_in(get_in(data, "DriverName"));
    Some(KernelPnpEvent { timestamp, event_id, device_instance_id, driver_name })
}

/// Extract USB Kernel-PnP configuration events from event-log records (each the
/// `{"Event": {…}}` object of one record), in record order. Keeps only the
/// `Microsoft-Windows-Kernel-PnP` provider's 400/410/430 events whose
/// `DeviceInstanceId` is a `USB\` / `USBSTOR\` device; host root hubs and internal
/// devices are dropped.
pub fn kernel_pnp_events(records: &[JsonValue]) -> (r: Vec<KernelPnpEvent>)
    ensures
        views(r@) == pnp_events(records@),
{
    let mut out: Vec<KernelPnpEvent> = Vec::new();
    let mut i: usize = 0;
    while i < records.len()
        invariant
            i <= records@.len(),
            views(out@) == pnp_events(records@.take(i as int)),
        decreases records.len() - i,
    {
        let ghost before = views(out@);
        if let Some(e) = kernel_pnp_event(&records[i]) {
            out.push(e);
        }
        proof {
            assert(records@.take(i + 1).drop_last() =~= records@.take(i as int));
            assert(views(out@) =~= pnp_events(records@.take(i + 1)));
        }
        i = i + 1;
    }
    assert(records@.take(records@.len() as int) =~= records@);
    out
}

/// The locator of an event: channel and event id, with the driver name when recorded.
pub open spec fn pnp_locator(e: KernelPnpEventView) -> Seq<char> {
    "Microsoft-Windows-Kernel-PnP/Configuration#"@ + decimal(e.event_id as nat) + match e.driver_name {
        Some(d) => " DriverName="@ + d,
        None => Seq::empty(),
    }
}

/// The claim of one event whose record time reads as `when`: `LastConnected` at that
/// time, keyed by the last `\` component of its instance id (the key the registry USBSTOR
/// source uses). Nothing when that key is empty or there is no time.
pub open spec fn pnp_claims_at(e: KernelPnpEventView, when: Option<i64>) -> Seq<ClaimView> {
    let device = last_component(e.device_instance_id);
    if device.len() == 0 {
        Seq::empty()
    } else {
        match when {
            Some(t) => seq![
                claim_of(device, Attribute::LastConnected, ValueView::Timestamp(t), SourceKind::KernelPnp, pnp_locator(e)),
            ],
            None => Seq::empty(),
        }
    }
}

/// The claim of one event, at its record time as parsed.
pub open spec fn pnp_claims(e: KernelPnpEventView) -> Seq<ClaimView> {
    pnp_claims_at(e, timestamp_seconds(e.timestamp))
}

/// The claims of one event given its parsed record time.
pub fn event_claims_at(e: &KernelPnpEvent, when: Option<i64>) -> (r: Vec<Claim>)
    ensures
        views(r@) == pnp_claims_at(e@, when),
{
    let mut out: Vec<Claim> = Vec::new();
    let device = last_component_of(e.device_instance_id.as_str());
    if !device.as_str().is_empty() {
        if let Some(t) = when {
            let mut locator = String::new();
            push_str(&mut locator, "Microsoft-Windows-Kernel-PnP/Configuration#");
            push_count(&mut locator, e.event_id as usize);
            if let Some(d) = &e.driver_name {
                push_str(&mut locator, " DriverName=");
                push_str(&mut locator, d.as_str());
            }
            assert(locator@ =~= pnp_locator(e@));
            out.push(time_claim(&device, Attribute::LastConnected, t, SourceKind::KernelPnp, &locator));
        }
    }
    assert(views(out@) =~= pnp_claims_at(e@, when));
    out
}

/// The claims of the events, in order.
pub open spec fn pnp_event_claims(events: Seq<KernelPnpEventView>) -> Seq<ClaimView>
    decreases events.len(),
{
    if events.len() == 0 {
        Seq::empty()
    } else {
        pnp_event_claims(events.drop_last()) + pnp_claims(events.last())
    }
}

/// A [`HistorySource`] over decoded Kernel-PnP configuration events.
pub struct KernelPnpSource<'a> {
    events: &'a [KernelPnpEvent],
}

impl<'a> KernelPnpSource<'a> {
    /// The events this source reads.
    pub closed spec fn events(&self) -> Seq<KernelPnpEventView> {
        views(self.events@)
    }

    /// Wrap decoded Kernel-PnP events.
    pub fn new(events: &'a [KernelPnpEvent]) -> (r: Self)
        ensures
            r.events() == views(events@),
    {
        KernelPnpSource { events }
    }
}

impl<'a> HistorySource for KernelPnpSource<'a> {
    open spec fn claim_views(&self) -> Seq<ClaimView> {
        pnp_event_claims(self.events())
    }

    /// One `LastConnected` claim per event with a non-empty device key and a parseable time.
    fn claims(&self) -> (r: Vec<Claim>) {
        let mut out: Vec<Claim> = Vec::new();
        let mut i: usize = 0;
        while i < self.events.len()
            invariant
                i <= self.events@.len(),
                views(out@) == pnp_event_claims(views(self.events@).take(i as int)),
            decreases self.events.len() - i,
        {
            let e = &self.events[i];
            let ghost before = views(out@);
            let when = parse_timestamp(e.timestamp.as_str());
            let mut claims = event_claims_at(e, when);
            out.append(&mut claims);
            proof {
                let t = views(self.events@).take(i + 1);
                assert(t.drop_last() =~= views(self.events@).take(i as int));
                assert(t.last() == e@);
                assert(views(out@) =~= before + pnp_claims(e@));
            }
            i = i + 1;
        }
        assert(views(self.events@).take(self.events@.len() as int) =~= views(self.events@));
        out
    }
}

} // verus!
