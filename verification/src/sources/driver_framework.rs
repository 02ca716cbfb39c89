//! Adapter: `Microsoft-Windows-DriverFrameworks-UserMode/Operational` records → claims.
//! The UMDF host logs a device arrival (event 2003) and a removal (2102) for every
//! user-mode-driver device, so a USB device's instance id in those records witnesses a
//! connection and a disconnection on the event-log tamper surface.
use crate::json::{json_at, json_get, json_str, json_u64, JsonValue};
use crate::model::{Attribute, Claim, ClaimView, SourceKind, ValueView};
use crate::order::views;
use crate::source::HistorySource;
use crate::sources::shared::{claim_of, last_component, last_component_of, parse_timestamp, time_claim, timestamp_seconds};
use crate::text::{decimal, has_prefix, owned, push_count, push_str, same_text_str, starts_with_str};
use vstd::prelude::*;

verus! {

/// The UMDF device-arrival event id.
pub const CONNECT_EVENT_ID: u32 = 2003;

/// The UMDF device-removal event id.
pub const DISCONNECT_EVENT_ID: u32 = 2102;

/// A decoded USB DriverFrameworks-UserMode arrival or removal event.
#[derive(Debug, Clone, PartialEq, Eq)]
pub struct DriverFrameworkEvent {
    /// `System/TimeCreated` as recorded (ISO 8601 UTC).
    pub timestamp: String,
    /// 2003 (arrival) or 2102 (removal).
    pub event_id: u32,
    /// The device instance id, e.g. `USB\VID_0781&PID_5597\4C530000261130109435`.
    pub instance_id: String,
}

/// The mathematical content of a [`DriverFrameworkEvent`].
pub struct DriverFrameworkEventView {
    pub timestamp: Seq<char>,
    pub event_id: u32,
    pub instance_id: Seq<char>,
}

impl View for DriverFrameworkEvent {
    type V = DriverFrameworkEventView;

    open spec fn view(&self) -> DriverFrameworkEventView {
        DriverFrameworkEventView {
            timestamp: self.timestamp@,
            event_id: self.event_id,
            instance_id: self.instance_id@,
        }
    }
}

/// `Event/System` of a record.
pub open spec fn record_system(record: JsonValue) -> Option<JsonValue> {
    json_at(json_get(record, "Event"@), "System"@)
}

/// The provider name of a record's `System` element.
pub open spec fn provider_name(system: JsonValue) -> Option<Seq<char>> {
    json_str(json_at(json_at(json_get(system, "Provider"@), "#attributes"@), "Name"@))
}

/// The `TimeCreated` of a record's `System` element.
pub open spec fn system_time(system: JsonValue) -> Option<Seq<char>> {
    json_str(json_at(json_at(json_get(system, "TimeCreated"@), "#attributes"@), "SystemTime"@))
}

/// The event id of a record's `System` element: a plain number, or the `#text` of an
/// object, that fits in `u32`.
pub open spec fn system_event_id(system: JsonValue) -> Option<u32> {
    match json_get(system, "EventID"@) {
        Some(raw) => {
            let n = match json_u64(Some(raw)) {
                Some(n) => Some(n),
                None => json_u64(json_get(raw, "#text"@)),
            };
            match n {
                Some(n) => if n <= u32::MAX {
                    Some(n as u32)
                } else {
                    None
                },
                None => None,
            }
        },
        None => None,
    }
}

/// A USB device instance: `USB\…` or `USBSTOR\…`, but not a host root hub.
pub open spec fn usb_instance(id: Seq<char>) -> bool {
    (has_prefix(id, "USB\\"@) || has_prefix(id, "USBSTOR\\"@)) && !has_prefix(id, "USB\\ROOT_HUB"@)
}

/// The instance id in a `UserData` member: its `#attributes/instance`, else its
/// `InstanceId` element.
pub open spec fn member_instance(v: JsonValue) -> Option<Seq<char>> {
    match json_str(json_at(json_get(v, "#attributes"@), "instance"@)) {
        Some(s) => Some(s),
        None => json_str(json_get(v, "InstanceId"@)),
    }
}

/// The first instance id among `UserData`'s members, in order.
pub open spec fn first_instance(entries: Seq<(String, JsonValue)>) -> Option<Seq<char>>
    decreases entries.len(),
{
    if entries.len() == 0 {
        None
    } else {
        match member_instance(entries[0].1) {
            Some(s) => Some(s),
            None => first_instance(entries.drop_first()),
        }
    }
}

/// The instance id a record's `UserData` carries.
pub open spec fn record_instance(record: JsonValue) -> Option<Seq<char>> {
    match json_at(json_get(record, "Event"@), "UserData"@) {
        Some(JsonValue::Object(entries)) => first_instance(entries@),
        _ => None,
    }
}

/// The USB arrival or removal event a record holds, if it holds one.
pub open spec fn framework_event_of(record: JsonValue) -> Option<DriverFrameworkEventView> {
    match record_system(record) {
        None => None,
        Some(system) => {
            if provider_name(system) != Some("Microsoft-Windows-DriverFrameworks-UserMode"@) {
                None
            } else {
                match (system_event_id(system), record_instance(record), system_time(system)) {
                    (Some(id), Some(instance), Some(ts)) => if (id == CONNECT_EVENT_ID || id
                        == DISCONNECT_EVENT_ID) && usb_instance(instance) {
                        Some(DriverFrameworkEventView { timestamp: ts, event_id: id, instance_id: instance })
                    } else {
                        None
                    },
                    _ => None,
                }
            }
        },
    }
}

/// The events the records hold, in record order.
pub open spec fn framework_events(records: Seq<JsonValue>) -> Seq<DriverFrameworkEventView>
    decreases records.len(),
{
    if records.len() == 0 {
        Seq::empty()
    } else {
        framework_events(records.drop_last()) + match framework_event_of(records.last()) {
            Some(e) => seq![e],
            None => Seq::empty(),
        }
    }
}

/// The member of an optional object.
pub(crate) fn get_in<'a>(v: Option<&'a JsonValue>, key: &str) -> (r: Option<&'a JsonValue>)
    ensures
        r.is_some() == json_at(match v { Some(x) => Some(*x), None => None }, key@).is_some(),
        r.is_some() ==> *r.unwrap() == json_at(match v { Some(x) => Some(*x), None => None }, key@).unwrap(),
{
    match v {
        Some(x) => x.get(key),
        None => None,
    }
}

/// The text of an optional string value.
pub(crate) fn str_in(v: Option<&JsonValue>) -> (r: Option<String>)
    ensures
        r.is_some() == json_str(match v { Some(x) => Some(*x), None => None }).is_some(),
        r.is_some() ==> r.unwrap()@ == json_str(match v { Some(x) => Some(*x), None => None }).unwrap(),
{
    match v {
        Some(x) => match x.as_str() {
            Some(s) => Some(owned(s)),
            None => None,
        },
        None => None,
    }
}

/// The event id of a record's `System` element.
pub(crate) fn event_id(system: &JsonValue) -> (r: Option<u32>)
    ensures
        r == system_event_id(*system),
{
    let raw = match system.get("EventID") {
        Some(raw) => raw,
        None => return None,
    };
    let n = match raw.as_u64() {
        Some(n) => n,
        None => match raw.get("#text") {
            Some(t) => match t.as_u64() {
                Some(n) => n,
                None => return None,
            },
            None => return None,
        },
    };
    if n <= 0xFFFF_FFFFu64 {
        Some(n as u32)
    } else {
        None
    }
}

/// A USB device instance: `USB\…` or `USBSTOR\…`, but not a host root hub.
pub(crate) fn is_usb_instance(id: &str) -> (r: bool)
    ensures
        r == usb_instance(id@),
{
    (starts_with_str(id, "USB\\") || starts_with_str(id, "USBSTOR\\")) && !starts_with_str(id, "USB\\ROOT_HUB")
}

/// The instance id a record's `UserData` carries.
fn instance_id(record: &JsonValue) -> (r: Option<String>)
    ensures
        r.is_some() == record_instance(*record).is_some(),
        r.is_some() ==> r.unwrap()@ == record_instance(*record).unwrap(),
{
    let user_data = get_in(record.get("Event"), "UserData");
    match user_data {
        Some(JsonValue::Object(entries)) => {
            let mut i: usize = 0;
            assert(entries@.skip(0) =~= entries@);
            while i < entries.len()
                invariant
                    i <= entries@.len(),
                    record_instance(*record) == first_instance(entries@),
                    first_instance(entries@) == first_instance(entries@.skip(i as int)),
                decreases entries.len() - i,
            {
                assert(entries@.skip(i as int).drop_first() =~= entries@.skip(i + 1));
                assert(entries@.skip(i as int)[0] == entries@[i as int]);
                let child = &entries[i].1;
                let found = match str_in(get_in(child.get("#attributes"), "instance")) {
                    Some(s) => Some(s),
                    None => str_in(child.get("InstanceId")),
                };
                if found.is_some() {
                    return found;
                }
                i = i + 1;
            }
            assert(entries@.skip(i as int) =~= Seq::<(String, JsonValue)>::empty());
            None
        },
        _ => None,
    }
}

/// The USB arrival or removal event a record holds, if it holds one.
fn driver_framework_event(record: &JsonValue) -> (r: Option<DriverFrameworkEvent>)
    ensures
        r.is_some() == framework_event_of(*record).is_some(),
        r.is_some() ==> r.unwrap()@ == framework_event_of(*record).unwrap(),
{
    let system = match get_in(record.get("Event"), "System") {
        Some(s) => s,
        None => return None,
    };
    let provider = str_in(get_in(get_in(system.get("Provider"), "#attributes"), "Name"));
    match provider {
        Some(p) => {
            if !same_text_str(p.as_str(), "Microsoft-Windows-DriverFrameworks-UserMode") {
                return None;
            }
        },
        None => return None,
    }
    let event_id = match event_id(system) {
        Some(id) => id,
        None => return None,
    };
    if event_id != CONNECT_EVENT_ID && event_id != DISCONNECT_EVENT_ID {
        return None;
    }
    let instance_id = match instance_id(record) {
        Some(id) => id,
        None => return None,
    };
    if !is_usb_instance(instance_id.as_str()) {
        return None;
    }
    let timestamp = match str_in(get_in(get_in(system.get("TimeCreated"), "#attributes"), "SystemTime")) {
        Some(t) => t,
        None => return None,
    };
    Some(DriverFrameworkEvent { timestamp, event_id, instance_id })
}

/// Extract USB DriverFrameworks-UserMode arrival/removal events from event-log records
/// (each the `{"Event": {…}}` object of one record), in record order. Keeps only the
/// DriverFrameworks-UserMode provider's 2003/2102 events whose instance id is a
/// `USB\` / `USBSTOR\` device; host root hubs and every other device are dropped.
pub fn driver_framework_events(records: &[JsonValue]) -> (r: Vec<DriverFrameworkEvent>)
    ensures
        views(r@) == framework_events(records@),
{
    let mut out: Vec<DriverFrameworkEvent> = Vec::new();
    let mut i: usize = 0;
    while i < records.len()
        invariant
            i <= records@.len(),
            views(out@) == framework_events(records@.take(i as int)),
        decreases records.len() - i,
    {
        let ghost before = views(out@);
        if let Some(e) = driver_framework_event(&records[i]) {
            out.push(e);
        }
        proof {
            assert(records@.take(i + 1).drop_last() =~= records@.take(i as int));
            assert(views(out@) =~= framework_events(records@.take(i + 1)));
        }
        i = i + 1;
    }
    assert(records@.take(records@.len() as int) =~= records@);
    out
}

/// The claim of one event whose record time reads as `when`: keyed by the last `\`
/// component of its instance id — `LastConnected` for an arrival, `LastRemoved` for a
/// removal. Nothing when the key is empty, there is no time, or the id is neither.
pub open spec fn framework_claims_at(e: DriverFrameworkEventView, when: Option<i64>) -> Seq<ClaimView> {
    let device = last_component(e.instance_id);
    let attribute = if e.event_id == CONNECT_EVENT_ID {
        Attribute::LastConnected
    } else {
        Attribute::LastRemoved
    };
    if device.len() == 0 || !(e.event_id == CONNECT_EVENT_ID || e.event_id == DISCONNECT_EVENT_ID) {
        Seq::empty()
    } else {
        match when {
            Some(t) => seq![
                claim_of(
                    device,
                    attribute,
                    ValueView::Timestamp(t),
                    SourceKind::DriverFramework,
                    "Microsoft-Windows-DriverFrameworks-UserMode/Operational#"@ + decimal(e.event_id as nat),
                ),
            ],
            None => Seq::empty(),
        }
    }
}

/// The claim of one event, at its record time as parsed.
pub open spec fn framework_claims(e: DriverFrameworkEventView) -> Seq<ClaimView> {
    framework_claims_at(e, timestamp_seconds(e.timestamp))
}

/// The claims of one event given its parsed record time.
pub fn event_claims_at(e: &DriverFrameworkEvent, when: Option<i64>) -> (r: Vec<Claim>)
    ensures
        views(r@) == framework_claims_at(e@, when),
{
    let mut out: Vec<Claim> = Vec::new();
    let device = last_component_of(e.instance_id.as_str());
    let known = e.event_id == CONNECT_EVENT_ID || e.event_id == DISCONNECT_EVENT_ID;
    if !device.as_str().is_empty() && known {
        if let Some(t) = when {
            let attribute = if e.event_id == CONNECT_EVENT_ID {
                Attribute::LastConnected
            } else {
                Attribute::LastRemoved
            };
            let mut locator = String::new();
            push_str(&mut locator, "Microsoft-Windows-DriverFrameworks-UserMode/Operational#");
            push_count(&mut locator, e.event_id as usize);
            out.push(time_claim(&device, attribute, t, SourceKind::DriverFramework, &locator));
        }
    }
    assert(views(out@) =~= framework_claims_at(e@, when));
    out
}

/// The claims of the events, in order.
pub open spec fn framework_event_claims(events: Seq<DriverFrameworkEventView>) -> Seq<ClaimView>
    decreases events.len(),
{
    if events.len() == 0 {
        Seq::empty()
    } else {
        framework_event_claims(events.drop_last()) + framework_claims(events.last())
    }
}

/// A [`HistorySource`] over decoded DriverFrameworks-UserMode events.
pub struct DriverFrameworkSource<'a> {
    events: &'a [DriverFrameworkEvent],
}

impl<'a> DriverFrameworkSource<'a> {
    /// The events this source reads.
    pub closed spec fn events(&self) -> Seq<DriverFrameworkEventView> {
        views(self.events@)
    }

    /// Wrap decoded DriverFrameworks-UserMode events.
    pub fn new(events: &'a [DriverFrameworkEvent]) -> (r: Self)
        ensures
            r.events() == views(events@),
    {
        DriverFrameworkSource { events }
    }
}

impl<'a> HistorySource for DriverFrameworkSource<'a> {
    open spec fn claim_views(&self) -> Seq<ClaimView> {
        framework_event_claims(self.events())
    }

    /// One claim per event whose device key is non-empty and whose time parses.
    fn claims(&self) -> (r: Vec<Claim>) {
        let mut out: Vec<Claim> = Vec::new();
        let mut i: usize = 0;
        while i < self.events.len()
            invariant
                i <= self.events@.len(),
                views(out@) == framework_event_claims(views(self.events@).take(i as int)),
            decreases self.events.len() - i,
        {
            let e = &self.events[i];
            let ghost before = views(out@);
            let when = parse_timestamp(e.timestamp.as_str());
            let mut claims = event_claims_at(e, when);
            out.append(&mut claims);
            proof {
                let t = views(self.events@).take(i + 1);
                assert(t.drop_last() =~= views(self.events@).take(i as int));
                assert(t.last() == e@);
                assert(views(out@) =~= before + framework_claims(e@));
            }
            i = i + 1;
        }
        assert(views(self.events@).take(self.events@.len() as int) =~= views(self.events@));
        out
    }
}

} // verus!
