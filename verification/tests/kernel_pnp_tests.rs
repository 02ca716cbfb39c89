#![allow(unused_imports)]
use usb_forensic::model::{Attribute, Claim, DeviceKey, Provenance, SourceKind, Value};
use usb_forensic::{kernel_pnp_events, HistorySource, JsonNumber, JsonValue, KernelPnpEvent, KernelPnpSource};

/// A JSON object with these members, in order.
fn obj(members: Vec<(&str, serde_json::Value)>) -> serde_json::Value {
    let mut m = serde_json::Map::new();
    for (k, v) in members {
        m.insert(k.to_string(), v);
    }
    serde_json::Value::Object(m)
}

/// The decoded-JSON form the adapters read.
fn mirror(v: &serde_json::Value) -> JsonValue {
    match v {
        serde_json::Value::Null => JsonValue::Null,
        serde_json::Value::Bool(b) => JsonValue::Bool(*b),
        serde_json::Value::Number(n) => JsonValue::Number(if let Some(u) = n.as_u64() {
            JsonNumber::PosInt(u)
        } else if let Some(i) = n.as_i64() {
            JsonNumber::NegInt(i)
        } else {
            JsonNumber::Float
        }),
        serde_json::Value::String(s) => JsonValue::String(s.clone()),
        serde_json::Value::Array(a) => JsonValue::Array(a.iter().map(mirror).collect()),
        serde_json::Value::Object(o) => {
            JsonValue::Object(o.iter().map(|(k, v)| (k.clone(), mirror(v))).collect())
        }
    }
}


/// A Kernel-PnP configuration record as `evtx` serializes it (flat `EventData`).
fn record(provider: &str, event_id: u32, instance: &str, when: &str) -> serde_json::Value {
    obj(vec![(
        "Event",
        obj(vec![
            (
                "System",
                obj(vec![
                    ("Provider", obj(vec![("#attributes", obj(vec![("Name", provider.into())]))])),
                    ("EventID", event_id.into()),
                    ("TimeCreated", obj(vec![("#attributes", obj(vec![("SystemTime", when.into())]))])),
                ]),
            ),
            (
                "EventData",
                obj(vec![("DeviceInstanceId", instance.into()), ("DriverName", "usbstor.inf".into())]),
            ),
        ]),
    )])
}

#[test]
fn extracts_a_usb_configuration_event() {
    let rec = record(
        "Microsoft-Windows-Kernel-PnP",
        400,
        "USB\\VID_0781&PID_5597\\4C530000261130109435",
        "2020-09-19T04:36:42.874132Z",
    );
    let events = kernel_pnp_events(&[mirror(&rec)]);
    assert_eq!(events.len(), 1);
    assert_eq!(events[0].event_id, 400);
    assert_eq!(
        events[0].device_instance_id,
        "USB\\VID_0781&PID_5597\\4C530000261130109435"
    );
    assert_eq!(events[0].timestamp, "2020-09-19T04:36:42.874132Z");
    assert_eq!(events[0].driver_name.as_deref(), Some("usbstor.inf"));
}

#[test]
fn a_usbstor_disk_layer_event_is_extracted() {
    let rec = record(
        "Microsoft-Windows-Kernel-PnP",
        400,
        "USBSTOR\\Disk&Ven_SanDisk&Prod_Cruzer_Glide_3.0&Rev_1.00\\4C530000261130109435&0",
        "2020-09-19T04:36:42.906239Z",
    );
    assert_eq!(kernel_pnp_events(&[mirror(&rec)]).len(), 1);
}

#[test]
fn non_kernel_pnp_provider_is_ignored() {
    let rec = record(
        "Microsoft-Windows-Partition",
        400,
        "USB\\VID_0781&PID_5597\\4C530000261130109435",
        "2020-09-19T04:36:42Z",
    );
    assert!(kernel_pnp_events(&[mirror(&rec)]).is_empty());
}

#[test]
fn a_non_configuration_event_id_is_ignored() {
    let rec = record(
        "Microsoft-Windows-Kernel-PnP",
        420, // a problem/error event, not a configuration witness
        "USB\\VID_0781&PID_5597\\4C530000261130109435",
        "2020-09-19T04:36:42Z",
    );
    assert!(kernel_pnp_events(&[mirror(&rec)]).is_empty());
}

#[test]
fn kernel_pnp_an_internal_non_usb_device_is_ignored() {
    let rec = record(
        "Microsoft-Windows-Kernel-PnP",
        400,
        "ACPI\\PNP0A03\\0",
        "2020-09-19T04:36:42Z",
    );
    assert!(kernel_pnp_events(&[mirror(&rec)]).is_empty());
}

#[test]
fn kernel_pnp_an_event_id_serialized_as_an_object_is_read() {
    // Some providers serialize EventID as {"#text": N, "#attributes": {...}}.
    let mut rec = record(
        "Microsoft-Windows-Kernel-PnP",
        0,
        "USB\\VID_0781&PID_5597\\4C530000261130109435",
        "2020-09-19T04:36:42Z",
    );
    rec["Event"]["System"]["EventID"] =
        obj(vec![("#text", 410.into()), ("#attributes", obj(vec![("Qualifiers", "0".into())]))]);
    let events = kernel_pnp_events(&[mirror(&rec)]);
    assert_eq!(events.len(), 1);
    assert_eq!(events[0].event_id, 410);
}

fn event(instance: &str, when: &str) -> KernelPnpEvent {
    KernelPnpEvent {
        timestamp: when.to_string(),
        event_id: 400,
        device_instance_id: instance.to_string(),
        driver_name: Some("usbstor.inf".to_string()),
    }
}

#[test]
fn source_emits_last_connected_keyed_by_the_instance_serial() {
    let ev = event(
        "USB\\VID_0781&PID_5597\\4C530000261130109435",
        "2020-09-19T04:36:42.874132Z",
    );
    let claims = KernelPnpSource::new(std::slice::from_ref(&ev)).claims();
    assert_eq!(claims.len(), 1);
    // Keyed by the last '\'-component — the same key the registry USBSTOR source uses.
    assert_eq!(
        claims[0].device,
        DeviceKey("4C530000261130109435".to_string())
    );
    assert_eq!(claims[0].attribute, Attribute::LastConnected);
    assert_eq!(claims[0].value, Value::Timestamp(1_600_490_202));
    assert_eq!(claims[0].provenance.source, SourceKind::KernelPnp);
    assert!(claims[0]
        .provenance
        .locator
        .contains("Microsoft-Windows-Kernel-PnP/Configuration#400"));
}

#[test]
fn a_usbstor_event_keys_by_its_own_last_component() {
    let ev = event(
        "USBSTOR\\Disk&Ven_SanDisk&Prod_Cruzer_Glide_3.0&Rev_1.00\\4C530000261130109435&0",
        "2020-09-19T04:36:42.906239Z",
    );
    let claims = KernelPnpSource::new(std::slice::from_ref(&ev)).claims();
    // The USBSTOR layer keys by `<serial>&0` — matching the registry USBSTOR Enum key.
    assert_eq!(
        claims[0].device,
        DeviceKey("4C530000261130109435&0".to_string())
    );
}

#[test]
fn kernel_pnp_a_malformed_timestamp_yields_no_claim() {
    let ev = event("USB\\VID_0781&PID_5597\\SERIAL", "not-a-timestamp");
    assert!(KernelPnpSource::new(std::slice::from_ref(&ev))
        .claims()
        .is_empty());
}

#[test]
fn kernel_pnp_an_instance_id_with_no_serial_component_yields_no_claim() {
    // A trailing backslash leaves an empty last component — nothing to key on.
    let ev = event("USB\\", "2020-09-19T04:36:42Z");
    assert!(KernelPnpSource::new(std::slice::from_ref(&ev))
        .claims()
        .is_empty());
}
