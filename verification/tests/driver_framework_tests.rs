#![allow(unused_imports)]
use usb_forensic::model::{Attribute, Claim, DeviceKey, Provenance, SourceKind, Value};
use usb_forensic::{driver_framework_events, DriverFrameworkEvent, DriverFrameworkSource, HistorySource, JsonNumber, JsonValue};

/// A JSON object with these members, in order.
fn obj(members: Vec<(&str, serde_json::Value)>) -> serde_json::Value {
    let mut m = serde_json::Map::new();
    for (k, v) in members {
        m.insert(k.to_string(), v);
    }
    serde_json::Value::Object(m)
}

/// The decoded-JSON form the adapters read.
fn mirror(v: &serde_json::Value) -> JsonValue {
    match v {
        serde_json::Value::Null => JsonValue::Null,
        serde_json::Value::Bool(b) => JsonValue::Bool(*b),
        serde_json::Value::Number(n) => JsonValue::Number(if let Some(u) = n.as_u64() {
            JsonNumber::PosInt(u)
        } else if let Some(i) = n.as_i64() {
            JsonNumber::NegInt(i)
        } else {
            JsonNumber::Float
        }),
        serde_json::Value::String(s) => JsonValue::String(s.clone()),
        serde_json::Value::Array(a) => JsonValue::Array(a.iter().map(mirror).collect()),
        serde_json::Value::Object(o) => {
            JsonValue::Object(o.iter().map(|(k, v)| (k.clone(), mirror(v))).collect())
        }
    }
}

/// A record's `System` element.
fn system(provider: &str, event_id: u32, when: &str) -> serde_json::Value {
    obj(vec![
        ("Provider", obj(vec![("#attributes", obj(vec![("Name", provider.into())]))])),
        ("EventID", event_id.into()),
        ("TimeCreated", obj(vec![("#attributes", obj(vec![("SystemTime", when.into())]))])),
    ])
}


/// A DriverFrameworks record as `evtx` serializes it: UserData with a single child element
/// (`root`) carrying `instance`/`lifetime` attributes.
fn record(
    provider: &str,
    event_id: u32,
    root: &str,
    instance: &str,
    when: &str,
) -> serde_json::Value {
    obj(vec![(
        "Event",
        obj(vec![
            ("System", system(provider, event_id, when)),
            (
                "UserData",
                obj(vec![(
                    root,
                    obj(vec![(
                        "#attributes",
                        obj(vec![
                            ("instance", instance.into()),
                            ("lifetime", "{6c1e8fd0-0000-0000-0000-000000000000}".into()),
                        ]),
                    )]),
                )]),
            ),
        ]),
    )])
}

#[test]
fn extracts_a_2003_arrival_event() {
    let rec = record(
        "Microsoft-Windows-DriverFrameworks-UserMode",
        2003,
        "UMDFHostDeviceArrivalBegin",
        "USB\\VID_0781&PID_5597\\4C530000261130109435",
        "2020-09-19T04:36:42.874132Z",
    );
    let events = driver_framework_events(&[mirror(&rec)]);
    assert_eq!(events.len(), 1);
    assert_eq!(events[0].event_id, 2003);
    assert_eq!(
        events[0].instance_id,
        "USB\\VID_0781&PID_5597\\4C530000261130109435"
    );
    assert_eq!(events[0].timestamp, "2020-09-19T04:36:42.874132Z");
}

#[test]
fn extracts_a_2102_removal_event() {
    let rec = record(
        "Microsoft-Windows-DriverFrameworks-UserMode",
        2102,
        "UMDFHostDeviceRequest",
        "USB\\VID_0781&PID_5597\\4C530000261130109435",
        "2020-09-19T05:10:00Z",
    );
    let events = driver_framework_events(&[mirror(&rec)]);
    assert_eq!(events.len(), 1);
    assert_eq!(events[0].event_id, 2102);
}

#[test]
fn reads_the_instanceid_element_form() {
    // EvtxECmd's map documents an `<InstanceId>` child-element variant; handle it too.
    let rec = obj(vec![(
        "Event",
        obj(vec![
            (
                "System",
                system("Microsoft-Windows-DriverFrameworks-UserMode", 2003, "2020-09-19T04:36:42Z"),
            ),
            (
                "UserData",
                obj(vec![(
                    "UMDFHostDeviceArrivalBegin",
                    obj(vec![
                        (
                            "InstanceId",
                            "USBSTOR\\Disk&Ven_SanDisk&Prod_Cruzer&Rev_1.00\\4C530000261130109435&0".into(),
                        ),
                        ("LifetimeId", "{guid}".into()),
                    ]),
                )]),
            ),
        ]),
    )]);
    let events = driver_framework_events(&[mirror(&rec)]);
    assert_eq!(events.len(), 1);
    assert_eq!(
        events[0].instance_id,
        "USBSTOR\\Disk&Ven_SanDisk&Prod_Cruzer&Rev_1.00\\4C530000261130109435&0"
    );
}

#[test]
fn non_driver_framework_provider_is_ignored() {
    let rec = record(
        "Microsoft-Windows-Kernel-PnP",
        2003,
        "UMDFHostDeviceArrivalBegin",
        "USB\\VID_0781&PID_5597\\4C530000261130109435",
        "2020-09-19T04:36:42Z",
    );
    assert!(driver_framework_events(&[mirror(&rec)]).is_empty());
}

#[test]
fn an_intermediate_power_event_id_is_ignored() {
    // 2100/2101 are intermediate PnP/power operations — noise, not a connect/disconnect.
    let rec = record(
        "Microsoft-Windows-DriverFrameworks-UserMode",
        2100,
        "UMDFHostDeviceRequest",
        "USB\\VID_0781&PID_5597\\4C530000261130109435",
        "2020-09-19T04:36:42Z",
    );
    assert!(driver_framework_events(&[mirror(&rec)]).is_empty());
}

#[test]
fn driver_framework_an_internal_non_usb_device_is_ignored() {
    let rec = record(
        "Microsoft-Windows-DriverFrameworks-UserMode",
        2003,
        "UMDFHostDeviceArrivalBegin",
        "ACPI\\PNP0A03\\0",
        "2020-09-19T04:36:42Z",
    );
    assert!(driver_framework_events(&[mirror(&rec)]).is_empty());
}

#[test]
fn a_wpdbusenum_symbolic_link_instance_is_skipped() {
    // The SWD\WPDBUSENUM\ symbolic-link form embeds the serial in a #-compound with no
    // corpus-validated split; skip it rather than risk a wrong device key.
    let rec = record(
        "Microsoft-Windows-DriverFrameworks-UserMode",
        2100,
        "UMDFHostDeviceRequest",
        "SWD\\WPDBUSENUM\\_??_USBSTOR#DISK&VEN_SANDISK#4C53...&0#{guid}",
        "2020-09-19T04:36:42Z",
    );
    assert!(driver_framework_events(&[mirror(&rec)]).is_empty());
}

#[test]
fn a_usb_root_hub_controller_is_ignored() {
    let rec = record(
        "Microsoft-Windows-DriverFrameworks-UserMode",
        2003,
        "UMDFHostDeviceArrivalBegin",
        "USB\\ROOT_HUB30\\5&d01e486&0&0",
        "2020-09-19T04:36:42Z",
    );
    assert!(driver_framework_events(&[mirror(&rec)]).is_empty());
}

#[test]
fn driver_framework_an_event_id_serialized_as_an_object_is_read() {
    let mut rec = record(
        "Microsoft-Windows-DriverFrameworks-UserMode",
        0,
        "UMDFHostDeviceArrivalBegin",
        "USB\\VID_0781&PID_5597\\4C530000261130109435",
        "2020-09-19T04:36:42Z",
    );
    rec["Event"]["System"]["EventID"] =
        obj(vec![("#text", 2003.into()), ("#attributes", obj(vec![("Qualifiers", "0".into())]))]);
    let events = driver_framework_events(&[mirror(&rec)]);
    assert_eq!(events.len(), 1);
    assert_eq!(events[0].event_id, 2003);
}

fn event(event_id: u32, instance: &str, when: &str) -> DriverFrameworkEvent {
    DriverFrameworkEvent {
        timestamp: when.to_string(),
        event_id,
        instance_id: instance.to_string(),
    }
}

#[test]
fn arrival_emits_last_connected_keyed_by_serial() {
    let ev = event(
        2003,
        "USB\\VID_0781&PID_5597\\4C530000261130109435",
        "2020-09-19T04:36:42.874132Z",
    );
    let claims = DriverFrameworkSource::new(std::slice::from_ref(&ev)).claims();
    assert_eq!(claims.len(), 1);
    assert_eq!(
        claims[0].device,
        DeviceKey("4C530000261130109435".to_string())
    );
    assert_eq!(claims[0].attribute, Attribute::LastConnected);
    assert_eq!(claims[0].value, Value::Timestamp(1_600_490_202));
    assert_eq!(claims[0].provenance.source, SourceKind::DriverFramework);
    assert!(claims[0]
        .provenance
        .locator
        .contains("DriverFrameworks-UserMode/Operational#2003"));
}

#[test]
fn removal_emits_last_removed() {
    let ev = event(
        2102,
        "USB\\VID_0781&PID_5597\\4C530000261130109435",
        "2020-09-19T05:10:00Z",
    );
    let claims = DriverFrameworkSource::new(std::slice::from_ref(&ev)).claims();
    assert_eq!(claims.len(), 1);
    assert_eq!(claims[0].attribute, Attribute::LastRemoved);
}

#[test]
fn a_usbstor_instance_keys_by_its_own_last_component() {
    let ev = event(
        2003,
        "USBSTOR\\Disk&Ven_SanDisk&Prod_Cruzer&Rev_1.00\\4C530000261130109435&0",
        "2020-09-19T04:36:42Z",
    );
    let claims = DriverFrameworkSource::new(std::slice::from_ref(&ev)).claims();
    assert_eq!(
        claims[0].device,
        DeviceKey("4C530000261130109435&0".to_string())
    );
}

#[test]
fn driver_framework_a_malformed_timestamp_yields_no_claim() {
    let ev = event(2003, "USB\\VID_0781&PID_5597\\SERIAL", "not-a-timestamp");
    assert!(DriverFrameworkSource::new(std::slice::from_ref(&ev))
        .claims()
        .is_empty());
}

#[test]
fn driver_framework_an_instance_id_with_no_serial_component_yields_no_claim() {
    let ev = event(2003, "USB\\", "2020-09-19T04:36:42Z");
    assert!(DriverFrameworkSource::new(std::slice::from_ref(&ev))
        .claims()
        .is_empty());
}

#[test]
fn source_kind_lives_in_the_event_log_container() {
    assert_eq!(
        SourceKind::DriverFramework.container(),
        usb_forensic::ArtifactContainer::EventLog
    );
    assert!(!SourceKind::DriverFramework.clock_is_local());
}
