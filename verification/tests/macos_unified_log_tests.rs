#![allow(unused_imports)]
use usb_forensic::model::{Attribute, Claim, DeviceKey, Provenance, SourceKind, Value};
use usb_forensic::sources::macos_unified_log::{parse_enumeration_message, parse_log_timestamp};
use usb_forensic::{parse_unified_log, HistorySource, JsonNumber, JsonValue, MacUnifiedLogSource, UsbEnumeration};


/// Read an export's enumeration events.
fn unified_log(bytes: &[u8]) -> Vec<UsbEnumeration> {
    parse_unified_log(bytes)
}


// The real message + timestamp shape captured from a Mac (SanDisk stick, this project).
const MSG: &str = "usb-drd0-port-ss@00200000: AppleUSBHostPort::enumerateDeviceComplete_block_invoke: enumerated 0x0781/55ab/0100 ( SanDisk 3.2Gen1 / 1) at 5 Gbps";

fn log_json(events: &[(&str, &str)]) -> Vec<u8> {
    let items: Vec<String> = events
        .iter()
        .map(|(ts, msg)| {
            format!(
                r#"{{"timestamp":"{ts}","eventMessage":{}}}"#,
                serde_json::to_string(msg).unwrap()
            )
        })
        .collect();
    format!("[{}]", items.join(",")).into_bytes()
}

#[test]
fn parse_enumeration_message_extracts_vid_pid_name() {
    let (vid, pid, name) = parse_enumeration_message(MSG).expect("enumeration");
    assert_eq!(vid, 0x0781);
    assert_eq!(pid, 0x55ab);
    assert_eq!(name, "SanDisk 3.2Gen1");
    // a non-enumeration message yields None.
    assert_eq!(parse_enumeration_message("some other log line"), None);
}

#[test]
fn parse_log_timestamp_handles_the_real_offset_format() {
    // 2026-07-12 18:51:45 +0800 = 2026-07-12 10:51:45 UTC = epoch 1_783_853_505
    // (verified with an independent oracle: Python `datetime.fromisoformat`).
    assert_eq!(
        parse_log_timestamp("2026-07-12 18:51:45.843302+0800"),
        Some(1_783_853_505)
    );
    assert_eq!(parse_log_timestamp("garbage"), None);
    assert_eq!(parse_log_timestamp("2026-07-12 18:51:45+08"), None); // short offset
}

#[test]
fn multiple_enumerations_aggregate_to_first_and_last_connected() {
    let json = log_json(&[
        ("2026-07-12 18:51:45.843302+0800", MSG),
        ("2026-07-12 18:54:04.537000+0800", MSG),
    ]);
    let events = unified_log(&json);
    assert_eq!(events.len(), 2);
    let claims = MacUnifiedLogSource::new(&events, "log.json").claims();
    let first = claims
        .iter()
        .find(|c| c.attribute == Attribute::FirstConnected)
        .expect("first-connected");
    let last = claims
        .iter()
        .find(|c| c.attribute == Attribute::LastConnected)
        .expect("last-connected");
    assert_eq!(first.value, Value::Timestamp(1_783_853_505)); // 18:51:45 +0800
    assert_eq!(last.value, Value::Timestamp(1_783_853_644)); // 18:54:04 +0800
    assert_eq!(first.device, DeviceKey("usb-0781-55AB".to_string()));
    assert_eq!(first.provenance.source, SourceKind::MacosUnifiedLog);
}

#[test]
fn non_json_or_no_usb_events_yields_nothing() {
    assert!(unified_log(b"not json").is_empty());
    let other = log_json(&[("2026-07-12 18:51:45.0+0800", "unrelated kernel message")]);
    assert!(unified_log(&other).is_empty());
}
