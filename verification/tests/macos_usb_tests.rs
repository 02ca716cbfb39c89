#![allow(unused_imports)]
use usb_forensic::model::{Attribute, Claim, DeviceKey, Provenance, SourceKind, Value};
use usb_forensic::sources::macos_usb::parse_hex_id;
use usb_forensic::{parse_system_profiler, HistorySource, JsonNumber, JsonValue, MacUsbDevice, MacUsbSource};


/// Read a capture's devices.
fn profile(bytes: &[u8]) -> Vec<MacUsbDevice> {
    parse_system_profiler(bytes)
}


/// A `system_profiler -json SPUSBDataType` capture with one bus, one hub, and a
/// mass-storage stick beneath it — the documented shape (a bus → `_items` → device).
const JSON: &str = r#"{"SPUSBDataType":[
  {"_name":"USB31Bus","host_controller":"AppleT8132USBXHCI","_items":[
    {"_name":"USB3.0 Hub","product_id":"0x2513","_items":[
      {"_name":"Cruzer Blade","serial_num":"4C531001234","product_id":"0x5567",
       "vendor_id":"0x0781  (SanDisk Corporation)","manufacturer":"SanDisk",
       "Media":[{"bsd_name":"disk4","size":"16 GB"}]}
    ]}
  ]}
]}"#;

#[test]
fn walks_the_tree_and_extracts_the_storage_device() {
    let devs = profile(JSON.as_bytes());
    let stick = devs
        .iter()
        .find(|d| d.serial.as_deref() == Some("4C531001234"))
        .expect("storage device present");
    assert_eq!(stick.name, "Cruzer Blade");
    assert_eq!(stick.vid, Some(0x0781)); // vendor gloss ignored
    assert_eq!(stick.pid, Some(0x5567));
    assert_eq!(stick.manufacturer.as_deref(), Some("SanDisk"));
    assert!(stick.is_mass_storage);
    // The hub (product_id, no serial, no Media) is a device node but not mass storage.
    let hub = devs.iter().find(|d| d.name == "USB3.0 Hub").expect("hub");
    assert!(!hub.is_mass_storage);
    assert_eq!(hub.serial, None);
}

#[test]
fn a_real_empty_bus_capture_yields_no_devices() {
    // The exact shape this project captured from a real Mac with nothing plugged in:
    // three buses, no `_items`, no device fields → zero devices, no panic.
    let empty = r#"{"SPUSBDataType":[
      {"_name":"USB31Bus","host_controller":"AppleT8132USBXHCI"},
      {"_name":"USB31Bus","host_controller":"AppleT8132USBXHCI"}
    ]}"#;
    assert!(profile(empty.as_bytes()).is_empty());
}

#[test]
fn non_json_or_missing_key_yields_nothing() {
    assert!(profile(b"not json").is_empty());
    assert!(profile(br#"{"Other":[]}"#).is_empty());
}

#[test]
fn parse_hex_id_reads_the_leading_hex_token_only() {
    assert_eq!(parse_hex_id(Some("0x05ac")), Some(0x05ac));
    assert_eq!(
        parse_hex_id(Some("0x0781  (SanDisk Corporation)")),
        Some(0x0781)
    );
    assert_eq!(parse_hex_id(Some("garbage")), None);
    assert_eq!(parse_hex_id(None), None);
}

#[test]
fn source_emits_name_and_mass_storage_claims_keyed_by_serial() {
    let devs = profile(JSON.as_bytes());
    let claims = MacUsbSource::new(&devs, "mac-usb.json").claims();
    let stick_claims: Vec<_> = claims
        .iter()
        .filter(|c| c.device == DeviceKey("4C531001234".to_string()))
        .collect();
    assert!(stick_claims
        .iter()
        .any(|c| c.attribute == Attribute::VolumeName
            && c.value == Value::Text("Cruzer Blade".to_string())));
    assert!(stick_claims
        .iter()
        .any(|c| c.attribute == Attribute::DeviceClass
            && c.value == Value::Text("MassStorage".to_string())));
    assert_eq!(stick_claims[0].provenance.source, SourceKind::MacosUsb);
}
