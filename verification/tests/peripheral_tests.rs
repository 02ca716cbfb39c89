#![allow(unused_imports)]
use usb_forensic::model::{Attribute, Claim, DeviceKey, Provenance, SourceKind, Value};
use usb_forensic::sources::peripheral::Bus;
use usb_forensic::{DeviceConnection, HistorySource, PeripheralSource, RecordOrigin};

/// The decoded setupapi connections, as the adapter reads them.
fn setupapi_conns(text: &str, file: &str) -> Vec<DeviceConnection> {
    usb_forensic::readers::setupapi_connections(text, file)
}

const USBSTOR_HEADER: &str = "[Device Install (Hardware initiated) - \
    USBSTOR\\Disk&Ven_Generic&Prod_Flash\\7&1c2c4f0a&0 2024/01/02 03:04:05.000]";

#[test]
fn setupapi_connection_yields_first_connected_claim() {
    let conns = setupapi_conns(USBSTOR_HEADER, "setupapi.dev.log");
    assert_eq!(conns.len(), 1);
    let claims = PeripheralSource::new(&conns, SourceKind::SetupApi).claims();
    let fc = claims
        .iter()
        .find(|c| c.attribute == Attribute::FirstConnected)
        .expect("first-connected claim");
    // keyed by the last instance-id component (the instance serial).
    assert_eq!(fc.device, DeviceKey("7&1c2c4f0a&0".to_string()));
    assert_eq!(fc.provenance.source, SourceKind::SetupApi);
    // A line-oriented source (no key_path) locates by file:line.
    assert_eq!(fc.provenance.locator, "setupapi.dev.log:1");
    assert!(matches!(fc.value, Value::Timestamp(_)));
}

#[test]
fn source_kind_is_taken_from_the_caller() {
    // The bin knows each connection's origin (setupapi vs registry vs Linux) and
    // stamps it; the adapter faithfully carries whatever SourceKind it is given.
    let conns = setupapi_conns(USBSTOR_HEADER, "syslog");
    let claims = PeripheralSource::new(&conns, SourceKind::LinuxKernelLog).claims();
    assert!(!claims.is_empty());
    assert!(claims
        .iter()
        .all(|c| c.provenance.source == SourceKind::LinuxKernelLog));
}

#[test]
fn registry_key_path_is_used_as_the_locator() {
    // A registry-sourced connection is not line-oriented (line 0) — its locator is
    // the full key path, so provenance points at the exact hive key.
    let mut conn = setupapi_conns(USBSTOR_HEADER, "SYSTEM")
        .pop()
        .expect("one conn");
    let key = "ControlSet001\\Enum\\USBSTOR\\Disk&Ven_Generic&Prod_Flash\\7&1c2c4f0a&0";
    conn.source.key_path = Some(key.to_string());
    conn.source.line = 0;
    let conns = [conn];
    let claims = PeripheralSource::new(&conns, SourceKind::Usbstor).claims();
    assert_eq!(claims[0].provenance.source, SourceKind::Usbstor);
    assert_eq!(claims[0].provenance.locator, key);
}

#[test]
fn drive_letter_yields_a_drive_letter_claim() {
    // peripheral-core 0.3's MountedDevices join sets `drive_letter`; the adapter
    // surfaces it as a `DriveLetter` claim keyed by the same device, so the
    // correlated record shows the mount (e.g. `E:`).
    let mut conn = setupapi_conns(USBSTOR_HEADER, "SYSTEM")
        .pop()
        .expect("one conn");
    conn.drive_letter = Some('E');
    let conns = [conn];
    let claims = PeripheralSource::new(&conns, SourceKind::Usbstor).claims();
    let dl = claims
        .iter()
        .find(|c| c.attribute == Attribute::DriveLetter)
        .expect("drive-letter claim");
    assert_eq!(dl.value, Value::Text("E:".to_string()));
    assert_eq!(dl.device, DeviceKey("7&1c2c4f0a&0".to_string()));
    assert_eq!(dl.provenance.source, SourceKind::Usbstor);
}

#[test]
fn explicit_device_serial_is_used_as_the_key() {
    let mut conn = setupapi_conns(USBSTOR_HEADER, "f").pop().expect("one conn");
    conn.device_serial = Some("AA11BB22".to_string());
    let conns = [conn];
    let claims = PeripheralSource::new(&conns, SourceKind::SetupApi).claims();
    assert_eq!(claims[0].device, DeviceKey("AA11BB22".to_string()));
}

#[test]
fn arrival_and_removal_stamps_yield_last_connected_and_removed() {
    let mut conn = setupapi_conns(USBSTOR_HEADER, "f").pop().expect("one conn");
    conn.last_arrival = Some(1_700_000_500);
    conn.last_removal = Some(1_700_000_900);
    let conns = [conn];
    let claims = PeripheralSource::new(&conns, SourceKind::SetupApi).claims();
    assert_eq!(
        claims
            .iter()
            .find(|c| c.attribute == Attribute::LastConnected)
            .map(|c| &c.value),
        Some(&Value::Timestamp(1_700_000_500))
    );
    assert_eq!(
        claims
            .iter()
            .find(|c| c.attribute == Attribute::LastRemoved)
            .map(|c| &c.value),
        Some(&Value::Timestamp(1_700_000_900))
    );
}

#[test]
fn an_mtp_bus_device_emits_a_device_class_claim() {
    let mut conn = setupapi_conns(USBSTOR_HEADER, "f").pop().expect("one conn");
    conn.bus = Bus::Mtp;
    let conns = [conn];
    let claims = PeripheralSource::new(&conns, SourceKind::Usbstor).claims();
    let dc = claims
        .iter()
        .find(|c| c.attribute == Attribute::DeviceClass)
        .expect("device-class claim");
    assert_eq!(dc.value, Value::Text("MTP".to_string()));
}

#[test]
fn a_non_mtp_bus_device_emits_no_device_class_claim() {
    let conns = setupapi_conns(USBSTOR_HEADER, "f"); // bus classified as Usb
    let claims = PeripheralSource::new(&conns, SourceKind::Usbstor).claims();
    assert!(!claims.iter().any(|c| c.attribute == Attribute::DeviceClass));
}

#[test]
fn separatorless_instance_id_is_used_whole() {
    // No `\` in the instance id → the whole string is the key (rfind → None branch).
    let mut conn = setupapi_conns(USBSTOR_HEADER, "f").pop().expect("one conn");
    conn.device_serial = None;
    conn.device_instance_id = "BAREINSTANCE".to_string();
    let conns = [conn];
    let claims = PeripheralSource::new(&conns, SourceKind::SetupApi).claims();
    assert_eq!(claims[0].device, DeviceKey("BAREINSTANCE".to_string()));
}
