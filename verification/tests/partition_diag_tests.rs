#![allow(unused_imports)]
use usb_forensic::model::{Attribute, Claim, DeviceKey, Provenance, SourceKind, Value};
use usb_forensic::{HistorySource, PartitionDiagEvent, PartitionDiagSource};
fn event(serial: Option<&str>, disk_id: Option<&str>, ts: &str) -> PartitionDiagEvent {
    PartitionDiagEvent {
        timestamp: ts.to_string(),
        event_id: 1006,
        disk_number: Some(0),
        bus_type: Some(7),
        model: Some("Kingston DataTraveler".to_string()),
        serial_number: serial.map(str::to_owned),
        disk_id: disk_id.map(str::to_owned),
        capacity: Some(1_000_000_000),
        parent_id: Some("USB\\VID_0951&PID_1666\\SN123".to_string()),
        vbr0_hex: None,
        fat_volume_serial: None,
        ntfs_volume_serial: None,
    }
}

fn claims_for(e: PartitionDiagEvent) -> Vec<Claim> {
    let evs = [e];
    PartitionDiagSource::new(&evs).claims()
}

fn volume_serial_claim(claims: &[Claim]) -> Option<&Value> {
    claims
        .iter()
        .find(|c| c.attribute == Attribute::VolumeSerial)
        .map(|c| &c.value)
}

#[test]
fn fat_volume_serial_is_rendered_as_the_lnk_join_key() {
    // A FAT 4-byte serial is formatted exactly as a Shell Link records it, so it can
    // reconcile with LNK file-access on the same volume.
    let mut e = event(Some("SN1"), None, "2020-01-01T00:00:00Z");
    e.fat_volume_serial = Some(0xDEAD_BEEF);
    let claims = claims_for(e);
    assert_eq!(
        volume_serial_claim(&claims),
        Some(&Value::Text("DEAD-BEEF".to_string()))
    );
}

#[test]
fn ntfs_volume_serial_is_rendered_as_a_distinct_8_byte_form() {
    // The NTFS 8-byte serial must not collide with a 4-byte LNK serial → distinct form.
    let mut e = event(Some("SN2"), None, "2020-01-01T00:00:00Z");
    e.ntfs_volume_serial = Some(0x36B0_8F15_B08E_DAAF);
    let claims = claims_for(e);
    assert_eq!(
        volume_serial_claim(&claims),
        Some(&Value::Text("36B08F15-B08EDAAF".to_string()))
    );
}

#[test]
fn no_volume_serial_emits_no_volume_serial_claim() {
    let claims = claims_for(event(Some("SN3"), None, "2020-01-01T00:00:00Z"));
    assert_eq!(volume_serial_claim(&claims), None);
}

#[test]
fn serial_keyed_event_yields_last_connected() {
    let claims = claims_for(event(Some("SN123"), Some("{guid}"), "2020-01-01T00:00:00Z"));
    assert_eq!(claims.len(), 1);
    assert_eq!(claims[0].device, DeviceKey("SN123".to_string()));
    assert_eq!(claims[0].attribute, Attribute::LastConnected);
    assert_eq!(claims[0].value, Value::Timestamp(1_577_836_800));
    assert_eq!(claims[0].provenance.source, SourceKind::PartitionDiag);
}

#[test]
fn empty_serial_falls_back_to_disk_id() {
    // The real ATA sample logs an empty SerialNumber → key on the disk GUID.
    let claims = claims_for(event(Some(""), Some("DISK-GUID-1"), "2020-01-01T00:00:00Z"));
    assert_eq!(claims.len(), 1);
    assert_eq!(claims[0].device, DeviceKey("DISK-GUID-1".to_string()));
}

#[test]
fn missing_serial_falls_back_to_disk_id() {
    let claims = claims_for(event(None, Some("DISK-GUID-2"), "2020-01-01T00:00:00Z"));
    assert_eq!(claims[0].device, DeviceKey("DISK-GUID-2".to_string()));
}

#[test]
fn no_identity_is_skipped() {
    // Neither a serial nor a disk GUID → nothing to correlate on.
    assert!(claims_for(event(Some(""), None, "2020-01-01T00:00:00Z")).is_empty());
}

#[test]
fn unparseable_timestamp_is_skipped() {
    // A malformed TimeCreated must not panic and must not emit a bogus epoch.
    assert!(claims_for(event(Some("SN9"), None, "not-a-timestamp")).is_empty());
}

#[test]
fn subsecond_iso8601_truncates_to_whole_seconds() {
    // The provider emits sub-second precision; the model is seconds-UTC.
    let claims = claims_for(event(Some("SN7"), None, "2020-08-01T21:47:55.7235131Z"));
    assert_eq!(claims[0].value, Value::Timestamp(1_596_318_475));
}
