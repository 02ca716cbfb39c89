#![allow(unused_imports)]
use usb_forensic::model::{Attribute, Claim, DeviceKey, Provenance, SourceKind, Value};
use usb_forensic::{EmdMgmtSource, EmdVolume, HistorySource, RecordOrigin};
fn vol(label: &str, serial: u32) -> EmdVolume {
    EmdVolume {
        volume_label: label.to_string(),
        volume_serial: serial,
        source: RecordOrigin {
            file: "SOFTWARE".to_string(),
            line: 0,
            key_path: Some("…\\EMDMgmt\\x".to_string()),
        },
    }
}

#[test]
fn labelled_volume_yields_serial_and_name_claims_keyed_by_serial() {
    // 0x5C754D3E = 5C75-4D3E (CFReDS "Authorized USB").
    let vols = [vol("Authorized USB", 0x5C75_4D3E)];
    let claims = EmdMgmtSource::new(&vols).claims();
    assert_eq!(claims.len(), 2);
    assert_eq!(claims[0].device, DeviceKey("5C75-4D3E".to_string()));
    assert_eq!(claims[0].attribute, Attribute::VolumeSerial);
    assert_eq!(claims[0].value, Value::Text("5C75-4D3E".to_string()));
    assert_eq!(claims[1].attribute, Attribute::VolumeName);
    assert_eq!(claims[1].value, Value::Text("Authorized USB".to_string()));
    assert_eq!(claims[1].provenance.source, SourceKind::EmdMgmt);
}

#[test]
fn unlabelled_volume_yields_only_the_serial_claim() {
    let vols = [vol("", 1)];
    let claims = EmdMgmtSource::new(&vols).claims();
    assert_eq!(claims.len(), 1);
    assert_eq!(claims[0].attribute, Attribute::VolumeSerial);
    assert_eq!(claims[0].value, Value::Text("0000-0001".to_string()));
}

#[test]
fn emdmgmt_locator_falls_back_to_the_file_without_a_key_path() {
    let mut v = vol("X", 2);
    v.source.key_path = None;
    let vols = [v];
    let claims = EmdMgmtSource::new(&vols).claims();
    assert_eq!(claims[0].provenance.locator, "SOFTWARE");
}
