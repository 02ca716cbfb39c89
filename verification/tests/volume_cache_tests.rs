#![allow(unused_imports)]
use usb_forensic::model::{Attribute, Claim, DeviceKey, Provenance, SourceKind, Value};
use usb_forensic::{HistorySource, RecordOrigin, VolumeCacheSource, VolumeLabel};
fn label(drive: char, name: &str) -> VolumeLabel {
    VolumeLabel {
        drive_letter: drive,
        volume_label: name.to_string(),
        source: RecordOrigin {
            file: "SOFTWARE".to_string(),
            line: 0,
            key_path: Some(format!(
                "Microsoft\\Windows Search\\VolumeInfoCache\\{drive}:"
            )),
        },
    }
}

#[test]
fn volume_label_yields_a_volume_name_claim_keyed_by_drive_letter() {
    let labels = [label('E', "Authorized USB")];
    let claims = VolumeCacheSource::new(&labels).claims();
    assert_eq!(claims.len(), 1);
    assert_eq!(claims[0].device, DeviceKey("E:".to_string()));
    assert_eq!(claims[0].attribute, Attribute::VolumeName);
    assert_eq!(claims[0].value, Value::Text("Authorized USB".to_string()));
    assert_eq!(claims[0].provenance.source, SourceKind::VolumeInfoCache);
    assert!(claims[0].provenance.locator.contains("VolumeInfoCache"));
}

#[test]
fn multiple_labels_accumulate() {
    let labels = [label('E', "Authorized USB"), label('F', "IAMAN")];
    let claims = VolumeCacheSource::new(&labels).claims();
    assert_eq!(claims.len(), 2);
    assert_eq!(claims[1].device, DeviceKey("F:".to_string()));
}
