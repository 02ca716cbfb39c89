#![allow(unused_imports)]
use usb_forensic::model::{Attribute, Claim, DeviceKey, Provenance, SourceKind, Value};
use usb_forensic::{HistorySource, RecordOrigin, ShellbagEntry, ShellbagSource};
fn entry(path: &str, drive: Option<char>, key_path: Option<&str>) -> ShellbagEntry {
    ShellbagEntry {
        path: path.to_string(),
        drive_letter: drive,
        last_write: Some(1_600_000_000),
        source: RecordOrigin {
            file: "NTUSER.DAT".to_string(),
            line: 0,
            key_path: key_path.map(ToString::to_string),
        },
    }
}

fn claims_for(entries: &[ShellbagEntry]) -> Vec<Claim> {
    ShellbagSource::new(entries).claims()
}

#[test]
fn drive_letter_entry_yields_drive_letter_and_browsed_folder() {
    let entries = [entry(
        "My Computer\\E:\\\\photos",
        Some('E'),
        Some("Software\\Microsoft\\Windows\\Shell\\BagMRU\\0\\0\\0"),
    )];
    let claims = claims_for(&entries);
    assert_eq!(claims.len(), 2);

    let dl = &claims[0];
    assert_eq!(dl.device, DeviceKey("E:".to_string()));
    assert_eq!(dl.attribute, Attribute::DriveLetter);
    assert_eq!(dl.value, Value::Text("E:".to_string()));
    assert_eq!(dl.provenance.source, SourceKind::Shellbag);
    assert_eq!(
        dl.provenance.locator,
        "Software\\Microsoft\\Windows\\Shell\\BagMRU\\0\\0\\0"
    );

    let bf = &claims[1];
    assert_eq!(bf.device, DeviceKey("E:".to_string()));
    assert_eq!(bf.attribute, Attribute::BrowsedFolder);
    assert_eq!(
        bf.value,
        Value::Text("My Computer\\E:\\\\photos".to_string())
    );
    assert_eq!(bf.provenance.source, SourceKind::Shellbag);
}

#[test]
fn entry_without_a_drive_letter_is_skipped() {
    // A volume item with no clean drive-letter name carries no join key.
    let entries = [entry("My Computer\\Some Volume", None, None)];
    assert!(claims_for(&entries).is_empty());
}

#[test]
fn shellbag_locator_falls_back_to_the_file_without_a_key_path() {
    let entries = [entry("My Computer\\E:\\", Some('E'), None)];
    let claims = claims_for(&entries);
    assert_eq!(claims[0].provenance.locator, "NTUSER.DAT");
}

#[test]
fn multiple_entries_accumulate() {
    let entries = [
        entry("My Computer\\E:\\", Some('E'), None),
        entry("My Computer\\F:\\docs", Some('F'), None),
    ];
    let claims = claims_for(&entries);
    assert_eq!(claims.len(), 4);
    assert_eq!(claims[0].device, DeviceKey("E:".to_string()));
    assert_eq!(claims[3].device, DeviceKey("F:".to_string()));
}

#[test]
fn browsed_folder_is_reattributed_to_the_device_mounted_at_that_drive_letter() {
    // End-to-end with reconcile: a physical device reports it was mounted at E:,
    // so the shellbag's browsed folder re-keys onto that device.
    let entries = [entry("My Computer\\E:\\\\photos", Some('E'), None)];
    let mut all = claims_for(&entries);
    all.push(Claim {
        device: DeviceKey("USBSTOR-DEV-1".into()),
        attribute: Attribute::DriveLetter,
        value: Value::Text("E:".into()),
        provenance: Provenance {
            source: SourceKind::Usbstor,
            locator: "x".into(),
        },
    });
    let out = usb_forensic::reconcile_volume_serials(&all);
    let bf = out
        .iter()
        .find(|c| c.attribute == Attribute::BrowsedFolder)
        .expect("browsed folder present");
    assert_eq!(bf.device, DeviceKey("USBSTOR-DEV-1".into()));
}
