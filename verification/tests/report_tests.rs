#![allow(unused_imports)]
use usb_forensic::model::{Attribute, Claim, DeviceKey, Provenance, SourceKind, Value};
use usb_forensic::report::{audit, Category, Severity, CODE_CONFLICT, CODE_ENCRYPTED, CODE_HISTORY, CODE_IMPOSSIBLE_ORDER, CODE_MTP, CODE_REFORMATTED};
use usb_forensic::correlate;
fn claim(dev: &str, attr: Attribute, val: Value, src: SourceKind, loc: &str) -> Claim {
    Claim {
        device: DeviceKey(dev.to_string()),
        attribute: attr,
        value: val,
        provenance: Provenance {
            source: src,
            locator: loc.to_string(),
        },
    }
}

#[test]
fn conflicting_attribute_yields_medium_integrity_finding() {
    let claims = [
        claim(
            "SN1",
            Attribute::FirstConnected,
            Value::Timestamp(1_700_000_000),
            SourceKind::Usbstor,
            "k",
        ),
        claim(
            "SN1",
            Attribute::FirstConnected,
            Value::Timestamp(1_699_000_000),
            SourceKind::SetupApi,
            "l",
        ),
    ];
    let findings = audit(&correlate(&claims));
    let f = findings
        .iter()
        .find(|f| f.code == CODE_CONFLICT)
        .expect("conflict finding");
    assert_eq!(f.severity, Some(Severity::Medium));
    assert_eq!(f.category, Category::Integrity);
    assert_eq!(
        f.evidence.len(),
        2,
        "both conflicting values retained as evidence"
    );
}

#[test]
fn corroborated_attribute_yields_info_history_finding() {
    let ts = Value::Timestamp(1_700_000_000);
    let claims = [
        claim(
            "SN1",
            Attribute::FirstConnected,
            ts.clone(),
            SourceKind::Usbstor,
            "k",
        ),
        claim(
            "SN1",
            Attribute::FirstConnected,
            ts,
            SourceKind::SetupApi,
            "l",
        ),
    ];
    let findings = audit(&correlate(&claims));
    let f = findings
        .iter()
        .find(|f| f.code == CODE_HISTORY)
        .expect("history finding");
    assert_eq!(f.severity, Some(Severity::Info));
    assert_eq!(f.category, Category::History);
}

#[test]
fn single_source_yields_no_finding() {
    let claims = [claim(
        "SN1",
        Attribute::FirstConnected,
        Value::Timestamp(1_700_000_000),
        SourceKind::Usbstor,
        "k",
    )];
    assert!(audit(&correlate(&claims)).is_empty());
}

#[test]
fn first_connected_after_last_connected_is_flagged_impossible() {
    // FirstConnected (later) strictly after LastConnected (earlier) is physically
    // impossible → a clock-rollback / timestamp-manipulation lead.
    let claims = [
        claim(
            "SN1",
            Attribute::FirstConnected,
            Value::Timestamp(1_700_000_500),
            SourceKind::Usbstor,
            "k",
        ),
        claim(
            "SN1",
            Attribute::LastConnected,
            Value::Timestamp(1_700_000_100),
            SourceKind::Usbstor,
            "l",
        ),
    ];
    let f = audit(&correlate(&claims))
        .into_iter()
        .find(|f| f.code == CODE_IMPOSSIBLE_ORDER)
        .expect("impossible-ordering finding");
    assert_eq!(f.severity, Some(Severity::Medium));
    assert_eq!(f.category, Category::Integrity);
    // both boundary timestamps retained as evidence.
    assert_eq!(f.evidence.len(), 2);
}

#[test]
fn last_removed_before_first_connected_is_flagged() {
    // The check also covers LastRemoved, and uses the conservative bound: the
    // EARLIEST first-connect after the LATEST last-* event.
    let claims = [
        claim(
            "SN2",
            Attribute::FirstConnected,
            Value::Timestamp(2_000),
            SourceKind::SetupApi,
            "k",
        ),
        claim(
            "SN2",
            Attribute::LastRemoved,
            Value::Timestamp(1_000),
            SourceKind::Usbstor,
            "l",
        ),
    ];
    assert!(audit(&correlate(&claims))
        .iter()
        .any(|f| f.code == CODE_IMPOSSIBLE_ORDER));
}

#[test]
fn normal_ordering_yields_no_impossible_finding() {
    // FirstConnected before LastConnected — the normal case.
    let claims = [
        claim(
            "SN3",
            Attribute::FirstConnected,
            Value::Timestamp(1_000),
            SourceKind::Usbstor,
            "k",
        ),
        claim(
            "SN3",
            Attribute::LastConnected,
            Value::Timestamp(2_000),
            SourceKind::Usbstor,
            "l",
        ),
    ];
    assert!(!audit(&correlate(&claims))
        .iter()
        .any(|f| f.code == CODE_IMPOSSIBLE_ORDER));
}

#[test]
fn non_timestamp_connect_values_are_ignored_by_the_ordering_check() {
    // A defensively-typed Text value on a connect attribute is not a timestamp, so it
    // contributes nothing to the ordering bound and never triggers a false finding.
    let claims = [
        claim(
            "SN5",
            Attribute::FirstConnected,
            Value::Text("not-a-time".into()),
            SourceKind::Usbstor,
            "k",
        ),
        claim(
            "SN5",
            Attribute::LastConnected,
            Value::Timestamp(1_000),
            SourceKind::Usbstor,
            "l",
        ),
    ];
    assert!(!audit(&correlate(&claims))
        .iter()
        .any(|f| f.code == CODE_IMPOSSIBLE_ORDER));
}

#[test]
fn equal_first_and_last_is_not_impossible() {
    // A single connect: first == last is valid, not a violation (strict `>` only).
    let claims = [
        claim(
            "SN4",
            Attribute::FirstConnected,
            Value::Timestamp(5_000),
            SourceKind::Usbstor,
            "k",
        ),
        claim(
            "SN4",
            Attribute::LastConnected,
            Value::Timestamp(5_000),
            SourceKind::Usbstor,
            "l",
        ),
    ];
    assert!(!audit(&correlate(&claims))
        .iter()
        .any(|f| f.code == CODE_IMPOSSIBLE_ORDER));
}

#[test]
fn an_encrypted_device_yields_a_low_encryption_finding() {
    let claims = [claim(
        "disk-ABCD1234",
        Attribute::Encryption,
        Value::Text("BitLocker".into()),
        SourceKind::DeviceImage,
        "img.raw",
    )];
    let f = audit(&correlate(&claims))
        .into_iter()
        .find(|f| f.code == CODE_ENCRYPTED)
        .expect("encryption finding");
    assert_eq!(f.severity, Some(Severity::Low));
    assert!(f.note.contains("BitLocker"));
}

#[test]
fn a_non_encrypted_device_yields_no_encryption_finding() {
    let claims = [claim(
        "SN9",
        Attribute::FirstConnected,
        Value::Timestamp(1),
        SourceKind::Usbstor,
        "k",
    )];
    assert!(!audit(&correlate(&claims))
        .iter()
        .any(|f| f.code == CODE_ENCRYPTED));
}

#[test]
fn a_label_with_two_serials_is_flagged_reformatted() {
    // Same volume label, two distinct serials (across two EMDMgmt records) → the device
    // was reformatted and reused. Matches the real CFReDS "IAMAN" case.
    let claims = [
        claim(
            "9E6A-5B82",
            Attribute::VolumeName,
            Value::Text("IAMAN".into()),
            SourceKind::EmdMgmt,
            "a",
        ),
        claim(
            "9E6A-5B82",
            Attribute::VolumeSerial,
            Value::Text("9E6A-5B82".into()),
            SourceKind::EmdMgmt,
            "a",
        ),
        claim(
            "B4D8-5399",
            Attribute::VolumeName,
            Value::Text("IAMAN".into()),
            SourceKind::EmdMgmt,
            "b",
        ),
        claim(
            "B4D8-5399",
            Attribute::VolumeSerial,
            Value::Text("B4D8-5399".into()),
            SourceKind::EmdMgmt,
            "b",
        ),
    ];
    let f = audit(&correlate(&claims))
        .into_iter()
        .find(|f| f.code == CODE_REFORMATTED)
        .expect("reformatting finding");
    assert_eq!(f.severity, Some(Severity::Medium));
    assert_eq!(f.evidence.len(), 2);
    assert!(f.note.contains("IAMAN"));
}

#[test]
fn a_label_with_a_single_serial_is_not_flagged() {
    let claims = [
        claim(
            "SER1",
            Attribute::VolumeName,
            Value::Text("KINGSTON".into()),
            SourceKind::EmdMgmt,
            "a",
        ),
        claim(
            "SER1",
            Attribute::VolumeSerial,
            Value::Text("SER1".into()),
            SourceKind::EmdMgmt,
            "a",
        ),
    ];
    assert!(!audit(&correlate(&claims))
        .iter()
        .any(|f| f.code == CODE_REFORMATTED));
}

#[test]
fn a_non_text_volume_attribute_is_ignored_by_the_reformatting_scan() {
    // Defensive: a VolumeName carrying a Timestamp (mistyped) contributes no label, so
    // no spurious reformatting finding — and no panic.
    let claims = [claim(
        "SER2",
        Attribute::VolumeName,
        Value::Timestamp(1),
        SourceKind::EmdMgmt,
        "a",
    )];
    assert!(!audit(&correlate(&claims))
        .iter()
        .any(|f| f.code == CODE_REFORMATTED));
}

#[test]
fn an_mtp_device_yields_a_low_mtp_finding() {
    let claims = [claim(
        "PHONE1",
        Attribute::DeviceClass,
        Value::Text("MTP".into()),
        SourceKind::Usbstor,
        "k",
    )];
    let f = audit(&correlate(&claims))
        .into_iter()
        .find(|f| f.code == CODE_MTP)
        .expect("MTP finding");
    assert_eq!(f.severity, Some(Severity::Low));
    assert!(f.note.contains("MTP"));
}

#[test]
fn a_non_mtp_device_yields_no_mtp_finding() {
    let claims = [claim(
        "SN1",
        Attribute::FirstConnected,
        Value::Timestamp(1),
        SourceKind::Usbstor,
        "k",
    )];
    assert!(!audit(&correlate(&claims))
        .iter()
        .any(|f| f.code == CODE_MTP));
}

#[test]
fn an_encryption_attribute_with_a_non_text_value_is_ignored() {
    // Defensive: the encryption type is a string; a mistyped Timestamp value yields no
    // finding rather than a panic or a garbled note.
    let claims = [claim(
        "disk-1",
        Attribute::Encryption,
        Value::Timestamp(0),
        SourceKind::DeviceImage,
        "img",
    )];
    assert!(!audit(&correlate(&claims))
        .iter()
        .any(|f| f.code == CODE_ENCRYPTED));
}

#[test]
fn the_reformatting_note_quotes_the_label_and_lists_the_serials_in_order() {
    let claims = [
        claim("B1", Attribute::VolumeName, Value::Text("MY \"KEY\"".into()), SourceKind::EmdMgmt, "a"),
        claim("B1", Attribute::VolumeSerial, Value::Text("BBBB-0002".into()), SourceKind::EmdMgmt, "a"),
        claim("A1", Attribute::VolumeName, Value::Text("MY \"KEY\"".into()), SourceKind::EmdMgmt, "b"),
        claim("A1", Attribute::VolumeSerial, Value::Text("AAAA-0001".into()), SourceKind::EmdMgmt, "b"),
    ];
    let f = audit(&correlate(&claims))
        .into_iter()
        .find(|f| f.code == CODE_REFORMATTED)
        .expect("reformatting finding");
    assert_eq!(
        f.note,
        "volume \"MY \\\"KEY\\\"\" appears with 2 distinct volume serials (AAAA-0001, BBBB-0002) \
         — consistent with the device having been reformatted and reused"
    );
    assert_eq!(f.mitre, vec!["T1070.004".to_string()]);
}
