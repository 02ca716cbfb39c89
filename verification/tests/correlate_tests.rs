#![allow(unused_imports)]
use usb_forensic::model::{Attribute, Claim, Consistency, DeviceKey, Provenance, SourceKind, Value};
use usb_forensic::correlate;
fn claim(dev: &str, attr: Attribute, val: Value, src: SourceKind, loc: &str) -> Claim {
    Claim {
        device: DeviceKey(dev.to_string()),
        attribute: attr,
        value: val,
        provenance: Provenance {
            source: src,
            locator: loc.to_string(),
        },
    }
}

#[test]
fn single_source_is_graded_single_source() {
    let claims = [claim(
        "SN1",
        Attribute::FirstConnected,
        Value::Timestamp(1_700_000_000),
        SourceKind::Usbstor,
        "USBSTOR\\Disk&Ven",
    )];
    let hist = correlate(&claims);
    assert_eq!(hist.len(), 1);
    assert_eq!(hist[0].device, DeviceKey("SN1".to_string()));
    assert_eq!(hist[0].attributes[0].consistency, Consistency::SingleSource);
}

#[test]
fn two_sources_that_agree_are_corroborated() {
    let ts = Value::Timestamp(1_700_000_000);
    let claims = [
        claim(
            "SN1",
            Attribute::FirstConnected,
            ts.clone(),
            SourceKind::Usbstor,
            "k",
        ),
        claim(
            "SN1",
            Attribute::FirstConnected,
            ts,
            SourceKind::SetupApi,
            "setupapi.dev.log:42",
        ),
    ];
    let hist = correlate(&claims);
    assert_eq!(hist[0].attributes[0].consistency, Consistency::Corroborated);
    assert_eq!(hist[0].attributes[0].values.len(), 2);
}

#[test]
fn same_container_agreement_is_not_tamper_independent_corroboration() {
    // USBSTOR and MountedDevices are different recording mechanisms but the SAME
    // storage container (the SYSTEM hive) — one hive tamper corrupts both, so their
    // agreement is not tamper-independent corroboration. Grade conservatively.
    let ts = Value::Timestamp(1_700_000_000);
    let claims = [
        claim(
            "SN1",
            Attribute::FirstConnected,
            ts.clone(),
            SourceKind::Usbstor,
            "USBSTOR\\...",
        ),
        claim(
            "SN1",
            Attribute::FirstConnected,
            ts,
            SourceKind::MountedDevices,
            "MountedDevices\\...",
        ),
    ];
    let hist = correlate(&claims);
    assert_eq!(hist[0].attributes[0].consistency, Consistency::SingleSource);
}

#[test]
fn two_sources_that_disagree_are_conflicting() {
    let claims = [
        claim(
            "SN1",
            Attribute::FirstConnected,
            Value::Timestamp(1_700_000_000),
            SourceKind::Usbstor,
            "k",
        ),
        claim(
            "SN1",
            Attribute::FirstConnected,
            Value::Timestamp(1_699_999_000),
            SourceKind::SetupApi,
            "l",
        ),
    ];
    let hist = correlate(&claims);
    assert_eq!(hist[0].attributes[0].consistency, Consistency::Conflicting);
}

#[test]
fn two_claims_from_the_same_source_are_not_corroboration() {
    let ts = Value::Timestamp(1_700_000_000);
    let claims = [
        claim(
            "SN1",
            Attribute::FirstConnected,
            ts.clone(),
            SourceKind::Usbstor,
            "k1",
        ),
        claim(
            "SN1",
            Attribute::FirstConnected,
            ts,
            SourceKind::Usbstor,
            "k2",
        ),
    ];
    let hist = correlate(&claims);
    assert_eq!(hist[0].attributes[0].consistency, Consistency::SingleSource);
}

#[test]
fn groups_by_device_and_attribute_deterministically() {
    let claims = [
        claim(
            "SN2",
            Attribute::VolumeName,
            Value::Text("KINGSTON".into()),
            SourceKind::MountedDevices,
            "m",
        ),
        claim(
            "SN1",
            Attribute::LastConnected,
            Value::Timestamp(1_700_000_500),
            SourceKind::PartitionDiag,
            "e",
        ),
        claim(
            "SN1",
            Attribute::VolumeSerial,
            Value::Text("A1B2".into()),
            SourceKind::MountedDevices,
            "m",
        ),
    ];
    let hist = correlate(&claims);
    assert_eq!(hist.len(), 2);
    // sorted by device key
    assert_eq!(hist[0].device, DeviceKey("SN1".into()));
    assert_eq!(hist[1].device, DeviceKey("SN2".into()));
    // SN1's attributes sorted by declaration order (LastConnected < VolumeSerial)
    let attrs: Vec<Attribute> = hist[0].attributes.iter().map(|a| a.attribute).collect();
    assert_eq!(attrs, [Attribute::LastConnected, Attribute::VolumeSerial]);
}

