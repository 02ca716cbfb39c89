#![allow(unused_imports)]
use usb_forensic::model::{Attribute, Claim, DeviceKey, Provenance, SourceKind, Value};
use usb_forensic::normalize_local_clocks;
fn claim(src: SourceKind, value: Value) -> Claim {
    Claim {
        device: DeviceKey("SN1".into()),
        attribute: Attribute::FirstConnected,
        value,
        provenance: Provenance {
            source: src,
            locator: "l".into(),
        },
    }
}

#[test]
fn local_timestamp_is_shifted_utc_is_not() {
    let mut claims = [
        claim(SourceKind::SetupApi, Value::Timestamp(1_700_000_000)), // local → shift
        claim(SourceKind::Usbstor, Value::Timestamp(1_700_000_000)),  // UTC → keep
        claim(SourceKind::SetupApi, Value::Text("KINGSTON".into())), // local but not a time → keep
    ];
    normalize_local_clocks(&mut claims, 3600); // host at UTC+1
    assert_eq!(claims[0].value, Value::Timestamp(1_699_996_400)); // −3600
    assert_eq!(claims[1].value, Value::Timestamp(1_700_000_000)); // untouched
    assert_eq!(claims[2].value, Value::Text("KINGSTON".into())); // untouched
}

#[test]
fn clock_is_local_only_for_setupapi() {
    assert!(SourceKind::SetupApi.clock_is_local());
    assert!(!SourceKind::Usbstor.clock_is_local());
    assert!(!SourceKind::Lnk.clock_is_local());
}
