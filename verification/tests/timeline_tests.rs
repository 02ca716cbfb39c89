#![allow(unused_imports)]
use usb_forensic::model::{Attribute, Claim, DeviceKey, Provenance, SourceKind, Value};
use usb_forensic::{correlate, super_timeline};
fn ts_claim(device: &str, attr: Attribute, when: i64, src: SourceKind, loc: &str) -> Claim {
    Claim {
        device: DeviceKey(device.into()),
        attribute: attr,
        value: Value::Timestamp(when),
        provenance: Provenance {
            source: src,
            locator: loc.into(),
        },
    }
}

#[test]
fn events_are_ordered_chronologically_across_devices() {
    let claims = vec![
        ts_claim(
            "B",
            Attribute::LastRemoved,
            3_000,
            SourceKind::SetupApi,
            "b-rm",
        ),
        ts_claim(
            "A",
            Attribute::FirstConnected,
            1_000,
            SourceKind::Usbstor,
            "a-fc",
        ),
        ts_claim(
            "A",
            Attribute::LastConnected,
            2_000,
            SourceKind::Usbstor,
            "a-lc",
        ),
    ];
    let histories = correlate(&claims);
    let tl = super_timeline(&histories);
    let times: Vec<i64> = tl.iter().map(|e| e.when).collect();
    assert_eq!(times, vec![1_000, 2_000, 3_000]);
    assert_eq!(tl[0].device, DeviceKey("A".into()));
    assert_eq!(tl[0].attribute, Attribute::FirstConnected);
    assert_eq!(tl[2].device, DeviceKey("B".into()));
}

#[test]
fn non_timestamp_values_are_omitted() {
    let claims = vec![
        Claim {
            device: DeviceKey("A".into()),
            attribute: Attribute::VolumeName,
            value: Value::Text("KINGSTON".into()),
            provenance: Provenance {
                source: SourceKind::Usbstor,
                locator: "vn".into(),
            },
        },
        ts_claim(
            "A",
            Attribute::FirstConnected,
            1_000,
            SourceKind::Usbstor,
            "fc",
        ),
    ];
    let tl = super_timeline(&correlate(&claims));
    assert_eq!(tl.len(), 1);
    assert_eq!(tl[0].attribute, Attribute::FirstConnected);
}

#[test]
fn equal_times_break_ties_deterministically_by_device() {
    let claims = vec![
        ts_claim(
            "Z",
            Attribute::FirstConnected,
            500,
            SourceKind::Usbstor,
            "z",
        ),
        ts_claim(
            "A",
            Attribute::FirstConnected,
            500,
            SourceKind::Usbstor,
            "a",
        ),
    ];
    let tl = super_timeline(&correlate(&claims));
    assert_eq!(tl.len(), 2);
    assert_eq!(tl[0].device, DeviceKey("A".into()));
    assert_eq!(tl[1].device, DeviceKey("Z".into()));
}


#[test]
fn an_empty_history_list_yields_an_empty_timeline() {
    assert!(super_timeline(&[]).is_empty());
}
