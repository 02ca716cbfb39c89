#![allow(unused_imports)]
use usb_forensic::model::{Attribute, Claim, DeviceKey, Provenance, SourceKind, Value};
use usb_forensic::render::{cell, format_epoch, render_report, render_table};
use usb_forensic::{audit, correlate};
#[test]
fn format_epoch_matches_the_date_oracle() {
    // `date -u -r <epoch>` ground truth.
    assert_eq!(format_epoch(0), "1970-01-01 00:00:00 UTC"); // month<=2 branch
    assert_eq!(format_epoch(1_681_760_520), "2023-04-17 19:42:00 UTC"); // month>2 branch
    assert_eq!(format_epoch(1_600_357_894), "2020-09-17 15:51:34 UTC");
}

#[test]
fn table_renders_a_block_per_device_with_formatted_values() {
    let claims = [
        Claim {
            device: DeviceKey("SN1".into()),
            attribute: Attribute::FirstConnected,
            value: Value::Timestamp(1_681_760_520),
            provenance: Provenance {
                source: SourceKind::SetupApi,
                locator: "l".into(),
            },
        },
        Claim {
            device: DeviceKey("SN1".into()),
            attribute: Attribute::VolumeName,
            value: Value::Text("KINGSTON".into()),
            provenance: Provenance {
                source: SourceKind::MountedDevices,
                locator: "m".into(),
            },
        },
    ];
    let table = render_table(&correlate(&claims));
    assert!(table.contains("Device: SN1"));
    assert!(
        table.contains("2023-04-17 19:42:00 UTC"),
        "timestamp rendered human"
    );
    assert!(table.contains("KINGSTON"), "text value rendered");
    assert!(table.contains("single-source"), "consistency labelled");
}

fn claim(dev: &str, attr: Attribute, v: Value, src: SourceKind, loc: &str) -> Claim {
    Claim {
        device: DeviceKey(dev.into()),
        attribute: attr,
        value: v,
        provenance: Provenance {
            source: src,
            locator: loc.into(),
        },
    }
}

#[test]
fn report_has_provenance_table_and_findings_with_hedged_language() {
    // Two containers disagreeing → a conflict finding.
    let claims = [
        claim(
            "SN1",
            Attribute::FirstConnected,
            Value::Timestamp(1_681_760_520),
            SourceKind::Usbstor,
            "k",
        ),
        claim(
            "SN1",
            Attribute::FirstConnected,
            Value::Timestamp(1_600_357_894),
            SourceKind::SetupApi,
            "setupapi:9",
        ),
    ];
    let histories = correlate(&claims);
    let report = render_report(&histories, &audit(&histories));
    assert!(report.contains("# USB Device History — Forensic Report"));
    assert!(report.contains("### Device: SN1"));
    assert!(report.contains("| Attribute | Consistency | Value | Source | Locator |"));
    assert!(
        report.contains("setupapi:9"),
        "locator appears in the provenance table"
    );
    assert!(
        report.contains("USB-TIMESTAMP-CONFLICT"),
        "the conflict finding is listed"
    );
    assert!(
        report.contains("consistent with"),
        "hedged, non-conclusive language"
    );
    assert!(report.contains("Court may draw its own conclusions"));
}

#[test]
fn report_with_no_findings_says_so() {
    let report = render_report(&[], &[]);
    assert!(report.contains("No cross-source conflicts or corroborations surfaced."));
    // pipe-guard: a value containing '|' is neutralized.
    assert_eq!(cell("a|b"), "a\\|b");
}
