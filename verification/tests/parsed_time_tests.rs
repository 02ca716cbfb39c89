#![allow(unused_imports)]
use usb_forensic::model::{Attribute, DeviceKey, SourceKind, Value};
use usb_forensic::report::{reformatting_finding_for, CODE_REFORMATTED};
use usb_forensic::sources::driver_framework::event_claims_at as framework_claims_at;
use usb_forensic::sources::kernel_pnp::event_claims_at as pnp_claims_at;
use usb_forensic::sources::macos_unified_log::{log_timestamp_to_rfc3339, parse_log_timestamp};
use usb_forensic::sources::partition_diag::event_claims_at as diag_claims_at;
use usb_forensic::{DriverFrameworkEvent, KernelPnpEvent, PartitionDiagEvent, Severity};

fn diag(serial: Option<&str>, disk_id: Option<&str>, fat: Option<u32>) -> PartitionDiagEvent {
    PartitionDiagEvent {
        timestamp: "not a time".to_string(),
        event_id: 1006,
        disk_number: None,
        bus_type: Some(7),
        model: None,
        serial_number: serial.map(str::to_owned),
        disk_id: disk_id.map(str::to_owned),
        capacity: None,
        parent_id: None,
        vbr0_hex: None,
        fat_volume_serial: fat,
        ntfs_volume_serial: None,
    }
}

#[test]
fn a_partition_event_with_a_parsed_time_yields_last_connected_then_the_serial() {
    let claims = diag_claims_at(&diag(Some("SN9"), Some("{D}"), Some(0xDEAD_BEEF)), Some(42));
    assert_eq!(claims.len(), 2);
    assert_eq!(claims[0].device, DeviceKey("SN9".into()));
    assert_eq!(claims[0].attribute, Attribute::LastConnected);
    assert_eq!(claims[0].value, Value::Timestamp(42));
    assert_eq!(
        claims[0].provenance.locator,
        "Microsoft-Windows-Partition/Diagnostic#1006 DiskId={D}"
    );
    assert_eq!(claims[1].attribute, Attribute::VolumeSerial);
    assert_eq!(claims[1].value, Value::Text("DEAD-BEEF".into()));
}

#[test]
fn a_partition_event_without_a_time_still_yields_its_serial() {
    let claims = diag_claims_at(&diag(None, Some("{D}"), Some(1)), None);
    assert_eq!(claims.len(), 1);
    assert_eq!(claims[0].device, DeviceKey("{D}".into()));
    assert_eq!(claims[0].value, Value::Text("0000-0001".into()));
    assert!(diag_claims_at(&diag(None, None, Some(1)), Some(5)).is_empty());
}

#[test]
fn a_kernel_pnp_event_at_a_parsed_time_keys_by_the_instance_serial() {
    let e = KernelPnpEvent {
        timestamp: "garbage".into(),
        event_id: 410,
        device_instance_id: "USB\\VID_0781&PID_5583\\4C530001".into(),
        driver_name: Some("usbstor.inf".into()),
    };
    let claims = pnp_claims_at(&e, Some(1_700_000_000));
    assert_eq!(claims.len(), 1);
    assert_eq!(claims[0].device, DeviceKey("4C530001".into()));
    assert_eq!(claims[0].provenance.source, SourceKind::KernelPnp);
    assert_eq!(
        claims[0].provenance.locator,
        "Microsoft-Windows-Kernel-PnP/Configuration#410 DriverName=usbstor.inf"
    );
    assert!(pnp_claims_at(&e, None).is_empty());
}

#[test]
fn a_driver_framework_removal_at_a_parsed_time_is_last_removed() {
    let e = DriverFrameworkEvent {
        timestamp: "garbage".into(),
        event_id: 2102,
        instance_id: "USB\\VID_0781&PID_5583\\4C530001".into(),
    };
    let claims = framework_claims_at(&e, Some(-3));
    assert_eq!(claims.len(), 1);
    assert_eq!(claims[0].attribute, Attribute::LastRemoved);
    assert_eq!(claims[0].value, Value::Timestamp(-3));
    assert_eq!(
        claims[0].provenance.locator,
        "Microsoft-Windows-DriverFrameworks-UserMode/Operational#2102"
    );
    let other = DriverFrameworkEvent { event_id: 2100, ..e };
    assert!(framework_claims_at(&other, Some(1)).is_empty());
}

#[test]
fn a_log_timestamp_is_rewritten_to_rfc3339_before_parsing() {
    assert_eq!(
        log_timestamp_to_rfc3339("2026-07-12 18:51:45.843302+0800").as_deref(),
        Some("2026-07-12T18:51:45.843302+08:00")
    );
    assert_eq!(
        log_timestamp_to_rfc3339("2026-07-12 18:51:45-0530").as_deref(),
        Some("2026-07-12T18:51:45-05:30")
    );
    assert_eq!(log_timestamp_to_rfc3339("2026-07-12T18:51:45+0800"), None);
    assert_eq!(log_timestamp_to_rfc3339("2026-07-12 18:51:45+08"), None);
    assert_eq!(parse_log_timestamp("1970-01-01 01:00:00+0100"), Some(0));
}

#[test]
fn the_reformatting_finding_lists_the_serials_under_the_quoted_label() {
    let serials = vec!["AAAA-0001".to_string(), "BBBB-0002".to_string(), "CCCC-0003".to_string()];
    let f = reformatting_finding_for("\"KEY\"", &serials);
    assert_eq!(f.code, CODE_REFORMATTED);
    assert_eq!(f.severity, Some(Severity::Medium));
    assert_eq!(
        f.note,
        "volume \"KEY\" appears with 3 distinct volume serials (AAAA-0001, BBBB-0002, CCCC-0003) \
         — consistent with the device having been reformatted and reused"
    );
    assert_eq!(f.evidence.len(), 3);
    assert_eq!(f.evidence[2].field, "VolumeSerial");
    assert_eq!(f.evidence[2].value, "CCCC-0003");
}
