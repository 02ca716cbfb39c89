#![allow(unused_imports)]
use usb_forensic::evidence::{
    analyse, classify_input, gather_claims, is_compound_file, is_disk_image, is_evtx, is_plist,
    is_registry_hive, is_shell_link, is_system_profiler_usb, looks_like_linux_syslog, offset_fits,
    prepare_claims, readable_records, Ingested, InputKind,
};
use usb_forensic::json::JsonValue;
use usb_forensic::model::{Attribute, Consistency, DeviceKey, SourceKind, Value};
use usb_forensic::sources::driver_framework::DriverFrameworkEvent;
use usb_forensic::sources::kernel_pnp::KernelPnpEvent;
use usb_forensic::sources::peripheral::Bus;
use usb_forensic::{
    AppleDevice, DeviceConnection, MountedVolume, RecordOrigin, Severity, VolumeLabel,
};

fn conn(serial: &str, first: Option<i64>, letter: Option<char>, file: &str) -> DeviceConnection {
    DeviceConnection {
        bus: Bus::Usb,
        device_serial: Some(serial.into()),
        device_instance_id: format!("USBSTOR\\Disk&Ven_X\\{serial}"),
        first_install: first,
        last_arrival: None,
        last_removal: None,
        drive_letter: letter,
        source: RecordOrigin { file: file.into(), line: 7, key_path: None },
    }
}

#[test]
fn signatures_are_recognised_by_their_leading_bytes() {
    assert!(is_shell_link(&[0x4C, 0, 0, 0, 1, 2]));
    assert!(!is_shell_link(&[0x4C, 0, 0]));
    assert!(is_compound_file(&[0xD0, 0xCF, 0x11, 0xE0, 0xA1, 0xB1, 0x1A, 0xE1, 0]));
    assert!(is_registry_hive(b"regf...."));
    assert!(!is_registry_hive(b"reg"));
    assert!(is_evtx(b"ElfFile\0rest"));
    assert!(!is_evtx(b"ElfFile"));
}

#[test]
fn a_disk_image_needs_the_boot_signature_at_the_end_of_its_first_sector() {
    let mut sector = vec![0u8; 512];
    assert!(!is_disk_image(&sector));
    sector[510] = 0x55;
    sector[511] = 0xAA;
    assert!(is_disk_image(&sector));
    assert!(!is_disk_image(&sector[..511]));
}

#[test]
fn text_markers_are_sought_in_the_first_512_bytes_only() {
    let mut xml = b"<?xml version=\"1.0\"?>\n<plist version=\"1.0\"><dict/></plist>".to_vec();
    assert!(is_plist(&xml));
    assert!(is_plist(b"bplist00\x01\x02"));
    let mut late = vec![b' '; 600];
    late.extend_from_slice(b"<plist>");
    assert!(!is_plist(&late));
    xml.clear();
    assert!(!is_plist(&xml));
    assert!(is_system_profiler_usb(b"{\"SPUSBDataType\":[]}"));
    let mut late_key = vec![b' '; 505];
    late_key.extend_from_slice(b"SPUSBDataType");
    assert!(!is_system_profiler_usb(&late_key));
}

#[test]
fn the_first_matching_signature_decides_the_kind() {
    assert_eq!(classify_input(&[0xD0, 0xCF, 0x11, 0xE0, 0xA1, 0xB1, 0x1A, 0xE1]), InputKind::JumpList);
    assert_eq!(classify_input(&[0x4C, 0, 0, 0]), InputKind::ShellLink);
    assert_eq!(classify_input(b"regf"), InputKind::RegistryHive);
    assert_eq!(classify_input(b"{\"SPUSBDataType\":[]} <plist"), InputKind::SystemProfilerUsb);
    assert_eq!(classify_input(b"<plist version=\"1.0\">"), InputKind::PropertyList);
    let mut image = vec![0u8; 512];
    image[510] = 0x55;
    image[511] = 0xAA;
    assert_eq!(classify_input(&image), InputKind::DiskImage);
    assert_eq!(classify_input(b"ElfFile\0"), InputKind::EventLog);
    assert_eq!(classify_input(b">>>  [Device Install (Hardware initiated)]"), InputKind::Text);
    assert_eq!(classify_input(b""), InputKind::Text);
}

#[test]
fn only_a_kernel_log_carries_the_enumeration_marker() {
    assert!(looks_like_linux_syslog(
        "Jan  2 03:04:05 host kernel: usb 1-1: New USB device found, idVendor=0781"
    ));
    assert!(!looks_like_linux_syslog(">>>  [Device Install (Hardware initiated) - USBSTOR\\Disk]"));
    assert!(!looks_like_linux_syslog(""));
}

#[test]
fn an_empty_intake_counts_nothing_and_correlates_to_nothing() {
    let g = Ingested::empty();
    assert_eq!(g.record_count(), 0);
    assert!(gather_claims(&g).is_empty());
    let (histories, findings) = analyse(&g, None);
    assert!(histories.is_empty());
    assert!(findings.is_empty());
}

#[test]
fn records_are_counted_across_every_origin() {
    let mut g = Ingested::empty();
    g.setupapi.push(conn("A", Some(1), None, "setupapi.dev.log"));
    g.registry.push(conn("A", Some(1), None, "SYSTEM"));
    g.apple_devices.push((Vec::new(), "iPod.plist".into()));
    g.volume_labels.push(VolumeLabel {
        drive_letter: 'E',
        volume_label: "KEY".into(),
        source: RecordOrigin { file: "SOFTWARE".into(), line: 0, key_path: None },
    });
    g.mounted_volumes.push(MountedVolume {
        drive_letter: Some('E'),
        volume_guid: Some("{g}".into()),
        disk_signature: 1,
        partition_offset: 0,
    });
    // The empty plist adds no device; the bridge volume is not a record.
    assert_eq!(g.record_count(), 3);
}

#[test]
fn the_pipeline_stamps_each_batch_corrects_the_clock_and_grades() {
    let mut g = Ingested::empty();
    // setupapi recorded local time (host at UTC+1); the registry recorded UTC.
    g.setupapi.push(conn("SN1", Some(1_700_003_600), None, "setupapi.dev.log"));
    g.registry.push(conn("SN1", Some(1_700_000_000), None, "SYSTEM"));
    let raw = gather_claims(&g);
    assert_eq!(raw.len(), 2);
    assert_eq!(raw[0].provenance.source, SourceKind::SetupApi);
    assert_eq!(raw[1].provenance.source, SourceKind::Usbstor);
    assert!(offset_fits(&g, 3600));
    let prepared = prepare_claims(&g, Some(3600));
    assert_eq!(prepared[0].value, Value::Timestamp(1_700_000_000));
    let (histories, findings) = analyse(&g, Some(3600));
    assert_eq!(histories.len(), 1);
    assert_eq!(histories[0].attributes[0].consistency, Consistency::Corroborated);
    assert_eq!(findings.len(), 1);
    assert_eq!(findings[0].severity, Some(Severity::Info));
    // Without the correction the two clocks disagree.
    let (uncorrected, _) = analyse(&g, None);
    assert_eq!(uncorrected[0].attributes[0].consistency, Consistency::Conflicting);
}

#[test]
fn an_offset_that_would_overflow_a_local_timestamp_does_not_fit() {
    let mut g = Ingested::empty();
    g.setupapi.push(conn("SN1", Some(i64::MIN + 5), None, "setupapi.dev.log"));
    g.registry.push(conn("SN2", Some(i64::MIN + 5), None, "SYSTEM"));
    assert!(!offset_fits(&g, 10));
    assert!(offset_fits(&g, -10));
    assert!(offset_fits(&g, 5));
}

#[test]
fn drive_letter_facts_follow_the_mounted_devices_bridge() {
    let mut g = Ingested::empty();
    g.setupapi.push(conn("SN1", None, Some('E'), "setupapi.dev.log"));
    g.volume_labels.push(VolumeLabel {
        drive_letter: 'E',
        volume_label: "KEY".into(),
        source: RecordOrigin { file: "SOFTWARE".into(), line: 0, key_path: None },
    });
    let prepared = prepare_claims(&g, None);
    // The label keyed by `E:` is re-keyed onto SN1, which carries that drive letter.
    let label = prepared
        .iter()
        .find(|c| c.attribute == Attribute::VolumeName)
        .expect("the label claim");
    assert_eq!(label.device, DeviceKey("SN1".into()));
}

use usb_forensic::evidence::{ingest_bytes, IngestError, IngestOutcome, SkipReason};

const SETUPAPI: &str = "[Device Install (Hardware initiated) - \
    USBSTOR\\Disk&Ven_Generic&Prod_Flash\\7&1c2c4f0a&0 2024/01/02 03:04:05.000]";

#[test]
fn setupapi_text_is_read_into_the_setupapi_batch() {
    let mut g = Ingested::empty();
    let out = ingest_bytes(&mut g, "setupapi.dev.log", SETUPAPI.as_bytes(), None);
    assert_eq!(out, Ok(IngestOutcome::Read));
    assert_eq!(g.setupapi.len(), 1);
    assert_eq!(g.setupapi[0].source.file, "setupapi.dev.log");
    assert!(g.linux.is_empty());
}

#[test]
fn a_kernel_log_without_a_year_is_refused_and_changes_nothing() {
    let log = "Jan  2 03:04:05 host kernel: usb 1-1: New USB device found, idVendor=0781, idProduct=5583\n";
    let mut g = Ingested::empty();
    assert_eq!(ingest_bytes(&mut g, "syslog", log.as_bytes(), None), Err(IngestError::SyslogNeedsYear));
    assert_eq!(g.record_count(), 0);
    assert_eq!(ingest_bytes(&mut g, "syslog", log.as_bytes(), Some(2024)), Ok(IngestOutcome::Read));
    assert!(g.setupapi.is_empty());
}

#[test]
fn an_event_log_is_left_to_its_file_reader() {
    let mut g = Ingested::empty();
    assert_eq!(ingest_bytes(&mut g, "a.evtx", b"ElfFile\0rest", None), Ok(IngestOutcome::EventLog));
    assert_eq!(g.record_count(), 0);
}

#[test]
fn a_file_its_reader_refuses_is_skipped_with_the_reason() {
    let mut g = Ingested::empty();
    let mut fake_link = vec![0x4C, 0, 0, 0];
    fake_link.extend_from_slice(&[0u8; 100]);
    assert_eq!(
        ingest_bytes(&mut g, "x.lnk", &fake_link, None),
        Ok(IngestOutcome::Skipped(SkipReason::NotAShellLink))
    );
    let fake_list = [0xD0, 0xCF, 0x11, 0xE0, 0xA1, 0xB1, 0x1A, 0xE1, 0, 0];
    assert_eq!(
        ingest_bytes(&mut g, "x.automaticDestinations-ms", &fake_list, None),
        Ok(IngestOutcome::Skipped(SkipReason::NotAJumpList))
    );
    assert!(matches!(
        ingest_bytes(&mut g, "SYSTEM", b"regf", None),
        Ok(IngestOutcome::Skipped(SkipReason::NotAHive(_)))
    ));
    assert_eq!(
        ingest_bytes(&mut g, "p.json", b"{\"SPUSBDataType\":[]}", None),
        Ok(IngestOutcome::Skipped(SkipReason::NoUsbDevices))
    );
    assert_eq!(
        ingest_bytes(&mut g, "iPod.plist", b"<?xml version=\"1.0\"?><plist version=\"1.0\"><dict/></plist>", None),
        Ok(IngestOutcome::Skipped(SkipReason::NoAppleHistory))
    );
    assert_eq!(g.record_count(), 0);
}

#[test]
fn a_kernel_pnp_event_becomes_a_last_connected_witness() {
    let mut g = Ingested::empty();
    g.kernel_pnp.push(KernelPnpEvent {
        timestamp: "2020-09-19T04:36:42.874132Z".to_string(),
        event_id: 400,
        device_instance_id: "USB\\VID_0781&PID_5597\\4C530000261130109435".to_string(),
        driver_name: Some("usbstor.inf".to_string()),
    });
    assert_eq!(g.record_count(), 1);
    let (histories, _) = analyse(&g, None);
    assert_eq!(histories.len(), 1);
    assert_eq!(histories[0].device, DeviceKey("4C530000261130109435".to_string()));
    let attr = &histories[0].attributes[0];
    assert_eq!(attr.attribute, Attribute::LastConnected);
    assert_eq!(attr.values[0].value, Value::Timestamp(1_600_490_202));
    assert_eq!(attr.values[0].provenance.source, SourceKind::KernelPnp);
}

#[test]
fn a_driver_framework_event_becomes_a_driver_framework_witness() {
    let mut g = Ingested::empty();
    g.driver_framework.push(DriverFrameworkEvent {
        timestamp: "2020-09-19T04:36:42Z".to_string(),
        event_id: 2003,
        instance_id: "USB\\VID_0781&PID_5597\\4C530000261130109435".to_string(),
    });
    let (histories, _) = analyse(&g, None);
    assert_eq!(histories.len(), 1);
    assert_eq!(histories[0].device, DeviceKey("4C530000261130109435".to_string()));
    assert!(histories[0].attributes.iter().all(|a| a
        .values
        .iter()
        .all(|v| v.provenance.source == SourceKind::DriverFramework)));
}

#[test]
fn unreadable_event_records_are_passed_over_in_order() {
    let kept = readable_records(vec![
        Some(JsonValue::Bool(true)),
        None,
        Some(JsonValue::String("second".to_string())),
        None,
    ]);
    assert_eq!(kept.len(), 2);
    assert!(matches!(kept[0], JsonValue::Bool(true)));
    assert!(matches!(&kept[1], JsonValue::String(s) if s == "second"));
    assert!(readable_records(vec![None, None]).is_empty());
}
