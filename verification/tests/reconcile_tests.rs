#![allow(unused_imports)]
use usb_forensic::model::{Attribute, Claim, DeviceKey, Provenance, SourceKind, Value};
use usb_forensic::reconcile::{canonicalize_mounted_volumes, reconcile_volume_serials, MountedVolume};
fn mounted(letter: Option<char>, guid: Option<&str>, sig: u32, off: u64) -> MountedVolume {
    MountedVolume {
        drive_letter: letter,
        volume_guid: guid.map(str::to_owned),
        disk_signature: sig,
        partition_offset: off,
    }
}

fn text_claim(device: &str, attr: Attribute, val: &str, src: SourceKind) -> Claim {
    Claim {
        device: DeviceKey(device.into()),
        attribute: attr,
        value: Value::Text(val.into()),
        provenance: Provenance {
            source: src,
            locator: "x".into(),
        },
    }
}

#[test]
fn drive_letter_and_volume_guid_facts_collapse_onto_the_volume_guid() {
    // MountedDevices MBR: E: and {vol} share disk sig 0xAB, offset 0x1000 → same volume.
    let volumes = [
        mounted(Some('E'), None, 0xAB, 0x1000),
        mounted(None, Some("{vol}"), 0xAB, 0x1000),
    ];
    let claims = vec![
        // A VolumeInfoCache label keyed by drive letter E:.
        text_claim(
            "E:",
            Attribute::VolumeName,
            "IAMAN",
            SourceKind::VolumeInfoCache,
        ),
        // A MountPoints2 mount keyed by the volume GUID.
        Claim {
            device: DeviceKey("{vol}".into()),
            attribute: Attribute::LastConnected,
            value: Value::Timestamp(1_427_230_953),
            provenance: Provenance {
                source: SourceKind::MountPoints2,
                locator: "m".into(),
            },
        },
    ];
    let out = canonicalize_mounted_volumes(&claims, &volumes);
    // Both now key on the canonical volume GUID → they correlate into one device.
    assert!(out.iter().all(|c| c.device == DeviceKey("{vol}".into())));
}

#[test]
fn a_device_image_disk_signature_joins_the_bridged_volume() {
    // A device image (keyed by its MBR disk signature) and the volume GUID that
    // MountedDevices maps that disk signature to collapse onto one record — attributing
    // the physical stick to its host volume/label.
    let volumes = [mounted(None, Some("{vol}"), 0xE221_034C, 0x1000)];
    let claims = vec![
        // The device image's volume-serial fact, keyed by the disk-signature identity.
        text_claim(
            "disk-E221034C",
            Attribute::VolumeSerial,
            "B4D8-5399",
            SourceKind::DeviceImage,
        ),
        // A per-user mount keyed by the same volume GUID.
        Claim {
            device: DeviceKey("{vol}".into()),
            attribute: Attribute::LastConnected,
            value: Value::Timestamp(1),
            provenance: Provenance {
                source: SourceKind::MountPoints2,
                locator: "m".into(),
            },
        },
    ];
    let out = canonicalize_mounted_volumes(&claims, &volumes);
    assert!(out.iter().all(|c| c.device == DeviceKey("{vol}".into())));
}

#[test]
fn a_drive_letter_without_a_bridged_volume_guid_is_left_untouched() {
    // Only a drive-letter MBR record (no volume GUID) → no canonical key.
    let volumes = [mounted(Some('E'), None, 0xAB, 0x1000)];
    let claims = vec![text_claim(
        "E:",
        Attribute::VolumeName,
        "IAMAN",
        SourceKind::VolumeInfoCache,
    )];
    let out = canonicalize_mounted_volumes(&claims, &volumes);
    assert_eq!(out[0].device, DeviceKey("E:".into()));
}

fn vol_serial(device: &str, serial: &str, src: SourceKind) -> Claim {
    Claim {
        device: DeviceKey(device.into()),
        attribute: Attribute::VolumeSerial,
        value: Value::Text(serial.into()),
        provenance: Provenance {
            source: src,
            locator: "x".into(),
        },
    }
}

fn accessed(device: &str, path: &str) -> Claim {
    Claim {
        device: DeviceKey(device.into()),
        attribute: Attribute::AccessedFile,
        value: Value::Text(path.into()),
        provenance: Provenance {
            source: SourceKind::Lnk,
            locator: "y".into(),
        },
    }
}

fn device_of(out: &[Claim], attr: Attribute, src: SourceKind) -> &DeviceKey {
    &out.iter()
        .find(|c| c.attribute == attr && c.provenance.source == src)
        .expect("claim present")
        .device
}

#[test]
fn file_access_is_reattributed_to_the_device_carrying_the_volume() {
    let claims = vec![
        // A physical device reports volume serial DEAD-BEEF (device key != serial).
        vol_serial("USBSTOR-DEV-1", "DEAD-BEEF", SourceKind::PartitionDiag),
        // The LNK volume-pseudo-device DEAD-BEEF: its own serial (key == value) and a
        // file accessed from that volume.
        vol_serial("DEAD-BEEF", "DEAD-BEEF", SourceKind::Lnk),
        accessed("DEAD-BEEF", "E:\\secret.docx"),
    ];
    let out = reconcile_volume_serials(&claims);
    let dev = DeviceKey("USBSTOR-DEV-1".into());
    // The file access and the LNK self-serial now key on the physical device …
    assert_eq!(
        *device_of(&out, Attribute::AccessedFile, SourceKind::Lnk),
        dev
    );
    assert_eq!(
        *device_of(&out, Attribute::VolumeSerial, SourceKind::Lnk),
        dev
    );
    // … and the physical device's own claim is unchanged.
    assert_eq!(
        *device_of(&out, Attribute::VolumeSerial, SourceKind::PartitionDiag),
        dev
    );
}

#[test]
fn ambiguous_volume_serial_is_left_untouched() {
    // Two physical devices claim the same volume serial — cannot disambiguate.
    let claims = vec![
        vol_serial("DEV-A", "AAAA-BBBB", SourceKind::PartitionDiag),
        vol_serial("DEV-B", "AAAA-BBBB", SourceKind::Usbstor),
        accessed("AAAA-BBBB", "E:\\f.txt"),
    ];
    let out = reconcile_volume_serials(&claims);
    assert_eq!(
        *device_of(&out, Attribute::AccessedFile, SourceKind::Lnk),
        DeviceKey("AAAA-BBBB".into())
    );
}

#[test]
fn unmatched_volume_serial_is_left_untouched() {
    let claims = vec![accessed("NO-MATCH", "E:\\f.txt")];
    let out = reconcile_volume_serials(&claims);
    assert_eq!(out[0].device, DeviceKey("NO-MATCH".into()));
}

fn drive_letter(device: &str, letter: &str, src: SourceKind) -> Claim {
    Claim {
        device: DeviceKey(device.into()),
        attribute: Attribute::DriveLetter,
        value: Value::Text(letter.into()),
        provenance: Provenance {
            source: src,
            locator: "d".into(),
        },
    }
}

fn volume_name(device: &str, name: &str) -> Claim {
    Claim {
        device: DeviceKey(device.into()),
        attribute: Attribute::VolumeName,
        value: Value::Text(name.into()),
        provenance: Provenance {
            source: SourceKind::VolumeInfoCache,
            locator: "v".into(),
        },
    }
}

#[test]
fn volume_label_is_reattributed_to_the_device_mounted_at_that_drive_letter() {
    // A device (keyed by serial) mounted at E: (a DriveLetter claim), and a
    // VolumeInfoCache label keyed by the drive-letter pseudo-device "E:". The label
    // should re-key onto the physical device.
    let claims = vec![
        drive_letter("USBSTOR-DEV-1", "E:", SourceKind::Usbstor),
        volume_name("E:", "Authorized USB"),
    ];
    let out = reconcile_volume_serials(&claims);
    assert_eq!(
        *device_of(&out, Attribute::VolumeName, SourceKind::VolumeInfoCache),
        DeviceKey("USBSTOR-DEV-1".into())
    );
}

#[test]
fn ambiguous_drive_letter_label_is_left_untouched() {
    // Two devices both report drive E: — can't disambiguate, so the label stays.
    let claims = vec![
        drive_letter("DEV-A", "E:", SourceKind::Usbstor),
        drive_letter("DEV-B", "E:", SourceKind::PartitionDiag),
        volume_name("E:", "Authorized USB"),
    ];
    let out = reconcile_volume_serials(&claims);
    assert_eq!(
        *device_of(&out, Attribute::VolumeName, SourceKind::VolumeInfoCache),
        DeviceKey("E:".into())
    );
}

#[test]
fn non_text_volume_serial_cannot_seed_the_map() {
    // A VolumeSerial claim whose value is not text can't map a serial → device, so a
    // device whose key isn't a real volume serial is never re-keyed.
    let claims = vec![
        Claim {
            device: DeviceKey("DEV".into()),
            attribute: Attribute::VolumeSerial,
            value: Value::Timestamp(5),
            provenance: Provenance {
                source: SourceKind::Usbstor,
                locator: "x".into(),
            },
        },
        accessed("DEV", "E:\\f.txt"),
    ];
    let out = reconcile_volume_serials(&claims);
    assert_eq!(out[1].device, DeviceKey("DEV".into()));
}
