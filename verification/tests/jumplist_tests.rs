#![allow(unused_imports)]
use usb_forensic::model::{Attribute, Claim, DeviceKey, Provenance, SourceKind, Value};
use usb_forensic::sources::jumplist::{DestListEntry, JumpList, JumpListEntry};
use usb_forensic::sources::lnk::{LinkInfo, ShellLink, VolumeId};
use usb_forensic::{HistorySource, JumpListArtifact, JumpListSource};
fn link(serial: u32) -> ShellLink {
    ShellLink {
        link_target_idlist: None,
        link_info: (serial != 0).then(|| LinkInfo {
            volume_id: Some(VolumeId {
                drive_type: lnk_core::drive_type::REMOVABLE,
                drive_serial_number: serial,
                volume_label: None,
            }),
            local_base_path: Some("E:\\x".to_string()),
            common_network_relative_link: None,
        }),
    }
}

fn destlist(last_access: i64) -> DestListEntry {
    DestListEntry { last_access }
}

fn jumplist(entries: Vec<JumpListEntry>) -> JumpListArtifact {
    JumpListArtifact {
        source_path: "1234.automaticDestinations-ms".into(),
        list: JumpList { entries },
    }
}

#[test]
fn destlist_access_time_becomes_a_last_connected_claim() {
    let arts = [jumplist(vec![JumpListEntry {
        destlist: Some(destlist(1_700_000_000)),
        link: link(0xDEAD_BEEF),
    }])];
    let claims = JumpListSource::new(&arts).claims();
    assert!(claims.iter().any(|c| c.attribute == Attribute::VolumeSerial
        && c.provenance.source == SourceKind::JumpList));
    let last = claims
        .iter()
        .find(|c| c.attribute == Attribute::LastConnected)
        .expect("last-connected from DestList access time");
    assert_eq!(last.value, Value::Timestamp(1_700_000_000));
    assert_eq!(last.device, DeviceKey("DEAD-BEEF".into()));
}

#[test]
fn zero_access_time_and_missing_serial_add_no_last_connected() {
    let arts = [jumplist(vec![
        // destlist present but last_access == 0 → no LastConnected
        JumpListEntry {
            destlist: Some(destlist(0)),
            link: link(0x1111_2222),
        },
        // volume serial absent → link_volume_serial None → no claims at all
        JumpListEntry {
            destlist: Some(destlist(1_700_000_000)),
            link: link(0),
        },
        // no destlist → skip the DestList branch
        JumpListEntry {
            destlist: None,
            link: link(0x3333_4444),
        },
    ])];
    let claims = JumpListSource::new(&arts).claims();
    assert!(claims
        .iter()
        .all(|c| c.attribute != Attribute::LastConnected));
}
