#![allow(unused_imports)]
use usb_forensic::model::{Attribute, Claim, DeviceKey, Provenance, SourceKind, Value};
use usb_forensic::sources::lnk::{CommonNetworkRelativeLink, LinkInfo, LinkTargetIdList, ShellLink, VolumeId};
use usb_forensic::text::format_volume_serial;
use usb_forensic::{HistorySource, LnkArtifact, LnkSource};
fn link(
    volume_id: Option<VolumeId>,
    local_base_path: Option<&str>,
    cnrl: Option<CommonNetworkRelativeLink>,
    idlist_path: Option<&str>,
) -> ShellLink {
    let link_info = if volume_id.is_some() || local_base_path.is_some() || cnrl.is_some() {
        Some(LinkInfo {
            volume_id,
            local_base_path: local_base_path.map(ToString::to_string),
            common_network_relative_link: cnrl,
        })
    } else {
        None
    };
    ShellLink {
        link_target_idlist: idlist_path.map(|p| LinkTargetIdList {
            path: Some(p.to_string()),
        }),
        link_info,
    }
}

fn removable(serial: u32) -> VolumeId {
    VolumeId {
        drive_type: lnk_core::drive_type::REMOVABLE,
        drive_serial_number: serial,
        volume_label: None,
    }
}

fn artifact(source_path: &str, link: ShellLink) -> LnkArtifact {
    LnkArtifact {
        source_path: source_path.to_string(),
        link,
    }
}

fn claims_for(source_path: &str, link: ShellLink) -> Vec<Claim> {
    let arts = [artifact(source_path, link)];
    LnkSource::new(&arts).claims()
}

#[test]
fn volume_serial_is_canonical_padded_hex() {
    assert_eq!(format_volume_serial(0xDEAD_BEEF), "DEAD-BEEF");
    assert_eq!(format_volume_serial(1), "0000-0001");
    assert_eq!(format_volume_serial(0), "0000-0000");
}

#[test]
fn local_target_yields_volume_serial_and_accessed_file() {
    let claims = claims_for(
        "C:\\Users\\a\\Recent\\secret.lnk",
        link(
            Some(removable(0xDEAD_BEEF)),
            Some("E:\\secret.docx"),
            None,
            None,
        ),
    );
    assert_eq!(claims.len(), 2);

    let vs = &claims[0];
    assert_eq!(vs.device, DeviceKey("DEAD-BEEF".to_string()));
    assert_eq!(vs.attribute, Attribute::VolumeSerial);
    assert_eq!(vs.value, Value::Text("DEAD-BEEF".to_string()));
    assert_eq!(vs.provenance.source, SourceKind::Lnk);
    assert_eq!(vs.provenance.locator, "C:\\Users\\a\\Recent\\secret.lnk");

    let af = &claims[1];
    assert_eq!(af.device, DeviceKey("DEAD-BEEF".to_string()));
    assert_eq!(af.attribute, Attribute::AccessedFile);
    assert_eq!(af.value, Value::Text("E:\\secret.docx".to_string()));
    assert_eq!(af.provenance.source, SourceKind::Lnk);
}

#[test]
fn serial_without_resolvable_path_yields_only_volume_serial() {
    let claims = claims_for(
        "x.lnk",
        link(Some(removable(0x1234_5678)), None, None, None),
    );
    assert_eq!(claims.len(), 1);
    assert_eq!(claims[0].attribute, Attribute::VolumeSerial);
    assert_eq!(claims[0].value, Value::Text("1234-5678".to_string()));
}

#[test]
fn empty_local_base_path_is_not_a_target() {
    // A present-but-empty base path must not become a pathless AccessedFile.
    let claims = claims_for(
        "x.lnk",
        link(Some(removable(0x0000_0001)), Some(""), None, None),
    );
    assert_eq!(claims.len(), 1);
    assert_eq!(claims[0].attribute, Attribute::VolumeSerial);
}

#[test]
fn network_name_used_as_target_when_no_local_path() {
    let cnrl = CommonNetworkRelativeLink {
        net_name: Some("\\\\server\\share".to_string()),
        device_name: None,
    };
    let claims = claims_for(
        "x.lnk",
        link(Some(removable(0xABCD_0000)), None, Some(cnrl), None),
    );
    assert_eq!(claims.len(), 2);
    assert_eq!(claims[1].attribute, Attribute::AccessedFile);
    assert_eq!(
        claims[1].value,
        Value::Text("\\\\server\\share".to_string())
    );
}

#[test]
fn cnrl_without_net_name_falls_through_to_idlist_path() {
    let cnrl = CommonNetworkRelativeLink {
        net_name: None,
        device_name: Some("Z:".to_string()),
    };
    let claims = claims_for(
        "x.lnk",
        link(
            Some(removable(0x0001_0002)),
            None,
            Some(cnrl),
            Some("My Computer\\E:\\photo.jpg"),
        ),
    );
    assert_eq!(claims.len(), 2);
    assert_eq!(claims[1].attribute, Attribute::AccessedFile);
    assert_eq!(
        claims[1].value,
        Value::Text("My Computer\\E:\\photo.jpg".to_string())
    );
}

#[test]
fn zero_serial_is_skipped() {
    let claims = claims_for(
        "x.lnk",
        link(Some(removable(0)), Some("E:\\f.txt"), None, None),
    );
    assert!(claims.is_empty());
}

#[test]
fn link_without_volume_id_is_skipped() {
    // A LinkInfo with no VolumeID (e.g. a pure network target) has no volume
    // serial to key on, so it contributes no device-join claim.
    let claims = claims_for("x.lnk", link(None, Some("C:\\local.txt"), None, None));
    assert!(claims.is_empty());
}

#[test]
fn link_without_link_info_is_skipped() {
    let claims = claims_for("x.lnk", link(None, None, None, Some("My Computer\\C:\\x")));
    assert!(claims.is_empty());
}

#[test]
fn multiple_artifacts_accumulate() {
    let arts = [
        artifact(
            "a.lnk",
            link(Some(removable(0x1111_2222)), Some("E:\\a"), None, None),
        ),
        artifact(
            "b.lnk",
            link(Some(removable(0x3333_4444)), Some("F:\\b"), None, None),
        ),
    ];
    let claims = LnkSource::new(&arts).claims();
    assert_eq!(claims.len(), 4);
    assert_eq!(claims[0].device, DeviceKey("1111-2222".to_string()));
    assert_eq!(claims[3].device, DeviceKey("3333-4444".to_string()));
}
