//! The reader crates that decode raw evidence bytes: property lists, JSON, Shell Links,
//! jump lists, registry hives and the setupapi / Linux kernel logs. Each decoder's result
//! is named here as a function of its input and turned into the library's own records.
use crate::json::{JsonNumber, JsonValue};
use crate::reconcile::MountedVolume;
use crate::sources::apple_ipod::{PlistDate, PlistValue};
use crate::sources::emdmgmt::EmdVolume;
use crate::sources::jumplist::{DestListEntry, JumpList, JumpListEntry};
use crate::sources::lnk::{CommonNetworkRelativeLink, LinkInfo, LinkTargetIdList, ShellLink, VolumeId};
use crate::sources::mountpoints2::UserMount;
use crate::sources::peripheral::{Bus, DeviceConnection};
use crate::sources::shared::RecordOrigin;
use crate::sources::volume_cache::VolumeLabel;
use plist::Value as PlistNode;
use serde_json::Value as JsonNode;
use lnk_core::ShellLink as LnkShellLink;
use lnk_core::JumpList as LnkJumpList;
use peripheral_core::Bus as PcBus;
use peripheral_core::DeviceConnection as PcConnection;
use peripheral_core::volume_info::VolumeLabel as PcVolumeLabel;
use peripheral_core::mountpoints2::UserMount as PcUserMount;
use peripheral_core::emdmgmt::EmdVolume as PcEmdVolume;
use peripheral_core::mounted_volumes::MountedVolume as PcMountedVolume;
use vstd::prelude::*;

verus! {

#[verifier::external_type_specification]
#[verifier::external_body]
pub struct ExPlistValue(PlistNode);

#[verifier::external_type_specification]
#[verifier::external_body]
pub struct ExJsonDocument(JsonNode);

#[verifier::external_type_specification]
#[verifier::external_body]
pub struct ExShellLink(LnkShellLink);

#[verifier::external_type_specification]
#[verifier::external_body]
pub struct ExJumpList(LnkJumpList);

#[verifier::external_type_specification]
#[verifier::external_body]
pub struct ExDeviceConnection(PcConnection);

#[verifier::external_type_specification]
#[verifier::external_body]
pub struct ExBus(PcBus);

#[verifier::external_type_specification]
#[verifier::external_body]
pub struct ExVolumeLabel(PcVolumeLabel);

#[verifier::external_type_specification]
#[verifier::external_body]
pub struct ExUserMount(PcUserMount);

#[verifier::external_type_specification]
#[verifier::external_body]
pub struct ExEmdVolume(PcEmdVolume);

#[verifier::external_type_specification]
#[verifier::external_body]
pub struct ExMountedVolume(PcMountedVolume);

/// A decoded `plist` value as the library's property-list record (dates as seconds from
/// the epoch); nothing is promised of it here.
#[verifier::external_body]
fn plist_record(v: &PlistNode) -> PlistValue {
    match v {
        plist::Value::Dictionary(d) => PlistValue::Dictionary(d.iter().map(|(k, v)| (k.clone(), plist_record(v))).collect()),
        plist::Value::String(s) => PlistValue::String(s.clone()),
        plist::Value::Date(d) => PlistValue::Date(match std::time::SystemTime::from(*d).duration_since(std::time::UNIX_EPOCH) {
            Ok(after) => PlistDate { before_epoch: false, seconds: after.as_secs() },
            Err(e) => PlistDate { before_epoch: true, seconds: e.duration().as_secs() },
        }),
        _ => PlistValue::Other,
    }
}

/// A decoded `serde_json` value as the library's JSON record (a float kept only as such).
#[verifier::external_body]
fn json_record(v: &JsonNode) -> JsonValue {
    match v {
        serde_json::Value::Null => JsonValue::Null,
        serde_json::Value::Bool(b) => JsonValue::Bool(*b),
        serde_json::Value::Number(n) => JsonValue::Number(match (n.as_u64(), n.as_i64()) {
            (Some(u), _) => JsonNumber::PosInt(u),
            (None, Some(i)) => JsonNumber::NegInt(i),
            (None, None) => JsonNumber::Float,
        }),
        serde_json::Value::String(s) => JsonValue::String(s.clone()),
        serde_json::Value::Array(a) => JsonValue::Array(a.iter().map(json_record).collect()),
        serde_json::Value::Object(o) => JsonValue::Object(o.iter().map(|(k, v)| (k.clone(), json_record(v))).collect()),
    }
}

/// A decoded Shell Link as the library's record: the target ID list's path and the
/// `LinkInfo` block.
#[verifier::external_body]
fn shell_link_record(l: LnkShellLink) -> ShellLink {
    ShellLink {
        link_target_idlist: l.link_target_idlist.map(|t| LinkTargetIdList { path: t.path }),
        link_info: l.link_info.map(|i| LinkInfo {
            volume_id: i.volume_id.map(|v| VolumeId {
                drive_type: v.drive_type,
                drive_serial_number: v.drive_serial_number,
                volume_label: v.volume_label,
            }),
            local_base_path: i.local_base_path,
            common_network_relative_link: i.common_network_relative_link.map(
                |c| CommonNetworkRelativeLink { net_name: c.net_name, device_name: c.device_name },
            ),
        }),
    }
}

/// A decoded jump list as the library's record: each entry's DestList access time and link.
#[verifier::external_body]
fn jump_list_record(l: LnkJumpList) -> JumpList {
    JumpList {
        entries: l.entries.into_iter().map(|e| JumpListEntry {
            destlist: e.destlist.map(|d| DestListEntry { last_access: d.last_access }),
            link: shell_link_record(e.link),
        }).collect(),
    }
}

/// A `peripheral_core` bus as the library's bus (an unlisted one as unknown).
#[verifier::external_body]
fn bus_record(b: PcBus) -> Bus {
    match b {
        PcBus::Usb => Bus::Usb,
        PcBus::Mtp => Bus::Mtp,
        PcBus::FireWire => Bus::FireWire,
        PcBus::Thunderbolt => Bus::Thunderbolt,
        PcBus::Pcie => Bus::Pcie,
        PcBus::Esata => Bus::Esata,
        PcBus::SdMmc => Bus::SdMmc,
        PcBus::Bluetooth => Bus::Bluetooth,
        PcBus::ExpressCard => Bus::ExpressCard,
        PcBus::ScsiSas => Bus::ScsiSas,
        PcBus::Nvme => Bus::Nvme,
        _ => Bus::Unknown,
    }
}

/// A `peripheral_core` device connection as the library's record: its bus, identity,
/// connection stamps, drive letter and origin.
#[verifier::external_body]
fn connection_record(c: PcConnection) -> DeviceConnection {
    DeviceConnection {
        bus: bus_record(c.bus),
        device_serial: c.device_serial,
        device_instance_id: c.device_instance_id,
        first_install: c.first_install.map(|s| s.value),
        last_arrival: c.last_arrival.map(|s| s.value),
        last_removal: c.last_removal.map(|s| s.value),
        drive_letter: c.drive_letter,
        source: RecordOrigin { file: c.source.file, line: c.source.line, key_path: c.source.key_path },
    }
}

/// A `VolumeInfoCache` label as the library's record.
#[verifier::external_body]
fn label_record(l: PcVolumeLabel) -> VolumeLabel {
    VolumeLabel { drive_letter: l.drive_letter, volume_label: l.volume_label, source: RecordOrigin { file: l.source.file, line: l.source.line, key_path: l.source.key_path } }
}

/// A `MountPoints2` mount as the library's record.
#[verifier::external_body]
fn mount_record(m: PcUserMount) -> UserMount {
    UserMount { volume_guid: m.volume_guid, last_mounted: m.last_mounted, source: RecordOrigin { file: m.source.file, line: m.source.line, key_path: m.source.key_path } }
}

/// An `EMDMgmt` volume as the library's record.
#[verifier::external_body]
fn emd_record(v: PcEmdVolume) -> EmdVolume {
    EmdVolume { volume_label: v.volume_label, volume_serial: v.volume_serial, source: RecordOrigin { file: v.source.file, line: v.source.line, key_path: v.source.key_path } }
}

/// A `MountedDevices` volume as the library's record.
#[verifier::external_body]
fn mounted_record(v: PcMountedVolume) -> MountedVolume {
    MountedVolume {
        drive_letter: v.drive_letter,
        volume_guid: v.volume_guid,
        disk_signature: v.disk_signature,
        partition_offset: v.partition_offset,
    }
}

/// The property list `plist` reads from the bytes (`None` where it rejects them).
pub uninterp spec fn plist_document(bytes: Seq<u8>) -> Option<PlistValue>;

/// `plist::Value::from_reader` over the bytes.
#[verifier::external_body]
pub fn read_plist(bytes: &[u8]) -> (r: Option<PlistValue>)
    ensures
        r == plist_document(bytes@),
{
    plist::Value::from_reader(std::io::Cursor::new(bytes)).ok().map(|v| plist_record(&v))
}

/// The JSON document `serde_json` reads from the bytes (`None` where it rejects them).
pub uninterp spec fn json_document(bytes: Seq<u8>) -> Option<JsonValue>;

/// `serde_json::from_slice` into a `serde_json::Value`.
#[verifier::external_body]
pub fn read_json(bytes: &[u8]) -> (r: Option<JsonValue>)
    ensures
        r == json_document(bytes@),
{
    serde_json::from_slice::<serde_json::Value>(bytes).ok().map(|v| json_record(&v))
}

/// The Shell Link `lnk_core` decodes from the bytes.
pub uninterp spec fn shell_link_document(bytes: Seq<u8>) -> Option<ShellLink>;

/// `lnk_core::parse_shell_link`.
#[verifier::external_body]
pub fn read_shell_link(bytes: &[u8]) -> (r: Option<ShellLink>)
    ensures
        r == shell_link_document(bytes@),
{
    lnk_core::parse_shell_link(bytes).map(shell_link_record)
}

/// The jump list `lnk_core` decodes from the bytes of the named file.
pub uninterp spec fn jump_list_document(bytes: Seq<u8>, filename: Seq<char>) -> Option<JumpList>;

/// `lnk_core::parse_automatic_destinations`.
#[verifier::external_body]
pub fn read_jump_list(bytes: &[u8], filename: &str) -> (r: Option<JumpList>)
    ensures
        r == jump_list_document(bytes@, filename@),
{
    lnk_core::parse_automatic_destinations(bytes, Some(filename)).map(jump_list_record)
}

/// Why `winreg_core` refuses the bytes as a hive, or `None` when it opens them.
pub uninterp spec fn hive_rejection(bytes: Seq<u8>) -> Option<Seq<char>>;

/// `winreg_core::hive::Hive::from_bytes`: the error it reports, if any.
#[verifier::external_body]
pub fn hive_error(bytes: &[u8]) -> (r: Option<String>)
    ensures
        r.is_some() == hive_rejection(bytes@).is_some(),
        r.is_some() ==> r.unwrap()@ == hive_rejection(bytes@).unwrap(),
{
    winreg_core::hive::Hive::from_bytes(bytes.to_vec()).err().map(|e| e.to_string())
}

/// The SYSTEM-hive device instances `peripheral_core` reads from a hive's bytes.
pub uninterp spec fn hive_connections_of(bytes: Seq<u8>, path: Seq<char>) -> Seq<DeviceConnection>;

/// `peripheral_core::registry::parse_registry` over the hive the bytes open.
#[verifier::external_body]
pub fn hive_connections(bytes: &[u8], path: &str) -> (r: Vec<DeviceConnection>)
    ensures
        r@ == hive_connections_of(bytes@, path@),
{
    match winreg_core::hive::Hive::from_bytes(bytes.to_vec()) {
        Ok(h) => peripheral_core::registry::parse_registry(&h, path).into_iter().map(connection_record).collect(),
        Err(_) => Vec::new(),
    }
}

/// The `VolumeInfoCache` labels `peripheral_core` reads from a hive's bytes.
pub uninterp spec fn hive_volume_labels_of(bytes: Seq<u8>, path: Seq<char>) -> Seq<VolumeLabel>;

/// `peripheral_core::volume_info::parse_volume_info_cache` over the hive.
#[verifier::external_body]
pub fn hive_volume_labels(bytes: &[u8], path: &str) -> (r: Vec<VolumeLabel>)
    ensures
        r@ == hive_volume_labels_of(bytes@, path@),
{
    match winreg_core::hive::Hive::from_bytes(bytes.to_vec()) {
        Ok(h) => peripheral_core::volume_info::parse_volume_info_cache(&h, path).into_iter().map(label_record).collect(),
        Err(_) => Vec::new(),
    }
}

/// The `MountedDevices` MBR volumes `peripheral_core` reads from a hive's bytes.
pub uninterp spec fn hive_mounted_volumes_of(bytes: Seq<u8>, path: Seq<char>) -> Seq<MountedVolume>;

/// `peripheral_core::mounted_volumes::parse_mounted_volumes` over the hive.
#[verifier::external_body]
pub fn hive_mounted_volumes(bytes: &[u8], path: &str) -> (r: Vec<MountedVolume>)
    ensures
        r@ == hive_mounted_volumes_of(bytes@, path@),
{
    match winreg_core::hive::Hive::from_bytes(bytes.to_vec()) {
        Ok(h) => peripheral_core::mounted_volumes::parse_mounted_volumes(&h, path).into_iter().map(mounted_record).collect(),
        Err(_) => Vec::new(),
    }
}

/// The `MountPoints2` mounts `peripheral_core` reads from a hive's bytes.
pub uninterp spec fn hive_user_mounts_of(bytes: Seq<u8>, path: Seq<char>) -> Seq<UserMount>;

/// `peripheral_core::mountpoints2::parse_mountpoints2` over the hive.
#[verifier::external_body]
pub fn hive_user_mounts(bytes: &[u8], path: &str) -> (r: Vec<UserMount>)
    ensures
        r@ == hive_user_mounts_of(bytes@, path@),
{
    match winreg_core::hive::Hive::from_bytes(bytes.to_vec()) {
        Ok(h) => peripheral_core::mountpoints2::parse_mountpoints2(&h, path).into_iter().map(mount_record).collect(),
        Err(_) => Vec::new(),
    }
}

/// The `EMDMgmt` volumes `peripheral_core` reads from a hive's bytes.
pub uninterp spec fn hive_emd_volumes_of(bytes: Seq<u8>, path: Seq<char>) -> Seq<EmdVolume>;

/// `peripheral_core::emdmgmt::parse_emdmgmt` over the hive.
#[verifier::external_body]
pub fn hive_emd_volumes(bytes: &[u8], path: &str) -> (r: Vec<EmdVolume>)
    ensures
        r@ == hive_emd_volumes_of(bytes@, path@),
{
    match winreg_core::hive::Hive::from_bytes(bytes.to_vec()) {
        Ok(h) => peripheral_core::emdmgmt::parse_emdmgmt(&h, path).into_iter().map(emd_record).collect(),
        Err(_) => Vec::new(),
    }
}

/// The connections `peripheral_core` reads from a `setupapi.dev.log` text.
pub uninterp spec fn setupapi_connections_of(text: Seq<char>, path: Seq<char>) -> Seq<DeviceConnection>;

/// `peripheral_core::setupapi::parse_setupapi`.
#[verifier::external_body]
pub fn setupapi_connections(text: &str, path: &str) -> (r: Vec<DeviceConnection>)
    ensures
        r@ == setupapi_connections_of(text@, path@),
{
    peripheral_core::setupapi::parse_setupapi(text, path).into_iter().map(connection_record).collect()
}

/// The attaches `peripheral_core` reads from a year-less Linux kernel log, dated in `year`.
pub uninterp spec fn linux_connections_of(text: Seq<char>, path: Seq<char>, year: i64) -> Seq<DeviceConnection>;

/// `peripheral_core::linux_syslog::parse_linux_syslog`.
#[verifier::external_body]
pub fn linux_connections(text: &str, path: &str, year: i64) -> (r: Vec<DeviceConnection>)
    ensures
        r@ == linux_connections_of(text@, path@, year),
{
    peripheral_core::linux_syslog::parse_linux_syslog(text, path, year).into_iter().map(connection_record).collect()
}

/// The text std's lossy UTF-8 decoding gives the bytes (each invalid sequence replaced
/// by U+FFFD).
pub uninterp spec fn lossy_utf8(bytes: Seq<u8>) -> Seq<char>;

/// `String::from_utf8_lossy`.
#[verifier::external_body]
pub fn lossy_text(bytes: &[u8]) -> (r: String)
    ensures
        r@ == lossy_utf8(bytes@),
{
    String::from_utf8_lossy(bytes).into_owned()
}

/// The records `evtx` reads from an event log's bytes, in file order, each as the JSON of
/// its event or `None` where that record could not be read (none where it refuses the file).
pub uninterp spec fn evtx_records(bytes: Seq<u8>) -> Seq<Option<JsonValue>>;

/// `evtx::EvtxParser::from_buffer`, then `records_json_value`, each record's JSON.
#[verifier::external_body]
pub fn read_evtx_records(bytes: &[u8]) -> (r: Vec<Option<JsonValue>>)
    ensures
        r@ == evtx_records(bytes@),
{
    match evtx::EvtxParser::from_buffer(bytes.to_vec()) {
        Ok(mut parser) => parser.records_json_value().map(|r| r.ok().map(|r| json_record(&r.data))).collect(),
        Err(_) => Vec::new(),
    }
}

} // verus!
