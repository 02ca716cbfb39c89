//! Source: a physical device's own boot sectors (a raw disk image) → claims — the
//! strongest device attribution. The image's MBR disk signature ties it to the host's
//! `MountedDevices` record, and its FAT volume serial to `EMDMgmt` / `.lnk` records, so a
//! device in evidence is attributed to what it did on the machine.
//!
//! Partition-scheme analysis comes from `disk_forensic`; each partition's filesystem
//! signature from `mbr_partition_forensic`; the volume serial and BitLocker detection
//! from `forensicnomicon`. This module decides what of those a device record carries.
use crate::model::{Attribute, Claim, ClaimView, SourceKind, ValueView};
use crate::render::pad_right;
use crate::order::views;
use crate::source::HistorySource;
use crate::sources::shared::{claim_of, text_claim};
use crate::text::{format_volume_serial, hex_fixed, owned, push_char, push_hex, push_str, volume_serial_text};
use disk_forensic::{analyse_disk, DiskReport};
use mbr_partition_forensic::{DetectedFs, MbrAnalysis};
use std::io::Cursor;
use vstd::prelude::*;

verus! {

/// A detected volume-encryption or inaccessible-contents state.
#[derive(Debug, Clone, Copy, PartialEq, Eq, Structural)]
pub enum EncryptionKind {
    /// BitLocker on a fixed drive: the `-FVE-FS-` OEM identifier at offset 3.
    BitLocker,
    /// BitLocker To Go on removable media: the discovery volume carries the BitLocker
    /// identifier GUID.
    BitLockerToGo,
    /// A LUKS volume (`LUKS\xba\xbe`).
    Luks,
    /// A partition whose boot record matches no known filesystem — consistent with an
    /// encrypted container (VeraCrypt/TrueCrypt) or a wiped volume.
    UnrecognizedFilesystem,
}

/// The display name of an encryption state.
pub open spec fn encryption_name(k: EncryptionKind) -> Seq<char> {
    match k {
        EncryptionKind::BitLocker => "BitLocker"@,
        EncryptionKind::BitLockerToGo => "BitLocker To Go"@,
        EncryptionKind::Luks => "LUKS"@,
        EncryptionKind::UnrecognizedFilesystem => "unrecognized-filesystem (possible encrypted container)"@,
    }
}

/// How definite an encryption state is: a positive identification outranks a heuristic.
pub open spec fn encryption_rank(k: EncryptionKind) -> int {
    match k {
        EncryptionKind::BitLocker | EncryptionKind::BitLockerToGo => 3,
        EncryptionKind::Luks => 2,
        EncryptionKind::UnrecognizedFilesystem => 1,
    }
}

impl EncryptionKind {
    /// A stable display name.
    pub fn name(self) -> (r: &'static str)
        ensures
            r@ == encryption_name(self),
    {
        match self {
            EncryptionKind::BitLocker => "BitLocker",
            EncryptionKind::BitLockerToGo => "BitLocker To Go",
            EncryptionKind::Luks => "LUKS",
            EncryptionKind::UnrecognizedFilesystem => "unrecognized-filesystem (possible encrypted container)",
        }
    }

    /// Specificity rank: when partitions carry different states the most definite one
    /// is surfaced on the device.
    pub fn rank(self) -> (r: u8)
        ensures
            r as int == encryption_rank(self),
    {
        match self {
            EncryptionKind::BitLocker | EncryptionKind::BitLockerToGo => 3,
            EncryptionKind::Luks => 2,
            EncryptionKind::UnrecognizedFilesystem => 1,
        }
    }
}

/// A volume serial as a boot record carries it: 4 bytes (FAT/exFAT) or 8 (NTFS).
#[derive(Debug, Clone, Copy, PartialEq, Eq, Structural)]
pub enum VolumeSerial {
    Short(u32),
    Long(u64),
}

/// `b[at..at + n]` equals `pat`.
pub open spec fn bytes_at(b: Seq<u8>, at: int, pat: Seq<u8>) -> bool {
    at + pat.len() <= b.len() && b.subrange(at, at + pat.len()) == pat
}

/// The little-endian `u32` at `at`, when the bytes are there.
pub open spec fn le_u32_at(b: Seq<u8>, at: int) -> Option<u32> {
    if at + 4 <= b.len() {
        Some((b[at] as int + b[at + 1] as int * 0x100 + b[at + 2] as int * 0x1_0000 + b[at + 3] as int * 0x100_0000) as u32)
    } else {
        None
    }
}

/// The little-endian `u64` at `at`, when the bytes are there.
pub open spec fn le_u64_at(b: Seq<u8>, at: int) -> Option<u64> {
    if at + 8 <= b.len() {
        Some(
            (le_u32_at(b, at).unwrap() as int + le_u32_at(b, at + 4).unwrap() as int * 0x1_0000_0000) as u64,
        )
    } else {
        None
    }
}

/// The volume serial of a boot record: NTFS (`NTFS    ` at 3) → 8 bytes at 0x48; exFAT
/// (`EXFAT   ` at 3) → 4 bytes at 0x64; FAT32 (`FAT32   ` at 0x52) → 4 bytes at 0x43;
/// FAT12/16 (`FAT` at 0x36) → 4 bytes at 0x27.
pub open spec fn boot_record_serial(v: Seq<u8>) -> Option<VolumeSerial> {
    if bytes_at(v, 3, "NTFS    "@.map_values(|c: char| c as u8)) {
        match le_u64_at(v, 0x48) {
            Some(x) => Some(VolumeSerial::Long(x)),
            None => None,
        }
    } else if bytes_at(v, 3, "EXFAT   "@.map_values(|c: char| c as u8)) {
        match le_u32_at(v, 0x64) {
            Some(x) => Some(VolumeSerial::Short(x)),
            None => None,
        }
    } else if bytes_at(v, 0x52, "FAT32   "@.map_values(|c: char| c as u8)) {
        match le_u32_at(v, 0x43) {
            Some(x) => Some(VolumeSerial::Short(x)),
            None => None,
        }
    } else if bytes_at(v, 0x36, "FAT"@.map_values(|c: char| c as u8)) {
        match le_u32_at(v, 0x27) {
            Some(x) => Some(VolumeSerial::Short(x)),
            None => None,
        }
    } else {
        None
    }
}

/// `forensicnomicon::volume_serial::volume_serial`: the serial a boot record carries, by
/// the offsets of its filesystem.
#[verifier::external_body]
fn volume_serial(vbr: &[u8]) -> (r: Option<VolumeSerial>)
    ensures
        r == boot_record_serial(vbr@),
{
    match forensicnomicon::volume_serial::volume_serial(vbr) {
        Some(forensicnomicon::volume_serial::VolumeSerial::Short(v)) => Some(VolumeSerial::Short(v)),
        Some(forensicnomicon::volume_serial::VolumeSerial::Long(v)) => Some(VolumeSerial::Long(v)),
        None => None,
    }
}

/// BitLocker's encryption on a volume.
#[derive(Debug, Clone, Copy, PartialEq, Eq, Structural)]
pub enum VolumeEncryption {
    BitLocker,
    BitLockerToGo,
}

/// The BitLocker identifier GUID `4967D63B-2E29-4AD8-8399-F6A339E3D001`, in on-disk order.
pub open spec fn bitlocker_guid() -> Seq<u8> {
    seq![0x3Bu8, 0xD6, 0x67, 0x49, 0x29, 0x2E, 0xD8, 0x4A, 0x83, 0x99, 0xF6, 0xA3, 0x39, 0xE3, 0xD0, 0x01]
}

/// BitLocker on a volume: `-FVE-FS-` at offset 3 (fixed drive); else the identifier GUID
/// anywhere in the bytes (a To Go discovery volume).
pub open spec fn volume_encryption(v: Seq<u8>) -> Option<VolumeEncryption> {
    if v.len() >= 11 && v.subrange(3, 11) == "-FVE-FS-"@.map_values(|c: char| c as u8) {
        Some(VolumeEncryption::BitLocker)
    } else if exists|i: int| 0 <= i && i + 16 <= v.len() && #[trigger] v.subrange(i, i + 16) == bitlocker_guid() {
        Some(VolumeEncryption::BitLockerToGo)
    } else {
        None
    }
}

/// `forensicnomicon::volume_encryption::detect_encryption`: the `-FVE-FS-` signature, else
/// the identifier GUID in any 16-byte window.
#[verifier::external_body]
fn detect_encryption(vbr: &[u8]) -> (r: Option<VolumeEncryption>)
    ensures
        r == volume_encryption(vbr@),
{
    match forensicnomicon::volume_encryption::detect_encryption(vbr) {
        Some(forensicnomicon::volume_encryption::VolumeEncryption::BitLocker) => Some(VolumeEncryption::BitLocker),
        Some(forensicnomicon::volume_encryption::VolumeEncryption::BitLockerToGo) => Some(VolumeEncryption::BitLockerToGo),
        None => None,
    }
}

/// The filesystem a partition's first sectors are signed with.
#[derive(Debug, Clone, Copy, PartialEq, Eq, Structural)]
pub enum FilesystemSignature {
    Ext,
    Ntfs,
    Fat,
    Apfs,
    LinuxSwap,
    LinuxLvm,
    Luks,
    Xfs,
    Btrfs,
    ExFat,
    AllZeros,
    Unknown,
}

/// The filesystem `mbr_partition_forensic`'s signature detector reads from a partition's
/// first sectors.
pub uninterp spec fn filesystem_signature(sectors: Seq<u8>) -> FilesystemSignature;

/// `mbr_partition_forensic::signature::detect`: the filesystem magic of a partition's
/// first sectors.
#[verifier::external_body]
fn detect_filesystem(sectors: &[u8]) -> (r: FilesystemSignature)
    ensures
        r == filesystem_signature(sectors@),
{
    match mbr_partition_forensic::signature::detect(sectors) {
        DetectedFs::Ext => FilesystemSignature::Ext,
        DetectedFs::Ntfs => FilesystemSignature::Ntfs,
        DetectedFs::Fat => FilesystemSignature::Fat,
        DetectedFs::Apfs => FilesystemSignature::Apfs,
        DetectedFs::LinuxSwap => FilesystemSignature::LinuxSwap,
        DetectedFs::LinuxLvm => FilesystemSignature::LinuxLvm,
        DetectedFs::Luks => FilesystemSignature::Luks,
        DetectedFs::Xfs => FilesystemSignature::Xfs,
        DetectedFs::Btrfs => FilesystemSignature::Btrfs,
        DetectedFs::ExFat => FilesystemSignature::ExFat,
        DetectedFs::AllZeros => FilesystemSignature::AllZeros,
        DetectedFs::Unknown => FilesystemSignature::Unknown,
    }
}

/// A GUID Partition Table entry: whether it is in use, and its first LBA.
#[derive(Debug, Clone, Copy, PartialEq, Eq, Structural)]
pub struct GptEntry {
    /// The entry's type GUID is not zero.
    pub used: bool,
    /// Its first logical block.
    pub first_lba: u64,
}

/// The MBR analysis of a disk, with its GUID Partition Table when it has one.
#[derive(Debug, Clone, PartialEq, Eq)]
pub struct PartitionTable {
    /// The NT disk signature (MBR offset 440).
    pub disk_serial: u32,
    /// The byte offsets of the partitions the MBR (and its EBR chain) lists.
    pub mbr_offsets: Vec<u64>,
    /// The GPT's logical sector size, when a GPT was parsed.
    pub gpt_sector_size: Option<u64>,
    /// The GPT's entries (empty without a GPT).
    pub gpt_entries: Vec<GptEntry>,
}

/// The mathematical content of a [`PartitionTable`].
pub struct PartitionTableView {
    pub disk_serial: u32,
    pub mbr_offsets: Seq<u64>,
    pub gpt_sector_size: Option<u64>,
    pub gpt_entries: Seq<GptEntry>,
}

impl View for PartitionTable {
    type V = PartitionTableView;

    open spec fn view(&self) -> PartitionTableView {
        PartitionTableView {
            disk_serial: self.disk_serial,
            mbr_offsets: self.mbr_offsets@,
            gpt_sector_size: self.gpt_sector_size,
            gpt_entries: self.gpt_entries@,
        }
    }
}

/// The partitioning scheme of a disk.
#[derive(Debug, Clone, PartialEq, Eq)]
pub enum DiskScheme {
    /// An Apple Partition Map.
    Apm,
    /// A classic MBR.
    Mbr(PartitionTable),
    /// A protective MBR with a parsed GUID Partition Table.
    Gpt(PartitionTable),
}

/// The mathematical content of a [`DiskScheme`].
pub enum DiskSchemeView {
    Apm,
    Mbr(PartitionTableView),
    Gpt(PartitionTableView),
}

impl View for DiskScheme {
    type V = DiskSchemeView;

    open spec fn view(&self) -> DiskSchemeView {
        match self {
            DiskScheme::Apm => DiskSchemeView::Apm,
            DiskScheme::Mbr(t) => DiskSchemeView::Mbr(t@),
            DiskScheme::Gpt(t) => DiskSchemeView::Gpt(t@),
        }
    }
}

/// The scheme `disk_forensic` reads from a whole in-memory disk image (`None` where it
/// recognizes none, or fails).
pub uninterp spec fn disk_analysis(image: Seq<u8>) -> Option<DiskSchemeView>;

/// `disk_forensic::analyse_disk` over an in-memory image: the partitioning scheme, with
/// the MBR analysis's disk signature, partition offsets and GPT entries.
#[verifier::external_body]
fn analyse_disk_image(image: &[u8]) -> (r: Option<DiskScheme>)
    ensures
        r.is_some() == disk_analysis(image@).is_some(),
        r.is_some() ==> r.unwrap()@ == disk_analysis(image@).unwrap(),
{
    let table = |m: Box<MbrAnalysis>| PartitionTable {
        disk_serial: m.disk_serial,
        mbr_offsets: m.partitions.iter().map(|p| p.byte_offset).collect(),
        gpt_sector_size: m.gpt.as_ref().map(|g| g.sector_size),
        gpt_entries: m.gpt.iter().flat_map(|g| &g.partitions).map(|e| GptEntry { used: e.is_used(), first_lba: e.first_lba }).collect(),
    };
    analyse_disk(&mut Cursor::new(image), image.len() as u64).ok().map(|r| match r {
        DiskReport::Apm(_) => DiskScheme::Apm,
        DiskReport::Mbr(m) => DiskScheme::Mbr(table(m)),
        DiskReport::Gpt(m) => DiskScheme::Gpt(table(m)),
    })
}

/// The byte offsets of the used GPT entries: first LBA times the sector size (wrapping
/// as `u64` arithmetic does).
pub open spec fn gpt_offsets(entries: Seq<GptEntry>, sector_size: u64) -> Seq<u64>
    decreases entries.len(),
{
    if entries.len() == 0 {
        Seq::empty()
    } else {
        gpt_offsets(entries.drop_last(), sector_size) + if entries.last().used {
            seq![((entries.last().first_lba as int * sector_size as int) % 0x1_0000_0000_0000_0000) as u64]
        } else {
            Seq::empty()
        }
    }
}

/// The partition offsets from whichever table is authoritative: a GPT's used entries
/// when the disk has a GPT (its MBR then lists only the protective entry), else the MBR.
pub open spec fn table_offsets(t: PartitionTableView) -> Seq<u64> {
    match t.gpt_sector_size {
        Some(ss) => gpt_offsets(t.gpt_entries, ss),
        None => t.mbr_offsets,
    }
}

/// The partition offsets of a scheme (none for an Apple Partition Map).
pub open spec fn scheme_offsets(s: DiskSchemeView) -> Seq<u64> {
    match s {
        DiskSchemeView::Apm => Seq::empty(),
        DiskSchemeView::Mbr(t) => table_offsets(t),
        DiskSchemeView::Gpt(t) => table_offsets(t),
    }
}

/// The byte offsets of a disk's partitions, from the authoritative table.
pub fn partition_offsets(scheme: &DiskScheme) -> (r: Vec<u64>)
    ensures
        r@ == scheme_offsets(scheme@),
{
    let t = match scheme {
        DiskScheme::Apm => return Vec::new(),
        DiskScheme::Mbr(t) => t,
        DiskScheme::Gpt(t) => t,
    };
    match t.gpt_sector_size {
        Some(ss) => {
            let mut out: Vec<u64> = Vec::new();
            let mut i: usize = 0;
            while i < t.gpt_entries.len()
                invariant
                    i <= t.gpt_entries@.len(),
                    out@ == gpt_offsets(t.gpt_entries@.take(i as int), ss),
                decreases t.gpt_entries.len() - i,
            {
                let e = t.gpt_entries[i];
                if e.used {
                    out.push(e.first_lba.wrapping_mul(ss));
                }
                proof {
                    let s = t.gpt_entries@.take(i + 1);
                    assert(s.drop_last() =~= t.gpt_entries@.take(i as int));
                    assert(out@ =~= gpt_offsets(s, ss));
                }
                i = i + 1;
            }
            assert(t.gpt_entries@.take(t.gpt_entries@.len() as int) =~= t.gpt_entries@);
            out
        },
        None => t.mbr_offsets.clone(),
    }
}

/// `len` bytes of `image` from `offset`, zero-padded past its end; `None` when nothing
/// can be read there (the offset is at or past the end, or `len` is 0).
pub open spec fn region(image: Seq<u8>, offset: u64, len: nat) -> Option<Seq<u8>> {
    if len == 0 || offset >= image.len() {
        None
    } else {
        let end = if offset + len <= image.len() { offset + len } else { image.len() as int };
        Some(image.subrange(offset as int, end) + Seq::new((len - (end - offset)) as nat, |i: int| 0u8))
    }
}

/// Read `len` bytes from `offset`, zero-padding a short final read to `len`; `None` when
/// the offset is at or after the end (a partition beyond a truncated capture).
pub fn read_region(image: &[u8], offset: u64, len: usize) -> (r: Option<Vec<u8>>)
    ensures
        r.is_some() == region(image@, offset, len as nat).is_some(),
        r.is_some() ==> r.unwrap()@ == region(image@, offset, len as nat).unwrap(),
{
    if len == 0 || offset >= image.len() as u64 {
        return None;
    }
    let start = offset as usize;
    let avail = image.len() - start;
    let take = if len <= avail { len } else { avail };
    let mut buf: Vec<u8> = Vec::new();
    let mut i: usize = 0;
    while i < take
        invariant
            i <= take,
            take <= len,
            start + take <= image.len(),
            buf@ == image@.subrange(start as int, start + i),
        decreases take - i,
    {
        buf.push(image[start + i]);
        i = i + 1;
        assert(buf@ =~= image@.subrange(start as int, start + i));
    }
    let ghost data = buf@;
    let mut k: usize = take;
    while k < len
        invariant
            take <= k <= len,
            buf@ == data + Seq::new((k - take) as nat, |j: int| 0u8),
        decreases len - k,
    {
        buf.push(0u8);
        k = k + 1;
        assert(buf@ =~= data + Seq::new((k - take) as nat, |j: int| 0u8));
    }
    Some(buf)
}

/// The encryption state of a partition: BitLocker by its signature or GUID; else LUKS or
/// an unrecognized filesystem by the filesystem detector; `None` for a recognized,
/// unencrypted filesystem.
pub open spec fn encryption_state(vbr: Seq<u8>, fs: FilesystemSignature) -> Option<EncryptionKind> {
    match volume_encryption(vbr) {
        Some(VolumeEncryption::BitLocker) => Some(EncryptionKind::BitLocker),
        Some(VolumeEncryption::BitLockerToGo) => Some(EncryptionKind::BitLockerToGo),
        None => match fs {
            FilesystemSignature::Luks => Some(EncryptionKind::Luks),
            FilesystemSignature::Unknown => Some(EncryptionKind::UnrecognizedFilesystem),
            _ => None,
        },
    }
}

/// Classify a partition's encryption state from its boot record and detected filesystem.
pub fn classify_encryption(vbr: &[u8], detected_fs: FilesystemSignature) -> (r: Option<EncryptionKind>)
    ensures
        r == encryption_state(vbr@, detected_fs),
{
    match detect_encryption(vbr) {
        Some(VolumeEncryption::BitLocker) => Some(EncryptionKind::BitLocker),
        Some(VolumeEncryption::BitLockerToGo) => Some(EncryptionKind::BitLockerToGo),
        None => match detected_fs {
            FilesystemSignature::Luks => Some(EncryptionKind::Luks),
            FilesystemSignature::Unknown => Some(EncryptionKind::UnrecognizedFilesystem),
            _ => None,
        },
    }
}

/// Bytes read from each partition's start for filesystem detection: enough to reach the
/// deepest magic the detector inspects (Btrfs at 64 KiB).
pub const FS_PROBE_BYTES: usize = 0x1_0400;

/// A physical device's boot-sector identity, decoded from its raw disk image.
#[derive(Debug, Clone, PartialEq, Eq)]
pub struct DeviceImage {
    /// MBR disk signature (offset `0x1B8`) — joins the `MountedDevices` record.
    pub disk_signature: u32,
    /// The FAT/exFAT volume serial of the first partition that has one — the 4-byte
    /// serial `EMDMgmt` and Shell Links store.
    pub fat_volume_serial: Option<u32>,
    /// The most definite encryption state among the partitions.
    pub encryption: Option<EncryptionKind>,
    /// The raw 512-byte MBR sector, kept for export and verification.
    pub mbr: [u8; 512],
}

/// The mathematical content of a [`DeviceImage`].
pub struct DeviceImageView {
    pub disk_signature: u32,
    pub fat_volume_serial: Option<u32>,
    pub encryption: Option<EncryptionKind>,
    pub mbr: Seq<u8>,
}

impl View for DeviceImage {
    type V = DeviceImageView;

    open spec fn view(&self) -> DeviceImageView {
        DeviceImageView {
            disk_signature: self.disk_signature,
            fat_volume_serial: self.fat_volume_serial,
            encryption: self.encryption,
            mbr: self.mbr@,
        }
    }
}

/// The 4-byte serial of the first partition record that has one.
pub open spec fn first_fat_serial(vbrs: Seq<Option<Seq<u8>>>) -> Option<u32>
    decreases vbrs.len(),
{
    if vbrs.len() == 0 {
        None
    } else {
        match first_fat_serial(vbrs.drop_last()) {
            Some(x) => Some(x),
            None => match vbrs.last() {
                Some(v) => match boot_record_serial(v) {
                    Some(VolumeSerial::Short(x)) => Some(x),
                    _ => None,
                },
                None => None,
            },
        }
    }
}

/// The most definite encryption state among the partition records; the first of equal
/// rank is kept.
pub open spec fn strongest_encryption(vbrs: Seq<Option<Seq<u8>>>) -> Option<EncryptionKind>
    decreases vbrs.len(),
{
    if vbrs.len() == 0 {
        None
    } else {
        let cur = strongest_encryption(vbrs.drop_last());
        match vbrs.last() {
            Some(v) => match encryption_state(v, filesystem_signature(v)) {
                Some(k) => if cur.is_none() || encryption_rank(k) > encryption_rank(cur.unwrap()) {
                    Some(k)
                } else {
                    cur
                },
                None => cur,
            },
            None => cur,
        }
    }
}

/// The partition records as byte sequences.
pub open spec fn record_views(vbrs: Seq<Option<Vec<u8>>>) -> Seq<Option<Seq<u8>>> {
    vbrs.map_values(|v: Option<Vec<u8>>| match v {
        Some(b) => Some(b@),
        None => None,
    })
}

/// The device image a disk yields: none for an Apple Partition Map or without a full
/// MBR sector; else its disk signature, the first FAT serial and the most definite
/// encryption state among its partition records (`None` for a partition beyond the
/// image), and the MBR sector.
pub open spec fn device_image(scheme: DiskSchemeView, mbr: Option<Seq<u8>>, vbrs: Seq<Option<Seq<u8>>>) -> Option<DeviceImageView> {
    let sig = match scheme {
        DiskSchemeView::Apm => 0,
        DiskSchemeView::Mbr(t) => t.disk_serial,
        DiskSchemeView::Gpt(t) => t.disk_serial,
    };
    if scheme is Apm {
        None
    } else {
        match mbr {
            Some(m) => if m.len() == 512 {
                Some(
                    DeviceImageView {
                        disk_signature: sig,
                        fat_volume_serial: first_fat_serial(vbrs),
                        encryption: strongest_encryption(vbrs),
                        mbr: m,
                    },
                )
            } else {
                None
            },
            None => None,
        }
    }
}

/// Decode a device image from its partition analysis, its first 512 bytes, and the
/// first bytes of each partition (`None` for a partition beyond the image), in
/// partition order.
pub fn analyse_device_image(scheme: &DiskScheme, mbr_region: Option<Vec<u8>>, vbrs: &[Option<Vec<u8>>]) -> (r: Option<DeviceImage>)
    ensures
        r.is_some() == device_image(scheme@, match mbr_region { Some(m) => Some(m@), None => None }, record_views(vbrs@)).is_some(),
        r.is_some() ==> r.unwrap()@ == device_image(scheme@, match mbr_region { Some(m) => Some(m@), None => None }, record_views(vbrs@)).unwrap(),
{
    let disk_signature = match scheme {
        DiskScheme::Apm => return None,
        DiskScheme::Mbr(t) => t.disk_serial,
        DiskScheme::Gpt(t) => t.disk_serial,
    };
    let bytes = match mbr_region {
        Some(m) => m,
        None => return None,
    };
    if bytes.len() != 512 {
        return None;
    }
    let mut mbr = [0u8; 512];
    let mut j: usize = 0;
    while j < 512
        invariant
            j <= 512,
            bytes@.len() == 512,
            forall|x: int| 0 <= x < j ==> mbr@[x] == bytes@[x],
        decreases 512 - j,
    {
        mbr[j] = bytes[j];
        j = j + 1;
    }
    assert(mbr@ =~= bytes@);
    let ghost recs = record_views(vbrs@);
    let mut fat_volume_serial: Option<u32> = None;
    let mut encryption: Option<EncryptionKind> = None;
    let mut i: usize = 0;
    while i < vbrs.len()
        invariant
            i <= vbrs@.len(),
            recs == record_views(vbrs@),
            fat_volume_serial == first_fat_serial(recs.take(i as int)),
            encryption == strongest_encryption(recs.take(i as int)),
        decreases vbrs.len() - i,
    {
        proof {
            let t = recs.take(i + 1);
            assert(t.drop_last() =~= recs.take(i as int));
            assert(t.last() == recs[i as int]);
        }
        if let Some(vbr) = &vbrs[i] {
            let fs = detect_filesystem(vbr.as_slice());
            if let Some(kind) = classify_encryption(vbr.as_slice(), fs) {
                let replace = match encryption {
                    None => true,
                    Some(cur) => kind.rank() > cur.rank(),
                };
                if replace {
                    encryption = Some(kind);
                }
            }
            if fat_volume_serial.is_none() {
                if let Some(VolumeSerial::Short(v)) = volume_serial(vbr.as_slice()) {
                    fat_volume_serial = Some(v);
                }
            }
        }
        i = i + 1;
    }
    assert(recs.take(vbrs@.len() as int) =~= recs);
    Some(DeviceImage { disk_signature, fat_volume_serial, encryption, mbr })
}

/// The device image an in-memory disk image yields.
pub open spec fn boot_sectors(image: Seq<u8>) -> Option<DeviceImageView> {
    match disk_analysis(image) {
        None => None,
        Some(scheme) => device_image(
            scheme,
            region(image, 0, 512),
            scheme_offsets(scheme).map_values(|o: u64| region(image, o, FS_PROBE_BYTES as nat)),
        ),
    }
}

/// Decode a raw disk image's boot sectors from an in-memory slice: `None` when it
/// carries no MBR/GPT partition scheme (a non-disk input or an Apple Partition Map).
pub fn parse_boot_sectors(image: &[u8]) -> (r: Option<DeviceImage>)
    ensures
        r.is_some() == boot_sectors(image@).is_some(),
        r.is_some() ==> r.unwrap()@ == boot_sectors(image@).unwrap(),
{
    let scheme = match analyse_disk_image(image) {
        Some(s) => s,
        None => return None,
    };
    let offsets = partition_offsets(&scheme);
    let mbr = read_region(image, 0, 512);
    let mut vbrs: Vec<Option<Vec<u8>>> = Vec::new();
    let mut i: usize = 0;
    while i < offsets.len()
        invariant
            i <= offsets@.len(),
            record_views(vbrs@) == offsets@.take(i as int).map_values(|o: u64| region(image@, o, FS_PROBE_BYTES as nat)),
        decreases offsets.len() - i,
    {
        let v = read_region(image, offsets[i], FS_PROBE_BYTES);
        let ghost before = vbrs@;
        vbrs.push(v);
        proof {
            assert(record_views(vbrs@) =~= record_views(before).push(match v { Some(b) => Some(b@), None => None }));
            assert(offsets@.take(i + 1).map_values(|o: u64| region(image@, o, FS_PROBE_BYTES as nat)) =~= offsets@.take(i as int).map_values(|o: u64| region(image@, o, FS_PROBE_BYTES as nat)).push(region(image@, offsets@[i as int], FS_PROBE_BYTES as nat)));
        }
        i = i + 1;
    }
    assert(offsets@.take(offsets@.len() as int) =~= offsets@);
    analyse_device_image(&scheme, mbr, vbrs.as_slice())
}

/// Two upper-case hex digits and a space per byte.
pub open spec fn hex_bytes(b: Seq<u8>) -> Seq<char>
    decreases b.len(),
{
    if b.len() == 0 {
        Seq::empty()
    } else {
        hex_bytes(b.drop_last()) + hex_fixed(b.last() as nat, 2) + seq![' ']
    }
}

/// A byte as the dump's text column shows it: printable ASCII as itself, else `.`.
pub open spec fn dump_char(b: u8) -> char {
    if 0x20 <= b && b < 0x7F {
        b as char
    } else {
        '.'
    }
}

/// The text column of a run of bytes.
pub open spec fn dump_text(b: Seq<u8>) -> Seq<char>
    decreases b.len(),
{
    if b.len() == 0 {
        Seq::empty()
    } else {
        dump_text(b.drop_last()).push(dump_char(b.last()))
    }
}

/// One dump line: `OOOOOOOO  hex… |text|` for the 16 bytes at `16 * i`.
pub open spec fn dump_line(mbr: Seq<u8>, i: nat) -> Seq<char> {
    let chunk = mbr.subrange(16 * i as int, 16 * i as int + 16);
    hex_fixed(16 * i, 8) + "  "@ + pad_right(hex_bytes(chunk), 48) + " |"@ + dump_text(chunk) + "|\n"@
}

/// The first `n` dump lines.
pub open spec fn dump_lines(mbr: Seq<u8>, n: nat) -> Seq<char>
    decreases n,
{
    if n == 0 {
        Seq::empty()
    } else {
        dump_lines(mbr, (n - 1) as nat) + dump_line(mbr, (n - 1) as nat)
    }
}

/// The annotated hex dump of an MBR: a heading with the locator and disk signature, then
/// 32 lines of 16 bytes.
pub open spec fn mbr_dump(image: DeviceImageView, locator: Seq<char>) -> Seq<char> {
    "MBR of "@ + locator + " (disk signature "@ + volume_serial_text(image.disk_signature) + ")\n"@
        + dump_lines(image.mbr, 32)
}

/// Append one dump line.
fn push_dump_line(out: &mut String, mbr: &[u8; 512], i: usize)
    requires
        i < 32,
    ensures
        final(out)@ == old(out)@ + dump_line(mbr@, i as nat),
{
    let ghost chunk = mbr@.subrange(16 * i as int, 16 * i as int + 16);
    push_hex(out, (16 * i) as u64, 8);
    push_str(out, "  ");
    let mut hex = String::new();
    let mut text = String::new();
    let mut k: usize = 0;
    while k < 16
        invariant
            k <= 16,
            i < 32,
            chunk == mbr@.subrange(16 * i as int, 16 * i as int + 16),
            hex@ == hex_bytes(chunk.take(k as int)),
            text@ == dump_text(chunk.take(k as int)),
        decreases 16 - k,
    {
        let b = mbr[16 * i + k];
        push_hex(&mut hex, b as u64, 2);
        push_char(&mut hex, ' ');
        let c = if 0x20 <= b && b < 0x7F {
            b as char
        } else {
            '.'
        };
        push_char(&mut text, c);
        proof {
            let t = chunk.take(k + 1);
            assert(t.drop_last() =~= chunk.take(k as int));
            assert(t.last() == b);
        }
        k = k + 1;
    }
    assert(chunk.take(16) =~= chunk);
    let hs = crate::text::chars_of(hex.as_str());
    push_str(out, hex.as_str());
    if hs.len() < 48 {
        crate::text::push_repeated(out, ' ', 48 - hs.len());
    }
    push_str(out, " |");
    push_str(out, text.as_str());
    push_str(out, "|\n");
    assert(out@ =~= old(out)@ + dump_line(mbr@, i as nat));
}

/// Export a device image's raw 512-byte MBR sector as an annotated hex dump (16 bytes
/// per line, `offset  hex  |ascii|`), headed by the source locator and disk signature.
pub fn export_mbr_hex(image: &DeviceImage, locator: &str) -> (r: String)
    ensures
        r@ == mbr_dump(image@, locator@),
{
    let mut out = String::new();
    push_str(&mut out, "MBR of ");
    push_str(&mut out, locator);
    push_str(&mut out, " (disk signature ");
    let sig = format_volume_serial(image.disk_signature);
    push_str(&mut out, sig.as_str());
    push_str(&mut out, ")\n");
    let ghost head = out@;
    let mut i: usize = 0;
    while i < 32
        invariant
            i <= 32,
            out@ == head + dump_lines(image.mbr@, i as nat),
        decreases 32 - i,
    {
        push_dump_line(&mut out, &image.mbr, i);
        i = i + 1;
    }
    out
}

/// The device key of an image: `disk-` and its disk signature in hex.
pub open spec fn image_device_key(image: DeviceImageView) -> Seq<char> {
    "disk-"@ + hex_fixed(image.disk_signature as nat, 8)
}

/// The claims of a device image: its FAT volume serial and its encryption state, when
/// present, keyed by its disk signature.
pub open spec fn image_claims(image: DeviceImageView, locator: Seq<char>) -> Seq<ClaimView> {
    let key = image_device_key(image);
    (match image.fat_volume_serial {
        Some(v) => seq![claim_of(key, Attribute::VolumeSerial, ValueView::Text(volume_serial_text(v)), SourceKind::DeviceImage, locator)],
        None => Seq::empty(),
    }) + match image.encryption {
        Some(e) => seq![claim_of(key, Attribute::Encryption, ValueView::Text(encryption_name(e)), SourceKind::DeviceImage, locator)],
        None => Seq::empty(),
    }
}

/// A [`HistorySource`] over one decoded device image.
pub struct DeviceImageSource<'a> {
    image: &'a DeviceImage,
    locator: String,
}

impl<'a> DeviceImageSource<'a> {
    /// The image this source reads.
    pub closed spec fn image(&self) -> DeviceImageView {
        self.image@
    }

    /// The locator of the image file.
    pub closed spec fn file(&self) -> Seq<char> {
        self.locator@
    }

    /// Wrap a decoded device image with the locator of the image it came from.
    pub fn new(image: &'a DeviceImage, locator: &str) -> (r: Self)
        ensures
            r.image() == image@,
            r.file() == locator@,
    {
        DeviceImageSource { image, locator: owned(locator) }
    }
}

impl<'a> HistorySource for DeviceImageSource<'a> {
    open spec fn claim_views(&self) -> Seq<ClaimView> {
        image_claims(self.image(), self.file())
    }

    /// Keyed `disk-XXXXXXXX` by the MBR disk signature: the FAT volume serial (so an
    /// `EMDMgmt`/`.lnk` record keyed by it reconciles onto the device) and the
    /// encryption state, when present.
    fn claims(&self) -> (r: Vec<Claim>) {
        let mut device = String::new();
        push_str(&mut device, "disk-");
        push_hex(&mut device, self.image.disk_signature as u64, 8);
        let mut out: Vec<Claim> = Vec::new();
        if let Some(vsn) = self.image.fat_volume_serial {
            let text = format_volume_serial(vsn);
            out.push(text_claim(&device, Attribute::VolumeSerial, &text, SourceKind::DeviceImage, &self.locator));
        }
        let ghost mid = views(out@);
        if let Some(enc) = self.image.encryption {
            let text = owned(enc.name());
            out.push(text_claim(&device, Attribute::Encryption, &text, SourceKind::DeviceImage, &self.locator));
        }
        assert(views(out@) =~= image_claims(self.image@, self.locator@));
        out
    }
}

/// The encryption state one partition record shows (none for a partition beyond the image).
pub open spec fn partition_state(vbrs: Seq<Option<Seq<u8>>>, i: int) -> Option<EncryptionKind> {
    match vbrs[i] {
        Some(v) => encryption_state(v, filesystem_signature(v)),
        None => None,
    }
}

/// Whether a state is a BitLocker identification, on a fixed drive or To Go.
pub open spec fn is_bitlocker(k: Option<EncryptionKind>) -> bool {
    k == Some(EncryptionKind::BitLocker) || k == Some(EncryptionKind::BitLockerToGo)
}

/// The device's state is one of its partitions' states, and none ranks above it.
proof fn lemma_strongest_is_a_maximum(vbrs: Seq<Option<Seq<u8>>>)
    ensures
        strongest_encryption(vbrs) is None <==> forall|i: int| 0 <= i < vbrs.len() ==> #[trigger] partition_state(vbrs, i) is None,
        strongest_encryption(vbrs) is Some ==> exists|i: int|
            0 <= i < vbrs.len() && #[trigger] partition_state(vbrs, i) == strongest_encryption(vbrs),
        forall|i: int|
            0 <= i < vbrs.len() && (#[trigger] partition_state(vbrs, i)) is Some ==> encryption_rank(
                partition_state(vbrs, i).unwrap(),
            ) <= encryption_rank(strongest_encryption(vbrs).unwrap()),
    decreases vbrs.len(),
{
    if vbrs.len() > 0 {
        let pre = vbrs.drop_last();
        lemma_strongest_is_a_maximum(pre);
        assert forall|i: int| 0 <= i < pre.len() implies #[trigger] partition_state(pre, i) == partition_state(vbrs, i) by {
            assert(pre[i] == vbrs[i]);
        }
        let n = vbrs.len() - 1;
        assert(vbrs.last() == vbrs[n]);
        if strongest_encryption(vbrs) is Some {
            if strongest_encryption(vbrs) != strongest_encryption(pre) {
                assert(partition_state(vbrs, n) == strongest_encryption(vbrs));
            } else {
                let i = choose|i: int| 0 <= i < pre.len() && #[trigger] partition_state(pre, i) == strongest_encryption(pre);
                assert(partition_state(vbrs, i) == strongest_encryption(vbrs));
            }
        }
        if strongest_encryption(vbrs) is None {
            assert forall|i: int| 0 <= i < vbrs.len() implies #[trigger] partition_state(vbrs, i) is None by {
                if i < n {
                    assert(partition_state(pre, i) is None);
                }
            }
        }
        assert forall|i: int|
            0 <= i < vbrs.len() && (#[trigger] partition_state(vbrs, i)) is Some implies encryption_rank(
                partition_state(vbrs, i).unwrap(),
            ) <= encryption_rank(strongest_encryption(vbrs).unwrap()) by {
            if i < n {
                assert(partition_state(pre, i) is Some);
            }
        }
    }
}

/// A positive identification outranks a heuristic on the device: any BitLocker partition
/// makes the device BitLocker (fixed or To Go); without one, any LUKS partition makes it
/// LUKS, whatever unrecognised boot records sit beside it; the device is called
/// unrecognised only when every recognised state is that one; it has a state exactly
/// when some partition has one, and that state is one of its partitions'.
pub proof fn law_definite_encryption_wins(vbrs: Seq<Option<Seq<u8>>>)
    ensures
        (exists|i: int| 0 <= i < vbrs.len() && is_bitlocker(#[trigger] partition_state(vbrs, i)))
            ==> is_bitlocker(strongest_encryption(vbrs)),
        (exists|i: int| 0 <= i < vbrs.len() && #[trigger] partition_state(vbrs, i) == Some(EncryptionKind::Luks))
            && (forall|i: int| 0 <= i < vbrs.len() ==> !is_bitlocker(#[trigger] partition_state(vbrs, i)))
            ==> strongest_encryption(vbrs) == Some(EncryptionKind::Luks),
        strongest_encryption(vbrs) == Some(EncryptionKind::UnrecognizedFilesystem) ==> forall|i: int|
            0 <= i < vbrs.len() ==> #[trigger] partition_state(vbrs, i) is None || partition_state(vbrs, i)
                == Some(EncryptionKind::UnrecognizedFilesystem),
        strongest_encryption(vbrs) is None <==> forall|i: int|
            0 <= i < vbrs.len() ==> #[trigger] partition_state(vbrs, i) is None,
        strongest_encryption(vbrs) is Some ==> exists|i: int|
            0 <= i < vbrs.len() && #[trigger] partition_state(vbrs, i) == strongest_encryption(vbrs),
{
    lemma_strongest_is_a_maximum(vbrs);
    if exists|i: int| 0 <= i < vbrs.len() && is_bitlocker(#[trigger] partition_state(vbrs, i)) {
        let i = choose|i: int| 0 <= i < vbrs.len() && is_bitlocker(#[trigger] partition_state(vbrs, i));
        assert(partition_state(vbrs, i) is Some);
    }
    if (exists|i: int| 0 <= i < vbrs.len() && #[trigger] partition_state(vbrs, i) == Some(EncryptionKind::Luks))
        && (forall|i: int| 0 <= i < vbrs.len() ==> !is_bitlocker(#[trigger] partition_state(vbrs, i))) {
        let i = choose|i: int| 0 <= i < vbrs.len() && #[trigger] partition_state(vbrs, i) == Some(EncryptionKind::Luks);
        assert(partition_state(vbrs, i) is Some);
        let j = choose|j: int| 0 <= j < vbrs.len() && #[trigger] partition_state(vbrs, j) == strongest_encryption(vbrs);
        assert(!is_bitlocker(partition_state(vbrs, j)));
    }
    if strongest_encryption(vbrs) == Some(EncryptionKind::UnrecognizedFilesystem) {
        assert forall|i: int| 0 <= i < vbrs.len() implies #[trigger] partition_state(vbrs, i) is None
            || partition_state(vbrs, i) == Some(EncryptionKind::UnrecognizedFilesystem) by {
            if partition_state(vbrs, i) is Some {
                assert(encryption_rank(partition_state(vbrs, i).unwrap()) <= 1);
            }
        }
    }
}

} // verus!
