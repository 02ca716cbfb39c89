//! Evidence intake: telling an input file's kind from its content, and the pipeline
//! from the decoded records of every file to graded device histories and findings.
use crate::correlate::{correlate, is_correlation, DeviceHistory};
use crate::model::{is_local_clock, Claim, ClaimView, SourceKind, Value, ValueView};
use crate::order::views;
use crate::reconcile::{canonicalize_mounted_volumes, canonicalized, reconcile_volume_serials, reconciled, MountedVolume};
use crate::report::{all_history_findings, audit, is_reformat_section, Finding};
use crate::scan::{find_chars, find_first};
use crate::source::HistorySource;
use crate::sources::apple_ipod::{apple_claims, AppleDevice, AppleIPodSource};
use crate::sources::device_image::{image_claims, DeviceImage, DeviceImageSource};
use crate::sources::emdmgmt::{emd_claims, EmdMgmtSource, EmdVolume};
use crate::sources::jumplist::{jumplist_claims, JumpListArtifact, JumpListSource};
use crate::sources::lnk::{lnk_claims, LnkArtifact, LnkSource};
use crate::sources::macos_usb::{mac_usb_claims, MacUsbDevice, MacUsbSource};
use crate::sources::mountpoints2::{mount_claims, MountPoints2Source, UserMount};
use crate::sources::partition_diag::{diag_event_claims, PartitionDiagEvent, PartitionDiagSource};
use crate::sources::kernel_pnp::{kernel_pnp_events, pnp_event_claims, pnp_events, KernelPnpEvent, KernelPnpSource};
use crate::sources::driver_framework::{
    driver_framework_events, framework_event_claims, framework_events, DriverFrameworkEvent, DriverFrameworkSource,
};
use crate::sources::peripheral::{connection_claims, DeviceConnection, PeripheralSource};
use crate::sources::volume_cache::{label_claim, VolumeCacheSource, VolumeLabel};
use crate::readers::{
    hive_connections, hive_connections_of, hive_emd_volumes, hive_emd_volumes_of, hive_error,
    hive_mounted_volumes, hive_mounted_volumes_of, hive_rejection, hive_user_mounts, hive_user_mounts_of,
    hive_volume_labels, hive_volume_labels_of, json_document, evtx_records, read_evtx_records, jump_list_document, linux_connections,
    linux_connections_of, lossy_text, lossy_utf8, plist_document, read_jump_list, read_shell_link,
    setupapi_connections, setupapi_connections_of, shell_link_document,
};
use crate::sources::apple_ipod::{ipod_devices, parse_ipod_plist};
use crate::sources::device_image::{boot_sectors, parse_boot_sectors};
use crate::sources::macos_usb::{parse_system_profiler, profiler_devices};
use crate::json::JsonValue;
use crate::text::{chars_of, owned};
use crate::tz::{normalize_local_clocks, normalized, shift_fits};
use vstd::prelude::*;

verus! {

/// `p` occurs in `b` at offset `i`.
pub open spec fn bytes_at(b: Seq<u8>, p: Seq<u8>, i: int) -> bool {
    0 <= i && i + p.len() <= b.len() && b.subrange(i, i + p.len()) == p
}

/// `p` occurs somewhere in `b`.
pub open spec fn holds_bytes(b: Seq<u8>, p: Seq<u8>) -> bool {
    exists|i: int| bytes_at(b, p, i)
}

/// `b` begins with `p`.
pub open spec fn opens_with(b: Seq<u8>, p: Seq<u8>) -> bool {
    bytes_at(b, p, 0)
}

/// The first 512 bytes of `b` (all of it when shorter): where the text markers are sought.
pub open spec fn head(b: Seq<u8>) -> Seq<u8> {
    if b.len() < 512 {
        b
    } else {
        b.take(512)
    }
}

/// Whether `p` occurs in `b` at offset `i`.
fn matches_at(b: &[u8], p: &[u8], i: usize) -> (r: bool)
    requires
        i + p@.len() <= b@.len(),
    ensures
        r == bytes_at(b@, p@, i as int),
{
    let bl = b.len();
    let mut j: usize = 0;
    while j < p.len()
        invariant
            bl == b@.len(),
            i + p@.len() <= b@.len(),
            j <= p@.len(),
            forall|k: int| 0 <= k < j ==> b@[i + k] == p@[k],
        decreases p.len() - j,
    {
        if b[i + j] != p[j] {
            assert(b@.subrange(i as int, i + p@.len())[j as int] != p@[j as int]);
            return false;
        }
        j = j + 1;
    }
    assert(b@.subrange(i as int, i + p@.len()) =~= p@);
    true
}

/// Whether `b` begins with `p`.
fn starts_with_bytes(b: &[u8], p: &[u8]) -> (r: bool)
    ensures
        r == opens_with(b@, p@),
{
    if p.len() > b.len() {
        false
    } else {
        matches_at(b, p, 0)
    }
}

/// Whether `p` occurs in the first `n` bytes of `b`.
fn occurs_within(b: &[u8], n: usize, p: &[u8]) -> (r: bool)
    requires
        n <= b@.len(),
        n <= 512,
    ensures
        r == holds_bytes(b@.take(n as int), p@),
{
    let ghost t = b@.take(n as int);
    if p.len() > n {
        assert forall|i: int| !bytes_at(t, p@, i) by {}
        return false;
    }
    let last = n - p.len();
    let mut i: usize = 0;
    while i <= last
        invariant
            n <= b@.len(),
            n <= 512,
            t == b@.take(n as int),
            last + p@.len() == n,
            i <= last + 1,
            forall|k: int| 0 <= k < i ==> !bytes_at(t, p@, k),
        decreases last + 1 - i,
    {
        if matches_at(b, p, i) {
            assert(t.subrange(i as int, i + p@.len()) =~= b@.subrange(i as int, i + p@.len()));
            assert(bytes_at(t, p@, i as int));
            return true;
        }
        assert(t.subrange(i as int, i + p@.len()) =~= b@.subrange(i as int, i + p@.len()));
        i = i + 1;
    }
    assert forall|k: int| !bytes_at(t, p@, k) by {
        if 0 <= k < i {
        }
    }
    false
}

/// The bytes of `b` that the text markers are sought in.
fn head_len(b: &[u8]) -> (r: usize)
    ensures
        b@.take(r as int) == head(b@),
        r <= b@.len(),
        r <= 512,
{
    if b.len() < 512 {
        assert(b@.take(b@.len() as int) =~= b@);
        b.len()
    } else {
        512
    }
}

/// A `.lnk` Shell Link begins with `HeaderSize` = 0x4C little-endian.
pub fn is_shell_link(bytes: &[u8]) -> (r: bool)
    ensures
        r == opens_with(bytes@, seq![0x4Cu8, 0x00u8, 0x00u8, 0x00u8]),
{
    let sig: [u8; 4] = [0x4C, 0x00, 0x00, 0x00];
    assert(sig@ == seq![0x4Cu8, 0x00u8, 0x00u8, 0x00u8]);
    starts_with_bytes(bytes, sig.as_slice())
}

/// An `*.automaticDestinations-ms` jump list is an OLE/CFB compound file.
pub fn is_compound_file(bytes: &[u8]) -> (r: bool)
    ensures
        r == opens_with(bytes@, seq![0xD0u8, 0xCFu8, 0x11u8, 0xE0u8, 0xA1u8, 0xB1u8, 0x1Au8, 0xE1u8]),
{
    let sig: [u8; 8] = [0xD0, 0xCF, 0x11, 0xE0, 0xA1, 0xB1, 0x1A, 0xE1];
    assert(sig@ == seq![0xD0u8, 0xCFu8, 0x11u8, 0xE0u8, 0xA1u8, 0xB1u8, 0x1Au8, 0xE1u8]);
    starts_with_bytes(bytes, sig.as_slice())
}

/// A Windows registry hive begins with the `regf` base-block signature.
pub fn is_registry_hive(bytes: &[u8]) -> (r: bool)
    ensures
        r == opens_with(bytes@, seq![0x72u8, 0x65u8, 0x67u8, 0x66u8]),
{
    let sig: [u8; 4] = [0x72, 0x65, 0x67, 0x66];
    assert(sig@ == seq![0x72u8, 0x65u8, 0x67u8, 0x66u8]);
    starts_with_bytes(bytes, sig.as_slice())
}

/// The records that could be read, in order: each `Some` unwrapped, each `None` passed over.
pub open spec fn readable(records: Seq<Option<JsonValue>>) -> Seq<JsonValue>
    decreases records.len(),
{
    if records.len() == 0 {
        Seq::empty()
    } else {
        readable(records.drop_last()) + match records.last() {
            Some(v) => seq![v],
            None => Seq::empty(),
        }
    }
}

/// The event JSON of every record of an event log that could be read, in file order.
pub open spec fn evtx_record_documents(bytes: Seq<u8>) -> Seq<JsonValue> {
    readable(evtx_records(bytes))
}

/// Keep the records that could be read, in order.
pub fn readable_records(records: Vec<Option<JsonValue>>) -> (r: Vec<JsonValue>)
    ensures
        r@ == readable(records@),
{
    let ghost all = records@;
    let mut out: Vec<JsonValue> = Vec::new();
    for rec in it: records.into_iter()
        invariant
            it.seq() == all,
            out@ == readable(all.take(it.index() as int)),
    {
        proof {
            let t = all.take(it.index() + 1);
            assert(t.drop_last() =~= all.take(it.index() as int));
        }
        match rec {
            Some(v) => out.push(v),
            None => {},
        }
    }
    assert(all.take(all.len() as int) =~= all);
    out
}

/// A Windows Event Log (`.evtx`) begins with the `ElfFile\0` file-header signature.
pub fn is_evtx(bytes: &[u8]) -> (r: bool)
    ensures
        r == opens_with(bytes@, seq![0x45u8, 0x6Cu8, 0x66u8, 0x46u8, 0x69u8, 0x6Cu8, 0x65u8, 0x00u8]),
{
    let sig: [u8; 8] = [0x45, 0x6C, 0x66, 0x46, 0x69, 0x6C, 0x65, 0x00];
    assert(sig@ == seq![0x45u8, 0x6Cu8, 0x66u8, 0x46u8, 0x69u8, 0x6Cu8, 0x65u8, 0x00u8]);
    starts_with_bytes(bytes, sig.as_slice())
}

/// A raw disk image with an MBR ends its first sector with the `0x55AA` boot signature.
pub fn is_disk_image(bytes: &[u8]) -> (r: bool)
    ensures
        r == (bytes@.len() >= 0x200 && bytes@[0x1FE] == 0x55u8 && bytes@[0x1FF] == 0xAAu8),
{
    bytes.len() >= 0x200 && bytes[0x1FE] == 0x55 && bytes[0x1FF] == 0xAA
}

/// The `<plist` marker of an XML property list.
pub open spec fn plist_marker() -> Seq<u8> {
    seq![0x3Cu8, 0x70u8, 0x6Cu8, 0x69u8, 0x73u8, 0x74u8]
}

/// The `bplist00` signature of a binary property list.
pub open spec fn bplist_signature() -> Seq<u8> {
    seq![0x62u8, 0x70u8, 0x6Cu8, 0x69u8, 0x73u8, 0x74u8, 0x30u8, 0x30u8]
}

/// The `SPUSBDataType` key of a `system_profiler` USB capture.
pub open spec fn profiler_marker() -> Seq<u8> {
    seq![0x53u8, 0x50u8, 0x55u8, 0x53u8, 0x42u8, 0x44u8, 0x61u8, 0x74u8, 0x61u8, 0x54u8, 0x79u8, 0x70u8, 0x65u8]
}

/// A property list: a binary `bplist00`, or an XML plist whose first 512 bytes carry
/// `<plist` (the `com.apple.iPod.plist` form). An ASCII marker is found in the lossily
/// decoded text exactly when its bytes occur, so the search runs on the bytes.
pub fn is_plist(bytes: &[u8]) -> (r: bool)
    ensures
        r == (opens_with(bytes@, bplist_signature()) || holds_bytes(head(bytes@), plist_marker())),
{
    let sig: [u8; 8] = [0x62, 0x70, 0x6C, 0x69, 0x73, 0x74, 0x30, 0x30];
    assert(sig@ == bplist_signature());
    let marker: [u8; 6] = [0x3C, 0x70, 0x6C, 0x69, 0x73, 0x74];
    assert(marker@ == plist_marker());
    let n = head_len(bytes);
    starts_with_bytes(bytes, sig.as_slice()) || occurs_within(bytes, n, marker.as_slice())
}

/// A `system_profiler -json SPUSBDataType` capture: its first 512 bytes carry the
/// `SPUSBDataType` key.
pub fn is_system_profiler_usb(bytes: &[u8]) -> (r: bool)
    ensures
        r == holds_bytes(head(bytes@), profiler_marker()),
{
    let marker: [u8; 13] = [0x53, 0x50, 0x55, 0x53, 0x42, 0x44, 0x61, 0x74, 0x61, 0x54, 0x79, 0x70, 0x65];
    assert(marker@ == profiler_marker());
    let n = head_len(bytes);
    occurs_within(bytes, n, marker.as_slice())
}

/// A Linux kernel log carries the `New USB device found` enumeration marker that the
/// syslog reader keys on; setupapi text does not.
pub fn looks_like_linux_syslog(text: &str) -> (r: bool)
    ensures
        r == find_first(text@, "New USB device found"@).is_some(),
{
    proof {
        reveal_strlit("New USB device found");
    }
    let cs = chars_of(text);
    let marker = chars_of("New USB device found");
    find_chars(&cs, &marker, 0).is_some()
}

/// What an input file holds, told by its content.
#[derive(Debug, Clone, Copy, PartialEq, Eq, Structural)]
pub enum InputKind {
    /// An `*.automaticDestinations-ms` jump list.
    JumpList,
    /// A `.lnk` Shell Link.
    ShellLink,
    /// A Windows registry hive.
    RegistryHive,
    /// A macOS `system_profiler` USB capture.
    SystemProfilerUsb,
    /// A property list (the macOS `com.apple.iPod.plist`).
    PropertyList,
    /// A raw device image with an MBR.
    DiskImage,
    /// A Windows event log.
    EventLog,
    /// Anything else, read as text: a `setupapi.dev.log` or a Linux kernel log.
    Text,
}

/// The kind of an input file: the first signature that matches, checked in this order —
/// compound file, Shell Link, registry hive, `system_profiler` capture, property list,
/// MBR boot signature, event log — and text otherwise.
pub open spec fn input_kind(b: Seq<u8>) -> InputKind {
    if opens_with(b, seq![0xD0u8, 0xCFu8, 0x11u8, 0xE0u8, 0xA1u8, 0xB1u8, 0x1Au8, 0xE1u8]) {
        InputKind::JumpList
    } else if opens_with(b, seq![0x4Cu8, 0x00u8, 0x00u8, 0x00u8]) {
        InputKind::ShellLink
    } else if opens_with(b, seq![0x72u8, 0x65u8, 0x67u8, 0x66u8]) {
        InputKind::RegistryHive
    } else if holds_bytes(head(b), profiler_marker()) {
        InputKind::SystemProfilerUsb
    } else if opens_with(b, bplist_signature()) || holds_bytes(head(b), plist_marker()) {
        InputKind::PropertyList
    } else if b.len() >= 0x200 && b[0x1FE] == 0x55u8 && b[0x1FF] == 0xAAu8 {
        InputKind::DiskImage
    } else if opens_with(b, seq![0x45u8, 0x6Cu8, 0x66u8, 0x46u8, 0x69u8, 0x6Cu8, 0x65u8, 0x00u8]) {
        InputKind::EventLog
    } else {
        InputKind::Text
    }
}

/// Classify an input file by its content, so it is routed to the matching reader.
pub fn classify_input(bytes: &[u8]) -> (r: InputKind)
    ensures
        r == input_kind(bytes@),
{
    if is_compound_file(bytes) {
        InputKind::JumpList
    } else if is_shell_link(bytes) {
        InputKind::ShellLink
    } else if is_registry_hive(bytes) {
        InputKind::RegistryHive
    } else if is_system_profiler_usb(bytes) {
        InputKind::SystemProfilerUsb
    } else if is_plist(bytes) {
        InputKind::PropertyList
    } else if is_disk_image(bytes) {
        InputKind::DiskImage
    } else if is_evtx(bytes) {
        InputKind::EventLog
    } else {
        InputKind::Text
    }
}

/// The decoded records of every input file, grouped by origin so each batch is stamped
/// with the right [`SourceKind`] (which drives container and clock-locality reasoning).
pub struct Ingested {
    /// `setupapi.dev.log` connections (host-local clock).
    pub setupapi: Vec<DeviceConnection>,
    /// SYSTEM-hive `Enum` device instances.
    pub registry: Vec<DeviceConnection>,
    /// Linux kernel-log attaches (host-local clock).
    pub linux: Vec<DeviceConnection>,
    /// Shell Links.
    pub lnk: Vec<LnkArtifact>,
    /// Jump lists.
    pub jumplists: Vec<JumpListArtifact>,
    /// Partition/Diagnostic events.
    pub partition_diag: Vec<PartitionDiagEvent>,
    /// Kernel-PnP configuration events.
    pub kernel_pnp: Vec<KernelPnpEvent>,
    /// DriverFrameworks-UserMode arrival and removal events.
    pub driver_framework: Vec<DriverFrameworkEvent>,
    /// `VolumeInfoCache` labels.
    pub volume_labels: Vec<VolumeLabel>,
    /// `EMDMgmt` volumes.
    pub emd_volumes: Vec<EmdVolume>,
    /// Device images, each with the locator of its file.
    pub device_images: Vec<(DeviceImage, String)>,
    /// Apple devices of each `com.apple.iPod.plist`, with its locator.
    pub apple_devices: Vec<(Vec<AppleDevice>, String)>,
    /// USB devices of each `system_profiler` capture, with its locator.
    pub mac_usb: Vec<(Vec<MacUsbDevice>, String)>,
    /// `MountedDevices` MBR volumes, the drive-letter / volume-GUID bridge.
    pub mounted_volumes: Vec<MountedVolume>,
    /// `MountPoints2` user mounts.
    pub user_mounts: Vec<UserMount>,
}

impl Ingested {
    /// Nothing read yet.
    pub fn empty() -> (r: Self)
        ensures
            r.setupapi@.len() == 0 && r.registry@.len() == 0 && r.linux@.len() == 0,
            r.lnk@.len() == 0 && r.jumplists@.len() == 0 && r.partition_diag@.len() == 0,
            r.kernel_pnp@.len() == 0 && r.driver_framework@.len() == 0,
            r.volume_labels@.len() == 0 && r.emd_volumes@.len() == 0 && r.device_images@.len() == 0,
            r.apple_devices@.len() == 0 && r.mac_usb@.len() == 0 && r.mounted_volumes@.len() == 0,
            r.user_mounts@.len() == 0,
    {
        Ingested {
            setupapi: Vec::new(),
            registry: Vec::new(),
            linux: Vec::new(),
            lnk: Vec::new(),
            jumplists: Vec::new(),
            partition_diag: Vec::new(),
            kernel_pnp: Vec::new(),
            driver_framework: Vec::new(),
            volume_labels: Vec::new(),
            emd_volumes: Vec::new(),
            device_images: Vec::new(),
            apple_devices: Vec::new(),
            mac_usb: Vec::new(),
            mounted_volumes: Vec::new(),
            user_mounts: Vec::new(),
        }
    }
}

/// The Apple devices across the plists.
pub open spec fn apple_device_count(s: Seq<(Vec<AppleDevice>, String)>) -> nat
    decreases s.len(),
{
    if s.len() == 0 {
        0
    } else {
        apple_device_count(s.drop_last()) + s.last().0@.len()
    }
}

/// The USB devices across the captures.
pub open spec fn mac_device_count(s: Seq<(Vec<MacUsbDevice>, String)>) -> nat
    decreases s.len(),
{
    if s.len() == 0 {
        0
    } else {
        mac_device_count(s.drop_last()) + s.last().0@.len()
    }
}

/// Every source record read, across every origin (a device image counts once; a plist
/// or capture counts each device in it). `MountedDevices` volumes only bridge keys and
/// are not counted.
pub open spec fn record_total(g: Ingested) -> nat {
    g.setupapi@.len() + g.registry@.len() + g.linux@.len() + g.lnk@.len() + g.jumplists@.len()
        + g.partition_diag@.len() + g.kernel_pnp@.len() + g.driver_framework@.len() + g.volume_labels@.len() + g.user_mounts@.len() + g.emd_volumes@.len()
        + g.device_images@.len() + apple_device_count(g.apple_devices@) + mac_device_count(g.mac_usb@)
}

/// `n`, or the largest `usize` when it does not fit.
pub open spec fn capped(n: nat) -> nat {
    if n <= usize::MAX {
        n
    } else {
        usize::MAX as nat
    }
}

/// Add `x` to a capped running total.
fn add_capped(acc: usize, x: usize, Ghost(total): Ghost<nat>) -> (r: usize)
    requires
        acc == capped(total),
    ensures
        r == capped((total + x) as nat),
{
    acc.saturating_add(x)
}

impl Ingested {
    /// Total source records read, across every origin (the largest `usize` if the
    /// count does not fit one).
    pub fn record_count(&self) -> (r: usize)
        ensures
            r == capped(record_total(*self)),
    {
        let mut apple: usize = 0;
        let mut i: usize = 0;
        while i < self.apple_devices.len()
            invariant
                i <= self.apple_devices@.len(),
                apple == capped(apple_device_count(self.apple_devices@.take(i as int))),
            decreases self.apple_devices.len() - i,
        {
            proof {
                let t = self.apple_devices@.take(i + 1);
                assert(t.drop_last() =~= self.apple_devices@.take(i as int));
            }
            apple = add_capped(apple, self.apple_devices[i].0.len(), Ghost(apple_device_count(self.apple_devices@.take(i as int))));
            i = i + 1;
        }
        assert(self.apple_devices@.take(i as int) =~= self.apple_devices@);
        let mut mac: usize = 0;
        let mut k: usize = 0;
        while k < self.mac_usb.len()
            invariant
                k <= self.mac_usb@.len(),
                mac == capped(mac_device_count(self.mac_usb@.take(k as int))),
            decreases self.mac_usb.len() - k,
        {
            proof {
                let t = self.mac_usb@.take(k + 1);
                assert(t.drop_last() =~= self.mac_usb@.take(k as int));
            }
            mac = add_capped(mac, self.mac_usb[k].0.len(), Ghost(mac_device_count(self.mac_usb@.take(k as int))));
            k = k + 1;
        }
        assert(self.mac_usb@.take(k as int) =~= self.mac_usb@);
        let ghost a = apple_device_count(self.apple_devices@);
        let ghost m = mac_device_count(self.mac_usb@);
        let mut n: usize = self.setupapi.len();
        let ghost mut t: nat = self.setupapi@.len();
        assert(n == capped(t));
        n = add_capped(n, self.registry.len(), Ghost(t));
        proof { t = t + self.registry@.len(); }
        n = add_capped(n, self.linux.len(), Ghost(t));
        proof { t = t + self.linux@.len(); }
        n = add_capped(n, self.lnk.len(), Ghost(t));
        proof { t = t + self.lnk@.len(); }
        n = add_capped(n, self.jumplists.len(), Ghost(t));
        proof { t = t + self.jumplists@.len(); }
        n = add_capped(n, self.partition_diag.len(), Ghost(t));
        proof { t = t + self.partition_diag@.len(); }
        n = add_capped(n, self.kernel_pnp.len(), Ghost(t));
        proof { t = t + self.kernel_pnp@.len(); }
        n = add_capped(n, self.driver_framework.len(), Ghost(t));
        proof { t = t + self.driver_framework@.len(); }
        n = add_capped(n, self.volume_labels.len(), Ghost(t));
        proof { t = t + self.volume_labels@.len(); }
        n = add_capped(n, self.user_mounts.len(), Ghost(t));
        proof { t = t + self.user_mounts@.len(); }
        n = add_capped(n, self.emd_volumes.len(), Ghost(t));
        proof { t = t + self.emd_volumes@.len(); }
        n = add_capped(n, self.device_images.len(), Ghost(t));
        proof { t = t + self.device_images@.len(); }
        n = add_capped(n, apple, Ghost(t));
        assert(capped((t + capped(a)) as nat) == capped(t + a));
        proof { t = t + a; }
        n = add_capped(n, mac, Ghost(t));
        assert(capped((t + capped(m)) as nat) == capped(t + m));
        proof { t = t + m; }
        assert(t == record_total(*self));
        n
    }
}

/// The claims of the device images, in order.
pub open spec fn images_claims(s: Seq<(DeviceImage, String)>) -> Seq<ClaimView>
    decreases s.len(),
{
    if s.len() == 0 {
        Seq::empty()
    } else {
        images_claims(s.drop_last()) + image_claims(s.last().0@, s.last().1@)
    }
}

/// The claims of the iPod plists, in order.
pub open spec fn plists_claims(s: Seq<(Vec<AppleDevice>, String)>) -> Seq<ClaimView>
    decreases s.len(),
{
    if s.len() == 0 {
        Seq::empty()
    } else {
        plists_claims(s.drop_last()) + apple_claims(views(s.last().0@), s.last().1@)
    }
}

/// The claims of the `system_profiler` captures, in order.
pub open spec fn captures_claims(s: Seq<(Vec<MacUsbDevice>, String)>) -> Seq<ClaimView>
    decreases s.len(),
{
    if s.len() == 0 {
        Seq::empty()
    } else {
        captures_claims(s.drop_last()) + mac_usb_claims(views(s.last().0@), s.last().1@)
    }
}

/// Every claim the ingested records make, source by source: setupapi, registry and
/// Linux connections (each batch stamped with its origin), Shell Links, jump lists,
/// Partition/Diagnostic, Kernel-PnP and DriverFrameworks events, volume labels, user
/// mounts, `EMDMgmt` volumes, then the device images, iPod plists and `system_profiler`
/// captures.
pub open spec fn gathered_claims(g: Ingested) -> Seq<ClaimView> {
    connection_claims(g.setupapi@, SourceKind::SetupApi) + connection_claims(g.registry@, SourceKind::Usbstor)
        + connection_claims(g.linux@, SourceKind::LinuxKernelLog) + lnk_claims(g.lnk@) + jumplist_claims(
        g.jumplists@,
    ) + diag_event_claims(g.partition_diag@) + pnp_event_claims(views(g.kernel_pnp@)) + framework_event_claims(
        views(g.driver_framework@),
    ) + g.volume_labels@.map_values(|l: VolumeLabel| label_claim(l))
        + mount_claims(g.user_mounts@) + emd_claims(g.emd_volumes@) + images_claims(g.device_images@)
        + plists_claims(g.apple_devices@) + captures_claims(g.mac_usb@)
}

/// Append every claim of a source.
fn push_source<S: HistorySource>(out: &mut Vec<Claim>, src: &S)
    ensures
        views(final(out)@) == views(old(out)@) + src.claim_views(),
{
    let mut cs = src.claims();
    let ghost before = out@;
    let ghost added = cs@;
    out.append(&mut cs);
    assert(views(out@) =~= views(before) + views(added));
}

/// Gather every claim of the ingested records.
pub fn gather_claims(g: &Ingested) -> (r: Vec<Claim>)
    ensures
        views(r@) == gathered_claims(*g),
{
    let mut out: Vec<Claim> = Vec::new();
    push_source(&mut out, &PeripheralSource::new(g.setupapi.as_slice(), SourceKind::SetupApi));
    push_source(&mut out, &PeripheralSource::new(g.registry.as_slice(), SourceKind::Usbstor));
    push_source(&mut out, &PeripheralSource::new(g.linux.as_slice(), SourceKind::LinuxKernelLog));
    push_source(&mut out, &LnkSource::new(g.lnk.as_slice()));
    push_source(&mut out, &JumpListSource::new(g.jumplists.as_slice()));
    push_source(&mut out, &PartitionDiagSource::new(g.partition_diag.as_slice()));
    push_source(&mut out, &KernelPnpSource::new(g.kernel_pnp.as_slice()));
    push_source(&mut out, &DriverFrameworkSource::new(g.driver_framework.as_slice()));
    push_source(&mut out, &VolumeCacheSource::new(g.volume_labels.as_slice()));
    push_source(&mut out, &MountPoints2Source::new(g.user_mounts.as_slice()));
    push_source(&mut out, &EmdMgmtSource::new(g.emd_volumes.as_slice()));
    let ghost fixed = views(out@);
    let mut i: usize = 0;
    while i < g.device_images.len()
        invariant
            i <= g.device_images@.len(),
            views(out@) == fixed + images_claims(g.device_images@.take(i as int)),
        decreases g.device_images.len() - i,
    {
        let entry = &g.device_images[i];
        push_source(&mut out, &DeviceImageSource::new(&entry.0, entry.1.as_str()));
        proof {
            let t = g.device_images@.take(i + 1);
            assert(t.drop_last() =~= g.device_images@.take(i as int));
            assert(t.last() == g.device_images@[i as int]);
        }
        i = i + 1;
    }
    assert(g.device_images@.take(i as int) =~= g.device_images@);
    let ghost with_images = views(out@);
    let mut k: usize = 0;
    while k < g.apple_devices.len()
        invariant
            k <= g.apple_devices@.len(),
            views(out@) == with_images + plists_claims(g.apple_devices@.take(k as int)),
        decreases g.apple_devices.len() - k,
    {
        let entry = &g.apple_devices[k];
        push_source(&mut out, &AppleIPodSource::new(entry.0.as_slice(), entry.1.as_str()));
        proof {
            let t = g.apple_devices@.take(k + 1);
            assert(t.drop_last() =~= g.apple_devices@.take(k as int));
            assert(t.last() == g.apple_devices@[k as int]);
        }
        k = k + 1;
    }
    assert(g.apple_devices@.take(k as int) =~= g.apple_devices@);
    let ghost with_plists = views(out@);
    let mut m: usize = 0;
    while m < g.mac_usb.len()
        invariant
            m <= g.mac_usb@.len(),
            views(out@) == with_plists + captures_claims(g.mac_usb@.take(m as int)),
        decreases g.mac_usb.len() - m,
    {
        let entry = &g.mac_usb[m];
        push_source(&mut out, &MacUsbSource::new(entry.0.as_slice(), entry.1.as_str()));
        proof {
            let t = g.mac_usb@.take(m + 1);
            assert(t.drop_last() =~= g.mac_usb@.take(m as int));
            assert(t.last() == g.mac_usb@[m as int]);
        }
        m = m + 1;
    }
    assert(g.mac_usb@.take(m as int) =~= g.mac_usb@);
    out
}

/// The claims after an optional host-offset correction of the local clocks.
pub open spec fn corrected(claims: Seq<ClaimView>, tz_offset: Option<i64>) -> Seq<ClaimView> {
    match tz_offset {
        Some(o) => claims.map_values(|c: ClaimView| normalized(c, o as int)),
        None => claims,
    }
}

/// The claims ready to correlate: corrected for the host offset when one is given, then
/// re-keyed by volume serial onto the device carrying it, then collapsed onto the
/// canonical volume of the `MountedDevices` bridge.
pub open spec fn prepared_claims(g: Ingested, tz_offset: Option<i64>) -> Seq<ClaimView> {
    let c = corrected(gathered_claims(g), tz_offset);
    let r = c.map_values(|x: ClaimView| reconciled(c, x));
    r.map_values(|x: ClaimView| canonicalized(views(g.mounted_volumes@), x))
}

/// The offset can be applied: every local-clock timestamp stays within `i64`.
pub open spec fn offset_applies(g: Ingested, tz_offset: Option<i64>) -> bool {
    match tz_offset {
        Some(o) => shift_fits(gathered_claims(g), o as int),
        None => true,
    }
}

/// Whether shifting every local-clock timestamp of the gathered claims by `offset`
/// stays within `i64` (subtracting an offset that does not fit overflows).
pub fn offset_fits(g: &Ingested, offset: i64) -> (r: bool)
    ensures
        r == shift_fits(gathered_claims(*g), offset as int),
{
    let claims = gather_claims(g);
    let ghost cs = views(claims@);
    let mut i: usize = 0;
    while i < claims.len()
        invariant
            i <= claims@.len(),
            cs == views(claims@),
            cs == gathered_claims(*g),
            forall|k: int|
                0 <= k < i && is_local_clock(#[trigger] cs[k].provenance.source) ==> match cs[k].value {
                    ValueView::Timestamp(t) => i64::MIN <= t - offset <= i64::MAX,
                    ValueView::Text(_) => true,
                },
        decreases claims.len() - i,
    {
        assert(cs[i as int] == claims@[i as int]@);
        if claims[i].provenance.source.clock_is_local() {
            if let Value::Timestamp(t) = claims[i].value {
                if t.checked_sub(offset).is_none() {
                    assert(is_local_clock(cs[i as int].provenance.source));
                    return false;
                }
            }
        }
        i = i + 1;
    }
    true
}

/// Gather, correct and re-key the claims of the ingested records.
pub fn prepare_claims(g: &Ingested, tz_offset: Option<i64>) -> (r: Vec<Claim>)
    requires
        offset_applies(*g, tz_offset),
    ensures
        views(r@) == prepared_claims(*g, tz_offset),
{
    let mut claims = gather_claims(g);
    let ghost raw = views(claims@);
    if let Some(offset) = tz_offset {
        normalize_local_clocks(claims.as_mut_slice(), offset);
        assert(views(claims@) =~= corrected(raw, tz_offset));
    }
    let ghost c = views(claims@);
    assert(c == corrected(raw, tz_offset));
    let rekeyed = reconcile_volume_serials(claims.as_slice());
    let ghost r = c.map_values(|x: ClaimView| reconciled(c, x));
    assert(views(rekeyed@) =~= r);
    let out = canonicalize_mounted_volumes(rekeyed.as_slice(), g.mounted_volumes.as_slice());
    assert(views(out@) =~= prepared_claims(*g, tz_offset));
    out
}

/// Correlate the ingested records into graded device histories, and audit them into
/// findings: the computing half of a run, between reading the files and rendering.
pub fn analyse(g: &Ingested, tz_offset: Option<i64>) -> (r: (Vec<DeviceHistory>, Vec<Finding>))
    requires
        offset_applies(*g, tz_offset),
    ensures
        is_correlation(prepared_claims(*g, tz_offset), views(r.0@)),
        all_history_findings(views(r.0@)).len() <= r.1@.len(),
        views(r.1@).take(all_history_findings(views(r.0@)).len() as int) == all_history_findings(views(r.0@)),
        is_reformat_section(views(r.0@), views(r.1@).skip(all_history_findings(views(r.0@)).len() as int)),
{
    let claims = prepare_claims(g, tz_offset);
    let histories = correlate(claims.as_slice());
    let findings = audit(histories.as_slice());
    (histories, findings)
}

/// Why a file of a recognised kind added nothing.
#[derive(Debug, Clone, PartialEq, Eq)]
pub enum SkipReason {
    /// The compound file is not a valid jump list.
    NotAJumpList,
    /// The bytes are not a valid Shell Link.
    NotAShellLink,
    /// The registry reader refused the hive, for the reason it gives.
    NotAHive(String),
    /// The `system_profiler` capture lists no USB devices.
    NoUsbDevices,
    /// The property list holds no Apple-device history.
    NoAppleHistory,
    /// The image carries a boot signature but no readable partition scheme.
    UnreadableImage,
}

/// What became of one input file.
#[derive(Debug, Clone, PartialEq, Eq)]
pub enum IngestOutcome {
    /// Its records were added.
    Read,
    /// It was recognised but added nothing.
    Skipped(SkipReason),
    /// It is a Windows event log: its Kernel-PnP and DriverFrameworks events were added,
    /// and its Partition/Diagnostic events are decoded by their reader from the file itself.
    EventLog,
}

/// Why reading the input cannot go on.
#[derive(Debug, Clone, Copy, PartialEq, Eq, Structural)]
pub enum IngestError {
    /// A Linux kernel log was given without the reference year its timestamps lack.
    SyslogNeedsYear,
}

/// The enumeration marker of a Linux kernel log.
pub open spec fn syslog_marker() -> Seq<char> {
    "New USB device found"@
}

/// The bytes are text from a Linux kernel log.
pub open spec fn is_kernel_log(bytes: Seq<u8>) -> bool {
    input_kind(bytes) == InputKind::Text && find_first(lossy_utf8(bytes), syslog_marker()).is_some()
}

/// `new` is `old` with one more entry at the end of a list.
pub open spec fn appended<T>(old: Seq<T>, new: Seq<T>) -> bool {
    new.len() == old.len() + 1 && new.drop_last() == old
}

/// What reading one file does to the intake: the records its kind's reader decodes are
/// added to that kind's list, in order, stamped with the file's path; a file the reader
/// refuses, or whose records are empty, adds nothing and says why.
pub open spec fn ingest_step(
    old: Ingested,
    new: Ingested,
    path: Seq<char>,
    bytes: Seq<u8>,
    year: Option<i64>,
    out: IngestOutcome,
) -> bool {
    match input_kind(bytes) {
        InputKind::JumpList => match jump_list_document(bytes, path) {
            Some(list) => out == IngestOutcome::Read && new == Ingested { jumplists: new.jumplists, ..old }
                && appended(old.jumplists@, new.jumplists@) && new.jumplists@.last().source_path@ == path
                && new.jumplists@.last().list == list,
            None => out == IngestOutcome::Skipped(SkipReason::NotAJumpList) && new == old,
        },
        InputKind::ShellLink => match shell_link_document(bytes) {
            Some(link) => out == IngestOutcome::Read && new == Ingested { lnk: new.lnk, ..old }
                && appended(old.lnk@, new.lnk@) && new.lnk@.last().source_path@ == path
                && new.lnk@.last().link == link,
            None => out == IngestOutcome::Skipped(SkipReason::NotAShellLink) && new == old,
        },
        InputKind::RegistryHive => match hive_rejection(bytes) {
            Some(why) => new == old && (out matches IngestOutcome::Skipped(SkipReason::NotAHive(m)) && m@ == why),
            None => out == IngestOutcome::Read && new == Ingested {
                registry: new.registry,
                volume_labels: new.volume_labels,
                mounted_volumes: new.mounted_volumes,
                user_mounts: new.user_mounts,
                emd_volumes: new.emd_volumes,
                ..old
            } && new.registry@ == old.registry@ + hive_connections_of(bytes, path)
                && new.volume_labels@ == old.volume_labels@ + hive_volume_labels_of(bytes, path)
                && new.mounted_volumes@ == old.mounted_volumes@ + hive_mounted_volumes_of(bytes, path)
                && new.user_mounts@ == old.user_mounts@ + hive_user_mounts_of(bytes, path)
                && new.emd_volumes@ == old.emd_volumes@ + hive_emd_volumes_of(bytes, path),
        },
        InputKind::SystemProfilerUsb => if profiler_devices(json_document(bytes)).len() == 0 {
            out == IngestOutcome::Skipped(SkipReason::NoUsbDevices) && new == old
        } else {
            out == IngestOutcome::Read && new == Ingested { mac_usb: new.mac_usb, ..old } && appended(
                old.mac_usb@,
                new.mac_usb@,
            ) && views(new.mac_usb@.last().0@) == profiler_devices(json_document(bytes))
                && new.mac_usb@.last().1@ == path
        },
        InputKind::PropertyList => if ipod_devices(plist_document(bytes)).len() == 0 {
            out == IngestOutcome::Skipped(SkipReason::NoAppleHistory) && new == old
        } else {
            out == IngestOutcome::Read && new == Ingested { apple_devices: new.apple_devices, ..old }
                && appended(old.apple_devices@, new.apple_devices@) && views(new.apple_devices@.last().0@)
                == ipod_devices(plist_document(bytes)) && new.apple_devices@.last().1@ == path
        },
        InputKind::DiskImage => match boot_sectors(bytes) {
            Some(img) => out == IngestOutcome::Read && new == Ingested { device_images: new.device_images, ..old }
                && appended(old.device_images@, new.device_images@) && new.device_images@.last().0@ == img
                && new.device_images@.last().1@ == path,
            None => out == IngestOutcome::Skipped(SkipReason::UnreadableImage) && new == old,
        },
        InputKind::EventLog => out == IngestOutcome::EventLog && new == Ingested {
            kernel_pnp: new.kernel_pnp,
            driver_framework: new.driver_framework,
            ..old
        } && views(new.kernel_pnp@) == views(old.kernel_pnp@) + pnp_events(evtx_record_documents(bytes))
            && views(new.driver_framework@) == views(old.driver_framework@) + framework_events(
            evtx_record_documents(bytes),
        ),
        InputKind::Text => out == IngestOutcome::Read && if find_first(lossy_utf8(bytes), syslog_marker()).is_some() {
            match year {
                Some(y) => new == Ingested { linux: new.linux, ..old } && new.linux@ == old.linux@
                    + linux_connections_of(lossy_utf8(bytes), path, y),
                None => new == old,
            }
        } else {
            new == Ingested { setupapi: new.setupapi, ..old } && new.setupapi@ == old.setupapi@
                + setupapi_connections_of(lossy_utf8(bytes), path)
        },
    }
}

/// Read one input file's bytes into the intake, by the reader its content calls for.
/// Fails, changing nothing, exactly when the file is a Linux kernel log and no reference
/// year is given (its year-less timestamps would otherwise be silently wrong).
pub fn ingest_bytes(g: &mut Ingested, path: &str, bytes: &[u8], year: Option<i64>) -> (r: Result<
    IngestOutcome,
    IngestError,
>)
    ensures
        r is Err <==> (is_kernel_log(bytes@) && year is None),
        r is Err ==> *final(g) == *old(g),
        r matches Ok(out) ==> ingest_step(*old(g), *final(g), path@, bytes@, year, out),
{
    match classify_input(bytes) {
        InputKind::JumpList => match read_jump_list(bytes, path) {
            Some(list) => {
                let ghost before = g.jumplists@;
                let ghost expected = list;
                g.jumplists.push(JumpListArtifact { source_path: owned(path), list });
                assert(g.jumplists@.drop_last() =~= before);
                assert(g.jumplists@.last().list == expected);
                Ok(IngestOutcome::Read)
            },
            None => Ok(IngestOutcome::Skipped(SkipReason::NotAJumpList)),
        },
        InputKind::ShellLink => match read_shell_link(bytes) {
            Some(link) => {
                let ghost before = g.lnk@;
                let ghost expected = link;
                g.lnk.push(LnkArtifact { source_path: owned(path), link });
                assert(g.lnk@.drop_last() =~= before);
                assert(g.lnk@.last().link == expected);
                Ok(IngestOutcome::Read)
            },
            None => Ok(IngestOutcome::Skipped(SkipReason::NotAShellLink)),
        },
        InputKind::RegistryHive => match hive_error(bytes) {
            Some(why) => Ok(IngestOutcome::Skipped(SkipReason::NotAHive(why))),
            None => {
                let mut conns = hive_connections(bytes, path);
                g.registry.append(&mut conns);
                let mut labels = hive_volume_labels(bytes, path);
                g.volume_labels.append(&mut labels);
                let mut volumes = hive_mounted_volumes(bytes, path);
                g.mounted_volumes.append(&mut volumes);
                let mut mounts = hive_user_mounts(bytes, path);
                g.user_mounts.append(&mut mounts);
                let mut emd = hive_emd_volumes(bytes, path);
                g.emd_volumes.append(&mut emd);
                Ok(IngestOutcome::Read)
            },
        },
        InputKind::SystemProfilerUsb => {
            let devs = parse_system_profiler(bytes);
            if devs.len() == 0 {
                Ok(IngestOutcome::Skipped(SkipReason::NoUsbDevices))
            } else {
                let ghost before = g.mac_usb@;
                g.mac_usb.push((devs, owned(path)));
                assert(g.mac_usb@.drop_last() =~= before);
                Ok(IngestOutcome::Read)
            }
        },
        InputKind::PropertyList => {
            let devs = parse_ipod_plist(bytes);
            if devs.len() == 0 {
                Ok(IngestOutcome::Skipped(SkipReason::NoAppleHistory))
            } else {
                let ghost before = g.apple_devices@;
                g.apple_devices.push((devs, owned(path)));
                assert(g.apple_devices@.drop_last() =~= before);
                Ok(IngestOutcome::Read)
            }
        },
        InputKind::DiskImage => match parse_boot_sectors(bytes) {
            Some(img) => {
                let ghost before = g.device_images@;
                g.device_images.push((img, owned(path)));
                assert(g.device_images@.drop_last() =~= before);
                Ok(IngestOutcome::Read)
            },
            None => Ok(IngestOutcome::Skipped(SkipReason::UnreadableImage)),
        },
        InputKind::EventLog => {
            let records = readable_records(read_evtx_records(bytes));
            let ghost pnp_before = views(g.kernel_pnp@);
            let ghost framework_before = views(g.driver_framework@);
            let mut pnp = kernel_pnp_events(records.as_slice());
            let ghost pnp_new = views(pnp@);
            g.kernel_pnp.append(&mut pnp);
            assert(views(g.kernel_pnp@) =~= pnp_before + pnp_new);
            let mut framework = driver_framework_events(records.as_slice());
            let ghost framework_new = views(framework@);
            g.driver_framework.append(&mut framework);
            assert(views(g.driver_framework@) =~= framework_before + framework_new);
            Ok(IngestOutcome::EventLog)
        },
        InputKind::Text => {
            let text = lossy_text(bytes);
            if looks_like_linux_syslog(text.as_str()) {
                match year {
                    Some(y) => {
                        let mut conns = linux_connections(text.as_str(), path, y);
                        g.linux.append(&mut conns);
                        Ok(IngestOutcome::Read)
                    },
                    None => Err(IngestError::SyslogNeedsYear),
                }
            } else {
                let mut conns = setupapi_connections(text.as_str(), path);
                g.setupapi.append(&mut conns);
                Ok(IngestOutcome::Read)
            }
        },
    }
}

} // verus!
