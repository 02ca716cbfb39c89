//! The source-agnostic domain model: atomic claims a source adapter emits, which the
//! correlation core groups and grades.
use crate::order::{chars_before, lemma_chars_irreflexive, lemma_chars_total, lemma_chars_transitive, rank_i64, rank_strings, Rank, ViewOrder};
use vstd::prelude::*;

verus! {

/// The cross-source agreement grade for one reported attribute.
#[derive(Debug, Clone, Copy, PartialEq, Eq, Hash, Structural)]
#[non_exhaustive]
pub enum Consistency {
    /// Exactly one storage container reported the value.
    SingleSource,
    /// Two or more independent containers reported the value and they agree.
    Corroborated,
    /// Two or more independent containers reported the value and they disagree.
    Conflicting,
}

/// The published label of each grade.
pub open spec fn consistency_label(c: Consistency) -> Seq<char> {
    match c {
        Consistency::SingleSource => "single-source"@,
        Consistency::Corroborated => "corroborated"@,
        Consistency::Conflicting => "conflicting"@,
    }
}

impl Consistency {
    /// A short, stable label for human-facing output.
    pub fn label(self) -> (r: &'static str)
        ensures
            r@ == consistency_label(self),
    {
        match self {
            Consistency::SingleSource => "single-source",
            Consistency::Corroborated => "corroborated",
            Consistency::Conflicting => "conflicting",
        }
    }
}

/// No two grades share a label, so a reader can always tell the grade from its label.
pub proof fn law_grade_labels_are_distinct(a: Consistency, b: Consistency)
    ensures
        consistency_label(a) == consistency_label(b) ==> a == b,
{
    reveal_strlit("single-source");
    reveal_strlit("corroborated");
    reveal_strlit("conflicting");
    if a != b && consistency_label(a) == consistency_label(b) {
        assert(consistency_label(a)[0] == consistency_label(b)[0]);
        assert(consistency_label(a)[3] == consistency_label(b)[3]);
    }
}

/// Which artifact a claim was extracted from (the recording mechanism).
#[derive(Debug, Clone, Copy, PartialEq, Eq, PartialOrd, Ord, Hash, Structural)]
#[non_exhaustive]
pub enum SourceKind {
    /// `SYSTEM\...\Enum\{USBSTOR,SCSI,USB}` device instance keys.
    Usbstor,
    /// `SYSTEM\MountedDevices` — drive-letter to device mapping.
    MountedDevices,
    /// `setupapi.dev.log` — first device-install time (host-local clock).
    SetupApi,
    /// Microsoft-Windows-Partition/Diagnostic event log.
    PartitionDiag,
    /// A Windows Shell Link (`.lnk`).
    Lnk,
    /// A Windows Jump List.
    JumpList,
    /// A Linux kernel log (`syslog` / `dmesg`) (host-local clock).
    LinuxKernelLog,
    /// `SOFTWARE\...\VolumeInfoCache` — volume labels by drive letter.
    VolumeInfoCache,
    /// `NTUSER.DAT\...\MountPoints2` — per-user volume mounts.
    MountPoints2,
    /// `SOFTWARE\...\EMDMgmt` — ReadyBoost volume label and serial cache.
    EmdMgmt,
    /// The device's own boot sectors, read from a raw image of it.
    DeviceImage,
    /// macOS `com.apple.iPod.plist`.
    AppleIPod,
    /// macOS `system_profiler SPUSBDataType` capture.
    MacosUsb,
    /// macOS unified-log USB enumeration events.
    MacosUnifiedLog,
    /// Microsoft-Windows-Kernel-PnP/Configuration event log.
    KernelPnp,
    /// Microsoft-Windows-DriverFrameworks-UserMode/Operational event log.
    DriverFramework,
    /// `NTUSER.DAT` ShellBags (`BagMRU`).
    Shellbag,
}

/// The physical storage container an artifact lives in — its tamper surface.
#[derive(Debug, Clone, Copy, PartialEq, Eq, PartialOrd, Ord, Hash, Structural)]
#[non_exhaustive]
pub enum ArtifactContainer {
    /// The `SYSTEM` registry hive.
    SystemHive,
    /// The `SOFTWARE` registry hive.
    SoftwareHive,
    /// A per-user `NTUSER.DAT` hive.
    UserHive,
    /// The `setupapi.dev.log` text log.
    SetupApiLog,
    /// A Windows event log (`.evtx`).
    EventLog,
    /// A Shell Link file or jump list on the filesystem.
    LnkFile,
    /// A Linux kernel log file.
    KernelLog,
    /// The device's own media.
    DeviceMedia,
    /// A macOS preferences property list.
    MacosPlist,
    /// A capture of the live macOS USB device tree.
    MacosLiveSystem,
    /// The macOS unified log.
    MacosLogStore,
}

/// The container each source lives in.
pub open spec fn container_of(s: SourceKind) -> ArtifactContainer {
    match s {
        SourceKind::Usbstor | SourceKind::MountedDevices => ArtifactContainer::SystemHive,
        SourceKind::SetupApi => ArtifactContainer::SetupApiLog,
        SourceKind::PartitionDiag | SourceKind::KernelPnp | SourceKind::DriverFramework => ArtifactContainer::EventLog,
        SourceKind::Lnk | SourceKind::JumpList => ArtifactContainer::LnkFile,
        SourceKind::LinuxKernelLog => ArtifactContainer::KernelLog,
        SourceKind::VolumeInfoCache | SourceKind::EmdMgmt => ArtifactContainer::SoftwareHive,
        SourceKind::MountPoints2 | SourceKind::Shellbag => ArtifactContainer::UserHive,
        SourceKind::DeviceImage => ArtifactContainer::DeviceMedia,
        SourceKind::AppleIPod => ArtifactContainer::MacosPlist,
        SourceKind::MacosUsb => ArtifactContainer::MacosLiveSystem,
        SourceKind::MacosUnifiedLog => ArtifactContainer::MacosLogStore,
    }
}

/// Whether a source records host-local wall-clock time rather than UTC.
pub open spec fn is_local_clock(s: SourceKind) -> bool {
    s == SourceKind::SetupApi || s == SourceKind::LinuxKernelLog
}

/// Declaration-order rank of a source, the order `SourceKind` sorts by.
pub open spec fn source_rank(s: SourceKind) -> int {
    match s {
        SourceKind::Usbstor => 0,
        SourceKind::MountedDevices => 1,
        SourceKind::SetupApi => 2,
        SourceKind::PartitionDiag => 3,
        SourceKind::Lnk => 4,
        SourceKind::JumpList => 5,
        SourceKind::LinuxKernelLog => 6,
        SourceKind::VolumeInfoCache => 7,
        SourceKind::MountPoints2 => 8,
        SourceKind::EmdMgmt => 9,
        SourceKind::DeviceImage => 10,
        SourceKind::AppleIPod => 11,
        SourceKind::MacosUsb => 12,
        SourceKind::MacosUnifiedLog => 13,
        SourceKind::KernelPnp => 14,
        SourceKind::DriverFramework => 15,
        SourceKind::Shellbag => 16,
    }
}

impl SourceKind {
    /// The storage container this source lives in. Total.
    pub fn container(self) -> (r: ArtifactContainer)
        ensures
            r == container_of(self),
    {
        match self {
            SourceKind::Usbstor | SourceKind::MountedDevices => ArtifactContainer::SystemHive,
            SourceKind::SetupApi => ArtifactContainer::SetupApiLog,
            SourceKind::PartitionDiag | SourceKind::KernelPnp | SourceKind::DriverFramework => ArtifactContainer::EventLog,
            SourceKind::Lnk | SourceKind::JumpList => ArtifactContainer::LnkFile,
            SourceKind::LinuxKernelLog => ArtifactContainer::KernelLog,
            SourceKind::VolumeInfoCache | SourceKind::EmdMgmt => ArtifactContainer::SoftwareHive,
            SourceKind::MountPoints2 | SourceKind::Shellbag => ArtifactContainer::UserHive,
            SourceKind::DeviceImage => ArtifactContainer::DeviceMedia,
            SourceKind::AppleIPod => ArtifactContainer::MacosPlist,
            SourceKind::MacosUsb => ArtifactContainer::MacosLiveSystem,
            SourceKind::MacosUnifiedLog => ArtifactContainer::MacosLogStore,
        }
    }

    /// Whether this source records timestamps in host-local time.
    pub fn clock_is_local(self) -> (r: bool)
        ensures
            r == is_local_clock(self),
    {
        match self {
            SourceKind::SetupApi | SourceKind::LinuxKernelLog => true,
            _ => false,
        }
    }

    /// Declaration-order rank.
    pub fn rank_value(self) -> (r: u8)
        ensures
            r as int == source_rank(self),
    {
        match self {
            SourceKind::Usbstor => 0,
            SourceKind::MountedDevices => 1,
            SourceKind::SetupApi => 2,
            SourceKind::PartitionDiag => 3,
            SourceKind::Lnk => 4,
            SourceKind::JumpList => 5,
            SourceKind::LinuxKernelLog => 6,
            SourceKind::VolumeInfoCache => 7,
            SourceKind::MountPoints2 => 8,
            SourceKind::EmdMgmt => 9,
            SourceKind::DeviceImage => 10,
            SourceKind::AppleIPod => 11,
            SourceKind::MacosUsb => 12,
            SourceKind::MacosUnifiedLog => 13,
            SourceKind::KernelPnp => 14,
            SourceKind::DriverFramework => 15,
            SourceKind::Shellbag => 16,
        }
    }
}

/// Which device attribute a claim describes.
#[derive(Debug, Clone, Copy, PartialEq, Eq, PartialOrd, Ord, Hash, Structural)]
#[non_exhaustive]
pub enum Attribute {
    /// First time the device was connected to this system.
    FirstConnected,
    /// Most recent time the device was connected.
    LastConnected,
    /// Most recent time the device was removed.
    LastRemoved,
    /// Volume label (friendly name) of the device's volume.
    VolumeName,
    /// Volume serial number of the device's volume.
    VolumeSerial,
    /// A file accessed from the device.
    AccessedFile,
    /// The drive letter the device's volume was mounted at.
    DriveLetter,
    /// The device class (e.g. `MTP`, `MassStorage`).
    DeviceClass,
    /// The volume-encryption type detected on the device.
    Encryption,
    /// A folder browsed on the device.
    BrowsedFolder,
}

/// Declaration-order rank of an attribute, the order `Attribute` sorts by.
pub open spec fn attribute_rank(a: Attribute) -> int {
    match a {
        Attribute::FirstConnected => 0,
        Attribute::LastConnected => 1,
        Attribute::LastRemoved => 2,
        Attribute::VolumeName => 3,
        Attribute::VolumeSerial => 4,
        Attribute::AccessedFile => 5,
        Attribute::DriveLetter => 6,
        Attribute::DeviceClass => 7,
        Attribute::Encryption => 8,
        Attribute::BrowsedFolder => 9,
    }
}

impl Attribute {
    /// Declaration-order rank.
    pub fn rank_value(self) -> (r: u8)
        ensures
            r as int == attribute_rank(self),
    {
        match self {
            Attribute::FirstConnected => 0,
            Attribute::LastConnected => 1,
            Attribute::LastRemoved => 2,
            Attribute::VolumeName => 3,
            Attribute::VolumeSerial => 4,
            Attribute::AccessedFile => 5,
            Attribute::DriveLetter => 6,
            Attribute::DeviceClass => 7,
            Attribute::Encryption => 8,
            Attribute::BrowsedFolder => 9,
        }
    }
}

impl View for Attribute {
    type V = Attribute;

    open spec fn view(&self) -> Attribute {
        *self
    }
}

impl ViewOrder for Attribute {
    open spec fn before(a: Attribute, b: Attribute) -> bool {
        attribute_rank(a) < attribute_rank(b)
    }

    proof fn lemma_irreflexive(a: Attribute) {
    }

    proof fn lemma_transitive(a: Attribute, b: Attribute, c: Attribute) {
    }

    proof fn lemma_total(a: Attribute, b: Attribute) {
    }

    fn rank(&self, other: &Self) -> (r: Rank) {
        let x = self.rank_value();
        let y = other.rank_value();
        if x < y {
            Rank::Below
        } else if x == y {
            Rank::Same
        } else {
            Rank::Above
        }
    }
}

/// A comparable claim value: a timestamp (epoch seconds UTC) or verbatim text.
#[derive(Debug, Clone, PartialEq, Eq, PartialOrd, Ord, Hash)]
pub enum Value {
    /// A point in time, epoch seconds UTC.
    Timestamp(i64),
    /// A textual value (volume name, serial, …), verbatim.
    Text(String),
}

/// The mathematical content of a [`Value`].
pub enum ValueView {
    Timestamp(i64),
    Text(Seq<char>),
}

impl View for Value {
    type V = ValueView;

    open spec fn view(&self) -> ValueView {
        match self {
            Value::Timestamp(t) => ValueView::Timestamp(*t),
            Value::Text(s) => ValueView::Text(s@),
        }
    }
}

/// The order `Value` sorts by: every timestamp before every text, timestamps by time,
/// texts lexicographically.
pub open spec fn value_before(a: ValueView, b: ValueView) -> bool {
    match (a, b) {
        (ValueView::Timestamp(x), ValueView::Timestamp(y)) => x < y,
        (ValueView::Timestamp(_), ValueView::Text(_)) => true,
        (ValueView::Text(_), ValueView::Timestamp(_)) => false,
        (ValueView::Text(x), ValueView::Text(y)) => chars_before(x, y),
    }
}

impl Value {
    /// A copy with the same content.
    pub fn duplicate(&self) -> (r: Value)
        ensures
            r@ == self@,
    {
        match self {
            Value::Timestamp(t) => Value::Timestamp(*t),
            Value::Text(s) => Value::Text(s.clone()),
        }
    }
}

impl ViewOrder for Value {
    open spec fn before(a: ValueView, b: ValueView) -> bool {
        value_before(a, b)
    }

    proof fn lemma_irreflexive(a: ValueView) {
        match a {
            ValueView::Text(x) => {
                lemma_chars_irreflexive(x);
                assert(!<Value as ViewOrder>::before(a, a));
            },
            ValueView::Timestamp(_) => {},
        }
    }

    proof fn lemma_transitive(a: ValueView, b: ValueView, c: ValueView) {
        match (a, b, c) {
            (ValueView::Text(x), ValueView::Text(y), ValueView::Text(z)) => {
                lemma_chars_transitive(x, y, z);
            },
            _ => {},
        }
    }

    proof fn lemma_total(a: ValueView, b: ValueView) {
        match (a, b) {
            (ValueView::Text(x), ValueView::Text(y)) => {
                lemma_chars_total(x, y);
            },
            _ => {},
        }
    }

    fn rank(&self, other: &Self) -> (r: Rank) {
        match (self, other) {
            (Value::Timestamp(x), Value::Timestamp(y)) => rank_i64(*x, *y),
            (Value::Timestamp(_), Value::Text(_)) => Rank::Below,
            (Value::Text(_), Value::Timestamp(_)) => Rank::Above,
            (Value::Text(x), Value::Text(y)) => rank_strings(x, y),
        }
    }
}

/// Where a value came from: the source plus a locator within it.
#[derive(Debug, Clone, PartialEq, Eq, PartialOrd, Ord, Hash)]
pub struct Provenance {
    /// The artifact the value was read from.
    pub source: SourceKind,
    /// A precise pointer within that artifact.
    pub locator: String,
}

/// The mathematical content of a [`Provenance`].
pub struct ProvenanceView {
    pub source: SourceKind,
    pub locator: Seq<char>,
}

impl View for Provenance {
    type V = ProvenanceView;

    open spec fn view(&self) -> ProvenanceView {
        ProvenanceView { source: self.source, locator: self.locator@ }
    }
}

/// The order `Provenance` sorts by: source, then locator.
pub open spec fn provenance_before(a: ProvenanceView, b: ProvenanceView) -> bool {
    source_rank(a.source) < source_rank(b.source) || (a.source == b.source && chars_before(
        a.locator,
        b.locator,
    ))
}

impl Provenance {
    /// A copy with the same content.
    pub fn duplicate(&self) -> (r: Provenance)
        ensures
            r@ == self@,
    {
        Provenance { source: self.source, locator: self.locator.clone() }
    }
}

impl ViewOrder for Provenance {
    open spec fn before(a: ProvenanceView, b: ProvenanceView) -> bool {
        provenance_before(a, b)
    }

    proof fn lemma_irreflexive(a: ProvenanceView) {
        lemma_chars_irreflexive(a.locator);
        assert(!<Provenance as ViewOrder>::before(a, a));
    }

    proof fn lemma_transitive(a: ProvenanceView, b: ProvenanceView, c: ProvenanceView) {
        if a.source == b.source && b.source == c.source {
            lemma_chars_transitive(a.locator, b.locator, c.locator);
        }
    }

    proof fn lemma_total(a: ProvenanceView, b: ProvenanceView) {
        lemma_chars_total(a.locator, b.locator);
        if source_rank(a.source) == source_rank(b.source) {
            assert(a.source == b.source);
        }
    }

    fn rank(&self, other: &Self) -> (r: Rank) {
        let x = self.source.rank_value();
        let y = other.source.rank_value();
        if x < y {
            Rank::Below
        } else if x > y {
            Rank::Above
        } else {
            assert(self.source == other.source);
            rank_strings(&self.locator, &other.locator)
        }
    }
}

/// Cross-source identity of a device (typically its serial number).
#[derive(Debug, Clone, PartialEq, Eq, PartialOrd, Ord, Hash)]
pub struct DeviceKey(pub String);

impl View for DeviceKey {
    type V = Seq<char>;

    open spec fn view(&self) -> Seq<char> {
        self.0@
    }
}

impl DeviceKey {
    /// A copy with the same content.
    pub fn duplicate(&self) -> (r: DeviceKey)
        ensures
            r@ == self@,
    {
        DeviceKey(self.0.clone())
    }
}

impl ViewOrder for DeviceKey {
    open spec fn before(a: Seq<char>, b: Seq<char>) -> bool {
        chars_before(a, b)
    }

    proof fn lemma_irreflexive(a: Seq<char>) {
        lemma_chars_irreflexive(a);
    }

    proof fn lemma_transitive(a: Seq<char>, b: Seq<char>, c: Seq<char>) {
        lemma_chars_transitive(a, b, c);
    }

    proof fn lemma_total(a: Seq<char>, b: Seq<char>) {
        lemma_chars_total(a, b);
    }

    fn rank(&self, other: &Self) -> (r: Rank) {
        rank_strings(&self.0, &other.0)
    }
}

/// One atomic extracted fact about one device, from one source.
#[derive(Debug, Clone, PartialEq, Eq)]
pub struct Claim {
    /// The device this fact is about.
    pub device: DeviceKey,
    /// The attribute this fact describes.
    pub attribute: Attribute,
    /// The value the source reported.
    pub value: Value,
    /// Where the value came from.
    pub provenance: Provenance,
}

/// The mathematical content of a [`Claim`].
pub struct ClaimView {
    pub device: Seq<char>,
    pub attribute: Attribute,
    pub value: ValueView,
    pub provenance: ProvenanceView,
}

impl View for Claim {
    type V = ClaimView;

    open spec fn view(&self) -> ClaimView {
        ClaimView {
            device: self.device@,
            attribute: self.attribute,
            value: self.value@,
            provenance: self.provenance@,
        }
    }
}

impl Claim {
    /// A copy with the same content.
    pub fn duplicate(&self) -> (r: Claim)
        ensures
            r@ == self@,
    {
        Claim {
            device: self.device.duplicate(),
            attribute: self.attribute,
            value: self.value.duplicate(),
            provenance: self.provenance.duplicate(),
        }
    }
}

/// Declaration-order rank of a container.
pub open spec fn container_rank(c: ArtifactContainer) -> int {
    match c {
        ArtifactContainer::SystemHive => 0,
        ArtifactContainer::SoftwareHive => 1,
        ArtifactContainer::UserHive => 2,
        ArtifactContainer::SetupApiLog => 3,
        ArtifactContainer::EventLog => 4,
        ArtifactContainer::LnkFile => 5,
        ArtifactContainer::KernelLog => 6,
        ArtifactContainer::DeviceMedia => 7,
        ArtifactContainer::MacosPlist => 8,
        ArtifactContainer::MacosLiveSystem => 9,
        ArtifactContainer::MacosLogStore => 10,
    }
}

impl ArtifactContainer {
    /// Declaration-order rank.
    pub fn rank_value(self) -> (r: u8)
        ensures
            r as int == container_rank(self),
    {
        match self {
            ArtifactContainer::SystemHive => 0,
            ArtifactContainer::SoftwareHive => 1,
            ArtifactContainer::UserHive => 2,
            ArtifactContainer::SetupApiLog => 3,
            ArtifactContainer::EventLog => 4,
            ArtifactContainer::LnkFile => 5,
            ArtifactContainer::KernelLog => 6,
            ArtifactContainer::DeviceMedia => 7,
            ArtifactContainer::MacosPlist => 8,
            ArtifactContainer::MacosLiveSystem => 9,
            ArtifactContainer::MacosLogStore => 10,
        }
    }
}

impl View for ArtifactContainer {
    type V = ArtifactContainer;

    open spec fn view(&self) -> ArtifactContainer {
        *self
    }
}

impl ViewOrder for ArtifactContainer {
    open spec fn before(a: ArtifactContainer, b: ArtifactContainer) -> bool {
        container_rank(a) < container_rank(b)
    }

    proof fn lemma_irreflexive(a: ArtifactContainer) {
    }

    proof fn lemma_transitive(a: ArtifactContainer, b: ArtifactContainer, c: ArtifactContainer) {
    }

    proof fn lemma_total(a: ArtifactContainer, b: ArtifactContainer) {
    }

    fn rank(&self, other: &Self) -> (r: Rank) {
        let x = self.rank_value();
        let y = other.rank_value();
        if x < y {
            Rank::Below
        } else if x == y {
            Rank::Same
        } else {
            Rank::Above
        }
    }
}

} // verus!
