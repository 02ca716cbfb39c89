//! USB device-history correlation engine: source adapters turn each artifact reader's
//! decoded records into atomic claims; the correlation core groups them per device and
//! attribute and grades cross-source agreement by tamper-independent storage container;
//! the renderers present the result as a grid, a timeline, and a court-oriented report.
pub mod correlate;
pub mod docx;
pub mod evidence;
pub mod json;
pub mod model;
pub mod order;
pub mod pdf;
pub mod readers;
pub mod reconcile;
pub mod render;
pub mod report;
pub mod scan;
pub mod source;
pub mod sources;
pub mod text;
pub mod timeline;
pub mod tz;

pub use correlate::{correlate, CorrelatedAttribute, DeviceHistory, ProvenancedValue};
pub use docx::render_docx;
pub use json::{JsonNumber, JsonValue};
pub use model::{ArtifactContainer, Attribute, Claim, Consistency, DeviceKey, Provenance, SourceKind, Value};
pub use pdf::render_pdf;
pub use reconcile::{canonicalize_mounted_volumes, reconcile_volume_serials, MountedVolume};
pub use render::{format_epoch, render_report, render_table};
pub use report::{audit, Category, Evidence, Finding, Severity};
pub use source::{correlate_sources, HistorySource};
pub use sources::apple_ipod::{parse_ipod_plist, AppleDevice, AppleIPodSource, PlistDate, PlistValue};
pub use sources::device_image::{parse_boot_sectors, DeviceImage, DeviceImageSource, EncryptionKind};
pub use sources::driver_framework::{driver_framework_events, DriverFrameworkEvent, DriverFrameworkSource};
pub use sources::emdmgmt::{EmdMgmtSource, EmdVolume};
pub use sources::jumplist::{JumpListArtifact, JumpListSource};
pub use sources::kernel_pnp::{kernel_pnp_events, KernelPnpEvent, KernelPnpSource};
pub use sources::lnk::{LnkArtifact, LnkSource};
pub use sources::macos_unified_log::{parse_unified_log, MacUnifiedLogSource, UsbEnumeration};
pub use sources::macos_usb::{parse_system_profiler, MacUsbDevice, MacUsbSource};
pub use sources::mountpoints2::{MountPoints2Source, UserMount};
pub use sources::partition_diag::{PartitionDiagEvent, PartitionDiagSource};
pub use sources::peripheral::{DeviceConnection, PeripheralSource};
pub use sources::shared::RecordOrigin;
pub use sources::shellbag::{ShellbagEntry, ShellbagSource};
pub use sources::volume_cache::{VolumeCacheSource, VolumeLabel};
pub use timeline::{super_timeline, TimelineEvent};
pub use tz::normalize_local_clocks;
