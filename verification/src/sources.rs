//! Reader adapters: pure mappings from each artifact reader's decoded output into the
//! source-agnostic claim model.
pub mod apple_ipod;
pub mod device_image;
pub mod driver_framework;
pub mod emdmgmt;
pub mod jumplist;
pub mod kernel_pnp;
pub mod lnk;
pub mod macos_unified_log;
pub mod macos_usb;
pub mod mountpoints2;
pub mod partition_diag;
pub mod peripheral;
pub mod shared;
pub mod shellbag;
pub mod volume_cache;
