//! Host reconfiguration for PCI device passthrough.
//!
//! Every mutation is computed as a plain value — new file contents, command
//! invocations, sysfs writes — so the decision logic is verified, while an
//! unverified shell around the library performs the actual reads, writes and
//! process launches.

pub mod border;
pub mod bootloader;
pub mod colors;
pub mod errors;
pub mod gpu;
pub mod grub;
pub mod list;
pub mod panel;
pub mod params;
pub mod plugin;
pub mod state;
pub mod system;
pub mod strutil;
pub mod utils;
pub mod vfio;
