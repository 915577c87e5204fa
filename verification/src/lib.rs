//! Client-side input and display logic of a remote desktop session: modifier
//! key remapping and its stored configuration, compensation for the macOS
//! host's Retina shim, display parking, and the capture frame mailbox.
pub mod modifier_remap;
pub mod json_text;
pub mod remap_option;
pub mod display_info;
pub mod display_park;
pub mod retina_shim;
pub mod frame_slot;
pub mod quartz;
