//! Planning logic of a Proxmox cloud-image template installer.
pub mod catalog;
pub mod downloader;
pub mod installer;
pub mod options;
pub mod prepare;
pub mod text;
pub mod vmid;
