//! Firmware image scanning and root-filesystem extraction logic.
//!
//! The library finds filesystem and compression signatures in a firmware
//! image, checks the superblock headers that can be checked cheaply, plans
//! the carving of each detected region, and decides which extractor's
//! result is kept.

pub mod signatures;
pub mod validation;
pub mod scanner;
pub mod native;
pub mod filesystems;
pub mod metadata;
pub mod selection;
pub mod naming;
