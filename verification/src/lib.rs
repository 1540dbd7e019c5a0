//! Detection of known-vulnerable Windows kernel drivers.
//!
//! The library holds the logic of the scanner: turning NT device paths into
//! Win32 paths, decoding and encoding the UTF-16 buffers that the Windows API
//! exchanges, hashing driver images, and matching SHA-256 digests against a
//! database of known-vulnerable driver samples.

pub mod text;
pub mod wide;
pub mod paths;
pub mod digest;
pub mod vuln;
pub mod report;
