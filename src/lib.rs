//! Byte-signature mining for PE binaries: header parsing, toolchain
//! fingerprinting, and the search for code fragments shared by every sample
//! but absent from a clean reference.

pub mod fingerprint;
pub mod pattern;
pub mod pe;
pub mod signature;
