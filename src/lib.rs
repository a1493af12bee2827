//! Decoding of NCM and QMC encrypted music containers.
//!
//! The NCM path parses the container layout, derives the per-file audio key,
//! builds the key box and decrypts the audio stream at any offset. The QMC path
//! applies a fixed keystream to the whole input.

pub mod command;
pub mod error;
pub mod info;
pub mod keystream;
pub mod ncmdump;
mod primitives;
pub mod qmcdump;
pub mod source;
pub mod utils;

pub use crate::info::{NcmId, NcmInfo, RawNcmInfo};
pub use crate::ncmdump::Ncmdump;
pub use crate::qmcdump::QmcDump;
