//! Verified building blocks of the NeoDOS host tools: little-endian field
//! readers, ELF64 header, program-header, section and note decoding, the
//! NeoDOS metadata block, the NXP package format and its CRC-32.

pub mod bytes;
pub mod crc;
pub mod text;
pub mod seqs;
pub mod nxp;
pub mod package;
pub mod package_laws;
pub mod elf;
pub mod names;
pub mod notes;
pub mod dump;
pub mod manifest;
pub mod report;
