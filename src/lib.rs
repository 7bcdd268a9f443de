//! Decoding of NTFS metadata: MFT entries and their attributes, parent-chain
//! path resolution, and USN change-journal records.
pub mod attribute;
pub mod entry;
pub mod flags;
pub mod journal;
pub mod le;
pub mod path;
pub mod ranges;
pub mod runs;
pub mod text;
pub mod usn;
