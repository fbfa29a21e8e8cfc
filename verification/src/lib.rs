//! Verified reader for Expert Witness Format (E01/Ex01) forensic disk images,
//! with the BitLocker inspection and command-line decisions of the KDFT
//! forensic workbench.

pub mod bitlocker;
pub mod bytes;
pub mod cache;
pub mod cli;
pub mod codec;
pub mod error;
pub mod ewf2;
pub mod fill;
pub mod image;
pub mod laws;
pub mod media;
pub mod open;
pub mod page;
pub mod parse;
pub mod reader;
pub mod sections;
pub mod segments;
pub mod source;
pub mod text;
pub mod types;
pub mod v1;
pub mod v2;
pub mod verify;
