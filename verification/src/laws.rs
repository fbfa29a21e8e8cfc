//! What the library promises, stated over the bytes, numbers and texts that go
//! in and what comes out.

pub mod decisions;
pub mod inspections;
pub mod media;
pub mod metadata;
pub mod naming;
pub mod numbers;
pub mod opening;
pub mod operations;
pub mod reading;
pub mod sessions;
pub mod structures;
pub mod version1;
pub mod version2;
pub mod views;
pub mod volumes;
pub mod words;
