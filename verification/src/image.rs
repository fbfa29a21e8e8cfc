//! The index of an image: its geometry, where its chunks are stored, and what
//! it says about itself.

use vstd::prelude::*;
use crate::sections::Chunk;
use crate::types::{AcquisitionError, EwfMetadata, EwfMetadataView, StoredHashes};

verus! {

/// Section data from this size on is not read into memory.
pub const MAX_SECTION_DATA_SIZE: u64 = 1_000_000;

/// At most this much is taken from a compressed text section.
pub const MAX_DECOMPRESSED_SIZE: u64 = 10_000_000;

/// The largest number of entries accepted in one chunk table.
pub const MAX_TABLE_ENTRIES: usize = 4_000_000;

/// The largest chunk size accepted in an acquisition: 128 MiB.
pub const MAX_CHUNK_SIZE: u64 = 134_217_728;

/// The largest number of chunks accepted in an acquisition. At 32 KiB per
/// chunk this covers media of up to 2 TiB.
pub const MAX_CHUNK_COUNT: usize = 67_108_864;

/// The chunk size of a version 2 image that names none.
pub const DEFAULT_V2_CHUNK_SIZE: u64 = 32_768;

/// What was learned from the sections of an image.
#[derive(Debug, PartialEq, Eq)]
pub struct EwfImage {
    /// Bytes in one chunk; 0 until a section gives it.
    pub chunk_size: u64,
    /// Bytes in the whole image.
    pub total_size: u64,
    /// Chunk `i` covers the bytes from `i * chunk_size` on.
    pub chunks: Vec<Chunk>,
    /// Integrity hashes stored in the image.
    pub hashes: StoredHashes,
    /// Case and acquisition metadata.
    pub metadata: EwfMetadata,
    /// What `header2` sections say, until the image is complete.
    pub header2: EwfMetadata,
    /// Sectors that could not be read during acquisition.
    pub acquisition_errors: Vec<AcquisitionError>,
}

/// An [`EwfImage`] over sequences.
#[verifier::ext_equal]
pub struct EwfImageView {
    pub chunk_size: u64,
    pub total_size: u64,
    pub chunks: Seq<Chunk>,
    pub md5: Option<Seq<u8>>,
    pub sha1: Option<Seq<u8>>,
    pub metadata: EwfMetadataView,
    pub header2: EwfMetadataView,
    pub acquisition_errors: Seq<AcquisitionError>,
}

/// The bytes of an optional array.
pub open spec fn array_bytes<const N: usize>(a: Option<[u8; N]>) -> Option<Seq<u8>> {
    match a {
        Some(b) => Some(b@),
        None => None,
    }
}

impl View for EwfImage {
    type V = EwfImageView;

    open spec fn view(&self) -> EwfImageView {
        EwfImageView {
            chunk_size: self.chunk_size,
            total_size: self.total_size,
            chunks: self.chunks@,
            md5: array_bytes(self.hashes.md5),
            sha1: array_bytes(self.hashes.sha1),
            metadata: self.metadata@,
            header2: self.header2@,
            acquisition_errors: self.acquisition_errors@,
        }
    }
}

impl EwfImageView {
    /// What is known before any section has been read.
    pub open spec fn unread() -> EwfImageView {
        EwfImageView {
            chunk_size: 0,
            total_size: 0,
            chunks: Seq::empty(),
            md5: None,
            sha1: None,
            metadata: EwfMetadataView::blank(),
            header2: EwfMetadataView::blank(),
            acquisition_errors: Seq::empty(),
        }
    }

    /// Whether every chunk lies in one of `segments` segment files and is of a
    /// length that an image can state.
    pub open spec fn wf(self, segments: int) -> bool {
        forall|k: int|
            0 <= k < self.chunks.len() ==> (#[trigger] self.chunks[k]).segment_idx < segments
                && self.chunks[k].size <= u32::MAX
    }

    /// How many bytes a read of `len` bytes at `offset` gets: it ends with the
    /// media.
    pub open spec fn available(self, offset: int, len: int) -> int {
        if offset >= self.total_size {
            0
        } else if offset + len <= self.total_size {
            len
        } else {
            self.total_size - offset
        }
    }

    /// Whether every byte that a read of `len` bytes at `offset` gets lies in a
    /// chunk of the image.
    pub open spec fn covers(self, offset: int, len: int) -> bool {
        let n = self.available(offset, len);
        n > 0 ==> (offset + n - 1) / (self.chunk_size as int) < self.chunks.len()
    }
}

impl EwfImage {
    /// An image of which nothing is known yet.
    pub(crate) fn unread() -> (r: EwfImage)
        ensures
            r@ == EwfImageView::unread(),
    {
        EwfImage {
            chunk_size: 0,
            total_size: 0,
            chunks: Vec::new(),
            hashes: StoredHashes { md5: None, sha1: None },
            metadata: EwfMetadata::default(),
            header2: EwfMetadata::default(),
            acquisition_errors: Vec::new(),
        }
    }

    /// How many bytes a read of `len` bytes at `offset` gets.
    pub fn available(&self, offset: u64, len: usize) -> (r: usize)
        ensures
            r == self@.available(offset as int, len as int),
    {
        if offset >= self.total_size {
            0
        } else if len as u64 <= self.total_size - offset {
            len
        } else {
            (self.total_size - offset) as usize
        }
    }

    /// Whether the chunks of the image cover a read of `len` bytes at `offset`.
    pub fn covers(&self, offset: u64, len: usize) -> (r: bool)
        requires
            self.chunk_size > 0,
        ensures
            r == self@.covers(offset as int, len as int),
    {
        let n: usize = self.available(offset, len);
        n == 0 || (offset + (n as u64 - 1)) / self.chunk_size < self.chunks.len() as u64
    }
}

} // verus!
