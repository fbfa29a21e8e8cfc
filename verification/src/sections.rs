//! Binary structures of version 1 images (`.E01`, `.L01`).

use vstd::prelude::*;
use crate::bytes;
use crate::bytes::{holds_at, read_u16, read_u32, read_u64};
use crate::error;
use crate::error::{EwfError, EwfErrorView};

verus! {

/// Signature of a physical image segment (`.E01`).
pub const EVF_SIGNATURE: [u8; 8] = [0x45, 0x56, 0x46, 0x09, 0x0d, 0x0a, 0xff, 0x00];

/// Signature of a logical evidence segment (`.L01`).
pub const LVF_SIGNATURE: [u8; 8] = [0x4c, 0x56, 0x46, 0x09, 0x0d, 0x0a, 0xff, 0x00];

/// Length of the header that opens every segment file.
pub const FILE_HEADER_SIZE: usize = 13;

/// Length of a section descriptor.
pub const SECTION_DESCRIPTOR_SIZE: usize = 76;

/// Length of the volume data that follows its section descriptor.
pub const VOLUME_SIZE: usize = 94;

/// Length of one chunk table entry.
pub const TABLE_ENTRY_SIZE: usize = 4;

/// How many decoded chunks are kept when the caller names no number.
pub const DEFAULT_LRU_SIZE: usize = 100;

/// A buffer that is too short for a structure.
pub open spec fn too_short(expected: int, got: int) -> EwfErrorView {
    EwfErrorView::BufferTooShort { expected, got }
}

/// Whether `s` begins with a signature of a version 1 segment.
pub open spec fn has_v1_signature(s: Seq<u8>) -> bool {
    s.take(8) == EVF_SIGNATURE@ || s.take(8) == LVF_SIGNATURE@
}

/// The header of a segment file.
#[derive(Debug, Clone, Copy, PartialEq, Eq, Structural)]
pub struct EwfFileHeader {
    /// Position of the segment in the set, from 1.
    pub segment_number: u16,
}

impl View for EwfFileHeader {
    type V = EwfFileHeader;

    open spec fn view(&self) -> EwfFileHeader {
        *self
    }
}

impl EwfFileHeader {
    /// What the bytes `buf` hold as a segment file header.
    pub open spec fn parsed(buf: Seq<u8>) -> Result<EwfFileHeader, EwfErrorView> {
        if buf.len() < FILE_HEADER_SIZE {
            Err(too_short(FILE_HEADER_SIZE as int, buf.len() as int))
        } else if !has_v1_signature(buf) {
            Err(EwfErrorView::InvalidSignature)
        } else {
            Ok(EwfFileHeader { segment_number: bytes::le16(buf, 9) as u16 })
        }
    }

    /// Reads a segment file header.
    pub fn parse(buf: &[u8]) -> (r: Result<EwfFileHeader, EwfError>)
        ensures
            error::viewed(r) == Self::parsed(buf@),
    {
        if buf.len() < FILE_HEADER_SIZE {
            return Err(EwfError::BufferTooShort { expected: FILE_HEADER_SIZE, got: buf.len() });
        }
        assert(buf@.subrange(0, 8) =~= buf@.take(8));
        if holds_at(buf, 0, EVF_SIGNATURE.as_slice()) || holds_at(
            buf,
            0,
            LVF_SIGNATURE.as_slice(),
        ) {
            Ok(EwfFileHeader { segment_number: read_u16(buf, 9) })
        } else {
            Err(EwfError::InvalidSignature)
        }
    }
}

/// What a section of a version 1 segment holds, as far as the reader cares.
#[derive(Debug, Clone, Copy, PartialEq, Eq, Structural)]
pub enum SectionKind {
    Volume,
    Table,
    Table2,
    Sectors,
    Hash,
    Digest,
    Header,
    Header2,
    Error2,
    Other,
}

/// A section descriptor: one link of the chain that runs through a segment.
#[derive(Debug, PartialEq, Eq)]
pub struct SectionDescriptor {
    /// Name of the section.
    pub section_type: String,
    /// File offset of the next descriptor; 0 ends the chain.
    pub next: u64,
    /// Length of the section, this descriptor included.
    pub section_size: u64,
    /// File offset of this descriptor.
    pub offset: u64,
}

/// A [`SectionDescriptor`] with its name as a sequence of characters.
#[verifier::ext_equal]
pub struct SectionDescriptorView {
    pub section_type: Seq<char>,
    pub next: u64,
    pub section_size: u64,
    pub offset: u64,
}

impl View for SectionDescriptor {
    type V = SectionDescriptorView;

    open spec fn view(&self) -> SectionDescriptorView {
        SectionDescriptorView {
            section_type: self.section_type@,
            next: self.next,
            section_size: self.section_size,
            offset: self.offset,
        }
    }
}

/// The name in a NUL-padded field: every byte before the first NUL is one
/// character, and bytes outside ASCII are replaced.
pub open spec fn padded_name(field: Seq<u8>) -> Seq<char>
    decreases field.len(),
{
    if field.len() == 0 || field[0] == 0 {
        Seq::empty()
    } else {
        seq![if field[0] < 0x80 { field[0] as char } else { '\u{FFFD}' }] + padded_name(
            field.skip(1),
        )
    }
}

impl SectionDescriptorView {
    /// What the 76 bytes `buf` hold as a descriptor found at `offset`.
    pub open spec fn of(buf: Seq<u8>, offset: u64) -> SectionDescriptorView {
        SectionDescriptorView {
            section_type: padded_name(buf.take(16)),
            next: bytes::le64(buf, 16) as u64,
            section_size: bytes::le64(buf, 24) as u64,
            offset,
        }
    }

    /// What the section holds.
    pub open spec fn kind(self) -> SectionKind {
        if self.section_type == "volume"@ || self.section_type == "disk"@ {
            SectionKind::Volume
        } else if self.section_type == "table"@ {
            SectionKind::Table
        } else if self.section_type == "table2"@ {
            SectionKind::Table2
        } else if self.section_type == "sectors"@ {
            SectionKind::Sectors
        } else if self.section_type == "hash"@ {
            SectionKind::Hash
        } else if self.section_type == "digest"@ {
            SectionKind::Digest
        } else if self.section_type == "header"@ {
            SectionKind::Header
        } else if self.section_type == "header2"@ {
            SectionKind::Header2
        } else if self.section_type == "error2"@ {
            SectionKind::Error2
        } else {
            SectionKind::Other
        }
    }
}

fn read_padded_name(field: &[u8]) -> (r: String)
    ensures
        r@ == padded_name(field@),
{
    let mut out: String = String::new();
    let mut i: usize = 0;
    assert(field@.skip(0) =~= field@);
    while i < field.len()
        invariant
            i <= field.len() == field@.len(),
            out@ + padded_name(field@.skip(i as int)) == padded_name(field@),
        decreases field@.len() - i,
    {
        let ghost rest = field@.skip(i as int);
        let ghost before = out@;
        assert(rest.skip(1) =~= field@.skip(i + 1));
        let b: u8 = field[i];
        if b == 0 {
            assert(out@ =~= padded_name(field@));
            return out;
        }
        let c: char = if b < 0x80 {
            b as char
        } else {
            '\u{FFFD}'
        };
        out.push(c);
        assert(out@ + padded_name(rest.skip(1)) =~= before + (seq![c] + padded_name(
            rest.skip(1),
        )));
        i += 1;
    }
    assert(out@ =~= padded_name(field@));
    out
}

impl SectionDescriptor {
    /// Reads a descriptor found at `offset`.
    pub fn parse(buf: &[u8], offset: u64) -> (r: Result<SectionDescriptor, EwfError>)
        ensures
            error::viewed(r) == if buf@.len() < SECTION_DESCRIPTOR_SIZE {
                Err(too_short(SECTION_DESCRIPTOR_SIZE as int, buf@.len() as int))
            } else {
                Ok(SectionDescriptorView::of(buf@, offset))
            },
    {
        if buf.len() < SECTION_DESCRIPTOR_SIZE {
            return Err(
                EwfError::BufferTooShort { expected: SECTION_DESCRIPTOR_SIZE, got: buf.len() },
            );
        }
        assert(buf@.subrange(0, 16) =~= buf@.take(16));
        Ok(
            SectionDescriptor {
                section_type: read_padded_name(vstd::slice::slice_subrange(buf, 0, 16)),
                next: read_u64(buf, 16),
                section_size: read_u64(buf, 24),
                offset,
            },
        )
    }

    /// What the section holds.
    pub fn kind(&self) -> (r: SectionKind)
        ensures
            r == self@.kind(),
    {
        let name: &str = self.section_type.as_str();
        if crate::text::same_text(name, "volume") || crate::text::same_text(name, "disk") {
            SectionKind::Volume
        } else if crate::text::same_text(name, "table") {
            SectionKind::Table
        } else if crate::text::same_text(name, "table2") {
            SectionKind::Table2
        } else if crate::text::same_text(name, "sectors") {
            SectionKind::Sectors
        } else if crate::text::same_text(name, "hash") {
            SectionKind::Hash
        } else if crate::text::same_text(name, "digest") {
            SectionKind::Digest
        } else if crate::text::same_text(name, "header") {
            SectionKind::Header
        } else if crate::text::same_text(name, "header2") {
            SectionKind::Header2
        } else if crate::text::same_text(name, "error2") {
            SectionKind::Error2
        } else {
            SectionKind::Other
        }
    }
}

/// The geometry of the acquired media.
#[derive(Debug, Clone, Copy, PartialEq, Eq, Structural)]
pub struct EwfVolume {
    pub chunk_count: u32,
    pub sectors_per_chunk: u32,
    pub bytes_per_sector: u32,
    pub sector_count: u64,
}

impl View for EwfVolume {
    type V = EwfVolume;

    open spec fn view(&self) -> EwfVolume {
        *self
    }
}

impl EwfVolume {
    /// What the volume data `buf` says.
    pub open spec fn of(buf: Seq<u8>) -> EwfVolume {
        EwfVolume {
            chunk_count: bytes::le32(buf, 4) as u32,
            sectors_per_chunk: bytes::le32(buf, 8) as u32,
            bytes_per_sector: bytes::le32(buf, 12) as u32,
            sector_count: bytes::le64(buf, 16) as u64,
        }
    }

    /// Bytes in one chunk.
    pub open spec fn spec_chunk_size(self) -> int {
        self.sectors_per_chunk * self.bytes_per_sector
    }

    /// Bytes in the whole media.
    pub open spec fn spec_total_size(self) -> int {
        self.bytes_per_sector * self.sector_count
    }

    /// Reads volume data.
    pub fn parse(buf: &[u8]) -> (r: Result<EwfVolume, EwfError>)
        ensures
            error::viewed(r) == if buf@.len() < VOLUME_SIZE {
                Err(too_short(VOLUME_SIZE as int, buf@.len() as int))
            } else {
                Ok(EwfVolume::of(buf@))
            },
    {
        if buf.len() < VOLUME_SIZE {
            return Err(EwfError::BufferTooShort { expected: VOLUME_SIZE, got: buf.len() });
        }
        Ok(
            EwfVolume {
                chunk_count: read_u32(buf, 4),
                sectors_per_chunk: read_u32(buf, 8),
                bytes_per_sector: read_u32(buf, 12),
                sector_count: read_u64(buf, 16),
            },
        )
    }

    /// Bytes in one chunk.
    pub fn chunk_size(&self) -> (r: u64)
        ensures
            r == self.spec_chunk_size(),
    {
        assert(self.sectors_per_chunk * self.bytes_per_sector <= 0xffff_ffff * 0xffff_ffff)
            by (nonlinear_arith)
            requires
                self.sectors_per_chunk <= 0xffff_ffff,
                self.bytes_per_sector <= 0xffff_ffff,
        ;
        self.sectors_per_chunk as u64 * self.bytes_per_sector as u64
    }

    /// Bytes in the whole media.
    pub fn total_size(&self) -> (r: u64)
        requires
            self.spec_total_size() <= u64::MAX,
        ensures
            r == self.spec_total_size(),
    {
        self.bytes_per_sector as u64 * self.sector_count
    }
}

/// One entry of a chunk table.
#[derive(Debug, Clone, Copy, PartialEq, Eq, Structural)]
pub struct TableEntry {
    /// Whether the chunk is stored compressed (bit 31 of the entry).
    pub compressed: bool,
    /// Offset of the chunk from the base offset of the table (bits 0 to 30).
    pub chunk_offset: u32,
}

impl View for TableEntry {
    type V = TableEntry;

    open spec fn view(&self) -> TableEntry {
        *self
    }
}

impl TableEntry {
    /// The entry at `at` of the table data `buf`.
    pub open spec fn at(buf: Seq<u8>, at: int) -> TableEntry {
        TableEntry {
            compressed: bytes::le32(buf, at) >= 0x8000_0000,
            chunk_offset: (bytes::le32(buf, at) % 0x8000_0000) as u32,
        }
    }

    /// Reads one entry.
    pub fn parse(buf: &[u8]) -> (r: Result<TableEntry, EwfError>)
        ensures
            error::viewed(r) == if buf@.len() < TABLE_ENTRY_SIZE {
                Err(too_short(TABLE_ENTRY_SIZE as int, buf@.len() as int))
            } else {
                Ok(TableEntry::at(buf@, 0))
            },
    {
        if buf.len() < TABLE_ENTRY_SIZE {
            return Err(EwfError::BufferTooShort { expected: TABLE_ENTRY_SIZE, got: buf.len() });
        }
        Ok(TableEntry::read(buf, 0))
    }

    /// Reads the entry at `at` of table data.
    pub(crate) fn read(buf: &[u8], at: usize) -> (r: TableEntry)
        requires
            at + TABLE_ENTRY_SIZE <= buf@.len(),
        ensures
            r == TableEntry::at(buf@, at as int),
    {
        let raw: u32 = read_u32(buf, at);
        TableEntry { compressed: raw >= 0x8000_0000, chunk_offset: raw % 0x8000_0000 }
    }
}

/// Where one chunk of the image is stored.
#[derive(Debug, Clone, Copy, PartialEq, Eq, Structural)]
pub struct Chunk {
    /// Segment that holds the chunk, from 0.
    pub segment_idx: usize,
    /// Whether it is stored compressed.
    pub compressed: bool,
    /// Offset of its data in the segment file.
    pub offset: u64,
    /// Length of its data in the segment file.
    pub size: u64,
}

} // verus!
