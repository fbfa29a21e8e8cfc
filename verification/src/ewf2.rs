//! Binary structures of version 2 images (`.Ex01`, `.Lx01`).

use vstd::prelude::*;
use crate::bytes;
use crate::bytes::{holds_at, read_array, read_u16, read_u32, read_u64};
use crate::error;
use crate::error::{EwfError, EwfErrorView};
use crate::sections;
use crate::text;
use crate::text::push_decimal;

verus! {

/// Signature of a physical image segment (`.Ex01`).
pub const EVF2_SIGNATURE: [u8; 8] = [0x45, 0x56, 0x46, 0x32, 0x0d, 0x0a, 0x81, 0x00];

/// Signature of a logical evidence segment (`.Lx01`).
pub const LEF2_SIGNATURE: [u8; 8] = [0x4c, 0x45, 0x46, 0x32, 0x0d, 0x0a, 0x81, 0x00];

/// Length of the header that opens every segment file.
pub const FILE_HEADER_SIZE: usize = 32;

/// Length of a section descriptor.
pub const SECTION_DESCRIPTOR_SIZE: usize = 64;

/// Length of the header of a sector table.
pub const TABLE_HEADER_SIZE: usize = 32;

/// Length of one sector table entry.
pub const TABLE_ENTRY_SIZE: usize = 16;

/// How the chunks of an image are compressed.
#[derive(Debug, Clone, Copy, PartialEq, Eq, Structural)]
pub enum CompressionMethod {
    Uncompressed,
    Zlib,
    Bzip2,
}

impl View for CompressionMethod {
    type V = CompressionMethod;

    open spec fn view(&self) -> CompressionMethod {
        *self
    }
}

impl CompressionMethod {
    /// The method with the number `val`.
    pub open spec fn numbered(val: u16) -> Result<CompressionMethod, EwfErrorView> {
        if val == 0 {
            Ok(CompressionMethod::Uncompressed)
        } else if val == 1 {
            Ok(CompressionMethod::Zlib)
        } else if val == 2 {
            Ok(CompressionMethod::Bzip2)
        } else {
            Err(
                EwfErrorView::Parse("unknown EWF2 compression method: "@ + text::decimal(val as nat)),
            )
        }
    }

    /// Reads a method number.
    pub fn from_u16(val: u16) -> (r: Result<CompressionMethod, EwfError>)
        ensures
            error::viewed(r) == Self::numbered(val),
    {
        match val {
            0 => Ok(CompressionMethod::Uncompressed),
            1 => Ok(CompressionMethod::Zlib),
            2 => Ok(CompressionMethod::Bzip2),
            _ => {
                let mut m: String = "unknown EWF2 compression method: ".to_owned();
                push_decimal(&mut m, val as u64);
                Err(EwfError::Parse(m))
            },
        }
    }
}

/// What a section holds.
#[derive(Debug, Clone, Copy, PartialEq, Eq, Structural)]
pub enum Ewf2SectionType {
    DeviceInfo,
    CaseData,
    SectorData,
    SectorTable,
    ErrorTable,
    SessionTable,
    IncrementData,
    Md5Hash,
    Sha1Hash,
    RestartData,
    EncryptionKeys,
    MemoryExtents,
    Next,
    FinalInfo,
    Done,
    AnalyticalData,
    SingleFilesData,
    Unknown(u32),
}

impl Ewf2SectionType {
    /// The section type with the number `val`.
    pub open spec fn numbered(val: u32) -> Ewf2SectionType {
        match val {
            0x01u32 => Ewf2SectionType::DeviceInfo,
            0x02u32 => Ewf2SectionType::CaseData,
            0x03u32 => Ewf2SectionType::SectorData,
            0x04u32 => Ewf2SectionType::SectorTable,
            0x05u32 => Ewf2SectionType::ErrorTable,
            0x06u32 => Ewf2SectionType::SessionTable,
            0x07u32 => Ewf2SectionType::IncrementData,
            0x08u32 => Ewf2SectionType::Md5Hash,
            0x09u32 => Ewf2SectionType::Sha1Hash,
            0x0Au32 => Ewf2SectionType::RestartData,
            0x0Bu32 => Ewf2SectionType::EncryptionKeys,
            0x0Cu32 => Ewf2SectionType::MemoryExtents,
            0x0Du32 => Ewf2SectionType::Next,
            0x0Eu32 => Ewf2SectionType::FinalInfo,
            0x0Fu32 => Ewf2SectionType::Done,
            0x10u32 => Ewf2SectionType::AnalyticalData,
            0x20u32 => Ewf2SectionType::SingleFilesData,
            other => Ewf2SectionType::Unknown(other),
        }
    }

    /// Reads a section type number.
    pub fn from_u32(val: u32) -> (r: Ewf2SectionType)
        ensures
            r == Self::numbered(val),
    {
        match val {
            0x01 => Ewf2SectionType::DeviceInfo,
            0x02 => Ewf2SectionType::CaseData,
            0x03 => Ewf2SectionType::SectorData,
            0x04 => Ewf2SectionType::SectorTable,
            0x05 => Ewf2SectionType::ErrorTable,
            0x06 => Ewf2SectionType::SessionTable,
            0x07 => Ewf2SectionType::IncrementData,
            0x08 => Ewf2SectionType::Md5Hash,
            0x09 => Ewf2SectionType::Sha1Hash,
            0x0A => Ewf2SectionType::RestartData,
            0x0B => Ewf2SectionType::EncryptionKeys,
            0x0C => Ewf2SectionType::MemoryExtents,
            0x0D => Ewf2SectionType::Next,
            0x0E => Ewf2SectionType::FinalInfo,
            0x0F => Ewf2SectionType::Done,
            0x10 => Ewf2SectionType::AnalyticalData,
            0x20 => Ewf2SectionType::SingleFilesData,
            other => Ewf2SectionType::Unknown(other),
        }
    }

    /// The name of the section type.
    pub open spec fn spec_name(self) -> Seq<char> {
        match self {
            Ewf2SectionType::DeviceInfo => "device_info"@,
            Ewf2SectionType::CaseData => "case_data"@,
            Ewf2SectionType::SectorData => "sector_data"@,
            Ewf2SectionType::SectorTable => "sector_table"@,
            Ewf2SectionType::ErrorTable => "error_table"@,
            Ewf2SectionType::SessionTable => "session_table"@,
            Ewf2SectionType::IncrementData => "increment_data"@,
            Ewf2SectionType::Md5Hash => "md5_hash"@,
            Ewf2SectionType::Sha1Hash => "sha1_hash"@,
            Ewf2SectionType::RestartData => "restart_data"@,
            Ewf2SectionType::EncryptionKeys => "encryption_keys"@,
            Ewf2SectionType::MemoryExtents => "memory_extents"@,
            Ewf2SectionType::Next => "next"@,
            Ewf2SectionType::FinalInfo => "final_info"@,
            Ewf2SectionType::Done => "done"@,
            Ewf2SectionType::AnalyticalData => "analytical_data"@,
            Ewf2SectionType::SingleFilesData => "single_files_data"@,
            Ewf2SectionType::Unknown(_) => "unknown"@,
        }
    }

    /// The name of the section type.
    pub fn name(&self) -> (r: &str)
        ensures
            r@ == self.spec_name(),
    {
        match self {
            Ewf2SectionType::DeviceInfo => "device_info",
            Ewf2SectionType::CaseData => "case_data",
            Ewf2SectionType::SectorData => "sector_data",
            Ewf2SectionType::SectorTable => "sector_table",
            Ewf2SectionType::ErrorTable => "error_table",
            Ewf2SectionType::SessionTable => "session_table",
            Ewf2SectionType::IncrementData => "increment_data",
            Ewf2SectionType::Md5Hash => "md5_hash",
            Ewf2SectionType::Sha1Hash => "sha1_hash",
            Ewf2SectionType::RestartData => "restart_data",
            Ewf2SectionType::EncryptionKeys => "encryption_keys",
            Ewf2SectionType::MemoryExtents => "memory_extents",
            Ewf2SectionType::Next => "next",
            Ewf2SectionType::FinalInfo => "final_info",
            Ewf2SectionType::Done => "done",
            Ewf2SectionType::AnalyticalData => "analytical_data",
            Ewf2SectionType::SingleFilesData => "single_files_data",
            Ewf2SectionType::Unknown(_) => "unknown",
        }
    }
}

/// The header of a segment file.
#[derive(Debug, Clone, Copy, PartialEq, Eq)]
pub struct Ewf2FileHeader {
    pub is_physical: bool,
    pub major_version: u8,
    pub minor_version: u8,
    pub compression_method: CompressionMethod,
    /// Position of the segment in the set, from 1.
    pub segment_number: u32,
    pub set_identifier: [u8; 16],
}

/// An [`Ewf2FileHeader`] with its set identifier as a sequence.
#[verifier::ext_equal]
pub struct Ewf2FileHeaderView {
    pub is_physical: bool,
    pub major_version: u8,
    pub minor_version: u8,
    pub compression_method: CompressionMethod,
    pub segment_number: u32,
    pub set_identifier: Seq<u8>,
}

impl View for Ewf2FileHeader {
    type V = Ewf2FileHeaderView;

    open spec fn view(&self) -> Ewf2FileHeaderView {
        Ewf2FileHeaderView {
            is_physical: self.is_physical,
            major_version: self.major_version,
            minor_version: self.minor_version,
            compression_method: self.compression_method,
            segment_number: self.segment_number,
            set_identifier: self.set_identifier@,
        }
    }
}

/// Whether `s` begins with a signature of a version 2 segment.
pub open spec fn has_v2_signature(s: Seq<u8>) -> bool {
    s.take(8) == EVF2_SIGNATURE@ || s.take(8) == LEF2_SIGNATURE@
}

impl Ewf2FileHeader {
    /// What the bytes `buf` hold as a segment file header.
    pub open spec fn parsed(buf: Seq<u8>) -> Result<Ewf2FileHeaderView, EwfErrorView> {
        if buf.len() < FILE_HEADER_SIZE {
            Err(sections::too_short(FILE_HEADER_SIZE as int, buf.len() as int))
        } else if !has_v2_signature(buf) {
            Err(EwfErrorView::InvalidSignature)
        } else {
            match CompressionMethod::numbered(bytes::le16(buf, 10) as u16) {
                Err(e) => Err(e),
                Ok(method) => Ok(
                    Ewf2FileHeaderView {
                        is_physical: buf.take(8) == EVF2_SIGNATURE@,
                        major_version: buf[8],
                        minor_version: buf[9],
                        compression_method: method,
                        segment_number: bytes::le32(buf, 12) as u32,
                        set_identifier: buf.subrange(16, 32),
                    },
                ),
            }
        }
    }

    /// Reads a segment file header.
    pub fn parse(buf: &[u8]) -> (r: Result<Ewf2FileHeader, EwfError>)
        ensures
            error::viewed(r) == Self::parsed(buf@),
    {
        if buf.len() < FILE_HEADER_SIZE {
            return Err(EwfError::BufferTooShort { expected: FILE_HEADER_SIZE, got: buf.len() });
        }
        assert(buf@.subrange(0, 8) =~= buf@.take(8));
        let is_physical: bool = holds_at(buf, 0, EVF2_SIGNATURE.as_slice());
        if !is_physical && !holds_at(buf, 0, LEF2_SIGNATURE.as_slice()) {
            return Err(EwfError::InvalidSignature);
        }
        match CompressionMethod::from_u16(read_u16(buf, 10)) {
            Err(e) => Err(e),
            Ok(compression_method) => Ok(
                Ewf2FileHeader {
                    is_physical,
                    major_version: buf[8],
                    minor_version: buf[9],
                    compression_method,
                    segment_number: read_u32(buf, 12),
                    set_identifier: read_array(buf, 16),
                },
            ),
        }
    }
}

/// Flag of a section whose data carries an MD5 integrity hash.
pub const DATA_FLAG_MD5HASHED: u32 = 0x0000_0001;

/// Flag of a section whose data is encrypted.
pub const DATA_FLAG_ENCRYPTED: u32 = 0x0000_0002;

/// A section descriptor. It follows the data of its section, and the
/// descriptors of a segment are linked backwards.
#[derive(Debug, Clone, Copy, PartialEq, Eq)]
pub struct Ewf2SectionDescriptor {
    pub section_type: Ewf2SectionType,
    pub data_flags: u32,
    /// File offset of the descriptor before this one; 0 for the first.
    pub previous_offset: u64,
    /// Length of the data before this descriptor.
    pub data_size: u64,
    pub descriptor_size: u32,
    pub padding_size: u32,
    pub data_integrity_hash: [u8; 16],
    /// File offset of this descriptor.
    pub offset: u64,
}

/// An [`Ewf2SectionDescriptor`] with its hash as a sequence.
#[verifier::ext_equal]
pub struct Ewf2SectionDescriptorView {
    pub section_type: Ewf2SectionType,
    pub data_flags: u32,
    pub previous_offset: u64,
    pub data_size: u64,
    pub descriptor_size: u32,
    pub padding_size: u32,
    pub data_integrity_hash: Seq<u8>,
    pub offset: u64,
}

impl View for Ewf2SectionDescriptor {
    type V = Ewf2SectionDescriptorView;

    open spec fn view(&self) -> Ewf2SectionDescriptorView {
        Ewf2SectionDescriptorView {
            section_type: self.section_type,
            data_flags: self.data_flags,
            previous_offset: self.previous_offset,
            data_size: self.data_size,
            descriptor_size: self.descriptor_size,
            padding_size: self.padding_size,
            data_integrity_hash: self.data_integrity_hash@,
            offset: self.offset,
        }
    }
}

impl Ewf2SectionDescriptorView {
    /// What the 64 bytes `buf` hold as a descriptor found at `offset`.
    pub open spec fn of(buf: Seq<u8>, offset: u64) -> Ewf2SectionDescriptorView {
        Ewf2SectionDescriptorView {
            section_type: Ewf2SectionType::numbered(bytes::le32(buf, 0) as u32),
            data_flags: bytes::le32(buf, 4) as u32,
            previous_offset: bytes::le64(buf, 8) as u64,
            data_size: bytes::le64(buf, 16) as u64,
            descriptor_size: bytes::le32(buf, 24) as u32,
            padding_size: bytes::le32(buf, 28) as u32,
            data_integrity_hash: buf.subrange(32, 48),
            offset,
        }
    }

    /// Whether the data of the section is encrypted.
    pub open spec fn is_encrypted(self) -> bool {
        self.data_flags & DATA_FLAG_ENCRYPTED != 0
    }
}

impl Ewf2SectionDescriptor {
    /// Reads a descriptor found at `offset`.
    pub fn parse(buf: &[u8], offset: u64) -> (r: Result<Ewf2SectionDescriptor, EwfError>)
        ensures
            error::viewed(r) == if buf@.len() < SECTION_DESCRIPTOR_SIZE {
                Err(sections::too_short(SECTION_DESCRIPTOR_SIZE as int, buf@.len() as int))
            } else {
                Ok(Ewf2SectionDescriptorView::of(buf@, offset))
            },
    {
        if buf.len() < SECTION_DESCRIPTOR_SIZE {
            return Err(
                EwfError::BufferTooShort { expected: SECTION_DESCRIPTOR_SIZE, got: buf.len() },
            );
        }
        Ok(
            Ewf2SectionDescriptor {
                section_type: Ewf2SectionType::from_u32(read_u32(buf, 0)),
                data_flags: read_u32(buf, 4),
                previous_offset: read_u64(buf, 8),
                data_size: read_u64(buf, 16),
                descriptor_size: read_u32(buf, 24),
                padding_size: read_u32(buf, 28),
                data_integrity_hash: read_array(buf, 32),
                offset,
            },
        )
    }

    /// Whether the data of the section carries an MD5 integrity hash.
    pub fn is_md5_hashed(&self) -> (r: bool)
        ensures
            r == (self.data_flags & DATA_FLAG_MD5HASHED != 0),
    {
        self.data_flags & DATA_FLAG_MD5HASHED != 0
    }

    /// Whether the data of the section is encrypted.
    pub fn is_encrypted(&self) -> (r: bool)
        ensures
            r == self@.is_encrypted(),
    {
        self.data_flags & DATA_FLAG_ENCRYPTED != 0
    }
}

/// Flag of a chunk that is stored compressed.
pub const CHUNK_FLAG_COMPRESSED: u32 = 0x0000_0001;

/// Flag of a chunk that carries a checksum.
pub const CHUNK_FLAG_CHECKSUMED: u32 = 0x0000_0002;

/// Flag of a chunk that is a repeated pattern.
pub const CHUNK_FLAG_PATTERNFILL: u32 = 0x0000_0004;

/// One entry of a sector table.
#[derive(Debug, Clone, Copy, PartialEq, Eq, Structural)]
pub struct Ewf2TableEntry {
    pub chunk_data_offset: u64,
    pub chunk_data_size: u32,
    pub flags: u32,
}

impl View for Ewf2TableEntry {
    type V = Ewf2TableEntry;

    open spec fn view(&self) -> Ewf2TableEntry {
        *self
    }
}

impl Ewf2TableEntry {
    /// The entry at `at` of the table data `buf`.
    pub open spec fn at(buf: Seq<u8>, at: int) -> Ewf2TableEntry {
        Ewf2TableEntry {
            chunk_data_offset: bytes::le64(buf, at) as u64,
            chunk_data_size: bytes::le32(buf, at + 8) as u32,
            flags: bytes::le32(buf, at + 12) as u32,
        }
    }

    /// Reads one entry.
    pub fn parse(buf: &[u8]) -> (r: Result<Ewf2TableEntry, EwfError>)
        ensures
            error::viewed(r) == if buf@.len() < TABLE_ENTRY_SIZE {
                Err(sections::too_short(TABLE_ENTRY_SIZE as int, buf@.len() as int))
            } else {
                Ok(Ewf2TableEntry::at(buf@, 0))
            },
    {
        if buf.len() < TABLE_ENTRY_SIZE {
            return Err(EwfError::BufferTooShort { expected: TABLE_ENTRY_SIZE, got: buf.len() });
        }
        Ok(Ewf2TableEntry::read(buf, 0))
    }

    /// Reads the entry at `at` of table data.
    pub(crate) fn read(buf: &[u8], at: usize) -> (r: Ewf2TableEntry)
        requires
            at + TABLE_ENTRY_SIZE <= buf@.len(),
        ensures
            r == Ewf2TableEntry::at(buf@, at as int),
    {
        assert(buf.len() == buf@.len());
        Ewf2TableEntry {
            chunk_data_offset: read_u64(buf, at),
            chunk_data_size: read_u32(buf, at + 8),
            flags: read_u32(buf, at + 12),
        }
    }

    /// Whether the chunk is stored compressed.
    pub fn is_compressed(&self) -> (r: bool)
        ensures
            r == (self.flags & CHUNK_FLAG_COMPRESSED != 0),
    {
        self.flags & CHUNK_FLAG_COMPRESSED != 0
    }

    /// Whether the chunk carries a checksum.
    pub fn is_checksumed(&self) -> (r: bool)
        ensures
            r == (self.flags & CHUNK_FLAG_CHECKSUMED != 0),
    {
        self.flags & CHUNK_FLAG_CHECKSUMED != 0
    }

    /// Whether the chunk is a repeated pattern: both the compressed and the
    /// pattern flag are set.
    pub fn is_pattern_fill(&self) -> (r: bool)
        ensures
            r == (self.flags & CHUNK_FLAG_COMPRESSED != 0 && self.flags & CHUNK_FLAG_PATTERNFILL
                != 0),
    {
        let flags: u32 = self.flags;
        assert((flags & (1u32 | 4u32) == (1u32 | 4u32)) == (flags & 1u32 != 0 && flags & 4u32 != 0))
            by (bit_vector);
        flags & (CHUNK_FLAG_COMPRESSED | CHUNK_FLAG_PATTERNFILL) == (CHUNK_FLAG_COMPRESSED
            | CHUNK_FLAG_PATTERNFILL)
    }
}

/// The header of a sector table.
#[derive(Debug, Clone, Copy, PartialEq, Eq, Structural)]
pub struct Ewf2TableHeader {
    pub first_chunk: u64,
    pub entry_count: u32,
}

impl View for Ewf2TableHeader {
    type V = Ewf2TableHeader;

    open spec fn view(&self) -> Ewf2TableHeader {
        *self
    }
}

impl Ewf2TableHeader {
    /// What the table data `buf` says first.
    pub open spec fn of(buf: Seq<u8>) -> Ewf2TableHeader {
        Ewf2TableHeader {
            first_chunk: bytes::le64(buf, 0) as u64,
            entry_count: bytes::le32(buf, 8) as u32,
        }
    }

    /// Reads a table header: 12 bytes of fields and 20 reserved ones.
    pub fn parse(buf: &[u8]) -> (r: Result<Ewf2TableHeader, EwfError>)
        ensures
            error::viewed(r) == if buf@.len() < TABLE_HEADER_SIZE {
                Err(sections::too_short(TABLE_HEADER_SIZE as int, buf@.len() as int))
            } else {
                Ok(Ewf2TableHeader::of(buf@))
            },
    {
        if buf.len() < TABLE_HEADER_SIZE {
            return Err(EwfError::BufferTooShort { expected: TABLE_HEADER_SIZE, got: buf.len() });
        }
        Ok(Ewf2TableHeader { first_chunk: read_u64(buf, 0), entry_count: read_u32(buf, 8) })
    }
}

} // verus!
