//! The binary structures of both versions: what is written is read back, field
//! by field, and what is cut off or bears another signature is refused.

use vstd::prelude::*;
use crate::bytes;
use crate::error::EwfErrorView;
use crate::ewf2;
use crate::ewf2::{CompressionMethod, Ewf2FileHeader, Ewf2FileHeaderView, Ewf2SectionDescriptorView,
    Ewf2SectionType, Ewf2TableEntry, Ewf2TableHeader};
use crate::laws::numbers;
use crate::sections;
use crate::sections::{EwfFileHeader, EwfVolume, SectionDescriptorView, SectionKind, TableEntry};
use crate::text;

verus! {

/// The bytes that open a segment file of version 1: `EVF` or, for logical
/// evidence, `LVF`, and five bytes that no text file has in this order.
pub open spec fn opens_version_1(s: Seq<u8>) -> bool {
    &&& s.len() >= 8
    &&& s[0] == 0x45 || s[0] == 0x4c
    &&& s.subrange(1, 8) == seq![0x56u8, 0x46u8, 0x09u8, 0x0du8, 0x0au8, 0xffu8, 0x00u8]
}

/// The bytes that open a segment file of version 2: `EVF2` or, for logical
/// evidence, `LEF2`, and four bytes that no text file has in this order.
pub open spec fn opens_version_2(s: Seq<u8>) -> bool {
    &&& s.len() >= 8
    &&& s.subrange(0, 4) == seq![0x45u8, 0x56u8, 0x46u8, 0x32u8] || s.subrange(0, 4) == seq![
        0x4cu8,
        0x45u8,
        0x46u8,
        0x32u8,
    ]
    &&& s.subrange(4, 8) == seq![0x0du8, 0x0au8, 0x81u8, 0x00u8]
}

pub(crate) proof fn lemma_version_1(s: Seq<u8>)
    requires
        s.len() >= 8,
    ensures
        sections::has_v1_signature(s) == opens_version_1(s),
{
    let t = s.take(8);
    let rest = seq![0x56u8, 0x46u8, 0x09u8, 0x0du8, 0x0au8, 0xffu8, 0x00u8];
    let e = sections::EVF_SIGNATURE@;
    let l = sections::LVF_SIGNATURE@;
    assert(s.subrange(1, 8) =~= t.subrange(1, 8));
    assert(e.subrange(1, 8) =~= rest && l.subrange(1, 8) =~= rest);
    if opens_version_1(s) {
        assert forall|i: int| 1 <= i < 8 implies t[i] == #[trigger] e[i] && t[i] == l[i] by {
            assert(t[i] == s.subrange(1, 8)[i - 1]);
            assert(e[i] == e.subrange(1, 8)[i - 1]);
            assert(l[i] == l.subrange(1, 8)[i - 1]);
        }
        if s[0] == 0x45 {
            assert(t =~= e);
        } else {
            assert(t =~= l);
        }
    }
}

pub(crate) proof fn lemma_version_2(s: Seq<u8>)
    requires
        s.len() >= 8,
    ensures
        ewf2::has_v2_signature(s) == opens_version_2(s),
        s.take(8) == ewf2::EVF2_SIGNATURE@ ==> s[0] == 0x45,
        s.take(8) == ewf2::LEF2_SIGNATURE@ ==> s[0] == 0x4c,
{
    let t = s.take(8);
    let e = ewf2::EVF2_SIGNATURE@;
    let l = ewf2::LEF2_SIGNATURE@;
    assert(t[0] == s[0]);
    assert(s.subrange(0, 4) =~= t.subrange(0, 4) && s.subrange(4, 8) =~= t.subrange(4, 8));
    assert(t =~= t.subrange(0, 4) + t.subrange(4, 8));
    assert(e =~= seq![0x45u8, 0x56u8, 0x46u8, 0x32u8] + seq![0x0du8, 0x0au8, 0x81u8, 0x00u8]);
    assert(l =~= seq![0x4cu8, 0x45u8, 0x46u8, 0x32u8] + seq![0x0du8, 0x0au8, 0x81u8, 0x00u8]);
    assert(e.subrange(0, 4) =~= seq![0x45u8, 0x56u8, 0x46u8, 0x32u8]);
    assert(l.subrange(0, 4) =~= seq![0x4cu8, 0x45u8, 0x46u8, 0x32u8]);
    assert(e.subrange(4, 8) =~= seq![0x0du8, 0x0au8, 0x81u8, 0x00u8]);
    assert(l.subrange(4, 8) =~= seq![0x0du8, 0x0au8, 0x81u8, 0x00u8]);
}

/// A version 1 file header gives the segment number behind its signature, and
/// is refused without one.
pub proof fn law_v1_file_header(buf: Seq<u8>, number: u16)
    ensures
        buf.len() < 13 ==> EwfFileHeader::parsed(buf) == Err::<EwfFileHeader, EwfErrorView>(
            EwfErrorView::BufferTooShort { expected: 13, got: buf.len() as int },
        ),
        buf.len() >= 13 && !opens_version_1(buf) ==> EwfFileHeader::parsed(buf) == Err::<
            EwfFileHeader,
            EwfErrorView,
        >(EwfErrorView::InvalidSignature),
        buf.len() >= 13 && opens_version_1(buf) && numbers::has_number(buf, 9, number as nat, 2)
            ==> (EwfFileHeader::parsed(buf) matches Ok(header) && header.segment_number == number),
{
    if buf.len() >= 13 {
        lemma_version_1(buf);
        if numbers::has_number(buf, 9, number as nat, 2) {
            numbers::law_u16_is_read_back(buf, 9, number);
        }
    }
}

/// A version 2 file header gives what stands behind its signature, and is
/// refused without one or with a compression method that is not known.
pub proof fn law_v2_file_header(buf: Seq<u8>, method: u16, number: u32)
    ensures
        buf.len() < 32 ==> Ewf2FileHeader::parsed(buf) == Err::<Ewf2FileHeaderView, EwfErrorView>(
            EwfErrorView::BufferTooShort { expected: 32, got: buf.len() as int },
        ),
        buf.len() >= 32 && !opens_version_2(buf) ==> Ewf2FileHeader::parsed(buf) == Err::<
            Ewf2FileHeaderView,
            EwfErrorView,
        >(EwfErrorView::InvalidSignature),
        buf.len() >= 32 && opens_version_2(buf) && numbers::has_number(buf, 10, method as nat, 2)
            && numbers::has_number(buf, 12, number as nat, 4) ==> {
            &&& method > 2 ==> (Ewf2FileHeader::parsed(buf) matches Err(EwfErrorView::Parse(m)) && m
                == "unknown EWF2 compression method: "@ + text::decimal(method as nat))
            &&& method <= 2 ==> (Ewf2FileHeader::parsed(buf) matches Ok(h) && {
                &&& h.is_physical == (buf[0] == 0x45)
                &&& h.major_version == buf[8]
                &&& h.minor_version == buf[9]
                &&& h.segment_number == number
                &&& h.set_identifier == buf.subrange(16, 32)
                &&& method == 0 <==> h.compression_method == CompressionMethod::Uncompressed
                &&& method == 1 <==> h.compression_method == CompressionMethod::Zlib
                &&& method == 2 <==> h.compression_method == CompressionMethod::Bzip2
            })
        },
{
    if buf.len() >= 32 {
        lemma_version_2(buf);
        if numbers::has_number(buf, 10, method as nat, 2) && numbers::has_number(
            buf,
            12,
            number as nat,
            4,
        ) {
            numbers::law_u16_is_read_back(buf, 10, method);
            numbers::law_u32_is_read_back(buf, 12, number);
        }
    }
}

/// No segment file is of both versions.
pub proof fn law_versions_exclude_each_other(s: Seq<u8>)
    ensures
        !(opens_version_1(s) && opens_version_2(s)),
{
    if s.len() >= 8 {
        assert(s.subrange(1, 8)[2] == s[3]);
        assert(s.subrange(0, 4)[3] == s[3]);
    }
}

/// The character that a byte of a name stands for: itself in ASCII, and a
/// replacement otherwise.
pub open spec fn name_char(b: u8) -> char {
    if b < 128 {
        b as char
    } else {
        '\u{FFFD}'
    }
}

/// The name in a padded field is the bytes before the first zero.
pub proof fn law_padded_name_is_read_back(name: Seq<u8>, rest: Seq<u8>)
    requires
        forall|i: int| 0 <= i < name.len() ==> #[trigger] name[i] != 0,
        rest.len() > 0 ==> rest[0] == 0,
    ensures
        sections::padded_name(name + rest) == Seq::new(name.len(), |i: int| name_char(name[i])),
    decreases name.len(),
{
    let all = name + rest;
    let chars = Seq::new(name.len(), |i: int| name_char(name[i]));
    if name.len() == 0 {
        assert(all =~= rest);
        assert(sections::padded_name(all) =~= chars);
    } else {
        let shorter = name.skip(1);
        assert forall|i: int| 0 <= i < shorter.len() implies #[trigger] shorter[i] != 0 by {
            assert(shorter[i] == name[i + 1]);
        }
        law_padded_name_is_read_back(shorter, rest);
        assert(all.skip(1) =~= shorter + rest);
        assert(all[0] == name[0]);
        let tail = Seq::new(shorter.len(), |i: int| name_char(shorter[i]));
        assert(chars =~= seq![name_char(name[0])] + tail);
    }
}

/// A version 1 section descriptor is read back: a name of up to sixteen bytes,
/// the offset of the next descriptor, and the size of the section.
pub proof fn law_v1_descriptor_is_read_back(
    buf: Seq<u8>,
    offset: u64,
    name: Seq<u8>,
    next: u64,
    size: u64,
)
    requires
        buf.len() >= 76,
        name.len() <= 16,
        forall|i: int| 0 <= i < name.len() ==> #[trigger] name[i] != 0 && name[i] == buf[i],
        name.len() < 16 ==> buf[name.len() as int] == 0,
        numbers::has_number(buf, 16, next as nat, 8),
        numbers::has_number(buf, 24, size as nat, 8),
    ensures
        SectionDescriptorView::of(buf, offset).section_type == Seq::new(
            name.len(),
            |i: int| name_char(name[i]),
        ),
        SectionDescriptorView::of(buf, offset).next == next,
        SectionDescriptorView::of(buf, offset).section_size == size,
        SectionDescriptorView::of(buf, offset).offset == offset,
{
    numbers::law_u64_is_read_back(buf, 16, next);
    numbers::law_u64_is_read_back(buf, 24, size);
    let rest = buf.subrange(name.len() as int, 16);
    assert(buf.take(16) =~= name + rest);
    law_padded_name_is_read_back(name, rest);
}

/// The names of the sections that the reader uses, each of its own kind; every
/// other name is of no use.
pub proof fn law_section_names(d: SectionDescriptorView)
    ensures
        d.kind() == SectionKind::Volume <==> d.section_type == "volume"@ || d.section_type
            == "disk"@,
        d.kind() == SectionKind::Table <==> d.section_type == "table"@,
        d.kind() == SectionKind::Table2 <==> d.section_type == "table2"@,
        d.kind() == SectionKind::Sectors <==> d.section_type == "sectors"@,
        d.kind() == SectionKind::Hash <==> d.section_type == "hash"@,
        d.kind() == SectionKind::Digest <==> d.section_type == "digest"@,
        d.kind() == SectionKind::Header <==> d.section_type == "header"@,
        d.kind() == SectionKind::Header2 <==> d.section_type == "header2"@,
        d.kind() == SectionKind::Error2 <==> d.section_type == "error2"@,
{
    reveal_strlit("volume");
    reveal_strlit("disk");
    reveal_strlit("table");
    reveal_strlit("table2");
    reveal_strlit("sectors");
    reveal_strlit("hash");
    reveal_strlit("digest");
    reveal_strlit("header");
    reveal_strlit("header2");
    reveal_strlit("error2");
    assert("volume"@[0] == 'v' && "disk"@[0] == 'd' && "disk"@.len() == 4);
    assert("table"@.len() == 5 && "table"@[0] == 't');
    assert("table2"@.len() == 6 && "table2"@[0] == 't');
    assert("sectors"@[0] == 's');
    assert("hash"@.len() == 4 && "hash"@[0] == 'h');
    assert("digest"@.len() == 6 && "digest"@[0] == 'd');
    assert("header"@.len() == 6 && "header"@[0] == 'h');
    assert("header2"@.len() == 7 && "header2"@[0] == 'h');
    assert("error2"@[0] == 'e');
}

/// Volume data is read back, and the sizes are products of what it says.
pub proof fn law_volume_is_read_back(
    buf: Seq<u8>,
    chunks: u32,
    sectors_per_chunk: u32,
    bytes_per_sector: u32,
    sectors: u64,
)
    requires
        numbers::has_number(buf, 4, chunks as nat, 4),
        numbers::has_number(buf, 8, sectors_per_chunk as nat, 4),
        numbers::has_number(buf, 12, bytes_per_sector as nat, 4),
        numbers::has_number(buf, 16, sectors as nat, 8),
    ensures
        EwfVolume::of(buf).chunk_count == chunks,
        EwfVolume::of(buf).sectors_per_chunk == sectors_per_chunk,
        EwfVolume::of(buf).bytes_per_sector == bytes_per_sector,
        EwfVolume::of(buf).sector_count == sectors,
        EwfVolume::of(buf).spec_chunk_size() == sectors_per_chunk * bytes_per_sector,
        EwfVolume::of(buf).spec_total_size() == sectors * bytes_per_sector,
{
    numbers::law_u32_is_read_back(buf, 4, chunks);
    numbers::law_u32_is_read_back(buf, 8, sectors_per_chunk);
    numbers::law_u32_is_read_back(buf, 12, bytes_per_sector);
    numbers::law_u64_is_read_back(buf, 16, sectors);
    assert(sectors * bytes_per_sector == bytes_per_sector * sectors) by (nonlinear_arith);
}

/// A chunk table entry is read back: an offset below two to the 31, and the bit
/// above it for a compressed chunk.
pub proof fn law_v1_entry_is_read_back(buf: Seq<u8>, at: int, offset: u32, compressed: bool)
    requires
        offset < 0x8000_0000,
        numbers::has_number(
            buf,
            at,
            offset as nat + (if compressed {
                0x8000_0000nat
            } else {
                0
            }),
            4,
        ),
    ensures
        TableEntry::at(buf, at).chunk_offset == offset,
        TableEntry::at(buf, at).compressed == compressed,
{
    let raw: u32 = (offset + (if compressed {
        0x8000_0000int
    } else {
        0
    })) as u32;
    numbers::law_u32_is_read_back(buf, at, raw);
}

/// A version 2 section descriptor is read back.
pub proof fn law_v2_descriptor_is_read_back(
    buf: Seq<u8>,
    offset: u64,
    number: u32,
    flags: u32,
    previous: u64,
    size: u64,
    descriptor_size: u32,
    padding: u32,
)
    requires
        buf.len() >= 64,
        numbers::has_number(buf, 0, number as nat, 4),
        numbers::has_number(buf, 4, flags as nat, 4),
        numbers::has_number(buf, 8, previous as nat, 8),
        numbers::has_number(buf, 16, size as nat, 8),
        numbers::has_number(buf, 24, descriptor_size as nat, 4),
        numbers::has_number(buf, 28, padding as nat, 4),
    ensures
        ({
            let d = Ewf2SectionDescriptorView::of(buf, offset);
            &&& d.section_type == Ewf2SectionType::numbered(number)
            &&& d.data_flags == flags
            &&& d.previous_offset == previous
            &&& d.data_size == size
            &&& d.descriptor_size == descriptor_size
            &&& d.padding_size == padding
            &&& d.data_integrity_hash == buf.subrange(32, 48)
            &&& d.offset == offset
            &&& d.is_encrypted() == ((flags / 2) % 2 == 1)
        }),
{
    numbers::law_u32_is_read_back(buf, 0, number);
    numbers::law_u32_is_read_back(buf, 4, flags);
    numbers::law_u64_is_read_back(buf, 8, previous);
    numbers::law_u64_is_read_back(buf, 16, size);
    numbers::law_u32_is_read_back(buf, 24, descriptor_size);
    numbers::law_u32_is_read_back(buf, 28, padding);
    assert((flags & 2u32 != 0) == ((flags / 2) % 2 == 1)) by (bit_vector);
}

/// The numbers of the section types, with their names. A number without a type
/// of its own is kept.
pub proof fn law_section_numbers(number: u32)
    ensures
        ({
            let t = Ewf2SectionType::numbered(number);
            &&& t == Ewf2SectionType::DeviceInfo <==> number == 1
            &&& t == Ewf2SectionType::CaseData <==> number == 2
            &&& t == Ewf2SectionType::SectorData <==> number == 3
            &&& t == Ewf2SectionType::SectorTable <==> number == 4
            &&& t == Ewf2SectionType::ErrorTable <==> number == 5
            &&& t == Ewf2SectionType::SessionTable <==> number == 6
            &&& t == Ewf2SectionType::IncrementData <==> number == 7
            &&& t == Ewf2SectionType::Md5Hash <==> number == 8
            &&& t == Ewf2SectionType::Sha1Hash <==> number == 9
            &&& t == Ewf2SectionType::RestartData <==> number == 10
            &&& t == Ewf2SectionType::EncryptionKeys <==> number == 11
            &&& t == Ewf2SectionType::MemoryExtents <==> number == 12
            &&& t == Ewf2SectionType::Next <==> number == 13
            &&& t == Ewf2SectionType::FinalInfo <==> number == 14
            &&& t == Ewf2SectionType::Done <==> number == 15
            &&& t == Ewf2SectionType::AnalyticalData <==> number == 16
            &&& t == Ewf2SectionType::SingleFilesData <==> number == 32
            &&& number == 0 || (16 < number && number != 32) ==> t == Ewf2SectionType::Unknown(number)
        }),
{
}

/// The names of the section types.
pub proof fn law_section_type_names(n: u32)
    ensures
        Ewf2SectionType::DeviceInfo.spec_name() == "device_info"@,
        Ewf2SectionType::CaseData.spec_name() == "case_data"@,
        Ewf2SectionType::SectorData.spec_name() == "sector_data"@,
        Ewf2SectionType::SectorTable.spec_name() == "sector_table"@,
        Ewf2SectionType::ErrorTable.spec_name() == "error_table"@,
        Ewf2SectionType::SessionTable.spec_name() == "session_table"@,
        Ewf2SectionType::IncrementData.spec_name() == "increment_data"@,
        Ewf2SectionType::Md5Hash.spec_name() == "md5_hash"@,
        Ewf2SectionType::Sha1Hash.spec_name() == "sha1_hash"@,
        Ewf2SectionType::RestartData.spec_name() == "restart_data"@,
        Ewf2SectionType::EncryptionKeys.spec_name() == "encryption_keys"@,
        Ewf2SectionType::MemoryExtents.spec_name() == "memory_extents"@,
        Ewf2SectionType::Next.spec_name() == "next"@,
        Ewf2SectionType::FinalInfo.spec_name() == "final_info"@,
        Ewf2SectionType::Done.spec_name() == "done"@,
        Ewf2SectionType::AnalyticalData.spec_name() == "analytical_data"@,
        Ewf2SectionType::SingleFilesData.spec_name() == "single_files_data"@,
        Ewf2SectionType::Unknown(n).spec_name() == "unknown"@,
{
}

/// A sector table header is read back.
pub proof fn law_v2_table_header_is_read_back(buf: Seq<u8>, first: u64, count: u32)
    requires
        numbers::has_number(buf, 0, first as nat, 8),
        numbers::has_number(buf, 8, count as nat, 4),
    ensures
        Ewf2TableHeader::of(buf).first_chunk == first,
        Ewf2TableHeader::of(buf).entry_count == count,
{
    numbers::law_u64_is_read_back(buf, 0, first);
    numbers::law_u32_is_read_back(buf, 8, count);
}

/// A sector table entry is read back. Its flags are the lowest bits of their
/// number.
pub proof fn law_v2_entry_is_read_back(buf: Seq<u8>, at: int, offset: u64, size: u32, flags: u32)
    requires
        numbers::has_number(buf, at, offset as nat, 8),
        numbers::has_number(buf, at + 8, size as nat, 4),
        numbers::has_number(buf, at + 12, flags as nat, 4),
    ensures
        Ewf2TableEntry::at(buf, at) == (Ewf2TableEntry {
            chunk_data_offset: offset,
            chunk_data_size: size,
            flags,
        }),
        (flags & ewf2::CHUNK_FLAG_COMPRESSED != 0) == (flags % 2 == 1),
        (flags & ewf2::CHUNK_FLAG_CHECKSUMED != 0) == ((flags / 2) % 2 == 1),
        (flags & ewf2::CHUNK_FLAG_PATTERNFILL != 0) == ((flags / 4) % 2 == 1),
        (flags & ewf2::DATA_FLAG_MD5HASHED != 0) == (flags % 2 == 1),
{
    numbers::law_u64_is_read_back(buf, at, offset);
    numbers::law_u32_is_read_back(buf, at + 8, size);
    numbers::law_u32_is_read_back(buf, at + 12, flags);
    assert((flags & 1u32 != 0) == (flags % 2 == 1)) by (bit_vector);
    assert((flags & 2u32 != 0) == ((flags / 2) % 2 == 1)) by (bit_vector);
    assert((flags & 4u32 != 0) == ((flags / 4) % 2 == 1)) by (bit_vector);
}

} // verus!
