//! Single operations: what each gives back for what is handed to it.

use vstd::prelude::*;
use crate::bytes;
use crate::codec;
use crate::error;
use crate::error::EwfError;
use crate::ewf2;
use crate::ewf2::{CompressionMethod, Ewf2FileHeader, Ewf2SectionDescriptor, Ewf2SectionType,
    Ewf2TableEntry, Ewf2TableHeader};
use crate::image::{EwfImage, EwfImageView};
use crate::laws::media;
use crate::laws::metadata;
use crate::laws::numbers;
use crate::laws::opening;
use crate::laws::structures;
use crate::laws::words;
use crate::open;
use crate::open::Version;
use crate::page;
use crate::parse;
use crate::parse::{DeviceGeometry, FieldCodes};
use crate::sections::{EwfFileHeader, EwfVolume, SectionDescriptor, SectionKind, TableEntry};
use crate::segments;
use crate::text;
use crate::types::{AcquisitionError, EwfMetadata, MetadataField, VerifyResult};
use crate::v1;
use crate::v2;
use crate::verify::MediaHasher;

verus! {

/// Numbers are read from the bytes that hold them.
pub proof fn law_reading_numbers(buf: &[u8], at: usize, a: u16, b: u32, c: u64)
    requires
        call_ensures(bytes::read_u16, (buf, at), a),
        call_ensures(bytes::read_u32, (buf, at), b),
        call_ensures(bytes::read_u64, (buf, at), c),
    ensures
        forall|n: u16| #[trigger] numbers::has_number(buf@, at as int, n as nat, 2) ==> a == n,
        forall|n: u32| #[trigger] numbers::has_number(buf@, at as int, n as nat, 4) ==> b == n,
        forall|n: u64| #[trigger] numbers::has_number(buf@, at as int, n as nat, 8) ==> c == n,
{
    assert forall|n: u16| #[trigger] numbers::has_number(buf@, at as int, n as nat, 2) implies a
        == n by {
        numbers::law_u16_is_read_back(buf@, at as int, n);
    }
    assert forall|n: u32| #[trigger] numbers::has_number(buf@, at as int, n as nat, 4) implies b
        == n by {
        numbers::law_u32_is_read_back(buf@, at as int, n);
    }
    assert forall|n: u64| #[trigger] numbers::has_number(buf@, at as int, n as nat, 8) implies c
        == n by {
        numbers::law_u64_is_read_back(buf@, at as int, n);
    }
}

/// Bytes are copied and compared one by one.
pub proof fn law_bytes<const N: usize>(
    a: &[u8],
    b: &[u8],
    at: usize,
    same: bool,
    held: bool,
    copied: [u8; N],
)
    requires
        at + b@.len() <= a@.len(),
        at + N <= a@.len(),
        call_ensures(bytes::same_bytes, (a, b), same),
        call_ensures(bytes::holds_at, (a, at, b), held),
        call_ensures(bytes::read_array::<N>, (a, at), copied),
    ensures
        same <==> a@.len() == b@.len() && forall|i: int| 0 <= i < a@.len() ==> a@[i] == b@[i],
        held <==> forall|i: int| 0 <= i < b@.len() ==> a@[at + i] == #[trigger] b@[i],
        forall|i: int| 0 <= i < N ==> #[trigger] copied@[i] == a@[at + i],
{
    if a@.len() == b@.len() && (forall|i: int| 0 <= i < a@.len() ==> a@[i] == b@[i]) {
        assert(a@ =~= b@);
    }
    let part = a@.subrange(at as int, at + b@.len());
    if held {
        assert forall|i: int| 0 <= i < b@.len() implies a@[at + i] == #[trigger] b@[i] by {
            assert(part[i] == a@[at + i]);
        }
    }
    if forall|i: int| 0 <= i < b@.len() ==> a@[at + i] == #[trigger] b@[i] {
        assert forall|i: int| 0 <= i < b@.len() implies part[i] == b@[i] by {
            assert(b@[i] == a@[at + i]);
        }
        assert(part =~= b@);
    }
    assert(copied@ == a@.subrange(at as int, at + N));
}

/// A version 1 file header is taken exactly if it is long enough and bears the
/// signature.
pub proof fn law_v1_file_headers(buf: &[u8], r: Result<EwfFileHeader, EwfError>, number: u16)
    requires
        call_ensures(EwfFileHeader::parse, (buf,), r),
    ensures
        r is Ok <==> buf@.len() >= 13 && structures::opens_version_1(buf@),
        r matches Ok(h) ==> (numbers::has_number(buf@, 9, number as nat, 2) ==> h.segment_number
            == number),
        r matches Err(e) ==> if buf@.len() < 13 {
            e matches EwfError::BufferTooShort { expected, got } && expected == 13 && got
                == buf@.len()
        } else {
            e is InvalidSignature
        },
{
    structures::law_v1_file_header(buf@, number);
    let view = EwfFileHeader::parsed(buf@);
    assert(error::viewed(r) == view);
    if buf@.len() >= 13 && structures::opens_version_1(buf@) {
        structures::lemma_version_1(buf@);
    }
    if r is Err {
        lemma_short_view(r->Err_0);
    }
}

proof fn lemma_short_view(e: EwfError)
    ensures
        e@ is InvalidSignature ==> e is InvalidSignature,
        e@ matches error::EwfErrorView::BufferTooShort { expected, got } ==> (
        e matches EwfError::BufferTooShort { expected: x, got: y } && x == expected && y == got),
        e@ matches error::EwfErrorView::Parse(m) ==> (e matches EwfError::Parse(n) && n@ == m),
{
}

/// A version 1 section descriptor is read back, its name up to the first zero.
pub proof fn law_v1_descriptors(
    buf: &[u8],
    offset: u64,
    r: Result<SectionDescriptor, EwfError>,
    name: Seq<u8>,
    next: u64,
    size: u64,
)
    requires
        call_ensures(SectionDescriptor::parse, (buf, offset), r),
    ensures
        r is Ok <==> buf@.len() >= 76,
        r matches Err(e) ==> (e matches EwfError::BufferTooShort { expected, got } && expected == 76
            && got == buf@.len()),
        r matches Ok(d) ==> d.offset == offset,
        r matches Ok(d) ==> (numbers::has_number(buf@, 16, next as nat, 8) ==> d.next == next),
        r matches Ok(d) ==> (numbers::has_number(buf@, 24, size as nat, 8) ==> d.section_size
            == size),
        r matches Ok(d) ==> (name.len() <= 16 && buf@.take(name.len() as int) == name && (
        forall|i: int| 0 <= i < name.len() ==> #[trigger] name[i] != 0) && (name.len() < 16
            ==> buf@[name.len() as int] == 0) ==> d.section_type@.len() == name.len()
            && forall|i: int|
            0 <= i < name.len() ==> #[trigger] d.section_type@[i] == structures::name_char(
                name[i],
            )),
{
    match r {
        Err(e) => {
            lemma_short_view(e);
        },
        Ok(d) => {
            assert(d@ == crate::sections::SectionDescriptorView::of(buf@, offset));
            if numbers::has_number(buf@, 16, next as nat, 8) {
                numbers::law_u64_is_read_back(buf@, 16, next);
            }
            if numbers::has_number(buf@, 24, size as nat, 8) {
                numbers::law_u64_is_read_back(buf@, 24, size);
            }
            if name.len() <= 16 && buf@.take(name.len() as int) == name && (forall|i: int|
                0 <= i < name.len() ==> #[trigger] name[i] != 0) && (name.len() < 16
                ==> buf@[name.len() as int] == 0) {
                let rest = buf@.subrange(name.len() as int, 16);
                assert(buf@.take(16) =~= name + rest) by {
                    assert forall|i: int| 0 <= i < name.len() implies buf@[i] == name[i] by {
                        assert(buf@.take(name.len() as int)[i] == buf@[i]);
                    }
                }
                structures::law_padded_name_is_read_back(name, rest);
            }
        },
    }
}

/// The kind of a section is told by its name.
pub proof fn law_v1_kinds(d: SectionDescriptor, kind: SectionKind)
    requires
        call_ensures(SectionDescriptor::kind, (&d,), kind),
    ensures
        kind == SectionKind::Volume <==> d.section_type@ == "volume"@ || d.section_type@
            == "disk"@,
        kind == SectionKind::Table <==> d.section_type@ == "table"@,
        kind == SectionKind::Table2 <==> d.section_type@ == "table2"@,
        kind == SectionKind::Sectors <==> d.section_type@ == "sectors"@,
        kind == SectionKind::Hash <==> d.section_type@ == "hash"@,
        kind == SectionKind::Digest <==> d.section_type@ == "digest"@,
        kind == SectionKind::Header <==> d.section_type@ == "header"@,
        kind == SectionKind::Header2 <==> d.section_type@ == "header2"@,
        kind == SectionKind::Error2 <==> d.section_type@ == "error2"@,
{
    structures::law_section_names(d@);
}

/// Volume data is read back, and its sizes are products of what it says.
pub proof fn law_volumes(
    buf: &[u8],
    r: Result<EwfVolume, EwfError>,
    v: EwfVolume,
    chunk_size: u64,
    total_size: u64,
)
    requires
        call_ensures(EwfVolume::parse, (buf,), r),
        call_ensures(EwfVolume::chunk_size, (&v,), chunk_size),
        call_ensures(EwfVolume::total_size, (&v,), total_size),
    ensures
        r is Ok <==> buf@.len() >= 94,
        r matches Err(e) ==> (e matches EwfError::BufferTooShort { expected, got } && expected == 94
            && got == buf@.len()),
        r matches Ok(w) ==> {
            &&& w.chunk_count == bytes::le32(buf@, 4)
            &&& w.sectors_per_chunk == bytes::le32(buf@, 8)
            &&& w.bytes_per_sector == bytes::le32(buf@, 12)
            &&& w.sector_count == bytes::le64(buf@, 16)
        },
        chunk_size == v.sectors_per_chunk * v.bytes_per_sector,
        total_size == v.bytes_per_sector * v.sector_count,
{
    if r is Err {
        lemma_short_view(r->Err_0);
    }
}

/// A chunk table entry is 31 bits of offset and one for a compressed chunk.
pub proof fn law_v1_entries(buf: &[u8], r: Result<TableEntry, EwfError>)
    requires
        call_ensures(TableEntry::parse, (buf,), r),
    ensures
        r is Ok <==> buf@.len() >= 4,
        r matches Err(e) ==> (e matches EwfError::BufferTooShort { expected, got } && expected == 4
            && got == buf@.len()),
        r matches Ok(t) ==> t.chunk_offset < 0x8000_0000 && t.chunk_offset + (if t.compressed {
            0x8000_0000int
        } else {
            0
        }) == bytes::le32(buf@, 0),
{
    if r is Err {
        lemma_short_view(r->Err_0);
    }
}

/// A version 2 file header is taken exactly if it is long enough, bears the
/// signature and names a known compression method.
pub proof fn law_v2_file_headers(
    buf: &[u8],
    r: Result<Ewf2FileHeader, EwfError>,
    method: u16,
    number: u32,
)
    requires
        call_ensures(Ewf2FileHeader::parse, (buf,), r),
        buf@.len() >= 32 ==> numbers::has_number(buf@, 10, method as nat, 2),
        buf@.len() >= 32 ==> numbers::has_number(buf@, 12, number as nat, 4),
    ensures
        r is Ok <==> buf@.len() >= 32 && structures::opens_version_2(buf@) && method <= 2,
        r matches Ok(h) ==> {
            &&& h.is_physical == (buf@[0] == 0x45)
            &&& h.major_version == buf@[8]
            &&& h.minor_version == buf@[9]
            &&& h.segment_number == number
            &&& h.set_identifier@ == buf@.subrange(16, 32)
            &&& method == 0 <==> h.compression_method == CompressionMethod::Uncompressed
            &&& method == 1 <==> h.compression_method == CompressionMethod::Zlib
            &&& method == 2 <==> h.compression_method == CompressionMethod::Bzip2
        },
        r matches Err(e) ==> if buf@.len() < 32 {
            e matches EwfError::BufferTooShort { expected, got } && expected == 32 && got
                == buf@.len()
        } else if !structures::opens_version_2(buf@) {
            e is InvalidSignature
        } else {
            e matches EwfError::Parse(m) && m@ == "unknown EWF2 compression method: "@
                + text::decimal(method as nat)
        },
{
    structures::law_v2_file_header(buf@, method, number);
    assert(error::viewed(r) == Ewf2FileHeader::parsed(buf@));
    if buf@.len() >= 32 {
        numbers::law_u16_is_read_back(buf@, 10, method);
        structures::lemma_version_2(buf@);
    }
    match r {
        Err(e) => {
            lemma_short_view(e);
        },
        Ok(h) => {
            assert(h@ == Ewf2FileHeader::parsed(buf@)->Ok_0);
        },
    }
}

/// A version 2 section descriptor is read back field by field.
pub proof fn law_v2_descriptors(
    buf: &[u8],
    offset: u64,
    r: Result<Ewf2SectionDescriptor, EwfError>,
    d: Ewf2SectionDescriptor,
    hashed: bool,
    encrypted: bool,
)
    requires
        call_ensures(Ewf2SectionDescriptor::parse, (buf, offset), r),
        call_ensures(Ewf2SectionDescriptor::is_md5_hashed, (&d,), hashed),
        call_ensures(Ewf2SectionDescriptor::is_encrypted, (&d,), encrypted),
    ensures
        r is Ok <==> buf@.len() >= 64,
        r matches Err(e) ==> (e matches EwfError::BufferTooShort { expected, got } && expected == 64
            && got == buf@.len()),
        r matches Ok(x) ==> {
            &&& x.section_type == Ewf2SectionType::numbered(bytes::le32(buf@, 0) as u32)
            &&& x.data_flags == bytes::le32(buf@, 4)
            &&& x.previous_offset == bytes::le64(buf@, 8)
            &&& x.data_size == bytes::le64(buf@, 16)
            &&& x.descriptor_size == bytes::le32(buf@, 24)
            &&& x.padding_size == bytes::le32(buf@, 28)
            &&& x.data_integrity_hash@ == buf@.subrange(32, 48)
            &&& x.offset == offset
        },
        hashed == (d.data_flags % 2 == 1),
        encrypted == ((d.data_flags / 2) % 2 == 1),
{
    match r {
        Err(e) => {
            lemma_short_view(e);
        },
        Ok(x) => {
            assert(x@ == ewf2::Ewf2SectionDescriptorView::of(buf@, offset));
        },
    }
    let flags = d.data_flags;
    assert((flags & 1 != 0) == (flags % 2 == 1)) by (bit_vector);
    assert((flags & 2 != 0) == ((flags / 2) % 2 == 1)) by (bit_vector);
}

/// Numbers of section types and compression methods are read by their lists.
pub proof fn law_v2_numbers(
    a: u16,
    method: Result<CompressionMethod, EwfError>,
    b: u32,
    kind: Ewf2SectionType,
    name: &str,
)
    requires
        call_ensures(CompressionMethod::from_u16, (a,), method),
        call_ensures(Ewf2SectionType::from_u32, (b,), kind),
        call_ensures(Ewf2SectionType::name, (&kind,), name),
    ensures
        method is Ok <==> a <= 2,
        method matches Ok(m) ==> {
            &&& a == 0 <==> m == CompressionMethod::Uncompressed
            &&& a == 1 <==> m == CompressionMethod::Zlib
            &&& a == 2 <==> m == CompressionMethod::Bzip2
        },
        method matches Err(e) ==> (e matches EwfError::Parse(m) && m@
            == "unknown EWF2 compression method: "@ + text::decimal(a as nat)),
        kind == Ewf2SectionType::numbered(b),
        name@ == kind.spec_name(),
{
    if method is Err {
        lemma_short_view(method->Err_0);
    }
}

/// A sector table entry and a table header are read back, and the flags are the
/// three lowest bits of theirs.
pub proof fn law_v2_tables(
    buf: &[u8],
    r: Result<Ewf2TableEntry, EwfError>,
    h: Result<Ewf2TableHeader, EwfError>,
    t: Ewf2TableEntry,
    compressed: bool,
    checked: bool,
    pattern: bool,
)
    requires
        call_ensures(Ewf2TableEntry::parse, (buf,), r),
        call_ensures(Ewf2TableHeader::parse, (buf,), h),
        call_ensures(Ewf2TableEntry::is_compressed, (&t,), compressed),
        call_ensures(Ewf2TableEntry::is_checksumed, (&t,), checked),
        call_ensures(Ewf2TableEntry::is_pattern_fill, (&t,), pattern),
    ensures
        r is Ok <==> buf@.len() >= 16,
        r matches Ok(x) ==> {
            &&& x.chunk_data_offset == bytes::le64(buf@, 0)
            &&& x.chunk_data_size == bytes::le32(buf@, 8)
            &&& x.flags == bytes::le32(buf@, 12)
        },
        r matches Err(e) ==> (e matches EwfError::BufferTooShort { expected, got } && expected == 16
            && got == buf@.len()),
        h is Ok <==> buf@.len() >= 32,
        h matches Ok(x) ==> {
            &&& x.first_chunk == bytes::le64(buf@, 0)
            &&& x.entry_count == bytes::le32(buf@, 8)
        },
        h matches Err(e) ==> (e matches EwfError::BufferTooShort { expected, got } && expected == 32
            && got == buf@.len()),
        compressed == (t.flags % 2 == 1),
        checked == ((t.flags / 2) % 2 == 1),
        pattern == (t.flags % 2 == 1 && (t.flags / 4) % 2 == 1),
{
    if r is Err {
        lemma_short_view(r->Err_0);
    }
    if h is Err {
        lemma_short_view(h->Err_0);
    }
    let flags = t.flags;
    assert((flags & 1 != 0) == (flags % 2 == 1)) by (bit_vector);
    assert((flags & 2 != 0) == ((flags / 2) % 2 == 1)) by (bit_vector);
    assert((flags & 4 != 0) == ((flags / 4) % 2 == 1)) by (bit_vector);
}

/// Acquisition errors are read back as they were written.
pub proof fn law_acquisition_errors(
    data: &[u8],
    r: Vec<AcquisitionError>,
    errors: Seq<AcquisitionError>,
    announced: u32,
    padding: Seq<u8>,
    rest: Seq<u8>,
)
    requires
        call_ensures(parse::parse_error2_data, (data,), r),
        data@ == numbers::little(announced as nat, 4) + padding + metadata::stored_errors(errors)
            + rest,
        padding.len() == 4,
        errors.len() == announced || (errors.len() < announced && rest.len() < 8),
    ensures
        r@ == errors,
{
    metadata::law_acquisition_errors_are_read_back(errors, announced, padding, rest);
}

/// Header text fills in a field with the value of the last column that is named
/// by its code and not empty, and leaves one without such a column as it was.
pub proof fn law_header_text(
    s: &str,
    meta: &mut EwfMetadata,
    lines: Seq<Seq<char>>,
    cr: Seq<bool>,
    names: Seq<Seq<char>>,
    values: Seq<Seq<char>>,
    field: MetadataField,
    k: int,
)
    requires
        call_ensures(parse::parse_header_text, (s, meta), ()),
        words::breakable(lines, cr),
        s@ == words::broken(lines, cr),
        metadata::tables(lines, names, values),
        -1 <= k < names.len(),
        k >= 0 ==> metadata::gives(FieldCodes::Header, names, values, field, k),
        forall|j: int|
            k < j < names.len() ==> !#[trigger] metadata::gives(
                FieldCodes::Header,
                names,
                values,
                field,
                j,
            ),
    ensures
        final(meta)@.get(field) == if k >= 0 {
            Some(values[k])
        } else {
            old(meta)@.get(field)
        },
{
    metadata::law_header_text_is_read_back(old(meta)@, lines, cr, names, values, Seq::empty());
    metadata::law_last_column_counts(old(meta)@, FieldCodes::Header, names, values, field, k);
}

/// The data of a `header2` section does the same in UTF-16.
pub proof fn law_header2_data(
    raw: &[u8],
    meta: &mut EwfMetadata,
    lines: Seq<Seq<char>>,
    cr: Seq<bool>,
    names: Seq<Seq<char>>,
    values: Seq<Seq<char>>,
    rest: Seq<u8>,
    field: MetadataField,
    k: int,
)
    requires
        call_ensures(parse::parse_header2_data, (raw, meta), ()),
        words::breakable(lines, cr),
        rest.len() <= 1,
        raw@ == words::encoded(words::broken(lines, cr)) + rest,
        metadata::tables(lines, names, values),
        -1 <= k < names.len(),
        k >= 0 ==> metadata::gives(FieldCodes::Header, names, values, field, k),
        forall|j: int|
            k < j < names.len() ==> !#[trigger] metadata::gives(
                FieldCodes::Header,
                names,
                values,
                field,
                j,
            ),
    ensures
        final(meta)@.get(field) == if k >= 0 {
            Some(values[k])
        } else {
            old(meta)@.get(field)
        },
{
    metadata::law_header_text_is_read_back(old(meta)@, lines, cr, names, values, rest);
    metadata::law_last_column_counts(old(meta)@, FieldCodes::Header, names, values, field, k);
}

/// Case data does the same with codes of its own.
pub proof fn law_case_data(
    raw: &[u8],
    meta: &mut EwfMetadata,
    lines: Seq<Seq<char>>,
    cr: Seq<bool>,
    names: Seq<Seq<char>>,
    values: Seq<Seq<char>>,
    rest: Seq<u8>,
    field: MetadataField,
    k: int,
)
    requires
        call_ensures(parse::parse_ewf2_case_data, (raw, meta), ()),
        words::breakable(lines, cr),
        rest.len() <= 1,
        raw@ == words::encoded(words::broken(lines, cr)) + rest,
        metadata::tables(lines, names, values),
        lines.len() > 4 || lines[3].len() > 0,
        -1 <= k < names.len(),
        k >= 0 ==> metadata::gives(FieldCodes::CaseData, names, values, field, k),
        forall|j: int|
            k < j < names.len() ==> !#[trigger] metadata::gives(
                FieldCodes::CaseData,
                names,
                values,
                field,
                j,
            ),
    ensures
        final(meta)@.get(field) == if k >= 0 {
            Some(values[k])
        } else {
            old(meta)@.get(field)
        },
{
    metadata::law_case_data_is_read_back(old(meta)@, lines, cr, names, values, rest);
    metadata::law_last_column_counts(old(meta)@, FieldCodes::CaseData, names, values, field, k);
}

/// The geometry of a device is read from its text: each number is that of the
/// last column that gives it.
pub proof fn law_geometry(
    raw: &[u8],
    r: Option<DeviceGeometry>,
    lines: Seq<Seq<char>>,
    cr: Seq<bool>,
    names: Seq<Seq<char>>,
    values: Seq<Seq<char>>,
    rest: Seq<u8>,
    which: int,
    k: int,
)
    requires
        call_ensures(parse::read_device_geometry, (raw,), r),
        words::breakable(lines, cr),
        rest.len() <= 1,
        raw@ == words::encoded(words::broken(lines, cr)) + rest,
        metadata::tables(lines, names, values),
        lines.len() > 4 || lines[3].len() > 0,
        0 <= which < 3,
        -1 <= k < names.len(),
        k >= 0 ==> metadata::gives_part(names, values, which, k),
        forall|j: int|
            k < j < names.len() ==> !#[trigger] metadata::gives_part(names, values, which, j),
    ensures
        r matches Some(g) && Some(metadata::part(g, which)) == if k >= 0 {
            text::u64_text(values[k])
        } else {
            Some(metadata::part_assumed(which))
        },
{
    metadata::law_geometry_is_read_back(lines, cr, names, values, rest);
    metadata::law_geometry_columns(names, values, which, k);
}

/// The sizes that a geometry implies are products of its numbers.
pub proof fn law_geometry_sizes(
    g: DeviceGeometry,
    fits: bool,
    chunk_size: &mut u64,
    total_size: &mut u64,
)
    requires
        call_ensures(DeviceGeometry::check_fits, (&g,), fits),
        fits,
        call_ensures(DeviceGeometry::apply, (&g, chunk_size, total_size), ()),
    ensures
        ({
            let chunk = g.bytes_per_sector * g.sectors_per_chunk;
            let media = g.bytes_per_sector * g.total_sectors;
            &&& chunk < 0x1_0000_0000_0000_0000 && media < 0x1_0000_0000_0000_0000
            &&& chunk > 0 ==> *final(chunk_size) == chunk
            &&& chunk == 0 ==> *final(chunk_size) == *old(chunk_size)
            &&& media > 0 ==> *final(total_size) == media
            &&& media == 0 ==> *final(total_size) == *old(total_size)
        }),
{
    metadata::law_geometry_sizes(g, *old(chunk_size), *old(total_size));
}

/// A geometry is taken as fitting exactly if both products fit 64 bits.
pub proof fn law_geometry_fits(g: DeviceGeometry, fits: bool)
    requires
        call_ensures(DeviceGeometry::check_fits, (&g,), fits),
    ensures
        fits <==> g.bytes_per_sector * g.sectors_per_chunk < 0x1_0000_0000_0000_0000
            && g.bytes_per_sector * g.total_sectors < 0x1_0000_0000_0000_0000,
{
}

/// A device information section sets the sizes that its geometry implies.
pub proof fn law_device_info(raw: &[u8], chunk_size: &mut u64, total_size: &mut u64)
    requires
        call_ensures(parse::parse_ewf2_device_info, (raw, chunk_size, total_size), ()),
        DeviceGeometry::of(raw@) matches Some(g) ==> g.fits(),
    ensures
        match DeviceGeometry::of(raw@) {
            None => *final(chunk_size) == *old(chunk_size) && *final(total_size) == *old(
                total_size,
            ),
            Some(g) => {
                let chunk = g.bytes_per_sector * g.sectors_per_chunk;
                let media = g.bytes_per_sector * g.total_sectors;
                &&& chunk > 0 ==> *final(chunk_size) == chunk
                &&& chunk == 0 ==> *final(chunk_size) == *old(chunk_size)
                &&& media > 0 ==> *final(total_size) == media
                &&& media == 0 ==> *final(total_size) == *old(total_size)
            },
        },
{
}

/// Filling in a field, and completing metadata by other metadata.
pub proof fn law_metadata_operations(
    meta: &mut EwfMetadata,
    field: MetadataField,
    other_field: MetadataField,
    value: String,
    a: EwfMetadata,
    b: EwfMetadata,
    done: EwfMetadata,
)
    requires
        call_ensures(EwfMetadata::set, (meta, field, value), ()),
        call_ensures(EwfMetadata::complete_with, (a, b), done),
    ensures
        final(meta)@.get(field) == Some(value@),
        other_field != field ==> final(meta)@.get(other_field) == old(meta)@.get(other_field),
        done@.get(field) == if a@.get(field) is Some {
            a@.get(field)
        } else {
            b@.get(field)
        },
{
}

/// Numbers are written in decimal, and behind `0x` in hexadecimal, by the
/// shortest run of digits.
pub proof fn law_writing_numbers(a: &mut String, b: &mut String, n: u64)
    requires
        call_ensures(text::push_decimal, (a, n), ()),
        call_ensures(text::push_hexadecimal, (b, n), ()),
    ensures
        ({
            let x = final(a)@.skip(old(a)@.len() as int);
            let y = final(b)@.skip(old(b)@.len() as int);
            &&& final(a)@.take(old(a)@.len() as int) == old(a)@
            &&& final(b)@.take(old(b)@.len() as int) == old(b)@
            &&& numbers::value(x, 10) == Some(n as nat)
            &&& numbers::is_shortest(x)
            &&& y.len() > 2 && y[0] == '0' && y[1] == 'x'
            &&& numbers::value(y.skip(2), 16) == Some(n as nat)
            &&& numbers::is_shortest(y.skip(2))
        }),
{
    numbers::law_decimal_stands_for_the_number(n as nat);
    numbers::law_hexadecimal_stands_for_the_number(n as nat);
    assert(final(a)@.skip(old(a)@.len() as int) =~= text::decimal(n as nat));
    assert(final(b)@.skip(old(b)@.len() as int) =~= text::hexadecimal(n as nat));
    assert(final(a)@.take(old(a)@.len() as int) =~= old(a)@);
    assert(final(b)@.take(old(b)@.len() as int) =~= old(b)@);
}

/// Numbers, characters and lines are read from text as they stand there.
pub proof fn law_reading_text(
    s: &str,
    t: &str,
    chars: Vec<char>,
    number: Option<u64>,
    same: bool,
    spelt: bool,
    back: String,
    n: u64,
)
    requires
        call_ensures(text::chars_of, (s,), chars),
        call_ensures(text::parse_u64, (&chars,), number),
        call_ensures(text::same_text, (s, t), same),
        call_ensures(text::spells, (&chars, t), spelt),
        call_ensures(text::string_of, (&chars,), back),
    ensures
        chars@ == s@,
        back@ == s@,
        same <==> s@ == t@,
        spelt <==> s@ == t@,
        number == Some(n) <==> s@.len() > 0 && (numbers::value(s@, 10) == Some(n as nat) || (s@[0]
            == '+' && s@.len() > 1 && numbers::value(s@.skip(1), 10) == Some(n as nat))),
{
    numbers::law_numbers_are_decimal_digits(s@, n);
}

/// Lines are read back from text that is broken by line feeds, with or without
/// carriage returns, and text from UTF-16.
pub proof fn law_reading_lines(
    raw: &[u8],
    chars: Vec<char>,
    all: Vec<Vec<char>>,
    some: Vec<Vec<char>>,
    lines: Seq<Seq<char>>,
    cr: Seq<bool>,
    rest: Seq<u8>,
)
    requires
        call_ensures(text::decode_utf16, (raw,), chars),
        call_ensures(text::break_lines, (&chars,), all),
        call_ensures(text::split_lines, (&chars,), some),
        words::breakable(lines, cr),
        rest.len() <= 1,
        raw@ == words::encoded(words::broken(lines, cr)) + rest,
    ensures
        chars@ == words::broken(lines, cr),
        all@.len() == lines.len(),
        forall|i: int| 0 <= i < lines.len() ==> (#[trigger] all@[i])@ == lines[i],
        some@.len() == if lines.last().len() == 0 {
            lines.len() - 1
        } else {
            lines.len() as int
        },
        forall|i: int| 0 <= i < some@.len() ==> (#[trigger] some@[i])@ == lines[i],
{
    words::law_utf16_is_read_back(words::broken(lines, cr), rest);
    words::law_lines_are_read_back(lines, cr);
    let a = text::pieces(all@);
    let b = text::pieces(some@);
    assert(a == lines);
    assert(b.len() == some@.len());
    assert forall|i: int| 0 <= i < lines.len() implies (#[trigger] all@[i])@ == lines[i] by {
        assert(a[i] == all@[i]@);
    }
    assert forall|i: int| 0 <= i < some@.len() implies (#[trigger] some@[i])@ == lines[i] by {
        assert(b[i] == some@[i]@);
    }
}

/// Text is split at every separator, and nowhere else.
pub proof fn law_splitting(
    s: &Vec<char>,
    separator: char,
    r: Vec<Vec<char>>,
    parts: Seq<Seq<char>>,
)
    requires
        call_ensures(text::split_chars, (s, separator), r),
        parts.len() > 0,
        forall|i: int| 0 <= i < parts.len() ==> !(#[trigger] parts[i]).contains(separator),
        s@ == text::join(parts, separator),
    ensures
        r@.len() == parts.len(),
        forall|i: int| 0 <= i < parts.len() ==> (#[trigger] r@[i])@ == parts[i],
{
    text::law_split_undoes_join(parts, separator);
    let found = text::pieces(r@);
    assert(found == parts);
    assert forall|i: int| 0 <= i < parts.len() implies (#[trigger] r@[i])@ == parts[i] by {
        assert(found[i] == r@[i]@);
    }
}

/// The page of a chunk is what was decoded and zeros up to its size.
pub proof fn law_pages(
    data: Vec<u8>,
    wanted: usize,
    id: usize,
    size: usize,
    stored: Result<Vec<u8>, EwfError>,
    fault: Option<String>,
    inflated: Result<Vec<u8>, EwfError>,
)
    requires
        data@.len() <= size,
        call_ensures(page::page_from_stored, (data, wanted, id, size), stored),
        call_ensures(page::page_from_inflated, (Ok((data, fault)), size), inflated),
    ensures
        stored is Ok <==> data@.len() >= wanted,
        stored matches Ok(p) ==> p@.len() == size && p@.take(data@.len() as int) == data@
            && forall|j: int| data@.len() <= j < size ==> #[trigger] p@[j] == 0,
        inflated is Ok <==> data@.len() < size || fault is None,
        inflated matches Ok(p) ==> p@.len() == size && p@.take(data@.len() as int) == data@
            && forall|j: int| data@.len() <= j < size ==> #[trigger] p@[j] == 0,
        inflated matches Err(e) ==> (e matches EwfError::Decompression(m) && fault matches Some(f)
            && m@ == f@),
{
    let p = page::padded(data@, size as int);
    assert(p.take(data@.len() as int) =~= data@);
    let outcome: Result<(Vec<u8>, Option<String>), String> = Ok((data, fault));
    assert(codec::inflated_view(outcome) is Ok);
    if inflated is Err {
        let e = inflated->Err_0;
        assert(e@ is Decompression);
    }
}

/// The hashes that were computed are compared with those that are stored, each
/// with its own.
pub proof fn law_finishing_a_check(hasher: MediaHasher, v: VerifyResult)
    requires
        call_ensures(MediaHasher::finish, (hasher,), v),
    ensures
        v.computed_md5@ == codec::md5_digest(hasher.fed()),
        v.md5_match is Some <==> hasher.stored().md5 is Some,
        v.md5_match matches Some(b) ==> (hasher.stored().md5 matches Some(h) && (b <==> h@
            == v.computed_md5@)),
        v.computed_sha1 is Some <==> hasher.stored().sha1 is Some,
        v.sha1_match is Some <==> hasher.stored().sha1 is Some,
        v.sha1_match matches Some(b) ==> (hasher.stored().sha1 matches Some(h) && (
        v.computed_sha1 matches Some(c) && c@ == codec::sha1_digest(hasher.fed()) && (b <==> h@
            == c@))),
{
    media::law_hashes_are_checked_apart(
        hasher.fed(),
        crate::image::array_bytes(hasher.stored().md5),
        crate::image::array_bytes(hasher.stored().sha1),
    );
}

/// A page is hashed as far as it belongs to the media, in its place behind the
/// pages before it.
pub proof fn law_hashing_a_page(hasher: &mut MediaHasher, page: &[u8])
    requires
        call_ensures(MediaHasher::absorb, (hasher, page), ()),
    ensures
        final(hasher).stored() == old(hasher).stored(),
        page@.len() <= old(hasher).left() ==> final(hasher).fed() == old(hasher).fed() + page@
            && final(hasher).left() == old(hasher).left() - page@.len(),
        page@.len() > old(hasher).left() ==> final(hasher).fed() == old(hasher).fed() + page@.take(
            old(hasher).left() as int,
        ) && final(hasher).left() == 0,
{
    assert(page@.take(page@.len() as int) =~= page@);
}

/// A check starts with nothing hashed and the whole media ahead.
pub proof fn law_starting_a_check(
    hashes: crate::types::StoredHashes,
    total: u64,
    hasher: MediaHasher,
)
    requires
        call_ensures(MediaHasher::new, (hashes, total), hasher),
    ensures
        hasher.fed().len() == 0,
        hasher.left() == total,
        hasher.stored() == hashes,
{
}

/// An image is completed by the rules of its version.
pub proof fn law_completing(image: EwfImage, r: Result<EwfImage, EwfError>)
    requires
        call_ensures(open::complete, (Version::V1, image), r),
    ensures
        r is Ok <==> image.chunk_size > 0,
        r matches Ok(after) ==> after.chunk_size == image.chunk_size && after.total_size
            == image.total_size && after.chunks@ == image.chunks@ && after@.md5 == image@.md5
            && after@.sha1 == image@.sha1,
        r matches Err(e) ==> e is MissingVolume,
{
    opening::law_version_1_is_completed(image@);
    assert(error::viewed(r) == open::completed(Version::V1, image@));
    if r is Ok {
        let after = r->Ok_0;
        assert(after@ == open::completed(Version::V1, image@)->Ok_0);
        assert(after@.chunks == after.chunks@);
    }
}

/// An image says how much of a read it has, and whether its chunks hold it.
pub proof fn law_image_reads(image: EwfImage, offset: u64, len: usize, n: usize, covered: bool)
    requires
        image.chunk_size > 0,
        call_ensures(EwfImage::available, (&image, offset, len), n),
        call_ensures(EwfImage::covers, (&image, offset, len), covered),
    ensures
        offset >= image.total_size ==> n == 0,
        offset < image.total_size && len <= image.total_size - offset ==> n == len,
        offset < image.total_size && len > image.total_size - offset ==> n == image.total_size
            - offset,
        covered <==> n == 0 || offset + n <= image.chunks@.len() * image.chunk_size,
{
    media::law_covered_reads(image@, offset as int, len as int);
    assert(image@.chunks == image.chunks@);
}

/// Section data that begins like a compressed stream is decompressed, and all
/// other data is left as it is.
pub proof fn law_section_data(raw: Vec<u8>, r: Result<Vec<u8>, EwfError>)
    requires
        call_ensures(v2::maybe_zlib_decompress, (raw,), r),
    ensures
        raw@.len() < 2 || raw@[0] != 0x78 ==> (r matches Ok(v) && v@ == raw@),
        raw@.len() >= 2 && raw@[0] == 0x78 ==> match codec::inflated(raw@, 10_000_000) {
            Ok((plain, _)) => r matches Ok(v) && v@ == plain,
            Err(m) => r matches Err(EwfError::Parse(e)) && e@ == "EWF2 zlib decompress failed: "@
                + m,
        },
{
    assert(error::viewed(r) == v2::plain_bytes(raw@));
    if r is Err {
        lemma_short_view(r->Err_0);
    }
}

/// Segments are put in the places of their numbers, or the first number that is
/// out of place is told.
pub proof fn law_reordering<T>(
    items: Vec<T>,
    given: Vec<u32>,
    r: Result<Vec<T>, EwfError>,
    order: Result<Vec<usize>, EwfError>,
)
    requires
        items@.len() >= given@.len(),
        call_ensures(segments::validate_and_reorder_segments::<T>, (items, given), r),
        call_ensures(segments::order_segments, (given,), order),
    ensures
        r is Ok <==> segments::numbering_fault(given@) is None,
        order is Ok <==> segments::numbering_fault(given@) is None,
        r matches Ok(v) ==> v@.len() == given@.len() && forall|k: int|
            0 <= k < given@.len() ==> 1 <= #[trigger] given@[k] <= v@.len() && v@[given@[k] - 1]
                == items@[k],
        order matches Ok(v) ==> v@.len() == given@.len() && forall|p: int|
            0 <= p < v@.len() ==> (#[trigger] v@[p]) < given@.len() && given@[v@[p] as int]
                == p + 1,
        r matches Err(e) ==> segments::numbering_fault(given@) == Some(e@),
        order matches Err(e) ==> segments::numbering_fault(given@) == Some(e@),
{
    if order is Ok {
        let v = order->Ok_0;
        open::lemma_faultless_numbers_differ(given@);
        assert forall|p: int| 0 <= p < v@.len() implies (#[trigger] v@[p]) < given@.len()
            && given@[v@[p] as int] == p + 1 by {
            assert(given@.contains(segments::number_at(p)));
            let k = given@.index_of(segments::number_at(p));
            assert(given@[k] == segments::number_at(p));
            assert(v@[p] == segments::segment_order(given@)[p]);
        }
    }
}

/// Files that were found are taken in the order of their extensions, and none
/// found is an error that names the image.
pub proof fn law_ordering_files(
    first: String,
    found: Vec<String>,
    extensions: Vec<String>,
    r: Result<Vec<String>, EwfError>,
    order: Vec<usize>,
)
    requires
        found@.len() == extensions@.len(),
        call_ensures(segments::order_found::<String>, (first, found, extensions), r),
        call_ensures(segments::order_by_extension, (&extensions,), order),
    ensures
        r is Err <==> found@.len() == 0,
        r matches Err(e) ==> (e matches EwfError::NoSegments(m) && m@ == first@),
        r matches Ok(v) ==> v@.len() == found@.len() && exists|o: Seq<usize>| #[trigger]
            segments::sorts(extensions@, o) && forall|j: int|
                0 <= j < o.len() ==> #[trigger] v@[j] == found@[o[j] as int],
        segments::sorts(extensions@, order@),
{
    if r is Err {
        let e = r->Err_0;
        assert(e@ is NoSegments);
    }
}

/// The patterns of the segment files come as two: digits first, then letters.
pub proof fn law_patterns(
    directory: &str,
    stem: &str,
    extension: &str,
    r: Vec<String>,
    parent: Option<String>,
    dir: String,
)
    requires
        extension@.len() > 0,
        call_ensures(segments::segment_patterns, (directory, stem, extension), r),
        call_ensures(segments::directory_of, (parent,), dir),
    ensures
        r@.len() == 2,
        r@[0]@ == segments::segment_pattern(directory@, stem@, extension@, false),
        r@[1]@ == segments::segment_pattern(directory@, stem@, extension@, true),
        parent matches Some(p) ==> (p@.len() > 0 ==> dir@ == p@),
        parent matches Some(p) ==> (p@.len() == 0 ==> dir@ == "."@),
        parent is None ==> dir@ == "."@,
{
}

/// The segment files of a path are looked for in the directory that it names.
pub proof fn law_segment_directories(path: &str, dir: String, parts: Seq<Seq<char>>)
    requires
        call_ensures(segments::segment_dir, (path,), dir),
        parts.len() > 0,
        parts.len() == 1 ==> parts[0].len() > 0,
        forall|i: int|
            0 <= i < parts.len() ==> !(#[trigger] parts[i]).contains('/') && !parts[i].contains(
                '\\',
            ) && !parts[i].contains(':'),
        forall|i: int|
            1 <= i < parts.len() ==> (#[trigger] parts[i]).len() > 0 && parts[i] != seq!['.'],
        path@ == text::join(parts, '/'),
    ensures
        parts.len() == 1 ==> dir@ == "."@,
        parts.len() == 2 && parts[0].len() == 0 ==> dir@ == seq!['/'],
        parts.len() == 2 && parts[0].len() > 0 ==> dir@ == parts[0],
        parts.len() > 2 ==> dir@ == text::join(parts.drop_last(), '/'),
{
    crate::laws::naming::law_directories(parts);
}

/// What is said of an error is its text.
pub proof fn law_error_texts(e: EwfError, m: String, short: EwfError)
    requires
        call_ensures(EwfError::message, (&e,), m),
        call_ensures(error::short_read_error, (), short),
    ensures
        m@ == e@.message(),
        short matches EwfError::Io(io) && io.kind == error::IoErrorKind::UnexpectedEof
            && io.message@ == "failed to fill whole buffer"@,
{
}

/// A version 2 image is completed by the sizes that it falls back on.
pub proof fn law_completing_version_2(image: EwfImage, r: Result<EwfImage, EwfError>)
    requires
        call_ensures(open::complete, (Version::V2, image), r),
    ensures
        r is Ok <==> image.chunk_size <= 134_217_728 && image.chunks@.len() <= 67_108_864,
        r matches Ok(after) ==> {
            &&& after.chunk_size == if image.chunk_size > 0 {
                image.chunk_size
            } else {
                32_768
            }
            &&& after.total_size == if image.total_size > 0 {
                image.total_size as int
            } else {
                image.chunks@.len() * after.chunk_size
            }
            &&& after.chunks@ == image.chunks@
            &&& after@.md5 == image@.md5
            &&& after@.sha1 == image@.sha1
            &&& after@.metadata == image@.metadata
        },
{
    opening::law_version_2_is_completed(image@);
    assert(image@.chunks == image.chunks@);
    assert(error::viewed(r) == open::completed(Version::V2, image@));
    if r is Ok {
        let after = r->Ok_0;
        assert(after@.chunks == after.chunks@);
    }
}

/// Header data that decompressed is taken in as text, and data that did not
/// changes nothing.
pub proof fn law_taking_header_data(
    data: Result<(Vec<u8>, Option<String>), String>,
    image: EwfImage,
    a: EwfImage,
    b: EwfImage,
)
    requires
        call_ensures(v1::take_header_data, (data, image), a),
        call_ensures(v1::take_header2_data, (data, image), b),
    ensures
        data is Err ==> a@ == image@ && b@ == image@,
        data matches Ok((plain, _)) ==> {
            &&& a@ == (EwfImageView {
                metadata: parse::header_text_metadata(
                    image@.metadata,
                    codec::utf8_lossy(plain@),
                ),
                ..image@
            })
            &&& b@ == (EwfImageView {
                header2: parse::header_text_metadata(image@.header2, text::utf16_text(plain@)),
                ..image@
            })
        },
{
    let view = codec::inflated_view(data);
    assert(a@ == v1::header_data_applied(view, image@));
    assert(b@ == v1::header2_data_applied(view, image@));
}

/// Section data that decompressed is taken as it is, and the error of data that
/// did not says so.
pub proof fn law_taking_section_data(
    data: Result<(Vec<u8>, Option<String>), String>,
    r: Result<Vec<u8>, EwfError>,
)
    requires
        call_ensures(v2::take_inflated, (data,), r),
    ensures
        data matches Ok((plain, _)) ==> (r matches Ok(v) && v@ == plain@),
        data matches Err(m) ==> (r matches Err(EwfError::Parse(e)) && e@
            == "EWF2 zlib decompress failed: "@ + m@),
{
    let view = codec::inflated_view(data);
    assert(error::viewed(r) == v2::inflated_bytes(view));
    if r is Err {
        lemma_short_view(r->Err_0);
    }
}

} // verus!
