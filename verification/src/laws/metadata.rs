//! What the sections of an image say of the acquisition.

use vstd::prelude::*;
use crate::laws::numbers;
use crate::laws::words;
use crate::parse;
use crate::parse::{DeviceGeometry, FieldCodes};
use crate::text;
use crate::types::{AcquisitionError, EwfMetadataView, MetadataField};

verus! {

/// A list of acquisition errors as it is stored, one pair of numbers after the
/// other.
pub open spec fn stored_errors(errors: Seq<AcquisitionError>) -> Seq<u8>
    decreases errors.len(),
{
    if errors.len() == 0 {
        Seq::empty()
    } else {
        stored_errors(errors.drop_last()) + numbers::little(
            errors.last().first_sector as nat,
            4,
        ) + numbers::little(errors.last().sector_count as nat, 4)
    }
}

proof fn lemma_four_bytes(n: nat)
    ensures
        numbers::little(n, 4).len() == 4,
{
    reveal_with_fuel(numbers::little, 5);
}

proof fn lemma_stored_errors(errors: Seq<AcquisitionError>, i: int)
    requires
        0 <= i < errors.len(),
    ensures
        stored_errors(errors).len() == 8 * errors.len(),
        numbers::has_number(stored_errors(errors), 8 * i, errors[i].first_sector as nat, 4),
        numbers::has_number(stored_errors(errors), 8 * i + 4, errors[i].sector_count as nat, 4),
    decreases errors.len(),
{
    let s = stored_errors(errors);
    let before = stored_errors(errors.drop_last());
    let a = numbers::little(errors.last().first_sector as nat, 4);
    let b = numbers::little(errors.last().sector_count as nat, 4);
    lemma_four_bytes(errors.last().first_sector as nat);
    lemma_four_bytes(errors.last().sector_count as nat);
    assert(s == before + a + b);
    if errors.len() > 1 {
        lemma_stored_errors(errors.drop_last(), 0);
    }
    if i < errors.len() - 1 {
        lemma_stored_errors(errors.drop_last(), i);
        assert(errors.drop_last()[i] == errors[i]);
        assert(s.subrange(8 * i, 8 * i + 4) =~= before.subrange(8 * i, 8 * i + 4));
        assert(s.subrange(8 * i + 4, 8 * i + 8) =~= before.subrange(8 * i + 4, 8 * i + 8));
    } else {
        assert(s.subrange(8 * i, 8 * i + 4) =~= a);
        assert(s.subrange(8 * i + 4, 8 * i + 8) =~= b);
    }
}

/// Acquisition errors are read back as they were written: their number, four
/// bytes of padding, and for each of them its first sector and the number of
/// its sectors, whatever follows. Where more are announced than there are, those
/// that are there are read.
pub proof fn law_acquisition_errors_are_read_back(
    errors: Seq<AcquisitionError>,
    announced: u32,
    padding: Seq<u8>,
    rest: Seq<u8>,
)
    requires
        padding.len() == 4,
        errors.len() == announced || (errors.len() < announced && rest.len() < 8),
    ensures
        parse::error2_entries(
            numbers::little(announced as nat, 4) + padding + stored_errors(errors) + rest,
        ) == errors,
{
    let count = numbers::little(announced as nat, 4);
    let stored = stored_errors(errors);
    let data = count + padding + stored + rest;
    lemma_four_bytes(announced as nat);
    if errors.len() > 0 {
        lemma_stored_errors(errors, 0);
    }
    assert(data.len() == 8 + 8 * errors.len() + rest.len());
    assert(data.subrange(0, 4) =~= count);
    numbers::law_u32_is_read_back(data, 0, announced);
    let read = parse::error2_entries(data);
    assert(read.len() == errors.len());
    assert forall|i: int| 0 <= i < errors.len() implies #[trigger] read[i] == errors[i] by {
        lemma_stored_errors(errors, i);
        assert(data.subrange(8 + 8 * i, 12 + 8 * i) =~= stored.subrange(8 * i, 8 * i + 4));
        assert(data.subrange(12 + 8 * i, 16 + 8 * i) =~= stored.subrange(8 * i + 4, 8 * i + 8));
        numbers::law_u32_is_read_back(data, 8 + 8 * i, errors[i].first_sector);
        numbers::law_u32_is_read_back(data, 12 + 8 * i, errors[i].sector_count);
    }
    assert(read =~= errors);
}

/// Data that has no room for a count and its padding holds no errors.
pub proof fn law_short_error_data_holds_none(data: Seq<u8>)
    requires
        data.len() < 8,
    ensures
        parse::error2_entries(data).len() == 0,
{
}

/// Each field has a place of its own.
pub proof fn law_fields_have_their_places(meta: EwfMetadataView, field: MetadataField)
    ensures
        meta.get(MetadataField::CaseNumber) == meta.case_number,
        meta.get(MetadataField::EvidenceNumber) == meta.evidence_number,
        meta.get(MetadataField::Description) == meta.description,
        meta.get(MetadataField::Examiner) == meta.examiner,
        meta.get(MetadataField::Notes) == meta.notes,
        meta.get(MetadataField::AcquirySoftware) == meta.acquiry_software,
        meta.get(MetadataField::OsVersion) == meta.os_version,
        meta.get(MetadataField::AcquiryDate) == meta.acquiry_date,
        meta.get(MetadataField::SystemDate) == meta.system_date,
        EwfMetadataView::blank().get(field) is None,
{
}

/// Filling in a field gives it its value and leaves all others as they are.
pub proof fn law_filling_in_a_field(
    meta: EwfMetadataView,
    field: MetadataField,
    other: MetadataField,
    value: Seq<char>,
)
    ensures
        meta.with(field, value).get(field) == Some(value),
        other != field ==> meta.with(field, value).get(other) == meta.get(other),
{
}

/// Completing metadata keeps what is known and fills in the rest.
pub proof fn law_completing_metadata(
    meta: EwfMetadataView,
    other: EwfMetadataView,
    field: MetadataField,
)
    ensures
        meta.get(field) is Some ==> meta.completed_by(other).get(field) == meta.get(field),
        meta.get(field) is None ==> meta.completed_by(other).get(field) == other.get(field),
{
}

/// The codes of the columns of a version 1 header.
pub proof fn law_header_codes(code: Seq<char>)
    ensures
        ({
            let field = FieldCodes::Header.field(code);
            &&& field == Some(MetadataField::CaseNumber) <==> code == "c"@
            &&& field == Some(MetadataField::EvidenceNumber) <==> code == "n"@
            &&& field == Some(MetadataField::Description) <==> code == "a"@
            &&& field == Some(MetadataField::Examiner) <==> code == "e"@
            &&& field == Some(MetadataField::Notes) <==> code == "t"@
            &&& field == Some(MetadataField::AcquirySoftware) <==> code == "av"@
            &&& field == Some(MetadataField::OsVersion) <==> code == "ov"@
            &&& field == Some(MetadataField::AcquiryDate) <==> code == "m"@
            &&& field == Some(MetadataField::SystemDate) <==> code == "u"@
        }),
{
    reveal_strlit("c");
    reveal_strlit("n");
    reveal_strlit("a");
    reveal_strlit("e");
    reveal_strlit("t");
    reveal_strlit("av");
    reveal_strlit("ov");
    reveal_strlit("m");
    reveal_strlit("u");
    if code.len() == 1 {
        assert("c"@[0] == 'c' && "n"@[0] == 'n' && "a"@[0] == 'a' && "e"@[0] == 'e' && "t"@[0]
            == 't' && "m"@[0] == 'm' && "u"@[0] == 'u');
    } else if code.len() == 2 {
        assert("av"@[0] == 'a' && "ov"@[0] == 'o');
    }
}

/// The codes of the columns of version 2 case data.
pub proof fn law_case_data_codes(code: Seq<char>)
    ensures
        ({
            let field = FieldCodes::CaseData.field(code);
            &&& field == Some(MetadataField::CaseNumber) <==> code == "cn"@
            &&& field == Some(MetadataField::EvidenceNumber) <==> code == "en"@
            &&& field == Some(MetadataField::Examiner) <==> code == "ex"@
            &&& field == Some(MetadataField::Description) <==> code == "de"@
            &&& field == Some(MetadataField::Notes) <==> code == "nt"@
            &&& field == Some(MetadataField::AcquirySoftware) <==> code == "av"@
            &&& field == Some(MetadataField::OsVersion) <==> code == "ov"@
            &&& field == Some(MetadataField::AcquiryDate) <==> code == "ad"@
            &&& field == Some(MetadataField::SystemDate) <==> code == "sd"@
        }),
{
    reveal_strlit("cn");
    reveal_strlit("en");
    reveal_strlit("ex");
    reveal_strlit("de");
    reveal_strlit("nt");
    reveal_strlit("av");
    reveal_strlit("ov");
    reveal_strlit("ad");
    reveal_strlit("sd");
    assert("cn"@[0] == 'c' && "en"@[0] == 'e' && "en"@[1] == 'n' && "ex"@[0] == 'e' && "ex"@[1]
        == 'x' && "de"@[0] == 'd' && "nt"@[0] == 'n' && "av"@[0] == 'a' && "av"@[1] == 'v'
        && "ov"@[0] == 'o' && "ad"@[0] == 'a' && "ad"@[1] == 'd' && "sd"@[0] == 's');
}

/// Whether column `j` gives a value to the field.
pub open spec fn gives(
    codes: FieldCodes,
    names: Seq<Seq<char>>,
    values: Seq<Seq<char>>,
    field: MetadataField,
    j: int,
) -> bool {
    j < values.len() && values[j].len() > 0 && codes.field(names[j]) == Some(field)
}

/// A field takes the value of the last column that gives it one. Where none
/// does, it stays as it is.
pub proof fn law_last_column_counts(
    meta: EwfMetadataView,
    codes: FieldCodes,
    names: Seq<Seq<char>>,
    values: Seq<Seq<char>>,
    field: MetadataField,
    k: int,
)
    requires
        -1 <= k < names.len(),
        k >= 0 ==> gives(codes, names, values, field, k),
        forall|j: int|
            k < j < names.len() ==> !#[trigger] gives(codes, names, values, field, j),
    ensures
        parse::filled(meta, codes, names, values, names.len()).get(field) == if k >= 0 {
            Some(values[k])
        } else {
            meta.get(field)
        },
{
    lemma_filled(meta, codes, names, values, field, k, names.len());
}

proof fn lemma_filled(
    meta: EwfMetadataView,
    codes: FieldCodes,
    names: Seq<Seq<char>>,
    values: Seq<Seq<char>>,
    field: MetadataField,
    k: int,
    n: nat,
)
    requires
        -1 <= k < n <= names.len() || (k == -1 && n == 0),
        k >= 0 ==> gives(codes, names, values, field, k),
        forall|j: int| k < j < n ==> !#[trigger] gives(codes, names, values, field, j),
    ensures
        parse::filled(meta, codes, names, values, n).get(field) == if k >= 0 {
            Some(values[k])
        } else {
            meta.get(field)
        },
    decreases n,
{
    if n > 0 && k < n - 1 {
        lemma_filled(meta, codes, names, values, field, k, (n - 1) as nat);
        assert(!gives(codes, names, values, field, n - 1));
    }
}

/// Whether `lines` name these columns and give them these values, behind two
/// other lines.
pub open spec fn tables(
    lines: Seq<Seq<char>>,
    names: Seq<Seq<char>>,
    values: Seq<Seq<char>>,
) -> bool {
    &&& lines.len() >= 4
    &&& names.len() > 0
    &&& values.len() > 0
    &&& forall|i: int| 0 <= i < names.len() ==> !(#[trigger] names[i]).contains('\t')
    &&& forall|i: int| 0 <= i < values.len() ==> !(#[trigger] values[i]).contains('\t')
    &&& lines[2] == text::join(names, '\t')
    &&& lines[3] == text::join(values, '\t')
}

/// The text of a header is read back: its third line names the columns, its
/// fourth gives their values, and both are separated by tabs. In a `header2`
/// section the same text stands in UTF-16.
pub proof fn law_header_text_is_read_back(
    meta: EwfMetadataView,
    lines: Seq<Seq<char>>,
    cr: Seq<bool>,
    names: Seq<Seq<char>>,
    values: Seq<Seq<char>>,
    rest: Seq<u8>,
)
    requires
        words::breakable(lines, cr),
        rest.len() <= 1,
    ensures
        lines.len() < 4 ==> parse::header_text_metadata(meta, words::broken(lines, cr)) == meta,
        tables(lines, names, values) ==> parse::header_text_metadata(
            meta,
            words::broken(lines, cr),
        ) == parse::filled(meta, FieldCodes::Header, names, values, names.len()),
        parse::header2_metadata(meta, words::encoded(words::broken(lines, cr)) + rest)
            == parse::header_text_metadata(meta, words::broken(lines, cr)),
{
    words::law_lines_are_read_back(lines, cr);
    words::law_utf16_is_read_back(words::broken(lines, cr), rest);
    if tables(lines, names, values) {
        text::law_split_undoes_join(names, '\t');
        text::law_split_undoes_join(values, '\t');
    }
}

/// Case data is read back in the same way from UTF-16 text, where an empty line
/// at the end does not count.
pub proof fn law_case_data_is_read_back(
    meta: EwfMetadataView,
    lines: Seq<Seq<char>>,
    cr: Seq<bool>,
    names: Seq<Seq<char>>,
    values: Seq<Seq<char>>,
    rest: Seq<u8>,
)
    requires
        words::breakable(lines, cr),
        rest.len() <= 1,
    ensures
        ({
            let data = words::encoded(words::broken(lines, cr)) + rest;
            let read = parse::case_data_metadata(meta, data);
            &&& lines.len() < 4 || (lines.len() == 4 && lines[3].len() == 0) ==> read == meta
            &&& tables(lines, names, values) && (lines.len() > 4 || lines[3].len() > 0) ==> read
                == parse::filled(meta, FieldCodes::CaseData, names, values, names.len())
        }),
{
    words::law_lines_are_read_back(lines, cr);
    words::law_utf16_is_read_back(words::broken(lines, cr), rest);
    if tables(lines, names, values) {
        text::law_split_undoes_join(names, '\t');
        text::law_split_undoes_join(values, '\t');
    }
}

/// The numbers of a geometry: sector size, sectors per chunk, and sectors.
pub open spec fn part(g: DeviceGeometry, which: int) -> u64 {
    if which == 0 {
        g.bytes_per_sector
    } else if which == 1 {
        g.sectors_per_chunk
    } else {
        g.total_sectors
    }
}

/// The name of the column for each of them.
pub open spec fn part_name(which: int) -> Seq<char> {
    if which == 0 {
        "b"@
    } else if which == 1 {
        "sc"@
    } else {
        "ts"@
    }
}

/// What each of them is where no column gives it.
pub open spec fn part_assumed(which: int) -> u64 {
    if which == 0 {
        512
    } else if which == 1 {
        64
    } else {
        0
    }
}

/// Whether column `j` gives a number for one of them.
pub open spec fn gives_part(
    names: Seq<Seq<char>>,
    values: Seq<Seq<char>>,
    which: int,
    j: int,
) -> bool {
    j < values.len() && names[j] == part_name(which) && text::u64_text(values[j]) is Some
}

/// Each number of a geometry is that of the last column that gives it. Without
/// one, sectors are of 512 bytes and chunks of 64 sectors, and the number of
/// sectors is zero.
pub proof fn law_geometry_columns(
    names: Seq<Seq<char>>,
    values: Seq<Seq<char>>,
    which: int,
    k: int,
)
    requires
        0 <= which < 3,
        -1 <= k < names.len(),
        k >= 0 ==> gives_part(names, values, which, k),
        forall|j: int| k < j < names.len() ==> !#[trigger] gives_part(names, values, which, j),
    ensures
        Some(part(DeviceGeometry::from_columns(names, values, names.len()), which)) == if k >= 0 {
            text::u64_text(values[k])
        } else {
            Some(part_assumed(which))
        },
{
    lemma_geometry(names, values, which, k, names.len());
}

proof fn lemma_geometry(
    names: Seq<Seq<char>>,
    values: Seq<Seq<char>>,
    which: int,
    k: int,
    n: nat,
)
    requires
        0 <= which < 3,
        -1 <= k < n <= names.len() || (k == -1 && n == 0),
        k >= 0 ==> gives_part(names, values, which, k),
        forall|j: int| k < j < n ==> !#[trigger] gives_part(names, values, which, j),
    ensures
        Some(part(DeviceGeometry::from_columns(names, values, n), which)) == if k >= 0 {
            text::u64_text(values[k])
        } else {
            Some(part_assumed(which))
        },
    decreases n,
{
    reveal_strlit("b");
    reveal_strlit("sc");
    reveal_strlit("ts");
    assert("sc"@[0] == 's' && "ts"@[0] == 't');
    if n > 0 && k < n - 1 {
        lemma_geometry(names, values, which, k, (n - 1) as nat);
        assert(!gives_part(names, values, which, n - 1));
    }
}

/// A device information section is read back: UTF-16 text whose third line
/// names the columns and whose fourth gives their values. Fewer lines give no
/// geometry.
pub proof fn law_geometry_is_read_back(
    lines: Seq<Seq<char>>,
    cr: Seq<bool>,
    names: Seq<Seq<char>>,
    values: Seq<Seq<char>>,
    rest: Seq<u8>,
)
    requires
        words::breakable(lines, cr),
        rest.len() <= 1,
    ensures
        ({
            let data = words::encoded(words::broken(lines, cr)) + rest;
            &&& lines.len() < 4 || (lines.len() == 4 && lines[3].len() == 0) ==> DeviceGeometry::of(
                data,
            ) is None
            &&& tables(lines, names, values) && (lines.len() > 4 || lines[3].len() > 0)
                ==> DeviceGeometry::of(data) == Some(
                DeviceGeometry::from_columns(names, values, names.len()),
            )
        }),
{
    words::law_lines_are_read_back(lines, cr);
    words::law_utf16_is_read_back(words::broken(lines, cr), rest);
    if tables(lines, names, values) {
        text::law_split_undoes_join(names, '\t');
        text::law_split_undoes_join(values, '\t');
    }
}

/// The sizes that a geometry implies are products of its numbers. A product of
/// zero implies nothing.
pub proof fn law_geometry_sizes(g: DeviceGeometry, chunk_size: u64, total_size: u64)
    ensures
        ({
            let chunk = g.bytes_per_sector * g.sectors_per_chunk;
            let media = g.bytes_per_sector * g.total_sectors;
            &&& g.fits() <==> chunk < 0x1_0000_0000_0000_0000 && media < 0x1_0000_0000_0000_0000
            &&& g.fits() && chunk > 0 ==> g.chunk_size_over(chunk_size) == chunk
            &&& chunk == 0 ==> g.chunk_size_over(chunk_size) == chunk_size
            &&& g.fits() && media > 0 ==> g.total_size_over(total_size) == media
            &&& media == 0 ==> g.total_size_over(total_size) == total_size
        }),
{
}

} // verus!
