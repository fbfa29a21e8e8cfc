//! The text and list sections of an image: header text, case data, device
//! information, and acquisition errors.

use vstd::prelude::*;
use crate::bytes;
use crate::bytes::read_u32;
use crate::text;
use crate::text::{break_lines, chars_of, decode_utf16, parse_u64, spells, split_chars, split_lines,
    string_of};
use crate::types::{AcquisitionError, EwfMetadata, EwfMetadataView, MetadataField};

verus! {

/// The entries of an `error2` section: a count, four bytes of padding, and
/// eight bytes per entry. Entries that the data has no room for are left out.
pub open spec fn error2_entries(data: Seq<u8>) -> Seq<AcquisitionError> {
    if data.len() < 8 {
        Seq::empty()
    } else {
        let room = (data.len() - 8) / 8;
        let count = bytes::le32(data, 0);
        Seq::new(
            (if count < room { count } else { room }) as nat,
            |i: int|
                AcquisitionError {
                    first_sector: bytes::le32(data, 8 + 8 * i) as u32,
                    sector_count: bytes::le32(data, 12 + 8 * i) as u32,
                },
        )
    }
}

/// Reads the entries of an `error2` section.
#[must_use]
pub fn parse_error2_data(data: &[u8]) -> (r: Vec<AcquisitionError>)
    ensures
        r@ == error2_entries(data@),
{
    let mut errors: Vec<AcquisitionError> = Vec::new();
    if data.len() < 8 {
        return errors;
    }
    let room: usize = (data.len() - 8) / 8;
    let declared: u32 = read_u32(data, 0);
    let count: usize = if (declared as u64) < room as u64 {
        declared as usize
    } else {
        room
    };
    let mut i: usize = 0;
    while i < count
        invariant
            i <= count,
            count <= room,
            8 + 8 * room <= data.len() == data@.len(),
            errors@.len() == i,
            forall|k: int|
                0 <= k < i ==> #[trigger] errors@[k] == (AcquisitionError {
                    first_sector: bytes::le32(data@, 8 + 8 * k) as u32,
                    sector_count: bytes::le32(data@, 12 + 8 * k) as u32,
                }),
        decreases count - i,
    {
        let at: usize = 8 + 8 * i;
        errors.push(
            AcquisitionError {
                first_sector: read_u32(data, at),
                sector_count: read_u32(data, at + 4),
            },
        );
        i += 1;
    }
    assert(errors@ =~= error2_entries(data@));
    errors
}

/// The two tables of field codes that head the columns of metadata text.
#[derive(Debug, Clone, Copy, PartialEq, Eq, Structural)]
pub enum FieldCodes {
    /// The codes of a version 1 `header` section.
    Header,
    /// The codes of a version 2 case data section.
    CaseData,
}

impl FieldCodes {
    /// The metadata field that a column code names.
    pub open spec fn field(self, code: Seq<char>) -> Option<MetadataField> {
        match self {
            FieldCodes::Header => if code == "c"@ {
                Some(MetadataField::CaseNumber)
            } else if code == "n"@ {
                Some(MetadataField::EvidenceNumber)
            } else if code == "a"@ {
                Some(MetadataField::Description)
            } else if code == "e"@ {
                Some(MetadataField::Examiner)
            } else if code == "t"@ {
                Some(MetadataField::Notes)
            } else if code == "av"@ {
                Some(MetadataField::AcquirySoftware)
            } else if code == "ov"@ {
                Some(MetadataField::OsVersion)
            } else if code == "m"@ {
                Some(MetadataField::AcquiryDate)
            } else if code == "u"@ {
                Some(MetadataField::SystemDate)
            } else {
                None
            },
            FieldCodes::CaseData => if code == "cn"@ {
                Some(MetadataField::CaseNumber)
            } else if code == "en"@ {
                Some(MetadataField::EvidenceNumber)
            } else if code == "ex"@ {
                Some(MetadataField::Examiner)
            } else if code == "de"@ {
                Some(MetadataField::Description)
            } else if code == "nt"@ {
                Some(MetadataField::Notes)
            } else if code == "av"@ {
                Some(MetadataField::AcquirySoftware)
            } else if code == "ov"@ {
                Some(MetadataField::OsVersion)
            } else if code == "ad"@ {
                Some(MetadataField::AcquiryDate)
            } else if code == "sd"@ {
                Some(MetadataField::SystemDate)
            } else {
                None
            },
        }
    }

    fn lookup(self, code: &Vec<char>) -> (r: Option<MetadataField>)
        ensures
            r == self.field(code@),
    {
        match self {
            FieldCodes::Header => if spells(code, "c") {
                Some(MetadataField::CaseNumber)
            } else if spells(code, "n") {
                Some(MetadataField::EvidenceNumber)
            } else if spells(code, "a") {
                Some(MetadataField::Description)
            } else if spells(code, "e") {
                Some(MetadataField::Examiner)
            } else if spells(code, "t") {
                Some(MetadataField::Notes)
            } else if spells(code, "av") {
                Some(MetadataField::AcquirySoftware)
            } else if spells(code, "ov") {
                Some(MetadataField::OsVersion)
            } else if spells(code, "m") {
                Some(MetadataField::AcquiryDate)
            } else if spells(code, "u") {
                Some(MetadataField::SystemDate)
            } else {
                None
            },
            FieldCodes::CaseData => if spells(code, "cn") {
                Some(MetadataField::CaseNumber)
            } else if spells(code, "en") {
                Some(MetadataField::EvidenceNumber)
            } else if spells(code, "ex") {
                Some(MetadataField::Examiner)
            } else if spells(code, "de") {
                Some(MetadataField::Description)
            } else if spells(code, "nt") {
                Some(MetadataField::Notes)
            } else if spells(code, "av") {
                Some(MetadataField::AcquirySoftware)
            } else if spells(code, "ov") {
                Some(MetadataField::OsVersion)
            } else if spells(code, "ad") {
                Some(MetadataField::AcquiryDate)
            } else if spells(code, "sd") {
                Some(MetadataField::SystemDate)
            } else {
                None
            },
        }
    }
}

/// `meta` after the first `n` columns: from left to right, every column with a
/// known code and a value that is not empty fills its field.
pub open spec fn filled(
    meta: EwfMetadataView,
    codes: FieldCodes,
    names: Seq<Seq<char>>,
    values: Seq<Seq<char>>,
    n: nat,
) -> EwfMetadataView
    decreases n,
{
    if n == 0 {
        meta
    } else {
        let before = filled(meta, codes, names, values, (n - 1) as nat);
        let i = n - 1;
        if i < values.len() && values[i].len() > 0 {
            match codes.field(names[i]) {
                Some(field) => before.with(field, values[i]),
                None => before,
            }
        } else {
            before
        }
    }
}

/// `meta` after metadata text that has been broken into `lines`: the third
/// line names the columns and the fourth gives their values, both separated by
/// tabs. Fewer than four lines change nothing.
pub open spec fn metadata_of(
    meta: EwfMetadataView,
    codes: FieldCodes,
    lines: Seq<Seq<char>>,
) -> EwfMetadataView {
    if lines.len() < 4 {
        meta
    } else {
        let names = text::split(lines[2], '\t');
        let values = text::split(lines[3], '\t');
        filled(meta, codes, names, values, names.len())
    }
}

fn fill_metadata(codes: FieldCodes, lines: &Vec<Vec<char>>, meta: &mut EwfMetadata)
    ensures
        final(meta)@ == metadata_of(old(meta)@, codes, text::pieces(lines@)),
{
    if lines.len() < 4 {
        return;
    }
    let names: Vec<Vec<char>> = split_chars(&lines[2], '\t');
    let values: Vec<Vec<char>> = split_chars(&lines[3], '\t');
    let ghost name_texts = text::pieces(names@);
    let ghost value_texts = text::pieces(values@);
    let mut i: usize = 0;
    while i < names.len()
        invariant
            i <= names@.len(),
            name_texts == text::pieces(names@),
            value_texts == text::pieces(values@),
            meta@ == filled(old(meta)@, codes, name_texts, value_texts, i as nat),
        decreases names@.len() - i,
    {
        if i < values.len() && values[i].len() > 0 {
            assert(values@[i as int]@ == value_texts[i as int]);
            match codes.lookup(&names[i]) {
                Some(field) => {
                    meta.set(field, string_of(&values[i]));
                },
                None => {},
            }
        }
        i += 1;
        assert(i - 1 == (i as nat - 1) as nat);
    }
}

/// `meta` after the text of a version 1 `header` section.
pub open spec fn header_text_metadata(meta: EwfMetadataView, s: Seq<char>) -> EwfMetadataView {
    metadata_of(meta, FieldCodes::Header, text::line_pieces(s))
}

/// Reads the tab-delimited text of a version 1 `header` section.
///
/// Line 3 holds the field codes: c case number, n evidence number,
/// a description, e examiner, t notes, av acquiry software, ov system version,
/// m acquiry date, u system date. Line 4 holds the values.
pub fn parse_header_text(s: &str, meta: &mut EwfMetadata)
    ensures
        final(meta)@ == header_text_metadata(old(meta)@, s@),
{
    let lines: Vec<Vec<char>> = break_lines(&chars_of(s));
    fill_metadata(FieldCodes::Header, &lines, meta);
}

/// `meta` after the data of a version 1 `header2` section: the text of a
/// `header` section in UTF-16LE.
pub open spec fn header2_metadata(meta: EwfMetadataView, raw: Seq<u8>) -> EwfMetadataView {
    header_text_metadata(meta, text::utf16_text(raw))
}

/// Reads the data of a version 1 `header2` section.
pub fn parse_header2_data(raw: &[u8], meta: &mut EwfMetadata)
    ensures
        final(meta)@ == header2_metadata(old(meta)@, raw@),
{
    let lines: Vec<Vec<char>> = break_lines(&decode_utf16(raw));
    fill_metadata(FieldCodes::Header, &lines, meta);
}

/// `meta` after a version 2 case data section, which is UTF-16LE text.
pub open spec fn case_data_metadata(meta: EwfMetadataView, raw: Seq<u8>) -> EwfMetadataView {
    metadata_of(meta, FieldCodes::CaseData, text::lines(text::utf16_text(raw)))
}

/// Reads a version 2 case data section.
///
/// Field codes: cn case number, en evidence number, ex examiner,
/// de description, nt notes, av acquiry software, ov system version,
/// ad acquiry date, sd system date.
pub fn parse_ewf2_case_data(raw: &[u8], meta: &mut EwfMetadata)
    ensures
        final(meta)@ == case_data_metadata(old(meta)@, raw@),
{
    let lines: Vec<Vec<char>> = split_lines(&decode_utf16(raw));
    fill_metadata(FieldCodes::CaseData, &lines, meta);
}

/// The media geometry of a version 2 device information section.
#[derive(Debug, Clone, Copy, PartialEq, Eq, Structural)]
pub struct DeviceGeometry {
    pub bytes_per_sector: u64,
    pub sectors_per_chunk: u64,
    pub total_sectors: u64,
}

impl DeviceGeometry {
    /// What holds where the section says nothing.
    pub open spec fn assumed() -> DeviceGeometry {
        DeviceGeometry { bytes_per_sector: 512, sectors_per_chunk: 64, total_sectors: 0 }
    }

    /// The same geometry with one column applied: `b`, `sc` and `ts` with a
    /// readable number set a value, anything else changes nothing.
    pub open spec fn with(self, name: Seq<char>, value: Seq<char>) -> DeviceGeometry {
        match text::u64_text(value) {
            None => self,
            Some(n) => if name == "b"@ {
                DeviceGeometry { bytes_per_sector: n, ..self }
            } else if name == "sc"@ {
                DeviceGeometry { sectors_per_chunk: n, ..self }
            } else if name == "ts"@ {
                DeviceGeometry { total_sectors: n, ..self }
            } else {
                self
            },
        }
    }

    /// The geometry after the first `n` columns.
    pub open spec fn from_columns(
        names: Seq<Seq<char>>,
        values: Seq<Seq<char>>,
        n: nat,
    ) -> DeviceGeometry
        decreases n,
    {
        if n == 0 {
            DeviceGeometry::assumed()
        } else {
            let before = Self::from_columns(names, values, (n - 1) as nat);
            if n - 1 < values.len() {
                before.with(names[n - 1], values[n - 1])
            } else {
                before
            }
        }
    }

    /// The geometry in a device information section, which is UTF-16LE text;
    /// `None` when it has fewer than four lines.
    pub open spec fn of(raw: Seq<u8>) -> Option<DeviceGeometry> {
        let lines = text::lines(text::utf16_text(raw));
        if lines.len() < 4 {
            None
        } else {
            let names = text::split(lines[2], '\t');
            let values = text::split(lines[3], '\t');
            Some(Self::from_columns(names, values, names.len()))
        }
    }

    /// Bytes in one chunk.
    pub open spec fn chunk_size(self) -> int {
        self.bytes_per_sector * self.sectors_per_chunk
    }

    /// Whether the sizes that the geometry implies fit 64 bits.
    pub open spec fn fits(self) -> bool {
        &&& self.chunk_size() <= u64::MAX
        &&& self.bytes_per_sector * self.total_sectors <= u64::MAX
    }

    /// The chunk size that the geometry implies, or `chunk_size` if it is zero.
    pub open spec fn chunk_size_over(self, chunk_size: u64) -> u64 {
        if self.chunk_size() > 0 {
            self.chunk_size() as u64
        } else {
            chunk_size
        }
    }

    /// The media size that the geometry implies, or `total_size` if it is zero.
    pub open spec fn total_size_over(self, total_size: u64) -> u64 {
        if self.bytes_per_sector * self.total_sectors > 0 {
            (self.bytes_per_sector * self.total_sectors) as u64
        } else {
            total_size
        }
    }

    /// Whether the sizes that the geometry implies fit 64 bits.
    pub fn check_fits(&self) -> (r: bool)
        ensures
            r == self.fits(),
    {
        self.bytes_per_sector.checked_mul(self.sectors_per_chunk).is_some()
            && self.bytes_per_sector.checked_mul(self.total_sectors).is_some()
    }

    /// Replaces the sizes that the geometry implies.
    pub fn apply(&self, chunk_size: &mut u64, total_size: &mut u64)
        requires
            self.fits(),
        ensures
            *final(chunk_size) == self.chunk_size_over(*old(chunk_size)),
            *final(total_size) == self.total_size_over(*old(total_size)),
    {
        let computed: u64 = self.bytes_per_sector * self.sectors_per_chunk;
        if computed > 0 {
            *chunk_size = computed;
        }
        let computed_total: u64 = self.bytes_per_sector * self.total_sectors;
        if computed_total > 0 {
            *total_size = computed_total;
        }
    }
}

/// Reads the media geometry of a version 2 device information section.
///
/// Line 3 holds the field codes: b bytes per sector, sc sectors per chunk,
/// ts total sectors. Line 4 holds the values.
pub fn read_device_geometry(raw: &[u8]) -> (r: Option<DeviceGeometry>)
    ensures
        r == DeviceGeometry::of(raw@),
{
    let lines: Vec<Vec<char>> = split_lines(&decode_utf16(raw));
    if lines.len() < 4 {
        return None;
    }
    let names: Vec<Vec<char>> = split_chars(&lines[2], '\t');
    let values: Vec<Vec<char>> = split_chars(&lines[3], '\t');
    let ghost name_texts = text::pieces(names@);
    let ghost value_texts = text::pieces(values@);
    let mut geometry: DeviceGeometry = DeviceGeometry {
        bytes_per_sector: 512,
        sectors_per_chunk: 64,
        total_sectors: 0,
    };
    let mut i: usize = 0;
    while i < names.len()
        invariant
            i <= names@.len(),
            name_texts == text::pieces(names@),
            value_texts == text::pieces(values@),
            geometry == DeviceGeometry::from_columns(name_texts, value_texts, i as nat),
        decreases names@.len() - i,
    {
        if i < values.len() {
            assert(values@[i as int]@ == value_texts[i as int]);
            assert(names@[i as int]@ == name_texts[i as int]);
            match parse_u64(&values[i]) {
                Some(n) => if spells(&names[i], "b") {
                    geometry.bytes_per_sector = n;
                } else if spells(&names[i], "sc") {
                    geometry.sectors_per_chunk = n;
                } else if spells(&names[i], "ts") {
                    geometry.total_sectors = n;
                },
                None => {},
            }
        }
        i += 1;
        assert(i - 1 == (i as nat - 1) as nat);
    }
    Some(geometry)
}

/// Reads a version 2 device information section into the sizes of the image.
pub fn parse_ewf2_device_info(raw: &[u8], chunk_size: &mut u64, total_size: &mut u64)
    requires
        DeviceGeometry::of(raw@) matches Some(g) ==> g.fits(),
    ensures
        *final(chunk_size) == match DeviceGeometry::of(raw@) {
            Some(g) => g.chunk_size_over(*old(chunk_size)),
            None => *old(chunk_size),
        },
        *final(total_size) == match DeviceGeometry::of(raw@) {
            Some(g) => g.total_size_over(*old(total_size)),
            None => *old(total_size),
        },
{
    match read_device_geometry(raw) {
        Some(geometry) => {
            geometry.apply(chunk_size, total_size);
        },
        None => {},
    }
}

/// A field that no column fills keeps what it held: in particular a column
/// that the acquisition tool left blank.
pub proof fn law_unnamed_field_is_kept(
    meta: EwfMetadataView,
    codes: FieldCodes,
    names: Seq<Seq<char>>,
    values: Seq<Seq<char>>,
    n: nat,
    field: MetadataField,
)
    requires
        forall|i: int|
            0 <= i < n && i < values.len() && values[i].len() > 0 ==> codes.field(
                #[trigger] names[i],
            ) != Some(field),
    ensures
        filled(meta, codes, names, values, n).get(field) == meta.get(field),
    decreases n,
{
    if n > 0 {
        law_unnamed_field_is_kept(meta, codes, names, values, (n - 1) as nat, field);
        assert(names[n - 1] == names[n - 1]);
    }
}

/// A field is what the last column that fills it says.
pub proof fn law_last_column_fills(
    meta: EwfMetadataView,
    codes: FieldCodes,
    names: Seq<Seq<char>>,
    values: Seq<Seq<char>>,
    n: nat,
    i: int,
    field: MetadataField,
)
    requires
        0 <= i < n,
        i < values.len(),
        values[i].len() > 0,
        codes.field(names[i]) == Some(field),
        forall|j: int|
            i < j < n && j < values.len() && values[j].len() > 0 ==> codes.field(
                #[trigger] names[j],
            ) != Some(field),
    ensures
        filled(meta, codes, names, values, n).get(field) == Some(values[i]),
    decreases n,
{
    if i < n - 1 {
        law_last_column_fills(meta, codes, names, values, (n - 1) as nat, i, field);
        assert(names[n - 1] == names[n - 1]);
    }
}

} // verus!
