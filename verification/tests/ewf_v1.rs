use std::io::Write;

use flate2::write::ZlibEncoder;
use flate2::Compression;
use kdft::error::{EwfError, IoError};
use kdft::parse::{parse_error2_data, parse_header_text};
use kdft::reader::{EwfReader, SeekFrom};
use kdft::sections::{
    EwfFileHeader, EwfVolume, SectionDescriptor, TableEntry, EVF_SIGNATURE, FILE_HEADER_SIZE,
    SECTION_DESCRIPTOR_SIZE,
};
use kdft::segments::{order_found, validate_and_reorder_segments};
use kdft::source::memory_read;
use kdft::types::EwfMetadata;

type Source = Box<dyn Fn(usize, u64, usize) -> Result<Vec<u8>, String>>;

fn open_all(files: Vec<Vec<u8>>, cache_size: usize) -> Result<EwfReader<Source>, EwfError> {
    let lens = files.iter().map(|f| f.len() as u64).collect();
    let source: Source = Box::new(move |i, offset, n| memory_read(&files, i, offset, n));
    EwfReader::open_segments_with_cache_size(lens, source, cache_size)
}

fn open(file: &[u8]) -> Result<EwfReader<Source>, EwfError> {
    open_all(vec![file.to_vec()], 100)
}

fn read_exact(reader: &mut EwfReader<Source>, buf: &mut [u8]) -> Result<(), IoError> {
    let n = reader.read(buf)?;
    assert_eq!(n, buf.len());
    Ok(())
}

fn open_with_cache_size(file: &[u8], cache_size: usize) -> Result<EwfReader<Source>, EwfError> {
    open_all(vec![file.to_vec()], cache_size)
}

#[test]
fn discover_segments_no_segments_found() {
    let found: Vec<String> = Vec::new();
    let result = order_found("/tmp/nonexistent_ewf_xyzzy.E01".to_string(), found, Vec::new());
    assert!(result.is_err());
    match result.unwrap_err() {
        EwfError::NoSegments(m) => assert_eq!(m, "/tmp/nonexistent_ewf_xyzzy.E01"),
        other => panic!("expected NoSegments, got {other:?}"),
    }
}

#[test]
fn discover_segments_sorts_by_extension() {
    let found = vec!["test.E02", "test.E01"];
    let extensions = vec!["E02".to_string(), "E01".to_string()];
    let ordered = order_found("test.E01".to_string(), found, extensions).unwrap();
    assert_eq!(ordered, vec!["test.E01", "test.E02"]);

    let mut hdr1 = [0u8; FILE_HEADER_SIZE];
    hdr1[0..8].copy_from_slice(&EVF_SIGNATURE);
    hdr1[8] = 0x01;
    hdr1[9..11].copy_from_slice(&1u16.to_le_bytes());
    let mut hdr2 = hdr1;
    hdr2[9..11].copy_from_slice(&2u16.to_le_bytes());
    assert!(open_all(vec![hdr1.to_vec(), hdr2.to_vec()], 100).is_err());
}

#[test]
fn open_segments_empty_path_list() {
    let result = open_all(Vec::new(), 100);
    assert!(matches!(result, Err(EwfError::NoSegments(ref msg)) if msg == "empty path list"));
}

#[test]
fn open_segments_segment_gap() {
    let data = b"test data";
    let first = build_synthetic_e01(data);
    let mut third = first.clone();
    third[9..11].copy_from_slice(&3u16.to_le_bytes());
    let result = open_all(vec![first, third], 100);
    assert!(matches!(
        result,
        Err(EwfError::SegmentGap {
            expected: 2,
            got: 3
        })
    ));
}

fn make_file_header(segment_number: u16) -> [u8; 13] {
    let mut buf = [0u8; FILE_HEADER_SIZE];
    buf[0..8].copy_from_slice(&EVF_SIGNATURE);
    buf[8] = 0x01;
    buf[9..11].copy_from_slice(&segment_number.to_le_bytes());
    buf[11] = 0x00;
    buf[12] = 0x00;
    buf
}

#[test]
fn parse_file_header_segment_1() {
    let buf = make_file_header(1);
    let header = EwfFileHeader::parse(&buf).unwrap();
    assert_eq!(header.segment_number, 1);
}

#[test]
fn parse_file_header_segment_42() {
    let buf = make_file_header(42);
    let header = EwfFileHeader::parse(&buf).unwrap();
    assert_eq!(header.segment_number, 42);
}

#[test]
fn parse_file_header_rejects_invalid_signature() {
    let buf = [0u8; 13];
    let result = EwfFileHeader::parse(&buf);
    assert!(matches!(result, Err(EwfError::InvalidSignature)));
}

#[test]
fn parse_file_header_rejects_short_buffer() {
    let buf = [0u8; 5];
    let result = EwfFileHeader::parse(&buf);
    assert!(matches!(result, Err(EwfError::BufferTooShort { .. })));
}

fn make_section_descriptor(section_type: &str, next: u64, section_size: u64) -> [u8; 76] {
    let mut buf = [0u8; SECTION_DESCRIPTOR_SIZE];
    let type_bytes = section_type.as_bytes();
    buf[..type_bytes.len()].copy_from_slice(type_bytes);
    buf[16..24].copy_from_slice(&next.to_le_bytes());
    buf[24..32].copy_from_slice(&section_size.to_le_bytes());
    buf
}

#[test]
fn parse_section_descriptor_volume() {
    let buf = make_section_descriptor("volume", 1000, 170);
    let desc = SectionDescriptor::parse(&buf, 13).unwrap();
    assert_eq!(desc.section_type, "volume");
    assert_eq!(desc.next, 1000);
    assert_eq!(desc.section_size, 170);
    assert_eq!(desc.offset, 13);
}

#[test]
fn parse_section_descriptor_table() {
    let buf = make_section_descriptor("table", 50000, 4096);
    let desc = SectionDescriptor::parse(&buf, 200).unwrap();
    assert_eq!(desc.section_type, "table");
    assert_eq!(desc.next, 50000);
    assert_eq!(desc.section_size, 4096);
}

#[test]
fn parse_section_descriptor_done() {
    let buf = make_section_descriptor("done", 0, 76);
    let desc = SectionDescriptor::parse(&buf, 9999).unwrap();
    assert_eq!(desc.section_type, "done");
    assert_eq!(desc.next, 0);
}

#[test]
fn parse_section_descriptor_rejects_short_buffer() {
    let buf = [0u8; 10];
    let result = SectionDescriptor::parse(&buf, 0);
    assert!(matches!(result, Err(EwfError::BufferTooShort { .. })));
}

fn make_volume_data(
    chunk_count: u32,
    sectors_per_chunk: u32,
    bytes_per_sector: u32,
    sector_count: u64,
) -> [u8; 94] {
    let mut buf = [0u8; 94];
    buf[4..8].copy_from_slice(&chunk_count.to_le_bytes());
    buf[8..12].copy_from_slice(&sectors_per_chunk.to_le_bytes());
    buf[12..16].copy_from_slice(&bytes_per_sector.to_le_bytes());
    buf[16..24].copy_from_slice(&sector_count.to_le_bytes());
    buf
}

#[test]
fn parse_volume_typical() {
    let buf = make_volume_data(1000, 64, 512, 64000);
    let vol = EwfVolume::parse(&buf).unwrap();
    assert_eq!(vol.chunk_count, 1000);
    assert_eq!(vol.sectors_per_chunk, 64);
    assert_eq!(vol.bytes_per_sector, 512);
    assert_eq!(vol.sector_count, 64000);
    assert_eq!(vol.chunk_size(), 32768);
    assert_eq!(vol.total_size(), 512 * 64000);
}

#[test]
fn parse_volume_rejects_short_buffer() {
    let buf = [0u8; 10];
    let result = EwfVolume::parse(&buf);
    assert!(matches!(result, Err(EwfError::BufferTooShort { .. })));
}

#[test]
fn parse_table_entry_compressed() {
    let val: u32 = 0x8000_1000;
    let buf = val.to_le_bytes();
    let entry = TableEntry::parse(&buf).unwrap();
    assert!(entry.compressed);
    assert_eq!(entry.chunk_offset, 0x1000);
}

#[test]
fn parse_table_entry_uncompressed() {
    let val: u32 = 0x0000_2000;
    let buf = val.to_le_bytes();
    let entry = TableEntry::parse(&buf).unwrap();
    assert!(!entry.compressed);
    assert_eq!(entry.chunk_offset, 0x2000);
}

#[test]
fn parse_table_entry_rejects_short_buffer() {
    let buf = [0u8; 2];
    let result = TableEntry::parse(&buf);
    assert!(matches!(result, Err(EwfError::BufferTooShort { .. })));
}

fn build_synthetic_e01(data: &[u8]) -> Vec<u8> {

    let chunk_size: u32 = 32768;
    let sectors_per_chunk: u32 = 64;
    let bytes_per_sector: u32 = 512;
    let mut padded = data.to_vec();
    padded.resize(chunk_size as usize, 0);

    let mut encoder = ZlibEncoder::new(Vec::new(), Compression::default());
    encoder.write_all(&padded).unwrap();
    let compressed = encoder.finish().unwrap();

    let sector_count = u64::from(chunk_size / bytes_per_sector);

    let vol_desc_offset: u64 = FILE_HEADER_SIZE as u64;
    let vol_data_offset: u64 = vol_desc_offset + SECTION_DESCRIPTOR_SIZE as u64;
    let tbl_desc_offset: u64 = vol_data_offset + 94;
    let tbl_hdr_offset: u64 = tbl_desc_offset + SECTION_DESCRIPTOR_SIZE as u64;
    let tbl_entries_offset: u64 = tbl_hdr_offset + 24;
    let sectors_desc_offset: u64 = tbl_entries_offset + 4;
    let sectors_data_offset: u64 = sectors_desc_offset + SECTION_DESCRIPTOR_SIZE as u64;
    let done_desc_offset: u64 = sectors_data_offset + compressed.len() as u64;

    let mut file_data = Vec::new();

    file_data.extend_from_slice(&EVF_SIGNATURE);
    file_data.push(0x01);
    file_data.extend_from_slice(&1u16.to_le_bytes());
    file_data.extend_from_slice(&0u16.to_le_bytes());

    let mut vol_desc = [0u8; SECTION_DESCRIPTOR_SIZE];
    vol_desc[..6].copy_from_slice(b"volume");
    vol_desc[16..24].copy_from_slice(&tbl_desc_offset.to_le_bytes());
    vol_desc[24..32].copy_from_slice(&(SECTION_DESCRIPTOR_SIZE as u64 + 94).to_le_bytes());
    file_data.extend_from_slice(&vol_desc);

    let mut vol_data = [0u8; 94];
    vol_data[0..4].copy_from_slice(&1u32.to_le_bytes());
    vol_data[4..8].copy_from_slice(&1u32.to_le_bytes());
    vol_data[8..12].copy_from_slice(&sectors_per_chunk.to_le_bytes());
    vol_data[12..16].copy_from_slice(&bytes_per_sector.to_le_bytes());
    vol_data[16..24].copy_from_slice(&sector_count.to_le_bytes());
    file_data.extend_from_slice(&vol_data);

    let mut tbl_desc = [0u8; SECTION_DESCRIPTOR_SIZE];
    tbl_desc[..5].copy_from_slice(b"table");
    tbl_desc[16..24].copy_from_slice(&sectors_desc_offset.to_le_bytes());
    let tbl_section_size = SECTION_DESCRIPTOR_SIZE as u64 + 24 + 4;
    tbl_desc[24..32].copy_from_slice(&tbl_section_size.to_le_bytes());
    file_data.extend_from_slice(&tbl_desc);

    let mut tbl_hdr = [0u8; 24];
    tbl_hdr[0..4].copy_from_slice(&1u32.to_le_bytes());
    tbl_hdr[8..16].copy_from_slice(&sectors_data_offset.to_le_bytes());
    file_data.extend_from_slice(&tbl_hdr);

    let entry: u32 = 0x8000_0000;
    file_data.extend_from_slice(&entry.to_le_bytes());

    let mut sec_desc = [0u8; SECTION_DESCRIPTOR_SIZE];
    sec_desc[..7].copy_from_slice(b"sectors");
    sec_desc[16..24].copy_from_slice(&done_desc_offset.to_le_bytes());
    let sec_section_size = SECTION_DESCRIPTOR_SIZE as u64 + compressed.len() as u64;
    sec_desc[24..32].copy_from_slice(&sec_section_size.to_le_bytes());
    file_data.extend_from_slice(&sec_desc);

    file_data.extend_from_slice(&compressed);

    let mut done_desc = [0u8; SECTION_DESCRIPTOR_SIZE];
    done_desc[..4].copy_from_slice(b"done");
    done_desc[24..32].copy_from_slice(&(SECTION_DESCRIPTOR_SIZE as u64).to_le_bytes());
    file_data.extend_from_slice(&done_desc);

    file_data
}

#[test]
fn ewf_reader_opens_synthetic_e01() {
    let data = b"Hello, forensic world!";
    let tmp = build_synthetic_e01(data);
    let reader = open(&tmp).unwrap();
    assert_eq!(reader.chunk_size(), 32768);
    assert_eq!(reader.chunk_count(), 1);
    assert!(reader.total_size() > 0);
}

#[test]
fn ewf_reader_reads_first_bytes() {
    let data = b"DEADBEEF_CAFEBABE_1234567890";
    let tmp = build_synthetic_e01(data);
    let mut reader = open(&tmp).unwrap();
    let mut buf = vec![0u8; data.len()];
    read_exact(&mut reader, &mut buf).unwrap();
    assert_eq!(&buf, data);
}

#[test]
fn ewf_reader_seek_and_read() {
    let mut test_data = vec![0u8; 1024];
    test_data[512..520].copy_from_slice(b"SEEKTEST");
    let tmp = build_synthetic_e01(&test_data);
    let mut reader = open(&tmp).unwrap();

    reader.seek(SeekFrom::Start(512)).unwrap();
    let mut buf = [0u8; 8];
    read_exact(&mut reader, &mut buf).unwrap();
    assert_eq!(&buf, b"SEEKTEST");
}

#[test]
fn ewf_reader_seek_from_end() {
    let data = b"test";
    let tmp = build_synthetic_e01(data);
    let mut reader = open(&tmp).unwrap();
    let size = reader.total_size();

    let pos = reader.seek(SeekFrom::End(-4)).unwrap();
    assert_eq!(pos, size - 4);
}

#[test]
fn ewf_reader_read_returns_zero_at_eof() {
    let data = b"short";
    let tmp = build_synthetic_e01(data);
    let mut reader = open(&tmp).unwrap();
    let end = reader.total_size();
    reader.seek(SeekFrom::Start(end)).unwrap();
    let mut buf = [0u8; 10];
    let n = reader.read(&mut buf).unwrap();
    assert_eq!(n, 0);
}

fn build_synthetic_e01_with_table2(data: &[u8]) -> Vec<u8> {

    let chunk_size: u32 = 32768;
    let sectors_per_chunk: u32 = 64;
    let bytes_per_sector: u32 = 512;
    let mut padded = data.to_vec();
    padded.resize(chunk_size as usize, 0);

    let mut encoder = ZlibEncoder::new(Vec::new(), Compression::default());
    encoder.write_all(&padded).unwrap();
    let compressed = encoder.finish().unwrap();

    let sector_count = u64::from(chunk_size / bytes_per_sector);

    let vol_desc_offset: u64 = FILE_HEADER_SIZE as u64;
    let vol_data_offset: u64 = vol_desc_offset + SECTION_DESCRIPTOR_SIZE as u64;
    let tbl_desc_offset: u64 = vol_data_offset + 94;
    let tbl_hdr_offset: u64 = tbl_desc_offset + SECTION_DESCRIPTOR_SIZE as u64;
    let tbl_entries_offset: u64 = tbl_hdr_offset + 24;
    let sectors_desc_offset: u64 = tbl_entries_offset + 4;
    let sectors_data_offset: u64 = sectors_desc_offset + SECTION_DESCRIPTOR_SIZE as u64;
    let done_desc_offset: u64 = sectors_data_offset + compressed.len() as u64;

    let mut file_data = Vec::new();

    file_data.extend_from_slice(&EVF_SIGNATURE);
    file_data.push(0x01);
    file_data.extend_from_slice(&1u16.to_le_bytes());
    file_data.extend_from_slice(&0u16.to_le_bytes());

    let mut vol_desc = [0u8; SECTION_DESCRIPTOR_SIZE];
    vol_desc[..6].copy_from_slice(b"volume");
    vol_desc[16..24].copy_from_slice(&tbl_desc_offset.to_le_bytes());
    vol_desc[24..32].copy_from_slice(&(SECTION_DESCRIPTOR_SIZE as u64 + 94).to_le_bytes());
    file_data.extend_from_slice(&vol_desc);

    let mut vol_data = [0u8; 94];
    vol_data[0..4].copy_from_slice(&1u32.to_le_bytes());
    vol_data[4..8].copy_from_slice(&1u32.to_le_bytes());
    vol_data[8..12].copy_from_slice(&sectors_per_chunk.to_le_bytes());
    vol_data[12..16].copy_from_slice(&bytes_per_sector.to_le_bytes());
    vol_data[16..24].copy_from_slice(&sector_count.to_le_bytes());
    file_data.extend_from_slice(&vol_data);

    let mut tbl_desc = [0u8; SECTION_DESCRIPTOR_SIZE];
    tbl_desc[..6].copy_from_slice(b"table2");
    tbl_desc[16..24].copy_from_slice(&sectors_desc_offset.to_le_bytes());
    let tbl_section_size = SECTION_DESCRIPTOR_SIZE as u64 + 24 + 4;
    tbl_desc[24..32].copy_from_slice(&tbl_section_size.to_le_bytes());
    file_data.extend_from_slice(&tbl_desc);

    let mut tbl_hdr = [0u8; 24];
    tbl_hdr[0..4].copy_from_slice(&1u32.to_le_bytes());
    tbl_hdr[8..16].copy_from_slice(&sectors_data_offset.to_le_bytes());
    file_data.extend_from_slice(&tbl_hdr);

    let entry: u32 = 0x8000_0000;
    file_data.extend_from_slice(&entry.to_le_bytes());

    let mut sec_desc = [0u8; SECTION_DESCRIPTOR_SIZE];
    sec_desc[..7].copy_from_slice(b"sectors");
    sec_desc[16..24].copy_from_slice(&done_desc_offset.to_le_bytes());
    let sec_section_size = SECTION_DESCRIPTOR_SIZE as u64 + compressed.len() as u64;
    sec_desc[24..32].copy_from_slice(&sec_section_size.to_le_bytes());
    file_data.extend_from_slice(&sec_desc);

    file_data.extend_from_slice(&compressed);

    let mut done_desc = [0u8; SECTION_DESCRIPTOR_SIZE];
    done_desc[..4].copy_from_slice(b"done");
    done_desc[24..32].copy_from_slice(&(SECTION_DESCRIPTOR_SIZE as u64).to_le_bytes());
    file_data.extend_from_slice(&done_desc);

    file_data
}

#[test]
fn ewf_reader_handles_table2_sections() {
    let data = b"table2 section test data!";
    let tmp = build_synthetic_e01_with_table2(data);
    let mut reader = open(&tmp).unwrap();
    assert_eq!(reader.chunk_count(), 1);
    let mut buf = vec![0u8; data.len()];
    read_exact(&mut reader, &mut buf).unwrap();
    assert_eq!(&buf, data);
}

#[test]
fn ewf_reader_skips_duplicate_table2() {

    let chunk_size: u32 = 32768;
    let sectors_per_chunk: u32 = 64;
    let bytes_per_sector: u32 = 512;
    let mut padded = b"dedup test".to_vec();
    padded.resize(chunk_size as usize, 0);

    let mut encoder = ZlibEncoder::new(Vec::new(), Compression::default());
    encoder.write_all(&padded).unwrap();
    let compressed = encoder.finish().unwrap();
    let sector_count = u64::from(chunk_size / bytes_per_sector);

    let vol_desc_off: u64 = 13;
    let vol_data_off: u64 = vol_desc_off + 76;
    let tbl_desc_off: u64 = vol_data_off + 94;
    let tbl_hdr_off: u64 = tbl_desc_off + 76;
    let tbl_entry_off: u64 = tbl_hdr_off + 24;
    let tbl2_desc_off: u64 = tbl_entry_off + 4;
    let tbl2_hdr_off: u64 = tbl2_desc_off + 76;
    let tbl2_entry_off: u64 = tbl2_hdr_off + 24;
    let sec_desc_off: u64 = tbl2_entry_off + 4;
    let sec_data_off: u64 = sec_desc_off + 76;
    let done_desc_off: u64 = sec_data_off + compressed.len() as u64;

    let mut d = Vec::new();

    d.extend_from_slice(&EVF_SIGNATURE);
    d.push(0x01);
    d.extend_from_slice(&1u16.to_le_bytes());
    d.extend_from_slice(&0u16.to_le_bytes());

    let mut vd = [0u8; 76];
    vd[..6].copy_from_slice(b"volume");
    vd[16..24].copy_from_slice(&tbl_desc_off.to_le_bytes());
    vd[24..32].copy_from_slice(&(76u64 + 94).to_le_bytes());
    d.extend_from_slice(&vd);

    let mut vdata = [0u8; 94];
    vdata[0..4].copy_from_slice(&1u32.to_le_bytes());
    vdata[4..8].copy_from_slice(&1u32.to_le_bytes());
    vdata[8..12].copy_from_slice(&sectors_per_chunk.to_le_bytes());
    vdata[12..16].copy_from_slice(&bytes_per_sector.to_le_bytes());
    vdata[16..24].copy_from_slice(&sector_count.to_le_bytes());
    d.extend_from_slice(&vdata);

    let mut td = [0u8; 76];
    td[..5].copy_from_slice(b"table");
    td[16..24].copy_from_slice(&tbl2_desc_off.to_le_bytes());
    td[24..32].copy_from_slice(&(76u64 + 24 + 4).to_le_bytes());
    d.extend_from_slice(&td);

    let mut th = [0u8; 24];
    th[0..4].copy_from_slice(&1u32.to_le_bytes());
    th[8..16].copy_from_slice(&sec_data_off.to_le_bytes());
    d.extend_from_slice(&th);

    d.extend_from_slice(&0x8000_0000u32.to_le_bytes());

    let mut td2 = [0u8; 76];
    td2[..6].copy_from_slice(b"table2");
    td2[16..24].copy_from_slice(&sec_desc_off.to_le_bytes());
    td2[24..32].copy_from_slice(&(76u64 + 24 + 4).to_le_bytes());
    d.extend_from_slice(&td2);

    d.extend_from_slice(&th);

    d.extend_from_slice(&0x8000_0000u32.to_le_bytes());

    let mut sd = [0u8; 76];
    sd[..7].copy_from_slice(b"sectors");
    sd[16..24].copy_from_slice(&done_desc_off.to_le_bytes());
    sd[24..32].copy_from_slice(&(76u64 + compressed.len() as u64).to_le_bytes());
    d.extend_from_slice(&sd);

    d.extend_from_slice(&compressed);

    let mut dd = [0u8; 76];
    dd[..4].copy_from_slice(b"done");
    dd[24..32].copy_from_slice(&76u64.to_le_bytes());
    d.extend_from_slice(&dd);

    let tmp = d;

    let reader = open(&tmp).unwrap();
    assert_eq!(reader.chunk_count(), 1, "table2 caused duplicate chunks");
}

fn build_synthetic_e01_with_nonzero_table_padding(data: &[u8]) -> Vec<u8> {

    let chunk_size: u32 = 32768;
    let bytes_per_sector: u32 = 512;
    let sectors_per_chunk: u32 = chunk_size / bytes_per_sector;
    let sector_count = u64::from(chunk_size / bytes_per_sector);

    let mut encoder = ZlibEncoder::new(Vec::new(), Compression::default());
    encoder.write_all(data).unwrap();
    encoder
        .write_all(&vec![0u8; chunk_size as usize - data.len()])
        .unwrap();
    let compressed = encoder.finish().unwrap();

    let vol_desc_off: u64 = FILE_HEADER_SIZE as u64;
    let vol_data_off: u64 = vol_desc_off + SECTION_DESCRIPTOR_SIZE as u64;
    let tbl_desc_off: u64 = vol_data_off + 94;
    let tbl_hdr_off: u64 = tbl_desc_off + SECTION_DESCRIPTOR_SIZE as u64;
    let tbl_entry_off: u64 = tbl_hdr_off + 24;
    let sectors_desc_offset: u64 = tbl_entry_off + 4;
    let sectors_data_offset: u64 = sectors_desc_offset + SECTION_DESCRIPTOR_SIZE as u64;
    let done_desc_offset: u64 = sectors_data_offset + compressed.len() as u64;

    let mut file_data = Vec::new();

    let mut hdr = [0u8; FILE_HEADER_SIZE];
    hdr[0..8].copy_from_slice(&EVF_SIGNATURE);
    hdr[9..11].copy_from_slice(&1u16.to_le_bytes());
    file_data.extend_from_slice(&hdr);

    let mut vol_desc = [0u8; SECTION_DESCRIPTOR_SIZE];
    vol_desc[..6].copy_from_slice(b"volume");
    vol_desc[16..24].copy_from_slice(&tbl_desc_off.to_le_bytes());
    let vol_section_size = SECTION_DESCRIPTOR_SIZE as u64 + 94;
    vol_desc[24..32].copy_from_slice(&vol_section_size.to_le_bytes());
    file_data.extend_from_slice(&vol_desc);

    let mut vol_data = [0u8; 94];
    vol_data[4..8].copy_from_slice(&1u32.to_le_bytes());
    vol_data[8..12].copy_from_slice(&sectors_per_chunk.to_le_bytes());
    vol_data[12..16].copy_from_slice(&bytes_per_sector.to_le_bytes());
    vol_data[16..24].copy_from_slice(&sector_count.to_le_bytes());
    file_data.extend_from_slice(&vol_data);

    let mut tbl_desc = [0u8; SECTION_DESCRIPTOR_SIZE];
    tbl_desc[..5].copy_from_slice(b"table");
    tbl_desc[16..24].copy_from_slice(&sectors_desc_offset.to_le_bytes());
    let tbl_section_size = SECTION_DESCRIPTOR_SIZE as u64 + 24 + 4;
    tbl_desc[24..32].copy_from_slice(&tbl_section_size.to_le_bytes());
    file_data.extend_from_slice(&tbl_desc);

    let mut tbl_hdr = [0u8; 24];
    tbl_hdr[0..4].copy_from_slice(&1u32.to_le_bytes());
    tbl_hdr[4..8].copy_from_slice(&[0xDE, 0xAD, 0xBE, 0xEF]);
    tbl_hdr[8..16].copy_from_slice(&sectors_data_offset.to_le_bytes());
    file_data.extend_from_slice(&tbl_hdr);

    let entry: u32 = 0x8000_0000;
    file_data.extend_from_slice(&entry.to_le_bytes());

    let mut sec_desc = [0u8; SECTION_DESCRIPTOR_SIZE];
    sec_desc[..7].copy_from_slice(b"sectors");
    sec_desc[16..24].copy_from_slice(&done_desc_offset.to_le_bytes());
    let sec_section_size = SECTION_DESCRIPTOR_SIZE as u64 + compressed.len() as u64;
    sec_desc[24..32].copy_from_slice(&sec_section_size.to_le_bytes());
    file_data.extend_from_slice(&sec_desc);

    file_data.extend_from_slice(&compressed);

    let mut done_desc = [0u8; SECTION_DESCRIPTOR_SIZE];
    done_desc[..4].copy_from_slice(b"done");
    file_data.extend_from_slice(&done_desc);

    file_data
}

#[test]
fn ewf_reader_handles_nonzero_table_padding() {
    let data = b"nonzero padding in table header";
    let tmp = build_synthetic_e01_with_nonzero_table_padding(data);
    let mut reader = open(&tmp).unwrap();
    assert_eq!(reader.chunk_count(), 1);
    let mut buf = vec![0u8; data.len()];
    read_exact(&mut reader, &mut buf).unwrap();
    assert_eq!(&buf, data);
}

fn build_synthetic_e01_truncated_chain(data: &[u8]) -> Vec<u8> {

    let chunk_size: u32 = 32768;
    let bytes_per_sector: u32 = 512;
    let sectors_per_chunk: u32 = chunk_size / bytes_per_sector;
    let sector_count = u64::from(chunk_size / bytes_per_sector);

    let mut encoder = ZlibEncoder::new(Vec::new(), Compression::default());
    encoder.write_all(data).unwrap();
    encoder
        .write_all(&vec![0u8; chunk_size as usize - data.len()])
        .unwrap();
    let compressed = encoder.finish().unwrap();

    let vol_desc_off: u64 = FILE_HEADER_SIZE as u64;
    let vol_data_off: u64 = vol_desc_off + SECTION_DESCRIPTOR_SIZE as u64;
    let tbl_desc_off: u64 = vol_data_off + 94;
    let tbl_hdr_off: u64 = tbl_desc_off + SECTION_DESCRIPTOR_SIZE as u64;
    let tbl_entry_off: u64 = tbl_hdr_off + 24;
    let sectors_desc_offset: u64 = tbl_entry_off + 4;
    let sectors_data_offset: u64 = sectors_desc_offset + SECTION_DESCRIPTOR_SIZE as u64;

    let mut file_data = Vec::new();

    let mut hdr = [0u8; FILE_HEADER_SIZE];
    hdr[0..8].copy_from_slice(&EVF_SIGNATURE);
    hdr[9..11].copy_from_slice(&1u16.to_le_bytes());
    file_data.extend_from_slice(&hdr);

    let mut vol_desc = [0u8; SECTION_DESCRIPTOR_SIZE];
    vol_desc[..6].copy_from_slice(b"volume");
    vol_desc[16..24].copy_from_slice(&tbl_desc_off.to_le_bytes());
    let vol_section_size = SECTION_DESCRIPTOR_SIZE as u64 + 94;
    vol_desc[24..32].copy_from_slice(&vol_section_size.to_le_bytes());
    file_data.extend_from_slice(&vol_desc);

    let mut vol_data = [0u8; 94];
    vol_data[4..8].copy_from_slice(&1u32.to_le_bytes());
    vol_data[8..12].copy_from_slice(&sectors_per_chunk.to_le_bytes());
    vol_data[12..16].copy_from_slice(&bytes_per_sector.to_le_bytes());
    vol_data[16..24].copy_from_slice(&sector_count.to_le_bytes());
    file_data.extend_from_slice(&vol_data);

    let mut tbl_desc = [0u8; SECTION_DESCRIPTOR_SIZE];
    tbl_desc[..5].copy_from_slice(b"table");
    tbl_desc[16..24].copy_from_slice(&sectors_desc_offset.to_le_bytes());
    let tbl_section_size = SECTION_DESCRIPTOR_SIZE as u64 + 24 + 4;
    tbl_desc[24..32].copy_from_slice(&tbl_section_size.to_le_bytes());
    file_data.extend_from_slice(&tbl_desc);

    let mut tbl_hdr = [0u8; 24];
    tbl_hdr[0..4].copy_from_slice(&1u32.to_le_bytes());
    tbl_hdr[8..16].copy_from_slice(&sectors_data_offset.to_le_bytes());
    file_data.extend_from_slice(&tbl_hdr);

    let entry: u32 = 0x8000_0000;
    file_data.extend_from_slice(&entry.to_le_bytes());

    let mut sec_desc = [0u8; SECTION_DESCRIPTOR_SIZE];
    sec_desc[..7].copy_from_slice(b"sectors");
    let bogus_next: u64 = 999_999_999;
    sec_desc[16..24].copy_from_slice(&bogus_next.to_le_bytes());
    let sec_section_size = SECTION_DESCRIPTOR_SIZE as u64 + compressed.len() as u64;
    sec_desc[24..32].copy_from_slice(&sec_section_size.to_le_bytes());
    file_data.extend_from_slice(&sec_desc);

    file_data.extend_from_slice(&compressed);

    file_data
}

#[test]
fn ewf_reader_handles_truncated_section_chain() {
    let data = b"truncated chain test data!!!";
    let tmp = build_synthetic_e01_truncated_chain(data);
    let mut reader = open(&tmp).unwrap();
    assert_eq!(reader.chunk_count(), 1);
    let mut buf = vec![0u8; data.len()];
    read_exact(&mut reader, &mut buf).unwrap();
    assert_eq!(&buf, data);
}

#[test]
fn ewf_reader_open_with_cache_size() {
    let data = b"cache size test";
    let tmp = build_synthetic_e01(data);
    let reader = open_with_cache_size(&tmp, 10).unwrap();
    assert_eq!(reader.chunk_count(), 1);
}

#[test]
fn open_missing_volume_section() {
    let mut file_data = Vec::new();

    file_data.extend_from_slice(&EVF_SIGNATURE);
    file_data.push(0x01);
    file_data.extend_from_slice(&1u16.to_le_bytes());
    file_data.extend_from_slice(&0u16.to_le_bytes());

    let mut done_desc = [0u8; SECTION_DESCRIPTOR_SIZE];
    done_desc[..4].copy_from_slice(b"done");
    done_desc[24..32].copy_from_slice(&(SECTION_DESCRIPTOR_SIZE as u64).to_le_bytes());
    file_data.extend_from_slice(&done_desc);

    let tmp = file_data;

    let result = open(&tmp);
    assert!(matches!(result, Err(EwfError::MissingVolume)));
}

#[test]
fn ewf_reader_seek_from_current() {
    let data = b"ABCDEFGHIJKLMNOP";
    let tmp = build_synthetic_e01(data);
    let mut reader = open(&tmp).unwrap();

    reader.seek(SeekFrom::Start(4)).unwrap();
    let pos = reader.seek(SeekFrom::Current(4)).unwrap();
    assert_eq!(pos, 8);

    let mut buf = [0u8; 4];
    read_exact(&mut reader, &mut buf).unwrap();
    assert_eq!(&buf, b"IJKL");
}

#[test]
fn ewf_reader_seek_negative_position() {
    let data = b"test";
    let tmp = build_synthetic_e01(data);
    let mut reader = open(&tmp).unwrap();

    let result = reader.seek(SeekFrom::Current(-1));
    assert!(result.is_err());
}

#[test]
fn ewf_reader_cache_hit() {
    let data = b"cached data test";
    let tmp = build_synthetic_e01(data);
    let mut reader = open(&tmp).unwrap();

    let mut buf1 = [0u8; 16];
    read_exact(&mut reader, &mut buf1).unwrap();

    reader.seek(SeekFrom::Start(0)).unwrap();
    let mut buf2 = [0u8; 16];
    read_exact(&mut reader, &mut buf2).unwrap();

    assert_eq!(buf1, buf2);
    assert_eq!(&buf1[..16], b"cached data test");
}

#[test]
fn ewf_reader_uncompressed_chunk() {
    let chunk_size: u32 = 32768;
    let sectors_per_chunk: u32 = 64;
    let bytes_per_sector: u32 = 512;
    let mut padded = b"uncompressed chunk data".to_vec();
    padded.resize(chunk_size as usize, 0);

    let sector_count = u64::from(chunk_size / bytes_per_sector);

    let vol_desc_offset: u64 = FILE_HEADER_SIZE as u64;
    let vol_data_offset: u64 = vol_desc_offset + SECTION_DESCRIPTOR_SIZE as u64;
    let tbl_desc_offset: u64 = vol_data_offset + 94;
    let tbl_hdr_offset: u64 = tbl_desc_offset + SECTION_DESCRIPTOR_SIZE as u64;
    let tbl_entries_offset: u64 = tbl_hdr_offset + 24;
    let sectors_desc_offset: u64 = tbl_entries_offset + 4;
    let sectors_data_offset: u64 = sectors_desc_offset + SECTION_DESCRIPTOR_SIZE as u64;
    let done_desc_offset: u64 = sectors_data_offset + u64::from(chunk_size);

    let mut file_data = Vec::new();

    file_data.extend_from_slice(&EVF_SIGNATURE);
    file_data.push(0x01);
    file_data.extend_from_slice(&1u16.to_le_bytes());
    file_data.extend_from_slice(&0u16.to_le_bytes());

    let mut vol_desc = [0u8; SECTION_DESCRIPTOR_SIZE];
    vol_desc[..6].copy_from_slice(b"volume");
    vol_desc[16..24].copy_from_slice(&tbl_desc_offset.to_le_bytes());
    vol_desc[24..32].copy_from_slice(&(SECTION_DESCRIPTOR_SIZE as u64 + 94).to_le_bytes());
    file_data.extend_from_slice(&vol_desc);

    let mut vol_data = [0u8; 94];
    vol_data[0..4].copy_from_slice(&1u32.to_le_bytes());
    vol_data[4..8].copy_from_slice(&1u32.to_le_bytes());
    vol_data[8..12].copy_from_slice(&sectors_per_chunk.to_le_bytes());
    vol_data[12..16].copy_from_slice(&bytes_per_sector.to_le_bytes());
    vol_data[16..24].copy_from_slice(&sector_count.to_le_bytes());
    file_data.extend_from_slice(&vol_data);

    let mut tbl_desc = [0u8; SECTION_DESCRIPTOR_SIZE];
    tbl_desc[..5].copy_from_slice(b"table");
    tbl_desc[16..24].copy_from_slice(&sectors_desc_offset.to_le_bytes());
    tbl_desc[24..32].copy_from_slice(&(SECTION_DESCRIPTOR_SIZE as u64 + 24 + 4).to_le_bytes());
    file_data.extend_from_slice(&tbl_desc);

    let mut tbl_hdr = [0u8; 24];
    tbl_hdr[0..4].copy_from_slice(&1u32.to_le_bytes());
    tbl_hdr[8..16].copy_from_slice(&sectors_data_offset.to_le_bytes());
    file_data.extend_from_slice(&tbl_hdr);

    let entry: u32 = 0x0000_0000;
    file_data.extend_from_slice(&entry.to_le_bytes());

    let mut sec_desc = [0u8; SECTION_DESCRIPTOR_SIZE];
    sec_desc[..7].copy_from_slice(b"sectors");
    sec_desc[16..24].copy_from_slice(&done_desc_offset.to_le_bytes());
    sec_desc[24..32].copy_from_slice(
        &(SECTION_DESCRIPTOR_SIZE as u64 + u64::from(chunk_size)).to_le_bytes(),
    );
    file_data.extend_from_slice(&sec_desc);

    file_data.extend_from_slice(&padded);

    let mut done_desc = [0u8; SECTION_DESCRIPTOR_SIZE];
    done_desc[..4].copy_from_slice(b"done");
    done_desc[24..32].copy_from_slice(&(SECTION_DESCRIPTOR_SIZE as u64).to_le_bytes());
    file_data.extend_from_slice(&done_desc);

    let tmp = file_data;

    let mut reader = open(&tmp).unwrap();
    let expected = b"uncompressed chunk data";
    let mut buf = vec![0u8; expected.len()];
    read_exact(&mut reader, &mut buf).unwrap();
    assert_eq!(buf, expected);
}

#[test]
fn ewf_reader_decompression_error() {
    let chunk_size: u32 = 32768;
    let sectors_per_chunk: u32 = 64;
    let bytes_per_sector: u32 = 512;
    let garbage = b"THIS IS NOT VALID ZLIB DATA!!!!";

    let sector_count = u64::from(chunk_size / bytes_per_sector);

    let vol_desc_offset: u64 = FILE_HEADER_SIZE as u64;
    let vol_data_offset: u64 = vol_desc_offset + SECTION_DESCRIPTOR_SIZE as u64;
    let tbl_desc_offset: u64 = vol_data_offset + 94;
    let tbl_hdr_offset: u64 = tbl_desc_offset + SECTION_DESCRIPTOR_SIZE as u64;
    let tbl_entries_offset: u64 = tbl_hdr_offset + 24;
    let sectors_desc_offset: u64 = tbl_entries_offset + 4;
    let sectors_data_offset: u64 = sectors_desc_offset + SECTION_DESCRIPTOR_SIZE as u64;
    let done_desc_offset: u64 = sectors_data_offset + garbage.len() as u64;

    let mut file_data = Vec::new();

    file_data.extend_from_slice(&EVF_SIGNATURE);
    file_data.push(0x01);
    file_data.extend_from_slice(&1u16.to_le_bytes());
    file_data.extend_from_slice(&0u16.to_le_bytes());

    let mut vol_desc = [0u8; SECTION_DESCRIPTOR_SIZE];
    vol_desc[..6].copy_from_slice(b"volume");
    vol_desc[16..24].copy_from_slice(&tbl_desc_offset.to_le_bytes());
    vol_desc[24..32].copy_from_slice(&(SECTION_DESCRIPTOR_SIZE as u64 + 94).to_le_bytes());
    file_data.extend_from_slice(&vol_desc);

    let mut vol_data = [0u8; 94];
    vol_data[0..4].copy_from_slice(&1u32.to_le_bytes());
    vol_data[4..8].copy_from_slice(&1u32.to_le_bytes());
    vol_data[8..12].copy_from_slice(&sectors_per_chunk.to_le_bytes());
    vol_data[12..16].copy_from_slice(&bytes_per_sector.to_le_bytes());
    vol_data[16..24].copy_from_slice(&sector_count.to_le_bytes());
    file_data.extend_from_slice(&vol_data);

    let mut tbl_desc = [0u8; SECTION_DESCRIPTOR_SIZE];
    tbl_desc[..5].copy_from_slice(b"table");
    tbl_desc[16..24].copy_from_slice(&sectors_desc_offset.to_le_bytes());
    tbl_desc[24..32].copy_from_slice(&(SECTION_DESCRIPTOR_SIZE as u64 + 24 + 4).to_le_bytes());
    file_data.extend_from_slice(&tbl_desc);

    let mut tbl_hdr = [0u8; 24];
    tbl_hdr[0..4].copy_from_slice(&1u32.to_le_bytes());
    tbl_hdr[8..16].copy_from_slice(&sectors_data_offset.to_le_bytes());
    file_data.extend_from_slice(&tbl_hdr);

    let entry: u32 = 0x8000_0000;
    file_data.extend_from_slice(&entry.to_le_bytes());

    let mut sec_desc = [0u8; SECTION_DESCRIPTOR_SIZE];
    sec_desc[..7].copy_from_slice(b"sectors");
    sec_desc[16..24].copy_from_slice(&done_desc_offset.to_le_bytes());
    sec_desc[24..32].copy_from_slice(
        &(SECTION_DESCRIPTOR_SIZE as u64 + garbage.len() as u64).to_le_bytes(),
    );
    file_data.extend_from_slice(&sec_desc);

    file_data.extend_from_slice(garbage);

    let mut done_desc = [0u8; SECTION_DESCRIPTOR_SIZE];
    done_desc[..4].copy_from_slice(b"done");
    done_desc[24..32].copy_from_slice(&(SECTION_DESCRIPTOR_SIZE as u64).to_le_bytes());
    file_data.extend_from_slice(&done_desc);

    let tmp = file_data;

    let mut reader = open(&tmp).unwrap();
    let mut buf = [0u8; 512];
    let result = reader.read(&mut buf);
    assert!(
        result.is_err() || {
            false
        }
    );
}

#[test]
fn ewf_reader_volume_with_zero_total_size() {

    let chunk_size: u32 = 32768;
    let sectors_per_chunk: u32 = 64;
    let bytes_per_sector: u32 = 512;
    let mut padded = b"zero total size test".to_vec();
    padded.resize(chunk_size as usize, 0);

    let mut encoder = ZlibEncoder::new(Vec::new(), Compression::default());
    encoder.write_all(&padded).unwrap();
    let compressed = encoder.finish().unwrap();

    let vol_desc_offset: u64 = FILE_HEADER_SIZE as u64;
    let vol_data_offset: u64 = vol_desc_offset + SECTION_DESCRIPTOR_SIZE as u64;
    let tbl_desc_offset: u64 = vol_data_offset + 94;
    let tbl_hdr_offset: u64 = tbl_desc_offset + SECTION_DESCRIPTOR_SIZE as u64;
    let tbl_entries_offset: u64 = tbl_hdr_offset + 24;
    let sectors_desc_offset: u64 = tbl_entries_offset + 4;
    let sectors_data_offset: u64 = sectors_desc_offset + SECTION_DESCRIPTOR_SIZE as u64;
    let done_desc_offset: u64 = sectors_data_offset + compressed.len() as u64;

    let mut file_data = Vec::new();

    file_data.extend_from_slice(&EVF_SIGNATURE);
    file_data.push(0x01);
    file_data.extend_from_slice(&1u16.to_le_bytes());
    file_data.extend_from_slice(&0u16.to_le_bytes());

    let mut vol_desc = [0u8; SECTION_DESCRIPTOR_SIZE];
    vol_desc[..6].copy_from_slice(b"volume");
    vol_desc[16..24].copy_from_slice(&tbl_desc_offset.to_le_bytes());
    vol_desc[24..32].copy_from_slice(&(SECTION_DESCRIPTOR_SIZE as u64 + 94).to_le_bytes());
    file_data.extend_from_slice(&vol_desc);

    let mut vol_data = [0u8; 94];
    vol_data[0..4].copy_from_slice(&1u32.to_le_bytes());
    vol_data[4..8].copy_from_slice(&1u32.to_le_bytes());
    vol_data[8..12].copy_from_slice(&sectors_per_chunk.to_le_bytes());
    vol_data[12..16].copy_from_slice(&bytes_per_sector.to_le_bytes());
    vol_data[16..24].copy_from_slice(&0u64.to_le_bytes());
    file_data.extend_from_slice(&vol_data);

    let mut tbl_desc = [0u8; SECTION_DESCRIPTOR_SIZE];
    tbl_desc[..5].copy_from_slice(b"table");
    tbl_desc[16..24].copy_from_slice(&sectors_desc_offset.to_le_bytes());
    tbl_desc[24..32].copy_from_slice(&(SECTION_DESCRIPTOR_SIZE as u64 + 24 + 4).to_le_bytes());
    file_data.extend_from_slice(&tbl_desc);

    let mut tbl_hdr = [0u8; 24];
    tbl_hdr[0..4].copy_from_slice(&1u32.to_le_bytes());
    tbl_hdr[8..16].copy_from_slice(&sectors_data_offset.to_le_bytes());
    file_data.extend_from_slice(&tbl_hdr);

    let entry: u32 = 0x8000_0000;
    file_data.extend_from_slice(&entry.to_le_bytes());

    let mut sec_desc = [0u8; SECTION_DESCRIPTOR_SIZE];
    sec_desc[..7].copy_from_slice(b"sectors");
    sec_desc[16..24].copy_from_slice(&done_desc_offset.to_le_bytes());
    sec_desc[24..32].copy_from_slice(
        &(SECTION_DESCRIPTOR_SIZE as u64 + compressed.len() as u64).to_le_bytes(),
    );
    file_data.extend_from_slice(&sec_desc);

    file_data.extend_from_slice(&compressed);

    let mut done_desc = [0u8; SECTION_DESCRIPTOR_SIZE];
    done_desc[..4].copy_from_slice(b"done");
    done_desc[24..32].copy_from_slice(&(SECTION_DESCRIPTOR_SIZE as u64).to_le_bytes());
    file_data.extend_from_slice(&done_desc);

    let tmp = file_data;

    let reader = open(&tmp).unwrap();
    assert_eq!(reader.total_size(), 32768);
}

#[test]
fn ewf_reader_read_at_eof_returns_zero() {
    let data = b"edge case";
    let tmp = build_synthetic_e01(data);
    let mut reader = open(&tmp).unwrap();

    let end = reader.total_size();
    reader.seek(SeekFrom::Start(end)).unwrap();
    let mut buf = [0u8; 16];
    let n = reader.read(&mut buf).unwrap();
    assert_eq!(n, 0);
}

fn build_synthetic_e01_two_chunks(data1: &[u8], data2: &[u8]) -> Vec<u8> {

    let chunk_size: u32 = 32768;
    let sectors_per_chunk: u32 = 64;
    let bytes_per_sector: u32 = 512;

    let mut padded1 = data1.to_vec();
    padded1.resize(chunk_size as usize, 0);
    let mut enc1 = ZlibEncoder::new(Vec::new(), Compression::default());
    enc1.write_all(&padded1).unwrap();
    let compressed1 = enc1.finish().unwrap();

    let mut padded2 = data2.to_vec();
    padded2.resize(chunk_size as usize, 0);
    let mut enc2 = ZlibEncoder::new(Vec::new(), Compression::default());
    enc2.write_all(&padded2).unwrap();
    let compressed2 = enc2.finish().unwrap();

    let total_compressed = compressed1.len() + compressed2.len();
    let sector_count = (u64::from(chunk_size) * 2) / u64::from(bytes_per_sector);

    let vol_desc_offset: u64 = FILE_HEADER_SIZE as u64;
    let vol_data_offset: u64 = vol_desc_offset + SECTION_DESCRIPTOR_SIZE as u64;
    let tbl_desc_offset: u64 = vol_data_offset + 94;
    let tbl_hdr_offset: u64 = tbl_desc_offset + SECTION_DESCRIPTOR_SIZE as u64;
    let tbl_entries_offset: u64 = tbl_hdr_offset + 24;
    let sectors_desc_offset: u64 = tbl_entries_offset + 8;
    let sectors_data_offset: u64 = sectors_desc_offset + SECTION_DESCRIPTOR_SIZE as u64;
    let done_desc_offset: u64 = sectors_data_offset + total_compressed as u64;

    let mut file_data = Vec::new();

    file_data.extend_from_slice(&EVF_SIGNATURE);
    file_data.push(0x01);
    file_data.extend_from_slice(&1u16.to_le_bytes());
    file_data.extend_from_slice(&0u16.to_le_bytes());

    let mut vol_desc = [0u8; SECTION_DESCRIPTOR_SIZE];
    vol_desc[..6].copy_from_slice(b"volume");
    vol_desc[16..24].copy_from_slice(&tbl_desc_offset.to_le_bytes());
    vol_desc[24..32].copy_from_slice(&(SECTION_DESCRIPTOR_SIZE as u64 + 94).to_le_bytes());
    file_data.extend_from_slice(&vol_desc);

    let mut vol_data = [0u8; 94];
    vol_data[0..4].copy_from_slice(&1u32.to_le_bytes());
    vol_data[4..8].copy_from_slice(&2u32.to_le_bytes());
    vol_data[8..12].copy_from_slice(&sectors_per_chunk.to_le_bytes());
    vol_data[12..16].copy_from_slice(&bytes_per_sector.to_le_bytes());
    vol_data[16..24].copy_from_slice(&sector_count.to_le_bytes());
    file_data.extend_from_slice(&vol_data);

    let mut tbl_desc = [0u8; SECTION_DESCRIPTOR_SIZE];
    tbl_desc[..5].copy_from_slice(b"table");
    tbl_desc[16..24].copy_from_slice(&sectors_desc_offset.to_le_bytes());
    tbl_desc[24..32].copy_from_slice(&(SECTION_DESCRIPTOR_SIZE as u64 + 24 + 8).to_le_bytes());
    file_data.extend_from_slice(&tbl_desc);

    let mut tbl_hdr = [0u8; 24];
    tbl_hdr[0..4].copy_from_slice(&2u32.to_le_bytes());
    tbl_hdr[8..16].copy_from_slice(&sectors_data_offset.to_le_bytes());
    file_data.extend_from_slice(&tbl_hdr);

    let entry1: u32 = 0x8000_0000;
    file_data.extend_from_slice(&entry1.to_le_bytes());

    let entry2: u32 = 0x8000_0000 | compressed1.len() as u32;
    file_data.extend_from_slice(&entry2.to_le_bytes());

    let mut sec_desc = [0u8; SECTION_DESCRIPTOR_SIZE];
    sec_desc[..7].copy_from_slice(b"sectors");
    sec_desc[16..24].copy_from_slice(&done_desc_offset.to_le_bytes());
    sec_desc[24..32].copy_from_slice(
        &(SECTION_DESCRIPTOR_SIZE as u64 + total_compressed as u64).to_le_bytes(),
    );
    file_data.extend_from_slice(&sec_desc);

    file_data.extend_from_slice(&compressed1);
    file_data.extend_from_slice(&compressed2);

    let mut done_desc = [0u8; SECTION_DESCRIPTOR_SIZE];
    done_desc[..4].copy_from_slice(b"done");
    done_desc[24..32].copy_from_slice(&(SECTION_DESCRIPTOR_SIZE as u64).to_le_bytes());
    file_data.extend_from_slice(&done_desc);

    file_data
}

#[test]
fn ewf_reader_two_compressed_chunks() {
    let data1 = b"first chunk data here!";
    let data2 = b"second chunk is different";
    let tmp = build_synthetic_e01_two_chunks(data1, data2);
    let mut reader = open(&tmp).unwrap();

    assert_eq!(reader.total_size(), 32768 * 2);
    assert_eq!(reader.chunk_count(), 2);

    let mut buf = vec![0u8; data1.len()];
    read_exact(&mut reader, &mut buf).unwrap();
    assert_eq!(buf, data1);

    reader.seek(SeekFrom::Start(32768)).unwrap();
    let mut buf2 = vec![0u8; data2.len()];
    read_exact(&mut reader, &mut buf2).unwrap();
    assert_eq!(buf2, data2);
}

#[test]
fn parse_header_text_short_input() {
    let mut meta = EwfMetadata::default();
    parse_header_text("line1\nline2\n", &mut meta);
    assert!(meta.case_number.is_none());
}

#[test]
fn parse_error2_data_short_input() {
    let errors = parse_error2_data(&[0u8; 4]);
    assert!(errors.is_empty());
}

#[test]
fn parse_error2_data_truncated_entries() {
    let mut data = Vec::new();
    data.extend_from_slice(&2u32.to_le_bytes());
    data.extend_from_slice(&[0u8; 4]);
    data.extend_from_slice(&100u32.to_le_bytes());
    data.extend_from_slice(&5u32.to_le_bytes());
    let errors = parse_error2_data(&data);
    assert_eq!(errors.len(), 1);
}

fn build_synthetic_e01_with_error2() -> Vec<u8> {

    let chunk_size: u32 = 32768;
    let sectors_per_chunk: u32 = 64;
    let bytes_per_sector: u32 = 512;
    let sector_count = u64::from(chunk_size / bytes_per_sector);
    let data = b"error2 test data";
    let mut padded = data.to_vec();
    padded.resize(chunk_size as usize, 0);

    let mut encoder = ZlibEncoder::new(Vec::new(), Compression::default());
    encoder.write_all(&padded).unwrap();
    let compressed = encoder.finish().unwrap();

    let mut error2_data = Vec::new();
    error2_data.extend_from_slice(&1u32.to_le_bytes());
    error2_data.extend_from_slice(&[0u8; 4]);
    error2_data.extend_from_slice(&42u32.to_le_bytes());
    error2_data.extend_from_slice(&3u32.to_le_bytes());
    error2_data.extend_from_slice(&[0u8; 4]);
    let error2_size = error2_data.len();

    let vol_desc_off: u64 = FILE_HEADER_SIZE as u64;
    let vol_data_off: u64 = vol_desc_off + SECTION_DESCRIPTOR_SIZE as u64;
    let tbl_desc_off: u64 = vol_data_off + 94;
    let tbl_hdr_off: u64 = tbl_desc_off + SECTION_DESCRIPTOR_SIZE as u64;
    let tbl_entry_off: u64 = tbl_hdr_off + 24;
    let sectors_desc_off: u64 = tbl_entry_off + 4;
    let sectors_data_off: u64 = sectors_desc_off + SECTION_DESCRIPTOR_SIZE as u64;
    let error2_desc_off: u64 = sectors_data_off + compressed.len() as u64;
    let error2_data_off: u64 = error2_desc_off + SECTION_DESCRIPTOR_SIZE as u64;
    let done_desc_off: u64 = error2_data_off + error2_size as u64;

    let mut file_data = Vec::new();

    file_data.extend_from_slice(&EVF_SIGNATURE);
    file_data.push(0x01);
    file_data.extend_from_slice(&1u16.to_le_bytes());
    file_data.extend_from_slice(&0u16.to_le_bytes());

    let mut vd = [0u8; SECTION_DESCRIPTOR_SIZE];
    vd[..6].copy_from_slice(b"volume");
    vd[16..24].copy_from_slice(&tbl_desc_off.to_le_bytes());
    vd[24..32].copy_from_slice(&(SECTION_DESCRIPTOR_SIZE as u64 + 94).to_le_bytes());
    file_data.extend_from_slice(&vd);
    let mut vol = [0u8; 94];
    vol[4..8].copy_from_slice(&1u32.to_le_bytes());
    vol[8..12].copy_from_slice(&sectors_per_chunk.to_le_bytes());
    vol[12..16].copy_from_slice(&bytes_per_sector.to_le_bytes());
    vol[16..24].copy_from_slice(&sector_count.to_le_bytes());
    file_data.extend_from_slice(&vol);

    let mut td = [0u8; SECTION_DESCRIPTOR_SIZE];
    td[..5].copy_from_slice(b"table");
    td[16..24].copy_from_slice(&sectors_desc_off.to_le_bytes());
    td[24..32].copy_from_slice(&(SECTION_DESCRIPTOR_SIZE as u64 + 24 + 4).to_le_bytes());
    file_data.extend_from_slice(&td);
    let mut th = [0u8; 24];
    th[0..4].copy_from_slice(&1u32.to_le_bytes());
    th[8..16].copy_from_slice(&sectors_data_off.to_le_bytes());
    file_data.extend_from_slice(&th);
    file_data.extend_from_slice(&0x8000_0000u32.to_le_bytes());

    let mut sd = [0u8; SECTION_DESCRIPTOR_SIZE];
    sd[..7].copy_from_slice(b"sectors");
    sd[16..24].copy_from_slice(&error2_desc_off.to_le_bytes());
    sd[24..32].copy_from_slice(
        &(SECTION_DESCRIPTOR_SIZE as u64 + compressed.len() as u64).to_le_bytes(),
    );
    file_data.extend_from_slice(&sd);
    file_data.extend_from_slice(&compressed);

    let mut ed = [0u8; SECTION_DESCRIPTOR_SIZE];
    ed[..6].copy_from_slice(b"error2");
    ed[16..24].copy_from_slice(&done_desc_off.to_le_bytes());
    ed[24..32]
        .copy_from_slice(&(SECTION_DESCRIPTOR_SIZE as u64 + error2_size as u64).to_le_bytes());
    file_data.extend_from_slice(&ed);
    file_data.extend_from_slice(&error2_data);

    let mut dd = [0u8; SECTION_DESCRIPTOR_SIZE];
    dd[..4].copy_from_slice(b"done");
    dd[24..32].copy_from_slice(&(SECTION_DESCRIPTOR_SIZE as u64).to_le_bytes());
    file_data.extend_from_slice(&dd);

    file_data
}

#[test]
fn ewf_reader_parses_error2_from_synthetic() {
    let tmp = build_synthetic_e01_with_error2();
    let reader = open(&tmp).unwrap();
    let errors = reader.acquisition_errors();
    assert_eq!(errors.len(), 1);
    assert_eq!(errors[0].first_sector, 42);
    assert_eq!(errors[0].sector_count, 3);
}

#[test]
fn validate_reorder_sequential_segments() {
    let files: Vec<&str> = vec!["a", "b", "c"][..3].to_vec();
    let result = validate_and_reorder_segments(files, vec![1, 2, 3]);
    assert!(result.is_ok());
    assert_eq!(result.unwrap().len(), 3);
}

#[test]
fn validate_reorder_out_of_order_segments() {
    let files: Vec<&str> = vec!["a", "b", "c"][..3].to_vec();
    let result = validate_and_reorder_segments(files, vec![3, 1, 2]);
    assert!(result.is_ok());
    assert_eq!(result.unwrap().len(), 3);
}

#[test]
fn validate_reorder_single_segment() {
    let files: Vec<&str> = vec!["a", "b", "c"][..1].to_vec();
    let result = validate_and_reorder_segments(files, vec![1]);
    assert!(result.is_ok());
    assert_eq!(result.unwrap().len(), 1);
}

#[test]
fn validate_reorder_detects_gap() {
    let files: Vec<&str> = vec!["a", "b", "c"][..2].to_vec();
    let result = validate_and_reorder_segments(files, vec![1, 3]);
    assert!(
        matches!(
            result,
            Err(EwfError::SegmentGap {
                expected: 2,
                got: 3
            })
        ),
        "Should detect gap: {result:?}"
    );
}

#[test]
fn validate_reorder_detects_gap_starting_at_zero() {
    let files: Vec<&str> = vec!["a", "b", "c"][..1].to_vec();
    let result = validate_and_reorder_segments(files, vec![0]);
    assert!(
        matches!(
            result,
            Err(EwfError::SegmentGap {
                expected: 1,
                got: 0
            })
        ),
        "Should reject segment 0: {result:?}"
    );
}

#[test]
fn validate_reorder_detects_duplicate_segments() {
    let files: Vec<&str> = vec!["a", "b", "c"][..2].to_vec();
    let result = validate_and_reorder_segments(files, vec![1, 1]);
    assert!(
        matches!(result, Err(EwfError::SegmentGap { .. })),
        "Should reject duplicate segment numbers: {result:?}"
    );
}

#[test]
fn last_compressed_chunk_has_correct_size() {
    let data1 = b"first chunk";
    let data2 = b"second chunk data";
    let tmp = build_synthetic_e01_two_chunks(data1, data2);
    let reader = open(&tmp).unwrap();

    assert_eq!(reader.chunk_count(), 2);

    let c0 = reader.chunk_meta(0);
    let c1 = reader.chunk_meta(1);
    assert!(c0.compressed);
    assert!(c1.compressed);

    assert!(
        c0.size < reader.chunk_size(),
        "Chunk 0 compressed size should be < chunk_size, got {}",
        c0.size
    );

    assert!(
        c1.size < reader.chunk_size(),
        "Last chunk compressed size should be < chunk_size ({}), got {}",
        reader.chunk_size(),
        c1.size
    );
}

#[test]
fn single_compressed_chunk_has_correct_size() {
    let data = b"solo chunk data";
    let tmp = build_synthetic_e01(data);
    let reader = open(&tmp).unwrap();

    assert_eq!(reader.chunk_count(), 1);
    let c0 = reader.chunk_meta(0);
    assert!(c0.compressed);
    assert!(
        c0.size < reader.chunk_size(),
        "Single compressed chunk size should be < chunk_size ({}), got {}",
        reader.chunk_size(),
        c0.size
    );
}

#[test]
fn v1_rejects_absurd_table_entry_count() {
    let chunk_size: u32 = 32768;
    let sectors_per_chunk: u32 = 64;
    let bytes_per_sector: u32 = 512;
    let sector_count: u64 = u64::from(chunk_size / bytes_per_sector);

    let vol_desc_offset: u64 = FILE_HEADER_SIZE as u64;
    let vol_data_offset: u64 = vol_desc_offset + SECTION_DESCRIPTOR_SIZE as u64;
    let tbl_desc_offset: u64 = vol_data_offset + 94;
    let tbl_hdr_offset: u64 = tbl_desc_offset + SECTION_DESCRIPTOR_SIZE as u64;
    let done_desc_offset: u64 = tbl_hdr_offset + 24 + 4;

    let mut file_data = Vec::new();

    file_data.extend_from_slice(&EVF_SIGNATURE);
    file_data.push(0x01);
    file_data.extend_from_slice(&1u16.to_le_bytes());
    file_data.extend_from_slice(&0u16.to_le_bytes());

    let mut vol_desc = [0u8; SECTION_DESCRIPTOR_SIZE];
    vol_desc[..6].copy_from_slice(b"volume");
    vol_desc[16..24].copy_from_slice(&tbl_desc_offset.to_le_bytes());
    vol_desc[24..32].copy_from_slice(&(SECTION_DESCRIPTOR_SIZE as u64 + 94).to_le_bytes());
    file_data.extend_from_slice(&vol_desc);

    let mut vol_data = [0u8; 94];
    vol_data[0..4].copy_from_slice(&1u32.to_le_bytes());
    vol_data[4..8].copy_from_slice(&1u32.to_le_bytes());
    vol_data[8..12].copy_from_slice(&sectors_per_chunk.to_le_bytes());
    vol_data[12..16].copy_from_slice(&bytes_per_sector.to_le_bytes());
    vol_data[16..24].copy_from_slice(&sector_count.to_le_bytes());
    file_data.extend_from_slice(&vol_data);

    let mut tbl_desc = [0u8; SECTION_DESCRIPTOR_SIZE];
    tbl_desc[..5].copy_from_slice(b"table");
    tbl_desc[16..24].copy_from_slice(&done_desc_offset.to_le_bytes());
    let tbl_section_size = SECTION_DESCRIPTOR_SIZE as u64 + 24 + 4;
    tbl_desc[24..32].copy_from_slice(&tbl_section_size.to_le_bytes());
    file_data.extend_from_slice(&tbl_desc);

    let mut tbl_hdr = [0u8; 24];
    tbl_hdr[0..4].copy_from_slice(&0x1000_0000u32.to_le_bytes());
    tbl_hdr[8..16].copy_from_slice(&0u64.to_le_bytes());
    file_data.extend_from_slice(&tbl_hdr);

    file_data.extend_from_slice(&0u32.to_le_bytes());

    let mut done_desc = [0u8; SECTION_DESCRIPTOR_SIZE];
    done_desc[..4].copy_from_slice(b"done");
    done_desc[24..32].copy_from_slice(&(SECTION_DESCRIPTOR_SIZE as u64).to_le_bytes());
    file_data.extend_from_slice(&done_desc);

    let tmp = file_data;

    let result = open(&tmp);
    assert!(
        result.is_err(),
        "Should reject absurd entry_count, got: {:?}",
        result.ok().map(|r| r.chunk_count())
    );
    let err_msg = result.err().unwrap().message();
    assert!(
        err_msg.contains("entry count"),
        "Error should mention entry count: {err_msg}"
    );
}
