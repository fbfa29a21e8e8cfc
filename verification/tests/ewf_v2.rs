use std::io::Write;

use flate2::write::ZlibEncoder;
use flate2::Compression;
use kdft::error::{EwfError, IoError};
use kdft::ewf2;
use kdft::parse::{parse_ewf2_case_data, parse_ewf2_device_info};
use kdft::reader::{EwfReader, SeekFrom};
use kdft::sections::{EVF_SIGNATURE, FILE_HEADER_SIZE};
use kdft::source::memory_read;
use kdft::types::EwfMetadata;

type Source = Box<dyn Fn(usize, u64, usize) -> Result<Vec<u8>, String>>;

fn open_all(files: Vec<Vec<u8>>, cache_size: usize) -> Result<EwfReader<Source>, EwfError> {
    let lens = files.iter().map(|f| f.len() as u64).collect();
    let source: Source = Box::new(move |i, offset, n| memory_read(&files, i, offset, n));
    EwfReader::open_segments_with_cache_size(lens, source, cache_size)
}

fn open(file: &[u8]) -> Result<EwfReader<Source>, EwfError> {
    open_all(vec![file.to_vec()], 100)
}

fn read_exact(reader: &mut EwfReader<Source>, buf: &mut [u8]) -> Result<(), IoError> {
    let n = reader.read(buf)?;
    assert_eq!(n, buf.len());
    Ok(())
}

fn make_v2_desc(section_type: u32, data_size: u64, previous_offset: u64) -> [u8; 64] {
    let mut desc = [0u8; 64];
    desc[0..4].copy_from_slice(&section_type.to_le_bytes());
    desc[8..16].copy_from_slice(&previous_offset.to_le_bytes());
    desc[16..24].copy_from_slice(&data_size.to_le_bytes());
    desc[24..28].copy_from_slice(&64u32.to_le_bytes());
    desc
}

fn minimal_ex01(segment: u32) -> Vec<u8> {
    let mut d = Vec::new();
    d.extend_from_slice(&ewf2::EVF2_SIGNATURE);
    d.push(2);
    d.push(1);
    d.extend_from_slice(&1u16.to_le_bytes());
    d.extend_from_slice(&segment.to_le_bytes());
    d.extend_from_slice(&[0u8; 16]);
    let mut done = [0u8; 64];
    done[0..4].copy_from_slice(&0x0Fu32.to_le_bytes());
    done[24..28].copy_from_slice(&64u32.to_le_bytes());
    d.extend_from_slice(&done);
    d
}

#[test]
fn ewf2_reader_rejects_segment_gap() {
    let result = open_all(vec![minimal_ex01(1), minimal_ex01(3)], 100);
    assert!(result.is_err(), "Should reject segment gap");
    let err_msg = result.err().unwrap().message();
    assert!(
        err_msg.contains("segment gap"),
        "Error should mention segment gap: {err_msg}"
    );
}

fn make_file_header(segment_number: u16) -> [u8; 13] {
    let mut buf = [0u8; FILE_HEADER_SIZE];
    buf[0..8].copy_from_slice(&EVF_SIGNATURE);
    buf[8] = 0x01;
    buf[9..11].copy_from_slice(&segment_number.to_le_bytes());
    buf[11] = 0x00;
    buf[12] = 0x00;
    buf
}

fn make_ewf2_file_header(is_physical: bool, segment: u32, compression: u16) -> [u8; 32] {
    let mut buf = [0u8; 32];
    let sig = if is_physical {
        ewf2::EVF2_SIGNATURE
    } else {
        ewf2::LEF2_SIGNATURE
    };
    buf[0..8].copy_from_slice(&sig);
    buf[8] = 0x02;
    buf[9] = 0x01;
    buf[10..12].copy_from_slice(&compression.to_le_bytes());
    buf[12..16].copy_from_slice(&segment.to_le_bytes());
    buf
}

#[test]
fn ewf2_parse_ex01_header() {
    let buf = make_ewf2_file_header(true, 1, 1);
    let header = ewf2::Ewf2FileHeader::parse(&buf).unwrap();
    assert!(header.is_physical, "Ex01 should be physical");
    assert_eq!(header.major_version, 2);
    assert_eq!(header.minor_version, 1);
    assert_eq!(header.compression_method, ewf2::CompressionMethod::Zlib);
    assert_eq!(header.segment_number, 1);
}

#[test]
fn ewf2_parse_lx01_header() {
    let buf = make_ewf2_file_header(false, 3, 2);
    let header = ewf2::Ewf2FileHeader::parse(&buf).unwrap();
    assert!(!header.is_physical, "Lx01 should not be physical");
    assert_eq!(header.compression_method, ewf2::CompressionMethod::Bzip2);
    assert_eq!(header.segment_number, 3);
}

#[test]
fn ewf2_header_rejects_v1_signature() {
    let v1_buf = make_file_header(1);
    let mut buf = [0u8; 32];
    buf[..13].copy_from_slice(&v1_buf);
    assert!(ewf2::Ewf2FileHeader::parse(&buf).is_err());
}

#[test]
fn ewf2_header_rejects_short_buffer() {
    assert!(ewf2::Ewf2FileHeader::parse(&[0u8; 10]).is_err());
}

fn make_ewf2_section_descriptor(
    section_type: u32,
    data_flags: u32,
    prev_offset: u64,
    data_size: u64,
) -> [u8; 64] {
    let mut buf = [0u8; 64];
    buf[0..4].copy_from_slice(&section_type.to_le_bytes());
    buf[4..8].copy_from_slice(&data_flags.to_le_bytes());
    buf[8..16].copy_from_slice(&prev_offset.to_le_bytes());
    buf[16..24].copy_from_slice(&data_size.to_le_bytes());
    buf[24..28].copy_from_slice(&64u32.to_le_bytes());
    buf
}

#[test]
fn ewf2_parse_section_descriptor() {
    let buf = make_ewf2_section_descriptor(0x03, 0x01, 100, 65536);
    let desc = ewf2::Ewf2SectionDescriptor::parse(&buf, 200).unwrap();
    assert_eq!(desc.section_type, ewf2::Ewf2SectionType::SectorData);
    assert!(desc.is_md5_hashed());
    assert!(!desc.is_encrypted());
    assert_eq!(desc.previous_offset, 100);
    assert_eq!(desc.data_size, 65536);
    assert_eq!(desc.offset, 200);
}

#[test]
fn ewf2_section_descriptor_encrypted_flag() {
    let buf = make_ewf2_section_descriptor(0x08, 0x03, 0, 20);
    let desc = ewf2::Ewf2SectionDescriptor::parse(&buf, 0).unwrap();
    assert_eq!(desc.section_type, ewf2::Ewf2SectionType::Md5Hash);
    assert!(desc.is_encrypted());
}

#[test]
fn ewf2_section_type_names() {
    assert_eq!(ewf2::Ewf2SectionType::SectorData.name(), "sector_data");
    assert_eq!(ewf2::Ewf2SectionType::Done.name(), "done");
    assert_eq!(ewf2::Ewf2SectionType::Unknown(0xFF).name(), "unknown");
}

fn make_ewf2_table_entry(offset: u64, size: u32, flags: u32) -> [u8; 16] {
    let mut buf = [0u8; 16];
    buf[0..8].copy_from_slice(&offset.to_le_bytes());
    buf[8..12].copy_from_slice(&size.to_le_bytes());
    buf[12..16].copy_from_slice(&flags.to_le_bytes());
    buf
}

#[test]
fn ewf2_parse_compressed_table_entry() {
    let buf = make_ewf2_table_entry(4096, 30000, 0x01);
    let entry = ewf2::Ewf2TableEntry::parse(&buf).unwrap();
    assert_eq!(entry.chunk_data_offset, 4096);
    assert_eq!(entry.chunk_data_size, 30000);
    assert!(entry.is_compressed());
    assert!(!entry.is_checksumed());
    assert!(!entry.is_pattern_fill());
}

#[test]
fn ewf2_parse_uncompressed_table_entry() {
    let buf = make_ewf2_table_entry(8192, 32768, 0x02);
    let entry = ewf2::Ewf2TableEntry::parse(&buf).unwrap();
    assert!(!entry.is_compressed());
    assert!(entry.is_checksumed());
}

#[test]
fn ewf2_parse_pattern_fill_entry() {
    let buf = make_ewf2_table_entry(0, 0, 0x05);
    let entry = ewf2::Ewf2TableEntry::parse(&buf).unwrap();
    assert!(entry.is_pattern_fill());
    assert_eq!(entry.chunk_data_size, 0);
}

#[test]
fn ewf2_parse_table_header() {
    let mut buf = [0u8; 32];
    buf[0..8].copy_from_slice(&0u64.to_le_bytes());
    buf[8..12].copy_from_slice(&128u32.to_le_bytes());
    let header = ewf2::Ewf2TableHeader::parse(&buf).unwrap();
    assert_eq!(header.first_chunk, 0);
    assert_eq!(header.entry_count, 128);
}

fn build_synthetic_ex01(data: &[u8]) -> Vec<u8> {

    let chunk_size: u32 = 32768;
    let bytes_per_sector: u32 = 512;
    let sectors_per_chunk: u32 = chunk_size / bytes_per_sector;
    let total_sectors: u64 = u64::from(sectors_per_chunk);

    let mut padded = data.to_vec();
    padded.resize(chunk_size as usize, 0);
    let mut encoder = ZlibEncoder::new(Vec::new(), Compression::default());
    encoder.write_all(&padded).unwrap();
    let compressed = encoder.finish().unwrap();

    let device_info_text = format!(
        "2\nmain\nb\tsc\tts\n{bytes_per_sector}\t{sectors_per_chunk}\t{total_sectors}\n\n"
    );
    let device_info_utf16: Vec<u8> = device_info_text
        .encode_utf16()
        .flat_map(u16::to_le_bytes)
        .collect();

    let d = device_info_utf16.len();
    let c = compressed.len();
    let table_data_size: usize = 32 + 16;

    let devinfo_data_off: usize = 32;
    let devinfo_desc_off: usize = devinfo_data_off + d;
    let sectors_data_off: usize = devinfo_desc_off + 64;
    let sectors_desc_off: usize = sectors_data_off + c;
    let table_data_off: usize = sectors_desc_off + 64;
    let table_desc_off: usize = table_data_off + table_data_size;
    let done_desc_off: usize = table_desc_off + 64;


    let mut file_data = Vec::new();

    file_data.extend_from_slice(&ewf2::EVF2_SIGNATURE);
    file_data.push(2);
    file_data.push(1);
    file_data.extend_from_slice(&1u16.to_le_bytes());
    file_data.extend_from_slice(&1u32.to_le_bytes());
    file_data.extend_from_slice(&[0u8; 16]);
    assert_eq!(file_data.len(), 32);

    file_data.extend_from_slice(&device_info_utf16);
    file_data.extend_from_slice(&make_v2_desc(0x01, d as u64, 0));
    assert_eq!(file_data.len(), devinfo_desc_off + 64);

    file_data.extend_from_slice(&compressed);
    file_data.extend_from_slice(&make_v2_desc(0x03, c as u64, devinfo_desc_off as u64));
    assert_eq!(file_data.len(), sectors_desc_off + 64);

    let mut tbl_hdr = [0u8; 32];
    tbl_hdr[0..8].copy_from_slice(&0u64.to_le_bytes());
    tbl_hdr[8..12].copy_from_slice(&1u32.to_le_bytes());
    file_data.extend_from_slice(&tbl_hdr);

    let mut entry = [0u8; 16];
    entry[0..8].copy_from_slice(&(sectors_data_off as u64).to_le_bytes());
    entry[8..12].copy_from_slice(&(c as u32).to_le_bytes());
    entry[12..16].copy_from_slice(&ewf2::CHUNK_FLAG_COMPRESSED.to_le_bytes());
    file_data.extend_from_slice(&entry);
    file_data.extend_from_slice(&make_v2_desc(
        0x04,
        table_data_size as u64,
        sectors_desc_off as u64,
    ));
    assert_eq!(file_data.len(), table_desc_off + 64);

    file_data.extend_from_slice(&make_v2_desc(0x0F, 0, table_desc_off as u64));

    assert_eq!(file_data.len(), done_desc_off + 64);

    file_data
}

#[test]
fn ewf2_section_descriptor_rejects_short_buffer() {
    assert!(ewf2::Ewf2SectionDescriptor::parse(&[0u8; 10], 0).is_err());
}

#[test]
fn ewf2_table_entry_rejects_short_buffer() {
    assert!(ewf2::Ewf2TableEntry::parse(&[0u8; 4]).is_err());
}

#[test]
fn ewf2_table_header_rejects_short_buffer() {
    assert!(ewf2::Ewf2TableHeader::parse(&[0u8; 8]).is_err());
}

#[test]
fn ewf2_compression_none_and_unknown() {
    assert_eq!(
        ewf2::CompressionMethod::from_u16(0).unwrap(),
        ewf2::CompressionMethod::Uncompressed
    );
    assert!(ewf2::CompressionMethod::from_u16(99).is_err());
}

#[test]
fn ewf2_section_type_from_u32_all_variants() {
    let cases: &[(u32, &str)] = &[
        (0x01, "device_info"),
        (0x02, "case_data"),
        (0x03, "sector_data"),
        (0x04, "sector_table"),
        (0x05, "error_table"),
        (0x06, "session_table"),
        (0x07, "increment_data"),
        (0x08, "md5_hash"),
        (0x09, "sha1_hash"),
        (0x0A, "restart_data"),
        (0x0B, "encryption_keys"),
        (0x0C, "memory_extents"),
        (0x0D, "next"),
        (0x0E, "final_info"),
        (0x0F, "done"),
        (0x10, "analytical_data"),
        (0x20, "single_files_data"),
        (0xFF, "unknown"),
    ];
    for &(val, expected_name) in cases {
        let st = ewf2::Ewf2SectionType::from_u32(val);
        assert_eq!(st.name(), expected_name, "from_u32({val:#x}) name mismatch");
    }
}

#[test]
fn ewf2_reader_rejects_encrypted() {
    let mut file_data = Vec::new();

    file_data.extend_from_slice(&ewf2::EVF2_SIGNATURE);
    file_data.push(2);
    file_data.push(1);
    file_data.extend_from_slice(&1u16.to_le_bytes());
    file_data.extend_from_slice(&1u32.to_le_bytes());
    file_data.extend_from_slice(&[0u8; 16]);
    assert_eq!(file_data.len(), 32);

    file_data.extend_from_slice(&[0u8; 100]);

    let mut desc = [0u8; 64];
    desc[0..4].copy_from_slice(&0x01u32.to_le_bytes());
    desc[4..8].copy_from_slice(&0x02u32.to_le_bytes());
    desc[8..16].copy_from_slice(&0u64.to_le_bytes());
    desc[16..24].copy_from_slice(&100u64.to_le_bytes());
    desc[24..28].copy_from_slice(&64u32.to_le_bytes());
    file_data.extend_from_slice(&desc);
    assert_eq!(file_data.len(), 196);

    let mut done = [0u8; 64];
    done[0..4].copy_from_slice(&0x0Fu32.to_le_bytes());
    done[8..16].copy_from_slice(&132u64.to_le_bytes());
    done[16..24].copy_from_slice(&0u64.to_le_bytes());
    done[24..28].copy_from_slice(&64u32.to_le_bytes());
    file_data.extend_from_slice(&done);
    assert_eq!(file_data.len(), 260);

    let tmp = file_data;

    let result = open(&tmp);
    assert!(result.is_err(), "Encrypted EWF2 should be rejected");
    assert!(
        matches!(result.err().unwrap(), EwfError::EncryptedNotSupported),
        "Should be EncryptedNotSupported error"
    );
}

fn build_synthetic_ex01_with_md5_no_devinfo(data: &[u8]) -> (Vec<u8>, [u8; 16]) {

    let chunk_size: u32 = 32768;
    let mut padded = data.to_vec();
    padded.resize(chunk_size as usize, 0);
    let mut encoder = ZlibEncoder::new(Vec::new(), Compression::default());
    encoder.write_all(&padded).unwrap();
    let compressed = encoder.finish().unwrap();

    let fake_md5: [u8; 16] = [
        0xDE, 0xAD, 0xBE, 0xEF, 0xCA, 0xFE, 0xBA, 0xBE, 0x01, 0x02, 0x03, 0x04, 0x05, 0x06,
        0x07, 0x08,
    ];


    let c = compressed.len();
    let table_data_size: usize = 32 + 16;

    let sectors_data_off: usize = 32;
    let sectors_desc_off: usize = sectors_data_off + c;
    let md5_data_off: usize = sectors_desc_off + 64;
    let md5_desc_off: usize = md5_data_off + 16;
    let table_data_off: usize = md5_desc_off + 64;
    let table_desc_off: usize = table_data_off + table_data_size;
    let done_desc_off: usize = table_desc_off + 64;

    let mut file_data = Vec::new();

    file_data.extend_from_slice(&ewf2::EVF2_SIGNATURE);
    file_data.push(2);
    file_data.push(1);
    file_data.extend_from_slice(&1u16.to_le_bytes());
    file_data.extend_from_slice(&1u32.to_le_bytes());
    file_data.extend_from_slice(&[0u8; 16]);
    assert_eq!(file_data.len(), 32);

    file_data.extend_from_slice(&compressed);
    file_data.extend_from_slice(&make_v2_desc(0x03, c as u64, 0));
    assert_eq!(file_data.len(), sectors_desc_off + 64);

    file_data.extend_from_slice(&fake_md5);
    file_data.extend_from_slice(&make_v2_desc(0x08, 16, sectors_desc_off as u64));
    assert_eq!(file_data.len(), md5_desc_off + 64);

    let mut tbl_hdr = [0u8; 32];
    tbl_hdr[0..8].copy_from_slice(&0u64.to_le_bytes());
    tbl_hdr[8..12].copy_from_slice(&1u32.to_le_bytes());
    file_data.extend_from_slice(&tbl_hdr);
    let mut entry = [0u8; 16];
    entry[0..8].copy_from_slice(&(sectors_data_off as u64).to_le_bytes());
    entry[8..12].copy_from_slice(&(c as u32).to_le_bytes());
    entry[12..16].copy_from_slice(&ewf2::CHUNK_FLAG_COMPRESSED.to_le_bytes());
    file_data.extend_from_slice(&entry);
    file_data.extend_from_slice(&make_v2_desc(
        0x04,
        table_data_size as u64,
        md5_desc_off as u64,
    ));
    assert_eq!(file_data.len(), table_desc_off + 64);

    file_data.extend_from_slice(&make_v2_desc(0x0F, 0, table_desc_off as u64));
    assert_eq!(file_data.len(), done_desc_off + 64);

    let tmp = file_data;
    (tmp, fake_md5)
}

#[test]
fn ewf2_reader_parses_md5_hash_section() {
    let (tmp, expected_md5) = build_synthetic_ex01_with_md5_no_devinfo(b"md5 test");
    let result = open(&tmp);
    assert!(
        result.is_ok(),
        "Should open Ex01 with md5_hash: {:?}",
        result.err()
    );
    let reader = result.unwrap();
    let hashes = reader.stored_hashes();
    assert_eq!(hashes.md5, Some(expected_md5));
}

#[test]
fn ewf2_reader_defaults_chunk_size_without_device_info() {
    let (tmp, _) = build_synthetic_ex01_with_md5_no_devinfo(b"no devinfo");
    let reader = open(&tmp).unwrap();
    assert_eq!(reader.chunk_size(), 32768);
    assert_eq!(reader.total_size(), 32768);
}

#[test]
fn ewf2_reader_reads_data_without_device_info() {
    let data = b"read without devinfo";
    let (tmp, _) = build_synthetic_ex01_with_md5_no_devinfo(data);
    let mut reader = open(&tmp).unwrap();
    let mut buf = vec![0u8; data.len()];
    read_exact(&mut reader, &mut buf).unwrap();
    assert_eq!(&buf, data);
}

fn build_synthetic_ex01_with_md5_and_sha1(data: &[u8]) -> (Vec<u8>, [u8; 16], [u8; 20]) {

    let chunk_size: u32 = 32768;
    let mut padded = data.to_vec();
    padded.resize(chunk_size as usize, 0);
    let mut encoder = ZlibEncoder::new(Vec::new(), Compression::default());
    encoder.write_all(&padded).unwrap();
    let compressed = encoder.finish().unwrap();

    let fake_md5: [u8; 16] = [
        0xDE, 0xAD, 0xBE, 0xEF, 0xCA, 0xFE, 0xBA, 0xBE, 0x01, 0x02, 0x03, 0x04, 0x05, 0x06,
        0x07, 0x08,
    ];
    let fake_sha1: [u8; 20] = [
        0xA0, 0xA1, 0xA2, 0xA3, 0xA4, 0xA5, 0xA6, 0xA7, 0xA8, 0xA9, 0xB0, 0xB1, 0xB2, 0xB3,
        0xB4, 0xB5, 0xB6, 0xB7, 0xB8, 0xB9,
    ];


    let c = compressed.len();
    let table_data_size: usize = 32 + 16;

    let sectors_data_off: usize = 32;
    let sectors_desc_off: usize = sectors_data_off + c;
    let md5_data_off: usize = sectors_desc_off + 64;
    let md5_desc_off: usize = md5_data_off + 16;
    let sha1_data_off: usize = md5_desc_off + 64;
    let sha1_desc_off: usize = sha1_data_off + 20;
    let table_data_off: usize = sha1_desc_off + 64;
    let table_desc_off: usize = table_data_off + table_data_size;
    let done_desc_off: usize = table_desc_off + 64;

    let mut f = Vec::new();

    f.extend_from_slice(&ewf2::EVF2_SIGNATURE);
    f.push(2);
    f.push(1);
    f.extend_from_slice(&1u16.to_le_bytes());
    f.extend_from_slice(&1u32.to_le_bytes());
    f.extend_from_slice(&[0u8; 16]);
    assert_eq!(f.len(), 32);

    f.extend_from_slice(&compressed);
    f.extend_from_slice(&make_v2_desc(0x03, c as u64, 0));
    assert_eq!(f.len(), sectors_desc_off + 64);

    f.extend_from_slice(&fake_md5);
    f.extend_from_slice(&make_v2_desc(0x08, 16, sectors_desc_off as u64));
    assert_eq!(f.len(), md5_desc_off + 64);

    f.extend_from_slice(&fake_sha1);
    f.extend_from_slice(&make_v2_desc(0x09, 20, md5_desc_off as u64));
    assert_eq!(f.len(), sha1_desc_off + 64);

    let mut tbl_hdr = [0u8; 32];
    tbl_hdr[0..8].copy_from_slice(&0u64.to_le_bytes());
    tbl_hdr[8..12].copy_from_slice(&1u32.to_le_bytes());
    f.extend_from_slice(&tbl_hdr);
    let mut entry = [0u8; 16];
    entry[0..8].copy_from_slice(&(sectors_data_off as u64).to_le_bytes());
    entry[8..12].copy_from_slice(&(c as u32).to_le_bytes());
    entry[12..16].copy_from_slice(&ewf2::CHUNK_FLAG_COMPRESSED.to_le_bytes());
    f.extend_from_slice(&entry);
    f.extend_from_slice(&make_v2_desc(
        0x04,
        table_data_size as u64,
        sha1_desc_off as u64,
    ));
    assert_eq!(f.len(), table_desc_off + 64);

    f.extend_from_slice(&make_v2_desc(0x0F, 0, table_desc_off as u64));
    assert_eq!(f.len(), done_desc_off + 64);

    let tmp = f;
    (tmp, fake_md5, fake_sha1)
}

#[test]
fn ewf2_reader_parses_sha1_hash_section() {
    let (tmp, expected_md5, expected_sha1) =
        build_synthetic_ex01_with_md5_and_sha1(b"sha1 test");
    let reader = open(&tmp).unwrap();
    let hashes = reader.stored_hashes();
    assert_eq!(hashes.md5, Some(expected_md5), "V2 MD5 should be parsed");
    assert_eq!(
        hashes.sha1,
        Some(expected_sha1),
        "V2 SHA-1 should be parsed"
    );
}

fn build_synthetic_ex01_with_case_data() -> Vec<u8> {

    let chunk_size: u32 = 32768;
    let mut padded = b"case data test".to_vec();
    padded.resize(chunk_size as usize, 0);
    let mut encoder = ZlibEncoder::new(Vec::new(), Compression::default());
    encoder.write_all(&padded).unwrap();
    let compressed = encoder.finish().unwrap();

    let case_text = "2\nmain\ncn\ten\tex\tde\tnt\tav\tov\tad\tsd\nCASE-42\tEV-7\tJane Doe\tTest image\tForensic notes\tEnCase 8.0\tWindows 11\t2025-01-15\t2025-01-14\n";
    let case_utf16: Vec<u8> = case_text
        .encode_utf16()
        .flat_map(u16::to_le_bytes)
        .collect();


    let n = case_utf16.len();
    let c = compressed.len();
    let table_data_size: usize = 32 + 16;

    let case_data_off: usize = 32;
    let case_desc_off: usize = case_data_off + n;
    let sectors_data_off: usize = case_desc_off + 64;
    let sectors_desc_off: usize = sectors_data_off + c;
    let table_data_off: usize = sectors_desc_off + 64;
    let table_desc_off: usize = table_data_off + table_data_size;
    let done_desc_off: usize = table_desc_off + 64;

    let mut f = Vec::new();

    f.extend_from_slice(&ewf2::EVF2_SIGNATURE);
    f.push(2);
    f.push(1);
    f.extend_from_slice(&1u16.to_le_bytes());
    f.extend_from_slice(&1u32.to_le_bytes());
    f.extend_from_slice(&[0u8; 16]);
    assert_eq!(f.len(), 32);

    f.extend_from_slice(&case_utf16);
    f.extend_from_slice(&make_v2_desc(0x02, n as u64, 0));
    assert_eq!(f.len(), case_desc_off + 64);

    f.extend_from_slice(&compressed);
    f.extend_from_slice(&make_v2_desc(0x03, c as u64, case_desc_off as u64));
    assert_eq!(f.len(), sectors_desc_off + 64);

    let mut tbl_hdr = [0u8; 32];
    tbl_hdr[0..8].copy_from_slice(&0u64.to_le_bytes());
    tbl_hdr[8..12].copy_from_slice(&1u32.to_le_bytes());
    f.extend_from_slice(&tbl_hdr);
    let mut entry = [0u8; 16];
    entry[0..8].copy_from_slice(&(sectors_data_off as u64).to_le_bytes());
    entry[8..12].copy_from_slice(&(c as u32).to_le_bytes());
    entry[12..16].copy_from_slice(&ewf2::CHUNK_FLAG_COMPRESSED.to_le_bytes());
    f.extend_from_slice(&entry);
    f.extend_from_slice(&make_v2_desc(
        0x04,
        table_data_size as u64,
        sectors_desc_off as u64,
    ));
    assert_eq!(f.len(), table_desc_off + 64);

    f.extend_from_slice(&make_v2_desc(0x0F, 0, table_desc_off as u64));
    assert_eq!(f.len(), done_desc_off + 64);

    f
}

#[test]
fn ewf2_reader_parses_case_data_metadata() {
    let tmp = build_synthetic_ex01_with_case_data();
    let reader = open(&tmp).unwrap();
    let meta = reader.metadata();
    assert_eq!(meta.case_number.as_deref(), Some("CASE-42"));
    assert_eq!(meta.evidence_number.as_deref(), Some("EV-7"));
    assert_eq!(meta.examiner.as_deref(), Some("Jane Doe"));
    assert_eq!(meta.description.as_deref(), Some("Test image"));
    assert_eq!(meta.notes.as_deref(), Some("Forensic notes"));
    assert_eq!(meta.acquiry_software.as_deref(), Some("EnCase 8.0"));
    assert_eq!(meta.os_version.as_deref(), Some("Windows 11"));
    assert_eq!(meta.acquiry_date.as_deref(), Some("2025-01-15"));
    assert_eq!(meta.system_date.as_deref(), Some("2025-01-14"));
}

#[test]
fn parse_ewf2_device_info_short_data() {
    let mut cs = 0u64;
    let mut ts = 0u64;
    parse_ewf2_device_info(&[], &mut cs, &mut ts);
    assert_eq!(cs, 0);
    parse_ewf2_device_info(&[0x41], &mut cs, &mut ts);
    assert_eq!(cs, 0);
}

#[test]
fn parse_ewf2_device_info_too_few_lines() {
    let mut cs = 0u64;
    let mut ts = 0u64;
    let text = "hi\n";
    let utf16: Vec<u8> = text.encode_utf16().flat_map(u16::to_le_bytes).collect();
    parse_ewf2_device_info(&utf16, &mut cs, &mut ts);
    assert_eq!(cs, 0);
}

#[test]
fn parse_ewf2_device_info_unknown_fields_ignored() {
    let mut cs = 0u64;
    let mut ts = 0u64;
    let text = "2\nmain\nb\tsc\tts\txyz\n512\t64\t128\tignored\n\n";
    let utf16: Vec<u8> = text.encode_utf16().flat_map(u16::to_le_bytes).collect();
    parse_ewf2_device_info(&utf16, &mut cs, &mut ts);
    assert_eq!(cs, 512 * 64);
    assert_eq!(ts, 512 * 128);
}

#[test]
fn parse_ewf2_device_info_zero_bytes_per_sector_leaves_chunk_size() {
    let mut cs: u64 = 99999;
    let mut ts: u64 = 0;
    let text = "2\nmain\nb\tsc\tts\n0\t64\t128\n";
    let utf16: Vec<u8> = text.encode_utf16().flat_map(u16::to_le_bytes).collect();
    parse_ewf2_device_info(&utf16, &mut cs, &mut ts);
    assert_eq!(
        cs, 99999,
        "chunk_size should be unchanged when bytes_per_sector=0"
    );
    assert_eq!(
        ts, 0,
        "total_size should be unchanged when bytes_per_sector=0"
    );
}

#[test]
fn parse_ewf2_device_info_zero_sectors_per_chunk_leaves_chunk_size() {
    let mut cs: u64 = 99999;
    let mut ts: u64 = 0;
    let text = "2\nmain\nb\tsc\tts\n512\t0\t128\n";
    let utf16: Vec<u8> = text.encode_utf16().flat_map(u16::to_le_bytes).collect();
    parse_ewf2_device_info(&utf16, &mut cs, &mut ts);
    assert_eq!(
        cs, 99999,
        "chunk_size should be unchanged when sectors_per_chunk=0"
    );
    assert_eq!(
        ts,
        512 * 128,
        "total_size should still be computed from valid bytes_per_sector"
    );
}

#[test]
fn ewf2_reader_handles_truncated_chain() {
    let mut file_data = Vec::new();
    file_data.extend_from_slice(&ewf2::EVF2_SIGNATURE);
    file_data.push(2);
    file_data.push(1);
    file_data.extend_from_slice(&1u16.to_le_bytes());
    file_data.extend_from_slice(&1u32.to_le_bytes());
    file_data.extend_from_slice(&[0u8; 16]);

    let tmp = file_data;

    let result = open(&tmp);
    assert!(
        result.is_ok(),
        "Truncated Ex01 should open: {:?}",
        result.err()
    );
    let reader = result.unwrap();
    assert_eq!(reader.chunk_count(), 0);
}

#[test]
fn ewf_reader_opens_synthetic_ex01() {
    let data = b"Hello, EWF2 world!";
    let tmp = build_synthetic_ex01(data);
    let result = open(&tmp);
    assert!(
        result.is_ok(),
        "EwfReader should open Ex01: {:?}",
        result.err()
    );
    let reader = result.unwrap();
    assert_eq!(reader.chunk_size(), 32768);
    assert_eq!(reader.chunk_count(), 1);
    assert_eq!(reader.total_size(), 32768);
}

#[test]
fn ewf_reader_reads_ex01_first_bytes() {
    let data = b"DEADBEEF_EWF2_TEST";
    let tmp = build_synthetic_ex01(data);
    let result = open(&tmp);
    assert!(
        result.is_ok(),
        "EwfReader should open Ex01: {:?}",
        result.err()
    );
    let mut reader = result.unwrap();
    let mut buf = vec![0u8; data.len()];
    read_exact(&mut reader, &mut buf).unwrap();
    assert_eq!(&buf, data);
}

#[test]
fn ewf_reader_ex01_seek_and_read() {
    let mut test_data = vec![0u8; 1024];
    test_data[512..520].copy_from_slice(b"SEEKTEST");
    let tmp = build_synthetic_ex01(&test_data);
    let result = open(&tmp);
    assert!(
        result.is_ok(),
        "EwfReader should open Ex01: {:?}",
        result.err()
    );
    let mut reader = result.unwrap();
    reader.seek(SeekFrom::Start(512)).unwrap();
    let mut buf = [0u8; 8];
    read_exact(&mut reader, &mut buf).unwrap();
    assert_eq!(&buf, b"SEEKTEST");
}

#[test]
fn v2_rejects_absurd_table_entry_count() {
    let mut d = Vec::new();
    d.extend_from_slice(&ewf2::EVF2_SIGNATURE);
    d.push(2);
    d.push(1);
    d.extend_from_slice(&1u16.to_le_bytes());
    d.extend_from_slice(&1u32.to_le_bytes());
    d.extend_from_slice(&[0u8; 16]);
    assert_eq!(d.len(), 32);

    let mut tbl_hdr = [0u8; 32];
    tbl_hdr[0..8].copy_from_slice(&0u64.to_le_bytes());
    tbl_hdr[8..12].copy_from_slice(&0x1000_0000u32.to_le_bytes());
    d.extend_from_slice(&tbl_hdr);
    d.extend_from_slice(&[0u8; 16]);
    assert_eq!(d.len(), 80);

    let mut tbl_desc = [0u8; 64];
    tbl_desc[0..4].copy_from_slice(&0x04u32.to_le_bytes());
    tbl_desc[8..16].copy_from_slice(&0u64.to_le_bytes());
    tbl_desc[16..24].copy_from_slice(&48u64.to_le_bytes());
    tbl_desc[24..28].copy_from_slice(&64u32.to_le_bytes());
    d.extend_from_slice(&tbl_desc);
    assert_eq!(d.len(), 144);

    let mut done_desc = [0u8; 64];
    done_desc[0..4].copy_from_slice(&0x0Fu32.to_le_bytes());
    done_desc[8..16].copy_from_slice(&80u64.to_le_bytes());
    done_desc[16..24].copy_from_slice(&0u64.to_le_bytes());
    done_desc[24..28].copy_from_slice(&64u32.to_le_bytes());
    d.extend_from_slice(&done_desc);
    assert_eq!(d.len(), 208);

    let tmp = d;

    let result = open(&tmp);
    assert!(
        result.is_err(),
        "Should reject absurd v2 entry_count, got: {:?}",
        result.ok().map(|r| r.chunk_count())
    );
    let err_msg = result.err().unwrap().message();
    assert!(
        err_msg.contains("entry count"),
        "Error should mention entry count: {err_msg}"
    );
}

#[test]
fn ewf2_case_data_empty_input() {
    let mut meta = EwfMetadata::default();
    parse_ewf2_case_data(&[], &mut meta);
    assert!(meta.case_number.is_none());
}

#[test]
fn ewf2_case_data_single_byte() {
    let mut meta = EwfMetadata::default();
    parse_ewf2_case_data(&[0x41], &mut meta);
    assert!(meta.case_number.is_none());
}

#[test]
fn ewf2_case_data_too_few_lines() {
    let text = "line1\nline2\n";
    let raw: Vec<u8> = text.encode_utf16().flat_map(u16::to_le_bytes).collect();
    let mut meta = EwfMetadata::default();
    parse_ewf2_case_data(&raw, &mut meta);
    assert!(meta.case_number.is_none());
}

#[test]
fn ewf2_case_data_empty_values_skipped() {
    let text = "1\nmain\ncn\ten\t\n\t\t\n";
    let raw: Vec<u8> = text.encode_utf16().flat_map(u16::to_le_bytes).collect();
    let mut meta = EwfMetadata::default();
    parse_ewf2_case_data(&raw, &mut meta);
    assert!(meta.case_number.is_none());
    assert!(meta.evidence_number.is_none());
}

#[test]
fn ewf2_case_data_unknown_fields_ignored() {
    let text = "1\nmain\nzz\nfoo\n";
    let raw: Vec<u8> = text.encode_utf16().flat_map(u16::to_le_bytes).collect();
    let mut meta = EwfMetadata::default();
    parse_ewf2_case_data(&raw, &mut meta);
    assert!(meta.case_number.is_none());
}

#[test]
fn ewf2_case_data_valid_fields_parsed() {
    let text = "1\nmain\ncn\tex\tav\nCASE-001\tJohn\tFTK\n";
    let raw: Vec<u8> = text.encode_utf16().flat_map(u16::to_le_bytes).collect();
    let mut meta = EwfMetadata::default();
    parse_ewf2_case_data(&raw, &mut meta);
    assert_eq!(meta.case_number.as_deref(), Some("CASE-001"));
    assert_eq!(meta.examiner.as_deref(), Some("John"));
    assert_eq!(meta.acquiry_software.as_deref(), Some("FTK"));
}

#[test]
fn v2_zero_advance_section_breaks_loop() {
    let mut d = Vec::new();
    d.extend_from_slice(&ewf2::EVF2_SIGNATURE);
    d.push(2);
    d.push(1);
    d.extend_from_slice(&1u16.to_le_bytes());
    d.extend_from_slice(&1u32.to_le_bytes());
    d.extend_from_slice(&[0u8; 16]);

    let sec = [0u8; 64];
    d.extend_from_slice(&sec);

    let tmp = d;

    let result = open(&tmp);
    if let Ok(ref r) = result {
        assert_eq!(r.total_size(), 0);
        assert_eq!(r.chunk_count(), 0);
    }
}
