use std::cell::Cell;
use std::io::Write;

use flate2::write::ZlibEncoder;
use flate2::Compression;
use kdft::error::{EwfError, IoError, IoErrorKind};
use kdft::ewf2::EVF2_SIGNATURE;
use kdft::image::EwfImage;
use kdft::open::{complete, Version};
use kdft::reader::{EwfReader, SeekFrom};
use kdft::sections::{EVF_SIGNATURE, LVF_SIGNATURE};
use kdft::source::memory_read;
use kdft::types::{EwfMetadata, StoredHashes};
use kdft::verify::MediaHasher;
use md5::Digest;

type Source = Box<dyn Fn(usize, u64, usize) -> Result<Vec<u8>, String>>;

const CHUNK: usize = 1024;

fn open_with(files: Vec<Vec<u8>>, cache_size: usize) -> Result<EwfReader<Source>, EwfError> {
    let lens = files.iter().map(|f| f.len() as u64).collect();
    let source: Source = Box::new(move |i, offset, n| memory_read(&files, i, offset, n));
    EwfReader::open_segments_with_cache_size(lens, source, cache_size)
}

fn open(files: Vec<Vec<u8>>) -> Result<EwfReader<Source>, EwfError> {
    let lens = files.iter().map(|f| f.len() as u64).collect();
    let source: Source = Box::new(move |i, offset, n| memory_read(&files, i, offset, n));
    EwfReader::open_segments(lens, source)
}

fn deflate(data: &[u8]) -> Vec<u8> {
    let mut encoder = ZlibEncoder::new(Vec::new(), Compression::default());
    encoder.write_all(data).unwrap();
    encoder.finish().unwrap()
}

fn file_header(segment: u16) -> Vec<u8> {
    let mut d = EVF_SIGNATURE.to_vec();
    d.push(1);
    d.extend_from_slice(&segment.to_le_bytes());
    d.extend_from_slice(&[0, 0]);
    d
}

fn add_section(file: &mut Vec<u8>, name: &str, data: &[u8], last: bool) {
    let offset = file.len() as u64;
    let size = 76 + data.len() as u64;
    let mut d = [0u8; 76];
    d[..name.len()].copy_from_slice(name.as_bytes());
    let next = if last { 0 } else { offset + size };
    d[16..24].copy_from_slice(&next.to_le_bytes());
    d[24..32].copy_from_slice(&size.to_le_bytes());
    file.extend_from_slice(&d);
    file.extend_from_slice(data);
}

fn volume(chunks: u32, sectors_per_chunk: u32, bytes_per_sector: u32, sectors: u64) -> Vec<u8> {
    let mut v = vec![0u8; 94];
    v[4..8].copy_from_slice(&chunks.to_le_bytes());
    v[8..12].copy_from_slice(&sectors_per_chunk.to_le_bytes());
    v[12..16].copy_from_slice(&bytes_per_sector.to_le_bytes());
    v[16..24].copy_from_slice(&sectors.to_le_bytes());
    v
}

fn table(base: u64, entries: &[u32]) -> Vec<u8> {
    let mut t = vec![0u8; 24];
    t[0..4].copy_from_slice(&(entries.len() as u32).to_le_bytes());
    t[8..16].copy_from_slice(&base.to_le_bytes());
    for e in entries {
        t.extend_from_slice(&e.to_le_bytes());
    }
    t
}

/// One segment that stores `pages`, compressed where asked for, and then the
/// other sections.
fn segment(
    number: u16,
    with_volume: Option<Vec<u8>>,
    pages: &[(bool, Vec<u8>)],
    others: &[(&str, Vec<u8>)],
) -> Vec<u8> {
    let mut file = file_header(number);
    if let Some(v) = with_volume {
        add_section(&mut file, "volume", &v, false);
    }
    let mut data = Vec::new();
    let mut entries = Vec::new();
    for (compressed, page) in pages {
        let flag = if *compressed { 0x8000_0000 } else { 0 };
        entries.push(flag | data.len() as u32);
        if *compressed {
            data.extend_from_slice(&deflate(page));
        } else {
            data.extend_from_slice(page);
        }
    }
    let base = (file.len() + 76) as u64;
    add_section(&mut file, "sectors", &data, false);
    add_section(&mut file, "table", &table(base, &entries), false);
    for (name, body) in others {
        add_section(&mut file, name, body, false);
    }
    add_section(&mut file, "done", &[], true);
    file
}

fn page(seed: u8) -> Vec<u8> {
    (0..CHUNK).map(|i| seed.wrapping_add((i % 251) as u8)).collect()
}

fn three_chunks() -> (Vec<Vec<u8>>, Vec<u8>) {
    let pages = [page(1), page(7), page(99)];
    let media: Vec<u8> = pages.concat()[..5 * 512].to_vec();
    let one = segment(
        1,
        Some(volume(3, 2, 512, 5)),
        &[(true, pages[0].clone()), (false, pages[1].clone())],
        &[],
    );
    let two = segment(2, None, &[(true, pages[2].clone())], &[]);
    (vec![one, two], media)
}

#[test]
fn reads_across_chunks_and_segments() {
    let (files, media) = three_chunks();
    let mut reader = open(files).unwrap();
    assert_eq!(reader.total_size(), 2560);
    assert_eq!(reader.chunk_size(), 1024);
    assert_eq!(reader.chunk_count(), 3);
    assert_eq!(reader.segment_count(), 2);
    let mut whole = vec![0u8; 4000];
    assert_eq!(reader.read_at(&mut whole, 0).unwrap(), 2560);
    assert_eq!(&whole[..2560], &media[..]);
    assert!(whole[2560..].iter().all(|b| *b == 0));
    for (offset, len) in [(0usize, 1usize), (1000, 100), (1023, 2), (2047, 513), (2559, 9)] {
        let mut buf = vec![0xaau8; len];
        let n = reader.read_at(&mut buf, offset as u64).unwrap();
        assert_eq!(n, len.min(2560 - offset));
        assert_eq!(&buf[..n], &media[offset..offset + n]);
        assert!(buf[n..].iter().all(|b| *b == 0xaa));
    }
    assert_eq!(reader.read_at(&mut [0u8; 4], 2560).unwrap(), 0);
    assert_eq!(reader.read_at(&mut [0u8; 4], u64::MAX).unwrap(), 0);
}

#[test]
fn segment_order_does_not_matter() {
    let (files, media) = three_chunks();
    let swapped = vec![files[1].clone(), files[0].clone()];
    let mut reader = open(swapped).unwrap();
    let mut whole = vec![0u8; 2560];
    assert_eq!(reader.read_at(&mut whole, 0).unwrap(), 2560);
    assert_eq!(whole, media);
    assert_eq!(reader.chunk_meta(2).segment_idx, 1);
}

#[test]
fn two_reads_give_what_one_gives() {
    let (files, media) = three_chunks();
    let mut reader = open(files).unwrap();
    let mut first = vec![0u8; 700];
    let mut second = vec![0u8; 900];
    assert_eq!(reader.position(), 0);
    assert_eq!(reader.read(&mut first).unwrap(), 700);
    assert_eq!(reader.position(), 700);
    assert_eq!(reader.read(&mut second).unwrap(), 900);
    assert_eq!([first, second].concat(), media[..1600]);
}

#[test]
fn the_cache_is_bounded_and_changes_no_bytes() {
    let (files, media) = three_chunks();
    for size in [0, 1, 2, 50] {
        let mut reader = open_with(files.clone(), size).unwrap();
        assert_eq!(reader.cached_chunks(), 0);
        for _ in 0..2 {
            let mut whole = vec![0u8; 2560];
            reader.read_at(&mut whole, 0).unwrap();
            assert_eq!(whole, media);
            assert_eq!(reader.cached_chunks(), size.max(1).min(3));
        }
    }
}

#[test]
fn remembered_chunks_are_not_read_again() {
    let (files, _) = three_chunks();
    let lens: Vec<u64> = files.iter().map(|f| f.len() as u64).collect();
    let calls = Cell::new(0);
    let mut reader = EwfReader::open_segments_with_cache_size(
        lens,
        |i, offset, n| {
            calls.set(calls.get() + 1);
            memory_read(&files, i, offset, n)
        },
        2,
    )
    .unwrap();
    let start = calls.get();
    reader.read_chunk(0).unwrap();
    reader.read_chunk(1).unwrap();
    reader.read_chunk(0).unwrap();
    assert_eq!(calls.get(), start + 2);
    reader.read_chunk(2).unwrap();
    reader.read_chunk(0).unwrap();
    assert_eq!(calls.get(), start + 3);
    reader.read_chunk(1).unwrap();
    assert_eq!(calls.get(), start + 4);
    reader.decompress_chunk(1).unwrap();
    assert_eq!(calls.get(), start + 5);
}

#[test]
fn verify_compares_the_media_with_the_stored_hashes() {
    let (files, media) = three_chunks();
    let md5: [u8; 16] = md5::Md5::digest(&media).into();
    let sha1: [u8; 20] = sha1::Sha1::digest(&media).into();

    let plain = open(files.clone()).unwrap();
    assert_eq!(plain.stored_hashes(), StoredHashes { md5: None, sha1: None });
    let result = plain.verify().unwrap();
    assert_eq!(result.computed_md5, md5);
    assert_eq!(result.computed_sha1, None);
    assert_eq!((result.md5_match, result.sha1_match), (None, None));

    let pages = [page(1), page(7), page(99)];
    let stored: Vec<(bool, Vec<u8>)> = pages.iter().map(|p| (true, p.clone())).collect();
    let mut digest = md5.to_vec();
    digest.extend_from_slice(&sha1);
    let good = segment(
        1,
        Some(volume(3, 2, 512, 5)),
        &stored,
        &[("hash", vec![9u8; 16]), ("digest", digest.clone()), ("hash", vec![8u8; 16])],
    );
    let reader = open(vec![good]).unwrap();
    assert_eq!(
        reader.stored_hashes(),
        StoredHashes { md5: Some(md5), sha1: Some(sha1) }
    );
    let result = reader.verify().unwrap();
    assert_eq!((result.md5_match, result.sha1_match), (Some(true), Some(true)));
    assert_eq!(result.computed_sha1, Some(sha1));

    let wrong = segment(
        1,
        Some(volume(3, 2, 512, 5)),
        &stored,
        &[("hash", vec![9u8; 16]), ("hash", md5.to_vec())],
    );
    let reader = open(vec![wrong]).unwrap();
    assert_eq!(reader.stored_hashes().md5, Some([9u8; 16]));
    let result = reader.verify().unwrap();
    assert_eq!((result.md5_match, result.sha1_match), (Some(false), None));
}

#[test]
fn hashing_nothing_gives_the_known_digests() {
    let hashes = StoredHashes { md5: None, sha1: Some([0u8; 20]) };
    let mut hasher = MediaHasher::new(hashes, 3);
    hasher.absorb(b"abc");
    hasher.absorb(b"def");
    let result = hasher.finish();
    assert_eq!(
        result.computed_md5,
        [
            0x90, 0x01, 0x50, 0x98, 0x3c, 0xd2, 0x4f, 0xb0, 0xd6, 0x96, 0x3f, 0x7d, 0x28, 0xe1,
            0x7f, 0x72
        ]
    );
    assert_eq!(
        result.computed_sha1,
        Some([
            0xa9, 0x99, 0x3e, 0x36, 0x47, 0x06, 0x81, 0x6a, 0xba, 0x3e, 0x25, 0x71, 0x78, 0x50,
            0xc2, 0x6c, 0x9c, 0xd0, 0xd8, 0x9d
        ])
    );
    assert_eq!(result.sha1_match, Some(false));
    let empty = MediaHasher::new(StoredHashes { md5: None, sha1: None }, 0).finish();
    assert_eq!(
        empty.computed_md5,
        [
            0xd4, 0x1d, 0x8c, 0xd9, 0x8f, 0x00, 0xb2, 0x04, 0xe9, 0x80, 0x09, 0x98, 0xec, 0xf8,
            0x42, 0x7e
        ]
    );
}

#[test]
fn a_truncated_stored_chunk_is_an_error() {
    let mut file = file_header(1);
    add_section(&mut file, "volume", &volume(1, 2, 512, 2), false);
    let base = (file.len() + 24 + 4 + 76) as u64;
    add_section(&mut file, "table", &table(base, &[0]), true);
    file.extend_from_slice(&[5u8; 300]);
    let mut reader = open(vec![file]).unwrap();
    let error = reader.read_at(&mut [0u8; 8], 0).unwrap_err();
    assert_eq!(
        error,
        EwfError::Io(IoError {
            kind: IoErrorKind::UnexpectedEof,
            message: "short read for chunk 0: got 300 of 1024 bytes".to_string(),
        })
    );
    let error = reader.read(&mut [0u8; 8]).unwrap_err();
    assert_eq!(error.kind, IoErrorKind::Other);
    assert_eq!(
        error.message,
        "I/O error: short read for chunk 0: got 300 of 1024 bytes"
    );
    assert_eq!(reader.position(), 0);
    assert_eq!(reader.verify().unwrap_err(), reader.decompress_chunk(0).unwrap_err());
}

fn one_compressed_chunk(stored: Vec<u8>) -> Vec<u8> {
    let mut file = file_header(1);
    add_section(&mut file, "volume", &volume(1, 2, 512, 2), false);
    let base = (file.len() + 76) as u64;
    add_section(&mut file, "sectors", &stored, false);
    add_section(&mut file, "table", &table(base, &[0x8000_0000]), true);
    file
}

#[test]
fn compressed_chunks_are_checked_to_their_end() {
    let mut damaged = deflate(&page(3));
    let last = damaged.len() - 1;
    damaged[last] ^= 0xff;
    let mut reader = open(vec![one_compressed_chunk(damaged)]).unwrap();
    assert!(matches!(
        reader.read_at(&mut [0u8; 1], 0),
        Err(EwfError::Decompression(_))
    ));

    let short = deflate(&[6u8; 100]);
    let mut reader = open(vec![one_compressed_chunk(short)]).unwrap();
    let mut buf = [1u8; 200];
    assert_eq!(reader.read_at(&mut buf, 0).unwrap(), 200);
    assert!(buf[..100].iter().all(|b| *b == 6) && buf[100..].iter().all(|b| *b == 0));

    let long = deflate(&[[6u8; 1024], [7u8; 1024]].concat());
    let mut reader = open(vec![one_compressed_chunk(long)]).unwrap();
    let mut buf = [1u8; 1024];
    assert_eq!(reader.read_at(&mut buf, 0).unwrap(), 1024);
    assert!(buf.iter().all(|b| *b == 6));
}

#[test]
fn a_failing_source_is_reported() {
    let result = EwfReader::open_segments(vec![100], |_, _, _| Err("boom".to_string()));
    let error = result.err().unwrap();
    assert_eq!(error.message(), "I/O error: boom");
    assert_eq!(
        error,
        EwfError::Io(IoError { kind: IoErrorKind::Other, message: "boom".to_string() })
    );
    let error = open(vec![vec![1, 2, 3]]).err().unwrap();
    assert_eq!(error.message(), "I/O error: failed to fill whole buffer");
    assert_eq!(open(vec![vec![0u8; 50]]).err().unwrap(), EwfError::InvalidSignature);
}

#[test]
fn logical_evidence_files_open() {
    let mut file = segment(1, Some(volume(1, 2, 512, 2)), &[(true, page(4))], &[]);
    file[0..8].copy_from_slice(&LVF_SIGNATURE);
    let mut reader = open(vec![file]).unwrap();
    let mut buf = [0u8; 16];
    reader.read_at(&mut buf, 5).unwrap();
    assert_eq!(&buf[..], &page(4)[5..21]);
}

#[test]
fn volume_sections_are_held_to_the_limits() {
    let check = |v: Vec<u8>| {
        let mut file = file_header(1);
        add_section(&mut file, "disk", &v, true);
        open(vec![file]).err()
    };
    assert_eq!(check(volume(1, 1, 512, 1)), None);
    assert_eq!(
        check(volume(1, 262_145, 512, 1)),
        Some(EwfError::InvalidChunkSize(134_218_240))
    );
    assert_eq!(
        check(volume(1, u32::MAX, u32::MAX, 1)),
        Some(EwfError::InvalidChunkSize(u32::MAX))
    );
    assert_eq!(
        check(volume(67_108_865, 1, 512, 1)).unwrap().message(),
        "parse error: volume chunk_count 67108865 exceeds maximum 67108864"
    );
    assert_eq!(
        check(volume(1, 1, 512, u64::MAX)).unwrap().message(),
        "parse error: volume media size exceeds 64 bits"
    );
    assert_eq!(check(volume(1, 0, 512, 1)), Some(EwfError::MissingVolume));
}

#[test]
fn table_offsets_that_do_not_fit_are_refused() {
    let mut file = file_header(1);
    add_section(&mut file, "volume", &volume(1, 2, 512, 2), false);
    add_section(&mut file, "table", &table(u64::MAX, &[1]), true);
    assert_eq!(
        open(vec![file]).err().unwrap().message(),
        "parse error: table entry offset exceeds 64 bits"
    );
}

#[test]
fn the_sizes_of_compressed_chunks_follow_the_table() {
    let mut file = file_header(1);
    add_section(&mut file, "volume", &volume(4, 2, 512, 8), false);
    let base = (file.len() + 76) as u64;
    add_section(&mut file, "sectors", &[0u8; 700], false);
    let compressed = 0x8000_0000;
    add_section(
        &mut file,
        "table",
        &table(base, &[compressed, compressed | 100, 250, compressed | 200, compressed | 600]),
        true,
    );
    let reader = open(vec![file]).unwrap();
    let sizes: Vec<u64> = (0..5).map(|i| reader.chunk_meta(i).size).collect();
    assert_eq!(sizes, vec![100, 150, 1024, 400, 100]);
    assert_eq!(reader.chunk_meta(3).offset, base + 200);
}

#[test]
fn header_text_fills_the_metadata_once() {
    let header = |text: &str| deflate(text.as_bytes());
    let file = segment(
        1,
        Some(volume(1, 2, 512, 2)),
        &[(true, page(0))],
        &[
            ("header", b"not a zlib stream".to_vec()),
            (
                "header",
                header("1\r\nmain\r\nc\tn\ta\te\tt\tav\tov\tm\tu\tp\r\nC-1\tE-2\tD\tX\t\tav\tos\tm1\tu1\tpw\r\n\r\n"),
            ),
            ("header", header("1\nmain\nc\nOTHER\n")),
        ],
    );
    let reader = open(vec![file]).unwrap();
    let meta = reader.metadata();
    assert_eq!(meta.case_number.as_deref(), Some("C-1"));
    assert_eq!(meta.evidence_number.as_deref(), Some("E-2"));
    assert_eq!(meta.description.as_deref(), Some("D"));
    assert_eq!(meta.examiner.as_deref(), Some("X"));
    assert_eq!(meta.notes, None);
    assert_eq!(meta.acquiry_software.as_deref(), Some("av"));
    assert_eq!(meta.os_version.as_deref(), Some("os"));
    assert_eq!(meta.acquiry_date.as_deref(), Some("m1"));
    assert_eq!(meta.system_date.as_deref(), Some("u1"));

    let latin = deflate(b"1\nmain\nc\tn\nA\xffB\tplain\n");
    let file = segment(1, Some(volume(1, 2, 512, 2)), &[(true, page(0))], &[("header", latin)]);
    let reader = open(vec![file]).unwrap();
    assert_eq!(reader.metadata().case_number.as_deref(), Some("A\u{FFFD}B"));
    assert_eq!(reader.metadata().evidence_number.as_deref(), Some("plain"));
}

#[test]
fn seeks_follow_their_origin() {
    let (files, _) = three_chunks();
    let mut reader = open(files).unwrap();
    assert_eq!(reader.seek(SeekFrom::Start(9)).unwrap(), 9);
    assert_eq!(reader.seek(SeekFrom::Current(-4)).unwrap(), 5);
    assert_eq!(reader.seek(SeekFrom::End(-1)).unwrap(), 2559);
    assert_eq!(reader.seek(SeekFrom::End(1000)).unwrap(), 3560);
    assert_eq!(reader.read(&mut [0u8; 4]).unwrap(), 0);
    let error = reader.seek(SeekFrom::End(-2561)).unwrap_err();
    assert_eq!(error.kind, IoErrorKind::InvalidInput);
    assert_eq!(error.message, "seek to negative position");
    assert_eq!(reader.position(), 3560);
    assert!(reader.seek(SeekFrom::Start(u64::MAX)).is_err());
    assert!(reader.can_seek(SeekFrom::Start(u64::MAX)));
    assert!(!reader.can_seek(SeekFrom::Current(i64::MAX)));
}

#[test]
fn reads_beyond_the_chunks_are_told_apart() {
    let file = segment(1, Some(volume(2, 2, 512, 4)), &[(true, page(0))], &[]);
    let mut reader = open(vec![file]).unwrap();
    assert_eq!(reader.total_size(), 2048);
    assert_eq!(reader.chunk_count(), 1);
    assert!(reader.can_read(0, 1024));
    assert!(!reader.can_read(0, 1025));
    assert!(!reader.can_read(1024, 1));
    assert!(reader.can_read(1024, 0));
    assert!(reader.can_read(2048, 10));
    assert_eq!(reader.read_at(&mut [0u8; 1024], 0).unwrap(), 1024);
}

#[test]
fn every_error_has_its_text() {
    let cases = vec![
        (EwfError::InvalidSignature, "invalid EWF signature"),
        (
            EwfError::BufferTooShort { expected: 13, got: 5 },
            "buffer too short: expected 13, got 5",
        ),
        (EwfError::InvalidChunkSize(7), "invalid chunk size: 7"),
        (EwfError::MissingVolume, "missing volume section"),
        (EwfError::Decompression("x".to_string()), "decompression error: x"),
        (
            EwfError::SegmentGap { expected: 2, got: 10 },
            "segment gap: expected segment 2, got 10",
        ),
        (
            EwfError::NoSegments("x".to_string()),
            "no segment files found matching: x",
        ),
        (EwfError::Parse("x".to_string()), "parse error: x"),
        (
            EwfError::EncryptedNotSupported,
            "encrypted EWF2 images are not supported",
        ),
    ];
    for (error, text) in cases {
        assert_eq!(error.message(), text);
    }
}

fn v2_file(sections: &[(u32, Vec<u8>)]) -> Vec<u8> {
    let mut file = EVF2_SIGNATURE.to_vec();
    file.extend_from_slice(&[2, 1, 1, 0, 1, 0, 0, 0]);
    file.extend_from_slice(&[0u8; 16]);
    let mut previous = 0u64;
    for (kind, data) in sections {
        file.extend_from_slice(data);
        let offset = file.len() as u64;
        let mut d = [0u8; 64];
        d[0..4].copy_from_slice(&kind.to_le_bytes());
        d[8..16].copy_from_slice(&previous.to_le_bytes());
        d[16..24].copy_from_slice(&(data.len() as u64).to_le_bytes());
        file.extend_from_slice(&d);
        previous = offset;
    }
    file
}

fn utf16(text: &str) -> Vec<u8> {
    text.encode_utf16().flat_map(u16::to_le_bytes).collect()
}

#[test]
fn version_2_chains_are_checked() {
    let mut cycle = v2_file(&[(0x0f, vec![])]);
    let offset = 32u64;
    cycle[40..48].copy_from_slice(&offset.to_le_bytes());
    assert_eq!(
        open(vec![cycle]).err().unwrap().message(),
        "parse error: EWF2 section descriptor list contains a cycle"
    );
    let mut outside = v2_file(&[(0x0f, vec![])]);
    outside[40..48].copy_from_slice(&0x1_0000u64.to_le_bytes());
    assert_eq!(
        open(vec![outside]).err().unwrap().message(),
        "parse error: EWF2 previous_offset 0x10000 exceeds file length 0x60"
    );
    let mut cut = v2_file(&[(0x0f, vec![])]);
    cut[40..48].copy_from_slice(&90u64.to_le_bytes());
    assert_eq!(
        open(vec![cut]).err().unwrap().message(),
        "I/O error: failed to fill whole buffer"
    );
}

#[test]
fn version_2_section_faults_are_named() {
    let mut underflow = v2_file(&[(0x08, vec![0u8; 16]), (0x0f, vec![])]);
    underflow[64..72].copy_from_slice(&0x40u64.to_le_bytes());
    assert_eq!(
        open(vec![underflow]).err().unwrap().message(),
        "parse error: EWF2 md5_hash offset underflow: desc=0x30 size=0x40"
    );
    let broken = v2_file(&[(0x02, vec![0x78, 0x9c, 0xff, 0xff, 0xff]), (0x0f, vec![])]);
    assert!(open(vec![broken])
        .err()
        .unwrap()
        .message()
        .starts_with("parse error: EWF2 zlib decompress failed: "));
    let huge = utf16("2\nmain\nb\tsc\n18446744073709551615\t2\n");
    assert_eq!(
        open(vec![v2_file(&[(0x01, huge), (0x0f, vec![])])]).err().unwrap().message(),
        "parse error: EWF2 device_info media size exceeds 64 bits"
    );
}

#[test]
fn version_2_text_sections_may_be_compressed() {
    let info = deflate(&utf16("2\nmain\nb\tsc\tts\n+512\t4\t3\n"));
    let case = deflate(&utf16("1\r\nmain\r\ncn\ten\r\nA\u{1F600}B\t\r\n"));
    let file = v2_file(&[
        (0x01, info),
        (0x01, utf16("2\nmain\nb\tsc\tts\n9\t9\t9\n")),
        (0x02, case),
        (0x08, vec![3u8; 16]),
        (0x09, vec![4u8; 20]),
        (0x0f, vec![]),
    ]);
    let reader = open(vec![file]).unwrap();
    assert_eq!(reader.chunk_size(), 2048);
    assert_eq!(reader.total_size(), 1536);
    assert_eq!(reader.metadata().case_number.as_deref(), Some("A\u{1F600}B"));
    assert_eq!(reader.metadata().evidence_number, None);
    assert_eq!(
        reader.stored_hashes(),
        StoredHashes { md5: Some([3u8; 16]), sha1: Some([4u8; 20]) }
    );
}

#[test]
fn short_stored_chunks_go_on_with_zeros() {
    let mut table = vec![0u8; 32];
    table[8..12].copy_from_slice(&1u32.to_le_bytes());
    table.extend_from_slice(&32u64.to_le_bytes());
    table.extend_from_slice(&3u32.to_le_bytes());
    table.extend_from_slice(&0u32.to_le_bytes());
    table.extend_from_slice(&[0u8; 16]);
    let file = v2_file(&[
        (0x03, b"abc".to_vec()),
        (0x01, utf16("2\nmain\nb\tsc\tts\n4\t2\t2\n")),
        (0x04, table),
        (0x0f, vec![]),
    ]);
    let mut reader = open(vec![file]).unwrap();
    let mut buf = [9u8; 10];
    assert_eq!(reader.read_at(&mut buf, 0).unwrap(), 8);
    assert_eq!(&buf, b"abc\0\0\0\0\0\x09\x09");
}

#[test]
fn the_first_header_and_device_information_count() {
    let header = |text: &str| deflate(text.as_bytes());
    let file = segment(
        1,
        Some(volume(1, 2, 512, 2)),
        &[(true, page(0))],
        &[
            ("header", header("1\nmain\ne\nfirst\n")),
            ("header", header("1\nmain\ne\tov\nsecond\tos\n")),
            ("header", header("1\nmain\ne\tc\nthird\tcase\n")),
            ("strange", vec![1, 2, 3]),
        ],
    );
    let reader = open(vec![file]).unwrap();
    assert_eq!(reader.metadata().examiner.as_deref(), Some("second"));
    assert_eq!(reader.metadata().case_number, None);
    assert_eq!(reader.chunk_count(), 1);

    let file = v2_file(&[
        (0x02, utf16("1\nmain\ncn\nfirst\n")),
        (0x02, utf16("1\nmain\ncn\nsecond\n")),
        (0x0f, vec![]),
    ]);
    let reader = open(vec![file]).unwrap();
    assert_eq!(reader.metadata().case_number.as_deref(), Some("first"));
}

#[test]
fn media_of_two_tebibytes_open() {
    let mut file = file_header(1);
    add_section(&mut file, "volume", &volume(67_108_864, 64, 512, 4_294_967_296), false);
    add_section(&mut file, "done", &[], true);
    let reader = open_with(vec![file], 10).unwrap();
    assert_eq!(reader.chunk_size(), 32_768);
    assert_eq!(reader.total_size(), 2_199_023_255_552);
}

fn header2(text: &str) -> Vec<u8> {
    let mut raw = vec![0xff, 0xfe];
    raw.extend_from_slice(&utf16(text));
    deflate(&raw)
}

fn with_sections(others: &[(&str, Vec<u8>)]) -> EwfReader<Source> {
    open(vec![segment(1, Some(volume(1, 2, 512, 2)), &[(true, page(0))], others)]).unwrap()
}

#[test]
fn header2_alone_fills_the_metadata() {
    let reader = with_sections(&[(
        "header2",
        header2("3\nmain\na\tc\tn\te\tt\tav\tov\tm\tu\tp\nD\tC-\u{e9}\tE\tX\t\tav\tos\tm1\tu1\tpw\n\n"),
    )]);
    let meta = reader.metadata();
    assert_eq!(meta.case_number.as_deref(), Some("C-\u{e9}"));
    assert_eq!(meta.evidence_number.as_deref(), Some("E"));
    assert_eq!(meta.description.as_deref(), Some("D"));
    assert_eq!(meta.examiner.as_deref(), Some("X"));
    assert_eq!(meta.notes, None);
    assert_eq!(meta.acquiry_software.as_deref(), Some("av"));
    assert_eq!(meta.os_version.as_deref(), Some("os"));
    assert_eq!(meta.acquiry_date.as_deref(), Some("m1"));
    assert_eq!(meta.system_date.as_deref(), Some("u1"));
}

#[test]
fn header_and_header2_complete_each_other_in_any_order() {
    let one = ("header", deflate(b"1\r\nmain\r\nc\te\tt\r\nA\tme\t\r\n"));
    let two = ("header2", header2("3\nmain\nc\tt\tov\nB\tnotes\tos\n"));
    let third = ("header2", header2("3\nmain\nn\nlate\n"));
    for sections in [
        vec![one.clone(), two.clone(), third.clone()],
        vec![two.clone(), third.clone(), one.clone()],
    ] {
        let reader = with_sections(&sections);
        let meta = reader.metadata();
        assert_eq!(meta.case_number.as_deref(), Some("A"));
        assert_eq!(meta.examiner.as_deref(), Some("me"));
        assert_eq!(meta.notes.as_deref(), Some("notes"));
        assert_eq!(meta.os_version.as_deref(), Some("os"));
        assert_eq!(meta.evidence_number, None);
    }
    let reader = with_sections(&[("header2", b"not a zlib stream".to_vec()), one]);
    assert_eq!(reader.metadata().case_number.as_deref(), Some("A"));
}

#[test]
fn version_2_chunks_are_held_to_the_limit() {
    let with_chunk = |sectors: u32| {
        let info = utf16(&format!("2\nmain\nb\tsc\tts\n512\t{sectors}\t3\n"));
        open(vec![v2_file(&[(0x01, info), (0x0f, vec![])])])
    };
    assert_eq!(with_chunk(262_144).unwrap().chunk_size(), 134_217_728);
    assert_eq!(
        with_chunk(262_145).err().unwrap().message(),
        "parse error: EWF2 chunk size 134218240 exceeds maximum 134217728"
    );
    let mut image = EwfImage {
        chunk_size: 268_435_456,
        total_size: 1,
        chunks: vec![],
        hashes: StoredHashes { md5: None, sha1: None },
        metadata: EwfMetadata::default(),
        header2: EwfMetadata::default(),
        acquisition_errors: vec![],
    };
    image.metadata.notes = Some("n".to_string());
    assert_eq!(
        complete(Version::V2, image).unwrap_err().message(),
        "parse error: EWF2 chunk size 268435456 exceeds maximum 134217728"
    );
}

#[test]
fn chunks_behind_the_media_are_decoded_but_not_hashed() {
    let whole = segment(
        1,
        Some(volume(1, 2, 512, 2)),
        &[(true, page(5)), (true, page(6))],
        &[],
    );
    let mut reader = open(vec![whole]).unwrap();
    let mut media = vec![0u8; 4096];
    assert_eq!(reader.read_at(&mut media, 0).unwrap(), 1024);
    let expected: [u8; 16] = md5::Md5::digest(&media[..1024]).into();
    assert_eq!(reader.verify().unwrap().computed_md5, expected);

    let mut file = file_header(1);
    add_section(&mut file, "volume", &volume(1, 2, 512, 2), false);
    let base = (file.len() + 76) as u64;
    add_section(&mut file, "sectors", &page(5), false);
    add_section(&mut file, "table", &table(base, &[0, 100_000]), true);
    let mut reader = open(vec![file]).unwrap();
    assert_eq!(reader.read_at(&mut media, 0).unwrap(), 1024);
    assert!(reader.verify().is_err());
}

#[test]
fn nothing_is_read_at_the_end_of_the_image() {
    let (files, _) = three_chunks();
    let lens: Vec<u64> = files.iter().map(|f| f.len() as u64).collect();
    let fails = Cell::new(false);
    let mut reader = EwfReader::open_segments(lens, |i, offset, n| {
        if fails.get() {
            Err("gone".to_string())
        } else {
            memory_read(&files, i, offset, n)
        }
    })
    .unwrap();
    fails.set(true);
    assert_eq!(reader.read_at(&mut [0u8; 4], 2560).unwrap(), 0);
    assert_eq!(reader.read_at(&mut [], 0).unwrap(), 0);
    reader.seek(SeekFrom::End(0)).unwrap();
    assert_eq!(reader.read(&mut [0u8; 4]).unwrap(), 0);
    assert!(reader.read_at(&mut [0u8; 4], 0).is_err());
}

#[test]
fn a_header2_that_is_cut_short_is_passed_over() {
    let mut file = file_header(1);
    add_section(&mut file, "volume", &volume(1, 2, 512, 2), false);
    add_section(&mut file, "header", &deflate(b"1\nmain\nc\nA\n"), false);
    add_section(&mut file, "header2", &[0x78; 100], true);
    let len = file.len() - 89;
    file.truncate(len);
    let reader = open(vec![file.clone()]).unwrap();
    assert_eq!(reader.metadata().case_number.as_deref(), Some("A"));
    assert_eq!(reader.total_size(), 1024);

    let start = len as u64 - 11;
    let failed = EwfReader::open_segments(vec![file.len() as u64], |i, offset, n| {
        if offset == start {
            Err("gone".to_string())
        } else {
            memory_read(&vec![file.clone()], i, offset, n)
        }
    });
    assert_eq!(failed.err().unwrap().message(), "I/O error: gone");
}

#[test]
fn sequential_and_positioned_reads_agree() {
    let (files, _) = three_chunks();
    let mut sequential = open(files.clone()).unwrap();
    let mut positioned = open(files).unwrap();
    for (position, len) in [(0u64, 10usize), (1000, 1100), (2000, 900), (2560, 5), (9999, 5)] {
        sequential.seek(SeekFrom::Start(position)).unwrap();
        let mut a = vec![7u8; len];
        let mut b = vec![7u8; len];
        let n = sequential.read(&mut a).unwrap();
        assert_eq!(n, positioned.read_at(&mut b, position).unwrap());
        assert_eq!(a, b);
        assert_eq!(sequential.position(), position + n as u64);
    }
}
