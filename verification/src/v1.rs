//! Version 1 images (`.E01`, `.L01`): the forward chain of sections in each
//! segment file, and what each section adds to the image.

use vstd::prelude::*;
use crate::bytes;
use crate::bytes::{read_array, read_u32, read_u64};
use crate::codec;
use crate::codec::{inflate, text_from_utf8_lossy};
use crate::error;
use crate::error::{short_read_error, EwfError, EwfErrorView};
use crate::image::{EwfImage, EwfImageView, MAX_CHUNK_COUNT, MAX_CHUNK_SIZE, MAX_DECOMPRESSED_SIZE,
    MAX_SECTION_DATA_SIZE, MAX_TABLE_ENTRIES};
use crate::parse;
use crate::parse::{parse_error2_data, parse_header2_data, parse_header_text};
use crate::sections::{Chunk, EwfVolume, SectionDescriptor, SectionDescriptorView,
    SectionKind, TableEntry, FILE_HEADER_SIZE, SECTION_DESCRIPTOR_SIZE, TABLE_ENTRY_SIZE,
    VOLUME_SIZE};
use crate::source;
use crate::source::{read_exact, read_some};
use crate::text;
use crate::text::push_decimal;
use crate::types::StoredHashes;

verus! {

/// The chain of descriptors that starts at `offset` of a segment file. It ends
/// where a descriptor would run past the end of the file, and at a descriptor
/// whose link does not lead forward.
pub open spec fn chain(file: Seq<u8>, offset: int) -> Seq<SectionDescriptorView>
    decreases
            (if offset <= file.len() {
                file.len() - offset
            } else {
                0
            }),
{
    if offset < 0 || offset + SECTION_DESCRIPTOR_SIZE > file.len() {
        Seq::empty()
    } else {
        let d = SectionDescriptorView::of(
            file.subrange(offset, offset + SECTION_DESCRIPTOR_SIZE),
            offset as u64,
        );
        if d.next <= offset {
            seq![d]
        } else {
            seq![d] + chain(file, d.next as int)
        }
    }
}

/// The descriptors of a segment file.
pub open spec fn descriptor_views(v: Seq<SectionDescriptor>) -> Seq<SectionDescriptorView> {
    Seq::new(v.len(), |i: int| v[i]@)
}

/// Walks the chain of descriptors of a segment file.
pub(crate) fn read_chain<F: Fn(usize, u64, usize) -> Result<Vec<u8>, String>>(
    read: &F,
    i: usize,
    len: u64,
) -> (r: Result<Vec<SectionDescriptor>, EwfError>)
    requires
        source::readable(*read, i + 1),
    ensures
        forall|content: Seq<u8>| #[trigger]
            source::serves(*read, i, len, content) ==> match r {
                Ok(v) => descriptor_views(v@) == chain(content, FILE_HEADER_SIZE as int),
                Err(e) => source::failed_with(*read, e@),
            },
        r matches Ok(v) ==> forall|k: int|
            0 <= k < v@.len() ==> (#[trigger] v@[k]).offset + SECTION_DESCRIPTOR_SIZE <= len,
{
    let mut descriptors: Vec<SectionDescriptor> = Vec::new();
    let mut offset: u64 = FILE_HEADER_SIZE as u64;
    proof {
        assert forall|content: Seq<u8>| #[trigger]
            source::serves(*read, i, len, content) implies descriptor_views(descriptors@) + chain(
            content,
            offset as int,
        ) == chain(content, FILE_HEADER_SIZE as int) by {
            assert(descriptor_views(descriptors@) + chain(content, offset as int) =~= chain(
                content,
                offset as int,
            ));
        }
    }
    while len >= SECTION_DESCRIPTOR_SIZE as u64 && offset <= len - SECTION_DESCRIPTOR_SIZE as u64
        invariant
            source::readable(*read, i + 1),
            forall|content: Seq<u8>| #[trigger]
                source::serves(*read, i, len, content) ==> descriptor_views(descriptors@) + chain(
                    content,
                    offset as int,
                ) == chain(content, FILE_HEADER_SIZE as int),
            forall|k: int|
                0 <= k < descriptors@.len() ==> (#[trigger] descriptors@[k]).offset
                    + SECTION_DESCRIPTOR_SIZE <= len,
        decreases u64::MAX - offset,
    {
        let buf: Vec<u8> = match read_exact(read, i, offset, SECTION_DESCRIPTOR_SIZE) {
            Ok(buf) => buf,
            Err(e) => {
                return Err(e);
            },
        };
        let descriptor: SectionDescriptor = match SectionDescriptor::parse(
            buf.as_slice(),
            offset,
        ) {
            Ok(descriptor) => descriptor,
            Err(e) => {
                return Err(e);
            },
        };
        let next: u64 = descriptor.next;
        let ghost before = descriptor_views(descriptors@);
        let ghost d = descriptor@;
        descriptors.push(descriptor);
        assert(descriptor_views(descriptors@) =~= before.push(d));
        assert forall|content: Seq<u8>| #[trigger]
            source::serves(*read, i, len, content) implies descriptor_views(descriptors@) + (
        if next <= offset {
            Seq::empty()
        } else {
            chain(content, next as int)
        }) == chain(content, FILE_HEADER_SIZE as int) by {
            assert(d == SectionDescriptorView::of(
                content.subrange(offset as int, offset + SECTION_DESCRIPTOR_SIZE),
                offset,
            ));
            assert(before.push(d) + (if next <= offset {
                Seq::empty()
            } else {
                chain(content, next as int)
            }) =~= before + chain(content, offset as int));
        }
        if next <= offset {
            proof {
                assert forall|content: Seq<u8>| #[trigger]
                    source::serves(*read, i, len, content) implies descriptor_views(descriptors@)
                    == chain(content, FILE_HEADER_SIZE as int) by {
                    assert(descriptor_views(descriptors@) + Seq::<SectionDescriptorView>::empty()
                        =~= descriptor_views(descriptors@));
                }
            }
            return Ok(descriptors);
        }
        offset = next;
    }
    proof {
        assert forall|content: Seq<u8>| #[trigger]
            source::serves(*read, i, len, content) implies descriptor_views(descriptors@) == chain(
            content,
            FILE_HEADER_SIZE as int,
        ) by {
            assert(chain(content, offset as int) =~= Seq::<SectionDescriptorView>::empty());
            assert(descriptor_views(descriptors@) + chain(content, offset as int)
                =~= descriptor_views(descriptors@));
        }
    }
    Ok(descriptors)
}

/// Where the data of a section starts.
pub open spec fn data_offset(d: SectionDescriptorView) -> int {
    d.offset + SECTION_DESCRIPTOR_SIZE
}

/// `image` after a volume section.
pub open spec fn volume_applied(
    file: Seq<u8>,
    d: SectionDescriptorView,
    image: EwfImageView,
) -> Result<EwfImageView, EwfErrorView> {
    match source::exact(file, data_offset(d), VOLUME_SIZE as int) {
        Err(e) => Err(e),
        Ok(buf) => {
            let volume = EwfVolume::of(buf);
            let chunk_size = volume.spec_chunk_size();
            if chunk_size > MAX_CHUNK_SIZE {
                Err(
                    EwfErrorView::InvalidChunkSize(
                        if chunk_size < u32::MAX {
                            chunk_size
                        } else {
                            u32::MAX as int
                        },
                    ),
                )
            } else if volume.chunk_count > MAX_CHUNK_COUNT {
                Err(
                    EwfErrorView::Parse(
                        "volume chunk_count "@ + text::decimal(volume.chunk_count as nat)
                            + " exceeds maximum 67108864"@,
                    ),
                )
            } else if volume.spec_total_size() > u64::MAX {
                Err(EwfErrorView::Parse("volume media size exceeds 64 bits"@))
            } else {
                Ok(
                    EwfImageView {
                        chunk_size: chunk_size as u64,
                        total_size: if volume.spec_total_size() == 0 {
                            (chunk_size * volume.chunk_count) as u64
                        } else {
                            volume.spec_total_size() as u64
                        },
                        ..image
                    },
                )
            }
        },
    }
}

fn apply_volume<F: Fn(usize, u64, usize) -> Result<Vec<u8>, String>>(
    read: &F,
    i: usize,
    d: &SectionDescriptor,
    image: EwfImage,
) -> (r: Result<EwfImage, EwfError>)
    requires
        source::readable(*read, i + 1),
        d.offset + SECTION_DESCRIPTOR_SIZE <= u64::MAX,
    ensures
        forall|len: u64, content: Seq<u8>| #[trigger]
            source::serves(*read, i, len, content) ==> source::outcome(
                *read,
                error::viewed(r),
                volume_applied(content, d@, image@),
            ),
        r matches Ok(after) ==> after@.chunks == image@.chunks && after@.chunk_size
            <= MAX_CHUNK_SIZE,
{
    let buf: Vec<u8> = match read_exact(
        read,
        i,
        d.offset + SECTION_DESCRIPTOR_SIZE as u64,
        VOLUME_SIZE,
    ) {
        Ok(buf) => buf,
        Err(e) => {
            return Err(e);
        },
    };
    let volume: EwfVolume = match EwfVolume::parse(buf.as_slice()) {
        Ok(volume) => volume,
        Err(e) => {
            return Err(e);
        },
    };
    let chunk_size: u64 = volume.chunk_size();
    if chunk_size > MAX_CHUNK_SIZE {
        let reported: u32 = if chunk_size < u32::MAX as u64 {
            chunk_size as u32
        } else {
            u32::MAX
        };
        return Err(EwfError::InvalidChunkSize(reported));
    }
    if volume.chunk_count as usize > MAX_CHUNK_COUNT {
        let mut m: String = "volume chunk_count ".to_owned();
        push_decimal(&mut m, volume.chunk_count as u64);
        m.append(" exceeds maximum 67108864");
        return Err(EwfError::Parse(m));
    }
    let total: u64 = match (volume.bytes_per_sector as u64).checked_mul(volume.sector_count) {
        Some(total) => total,
        None => {
            return Err(EwfError::Parse("volume media size exceeds 64 bits".to_owned()));
        },
    };
    assert(chunk_size * volume.chunk_count <= MAX_CHUNK_SIZE * MAX_CHUNK_COUNT) by (nonlinear_arith)
        requires
            chunk_size <= MAX_CHUNK_SIZE,
            volume.chunk_count <= MAX_CHUNK_COUNT,
    ;
    let mut image = image;
    image.chunk_size = chunk_size;
    image.total_size = if total == 0 {
        chunk_size * volume.chunk_count as u64
    } else {
        total
    };
    Ok(image)
}

/// The file offset that entry `i` of the table entries `buf` points at.
pub open spec fn entry_offset(buf: Seq<u8>, base: int, i: int) -> int {
    base + TableEntry::at(buf, TABLE_ENTRY_SIZE * i).chunk_offset
}

/// The chunk of entry `i` out of `n`. A compressed chunk reaches up to the next
/// entry, if that lies behind it; all others are taken to be of full size.
pub open spec fn table_chunk(
    seg: usize,
    buf: Seq<u8>,
    base: int,
    n: int,
    chunk_size: u64,
    i: int,
) -> Chunk {
    let compressed = TableEntry::at(buf, TABLE_ENTRY_SIZE * i).compressed;
    let offset = entry_offset(buf, base, i);
    Chunk {
        segment_idx: seg,
        compressed,
        offset: offset as u64,
        size: if compressed && i + 1 < n && entry_offset(buf, base, i + 1) > offset {
            (entry_offset(buf, base, i + 1) - offset) as u64
        } else {
            chunk_size
        },
    }
}

/// The chunks of the first `upto` entries out of `n`.
pub open spec fn table_chunks(
    seg: usize,
    buf: Seq<u8>,
    base: int,
    n: int,
    chunk_size: u64,
    upto: nat,
) -> Seq<Chunk> {
    Seq::new(upto, |i: int| table_chunk(seg, buf, base, n, chunk_size, i))
}

/// `chunks` with the size of the last one corrected: where it is compressed
/// and still taken to be of full size, it ends where the sectors data ends.
pub open spec fn last_bounded(
    chunks: Seq<Chunk>,
    sectors_end: Option<u64>,
    chunk_size: u64,
) -> Seq<Chunk> {
    match sectors_end {
        None => chunks,
        Some(end) => {
            let last = chunks.last();
            if chunks.len() > 0 && last.compressed && last.size == chunk_size && 0 < end
                - last.offset < chunk_size {
                chunks.drop_last().push(Chunk { size: (end - last.offset) as u64, ..last })
            } else {
                chunks
            }
        },
    }
}

/// More chunks in all tables together than an acquisition can have.
pub open spec fn chunk_count_error() -> EwfErrorView {
    EwfErrorView::Parse("cumulative table chunk count exceeds maximum 67108864"@)
}

/// Builds the error of more chunks than an acquisition can have.
pub(crate) fn too_many_chunks() -> (r: EwfError)
    ensures
        r@ == chunk_count_error(),
{
    EwfError::Parse("cumulative table chunk count exceeds maximum 67108864".to_owned())
}

/// `image` after a chunk table section.
pub open spec fn table_applied(
    file: Seq<u8>,
    seg: usize,
    d: SectionDescriptorView,
    sectors_end: Option<u64>,
    image: EwfImageView,
) -> Result<EwfImageView, EwfErrorView> {
    match source::exact(file, data_offset(d), 24) {
        Err(e) => Err(e),
        Ok(head) => {
            let n = bytes::le32(head, 0);
            let base = bytes::le64(head, 8);
            if n > MAX_TABLE_ENTRIES {
                Err(
                    EwfErrorView::Parse(
                        "table entry count "@ + text::decimal(n as nat)
                            + " exceeds maximum 4000000"@,
                    ),
                )
            } else if image.chunks.len() + n > MAX_CHUNK_COUNT {
                Err(chunk_count_error())
            } else {
                match source::exact(file, data_offset(d) + 24, n * TABLE_ENTRY_SIZE) {
                    Err(e) => Err(e),
                    Ok(buf) => if exists|i: int|
                        0 <= i < n && #[trigger] entry_offset(buf, base, i) > u64::MAX {
                        Err(EwfErrorView::Parse("table entry offset exceeds 64 bits"@))
                    } else {
                        Ok(
                            EwfImageView {
                                chunks: last_bounded(
                                    image.chunks + table_chunks(
                                        seg,
                                        buf,
                                        base,
                                        n,
                                        image.chunk_size,
                                        n as nat,
                                    ),
                                    sectors_end,
                                    image.chunk_size,
                                ),
                                ..image
                            },
                        )
                    },
                }
            }
        },
    }
}

fn bound_last(chunks: &mut Vec<Chunk>, sectors_end: Option<u64>, chunk_size: u64)
    ensures
        final(chunks)@ == last_bounded(old(chunks)@, sectors_end, chunk_size),
{
    match sectors_end {
        None => {},
        Some(end) => {
            let n: usize = chunks.len();
            if n > 0 {
                let last: Chunk = chunks[n - 1];
                if last.compressed && last.size == chunk_size && end > last.offset && end
                    - last.offset < chunk_size {
                    chunks.set(
                        n - 1,
                        Chunk {
                            segment_idx: last.segment_idx,
                            compressed: last.compressed,
                            offset: last.offset,
                            size: end - last.offset,
                        },
                    );
                    assert(chunks@ =~= last_bounded(old(chunks)@, sectors_end, chunk_size));
                }
            }
        },
    }
}

/// Appends the chunks of the table entries `buf`; `false` if an offset does not
/// fit.
fn append_table(
    chunks: &mut Vec<Chunk>,
    seg: usize,
    buf: &Vec<u8>,
    base: u64,
    n: usize,
    chunk_size: u64,
) -> (r: bool)
    requires
        buf@.len() == n * TABLE_ENTRY_SIZE,
        n <= MAX_TABLE_ENTRIES,
    ensures
        r == !(exists|i: int| 0 <= i < n && #[trigger] entry_offset(buf@, base as int, i) > u64::MAX),
        r ==> final(chunks)@ == old(chunks)@ + table_chunks(
            seg,
            buf@,
            base as int,
            n as int,
            chunk_size,
            n as nat,
        ),
{
    let mut i: usize = 0;
    while i < n
        invariant
            i <= n <= MAX_TABLE_ENTRIES,
            buf@.len() == n * TABLE_ENTRY_SIZE,
            forall|k: int| 0 <= k < i ==> #[trigger] entry_offset(buf@, base as int, k) <= u64::MAX,
            chunks@ == old(chunks)@ + table_chunks(
                seg,
                buf@,
                base as int,
                n as int,
                chunk_size,
                i as nat,
            ),
        decreases n - i,
    {
        let entry: TableEntry = TableEntry::read(buf.as_slice(), TABLE_ENTRY_SIZE * i);
        assert(entry_offset(buf@, base as int, i as int) == base + entry.chunk_offset);
        let offset: u64 = match base.checked_add(entry.chunk_offset as u64) {
            Some(offset) => offset,
            None => {
                return false;
            },
        };
        let mut size: u64 = chunk_size;
        if entry.compressed && i + 1 < n {
            let following: TableEntry = TableEntry::read(buf.as_slice(), TABLE_ENTRY_SIZE * (i + 1));
            assert(entry_offset(buf@, base as int, i + 1) == base + following.chunk_offset);
            if following.chunk_offset > entry.chunk_offset {
                size = (following.chunk_offset - entry.chunk_offset) as u64;
            }
        }
        chunks.push(Chunk { segment_idx: seg, compressed: entry.compressed, offset, size });
        i += 1;
        assert(chunks@ =~= old(chunks)@ + table_chunks(
            seg,
            buf@,
            base as int,
            n as int,
            chunk_size,
            i as nat,
        ));
    }
    true
}

fn apply_table<F: Fn(usize, u64, usize) -> Result<Vec<u8>, String>>(
    read: &F,
    i: usize,
    seg: usize,
    d: &SectionDescriptor,
    sectors_end: Option<u64>,
    image: EwfImage,
) -> (r: Result<EwfImage, EwfError>)
    requires
        source::readable(*read, i + 1),
        d.offset + SECTION_DESCRIPTOR_SIZE <= u64::MAX,
        image.chunk_size <= MAX_CHUNK_SIZE,
        image@.wf(seg + 1),
    ensures
        forall|len: u64, content: Seq<u8>| #[trigger]
            source::serves(*read, i, len, content) ==> source::outcome(
                *read,
                error::viewed(r),
                table_applied(content, seg, d@, sectors_end, image@),
            ),
        r matches Ok(after) ==> after@.wf(seg + 1) && after.chunk_size == image.chunk_size,
{
    let start: u64 = d.offset + SECTION_DESCRIPTOR_SIZE as u64;
    let head: Vec<u8> = match read_exact(read, i, start, 24) {
        Ok(head) => head,
        Err(e) => {
            return Err(e);
        },
    };
    let declared: u32 = read_u32(head.as_slice(), 0);
    let base: u64 = read_u64(head.as_slice(), 8);
    if declared as usize > MAX_TABLE_ENTRIES {
        let mut m: String = "table entry count ".to_owned();
        push_decimal(&mut m, declared as u64);
        m.append(" exceeds maximum 4000000");
        return Err(EwfError::Parse(m));
    }
    let n: usize = declared as usize;
    if image.chunks.len() > MAX_CHUNK_COUNT - n {
        return Err(too_many_chunks());
    }
    if start > u64::MAX - 24 {
        // Such a header cannot have been read from a file.
        return Err(short_read_error());
    }
    let buf: Vec<u8> = match read_exact(read, i, start + 24, n * TABLE_ENTRY_SIZE) {
        Ok(buf) => buf,
        Err(e) => {
            return Err(e);
        },
    };
    let mut image = image;
    let chunk_size: u64 = image.chunk_size;
    if !append_table(&mut image.chunks, seg, &buf, base, n, chunk_size) {
        return Err(EwfError::Parse("table entry offset exceeds 64 bits".to_owned()));
    }
    bound_last(&mut image.chunks, sectors_end, chunk_size);
    Ok(image)
}

/// `image` after a `hash` section: an MD5 that is not known yet.
pub open spec fn hash_applied(
    file: Seq<u8>,
    d: SectionDescriptorView,
    image: EwfImageView,
) -> Result<EwfImageView, EwfErrorView> {
    match source::exact(file, data_offset(d), 16) {
        Err(e) => Err(e),
        Ok(buf) => Ok(
            EwfImageView {
                md5: if image.md5 is Some {
                    image.md5
                } else {
                    Some(buf)
                },
                ..image
            },
        ),
    }
}

fn apply_hash<F: Fn(usize, u64, usize) -> Result<Vec<u8>, String>>(
    read: &F,
    i: usize,
    d: &SectionDescriptor,
    image: EwfImage,
) -> (r: Result<EwfImage, EwfError>)
    requires
        source::readable(*read, i + 1),
        d.offset + SECTION_DESCRIPTOR_SIZE <= u64::MAX,
    ensures
        forall|len: u64, content: Seq<u8>| #[trigger]
            source::serves(*read, i, len, content) ==> source::outcome(
                *read,
                error::viewed(r),
                hash_applied(content, d@, image@),
            ),
        r matches Ok(after) ==> after@.chunks == image@.chunks && after.chunk_size
            == image.chunk_size,
{
    let buf: Vec<u8> = match read_exact(read, i, d.offset + SECTION_DESCRIPTOR_SIZE as u64, 16) {
        Ok(buf) => buf,
        Err(e) => {
            return Err(e);
        },
    };
    let mut image = image;
    if image.hashes.md5.is_none() {
        let md5: [u8; 16] = read_array(buf.as_slice(), 0);
        assert(md5@ =~= buf@);
        image.hashes = StoredHashes { md5: Some(md5), sha1: image.hashes.sha1 };
    }
    Ok(image)
}

/// `image` after a `digest` section: an MD5 and a SHA-1.
pub open spec fn digest_applied(
    file: Seq<u8>,
    d: SectionDescriptorView,
    image: EwfImageView,
) -> Result<EwfImageView, EwfErrorView> {
    match source::exact(file, data_offset(d), 36) {
        Err(e) => Err(e),
        Ok(buf) => Ok(
            EwfImageView {
                md5: Some(buf.subrange(0, 16)),
                sha1: Some(buf.subrange(16, 36)),
                ..image
            },
        ),
    }
}

fn apply_digest<F: Fn(usize, u64, usize) -> Result<Vec<u8>, String>>(
    read: &F,
    i: usize,
    d: &SectionDescriptor,
    image: EwfImage,
) -> (r: Result<EwfImage, EwfError>)
    requires
        source::readable(*read, i + 1),
        d.offset + SECTION_DESCRIPTOR_SIZE <= u64::MAX,
    ensures
        forall|len: u64, content: Seq<u8>| #[trigger]
            source::serves(*read, i, len, content) ==> source::outcome(
                *read,
                error::viewed(r),
                digest_applied(content, d@, image@),
            ),
        r matches Ok(after) ==> after@.chunks == image@.chunks && after.chunk_size
            == image.chunk_size,
{
    let buf: Vec<u8> = match read_exact(read, i, d.offset + SECTION_DESCRIPTOR_SIZE as u64, 36) {
        Ok(buf) => buf,
        Err(e) => {
            return Err(e);
        },
    };
    let mut image = image;
    image.hashes =
    StoredHashes {
        md5: Some(read_array(buf.as_slice(), 0)),
        sha1: Some(read_array(buf.as_slice(), 16)),
    };
    Ok(image)
}

/// The length of the data of a section, 0 where it is empty or so large that
/// it is not read.
pub open spec fn bounded_data_size(section_size: u64) -> int {
    let size = section_size - SECTION_DESCRIPTOR_SIZE;
    if 0 < size < MAX_SECTION_DATA_SIZE {
        size
    } else {
        0
    }
}

fn readable_data_size(section_size: u64) -> (r: usize)
    ensures
        r == bounded_data_size(section_size),
{
    let size: u64 = section_size.saturating_sub(SECTION_DESCRIPTOR_SIZE as u64);
    if size < MAX_SECTION_DATA_SIZE {
        size as usize
    } else {
        0
    }
}

/// `image` after a `header` section. It is read only while neither the case
/// number nor the system version is known, and changes nothing if it does not
/// decompress.
pub open spec fn header_applied(
    file: Seq<u8>,
    d: SectionDescriptorView,
    image: EwfImageView,
) -> Result<EwfImageView, EwfErrorView> {
    let size = bounded_data_size(d.section_size);
    if image.metadata.case_number is Some || image.metadata.os_version is Some || size == 0 {
        Ok(image)
    } else {
        match source::exact(file, data_offset(d), size) {
            Err(e) => Err(e),
            Ok(buf) => Ok(header_data_applied(codec::inflated(buf, MAX_DECOMPRESSED_SIZE), image)),
        }
    }
}

/// `image` after the decompressed data of a `header` section.
pub open spec fn header_data_applied(
    data: Result<(Seq<u8>, Option<Seq<char>>), Seq<char>>,
    image: EwfImageView,
) -> EwfImageView {
    match data {
        Err(_) => image,
        Ok((plain, _)) => EwfImageView {
            metadata: parse::header_text_metadata(image.metadata, codec::utf8_lossy(plain)),
            ..image
        },
    }
}

/// Takes the decompressed data of a `header` section into the metadata. Data
/// that did not decompress is passed over.
pub fn take_header_data(
    data: Result<(Vec<u8>, Option<String>), String>,
    image: EwfImage,
) -> (r: EwfImage)
    ensures
        r@ == header_data_applied(codec::inflated_view(data), image@),
{
    let mut image = image;
    match data {
        Ok((plain, _)) => {
            let header: String = text_from_utf8_lossy(plain.as_slice());
            parse_header_text(header.as_str(), &mut image.metadata);
        },
        Err(_) => {},
    }
    image
}

fn apply_header<F: Fn(usize, u64, usize) -> Result<Vec<u8>, String>>(
    read: &F,
    i: usize,
    d: &SectionDescriptor,
    image: EwfImage,
) -> (r: Result<EwfImage, EwfError>)
    requires
        source::readable(*read, i + 1),
        d.offset + SECTION_DESCRIPTOR_SIZE <= u64::MAX,
    ensures
        forall|len: u64, content: Seq<u8>| #[trigger]
            source::serves(*read, i, len, content) ==> source::outcome(
                *read,
                error::viewed(r),
                header_applied(content, d@, image@),
            ),
        r matches Ok(after) ==> after@.chunks == image@.chunks && after.chunk_size
            == image.chunk_size,
{
    let size: usize = readable_data_size(d.section_size);
    if image.metadata.case_number.is_some() || image.metadata.os_version.is_some() || size == 0 {
        return Ok(image);
    }
    let buf: Vec<u8> = match read_exact(
        read,
        i,
        d.offset + SECTION_DESCRIPTOR_SIZE as u64,
        size,
    ) {
        Ok(buf) => buf,
        Err(e) => {
            return Err(e);
        },
    };
    Ok(take_header_data(inflate(buf.as_slice(), MAX_DECOMPRESSED_SIZE), image))
}

/// `image` after a `header2` section. It is read only while no `header2`
/// section has given the case number or the system version, and changes nothing
/// if the file cuts it short or it does not decompress. What it says is kept
/// apart from what `header` sections say.
pub open spec fn header2_applied(
    file: Seq<u8>,
    d: SectionDescriptorView,
    image: EwfImageView,
) -> Result<EwfImageView, EwfErrorView> {
    let size = bounded_data_size(d.section_size);
    if image.header2.case_number is Some || image.header2.os_version is Some || size == 0 {
        Ok(image)
    } else {
        match source::exact(file, data_offset(d), size) {
            Err(_) => Ok(image),
            Ok(buf) => Ok(header2_data_applied(codec::inflated(buf, MAX_DECOMPRESSED_SIZE), image)),
        }
    }
}

/// `image` after the decompressed data of a `header2` section.
pub open spec fn header2_data_applied(
    data: Result<(Seq<u8>, Option<Seq<char>>), Seq<char>>,
    image: EwfImageView,
) -> EwfImageView {
    match data {
        Err(_) => image,
        Ok((plain, _)) => EwfImageView {
            header2: parse::header2_metadata(image.header2, plain),
            ..image
        },
    }
}

/// Takes in the decompressed data of a `header2` section. Data that did not
/// decompress is passed over.
pub fn take_header2_data(
    data: Result<(Vec<u8>, Option<String>), String>,
    image: EwfImage,
) -> (r: EwfImage)
    ensures
        r@ == header2_data_applied(codec::inflated_view(data), image@),
{
    let mut image = image;
    match data {
        Ok((plain, _)) => {
            parse_header2_data(plain.as_slice(), &mut image.header2);
        },
        Err(_) => {},
    }
    image
}

fn apply_header2<F: Fn(usize, u64, usize) -> Result<Vec<u8>, String>>(
    read: &F,
    i: usize,
    d: &SectionDescriptor,
    image: EwfImage,
) -> (r: Result<EwfImage, EwfError>)
    requires
        source::readable(*read, i + 1),
        d.offset + SECTION_DESCRIPTOR_SIZE <= u64::MAX,
    ensures
        forall|len: u64, content: Seq<u8>| #[trigger]
            source::serves(*read, i, len, content) ==> source::outcome(
                *read,
                error::viewed(r),
                header2_applied(content, d@, image@),
            ),
        r matches Ok(after) ==> after@.chunks == image@.chunks && after.chunk_size
            == image.chunk_size,
{
    let size: usize = readable_data_size(d.section_size);
    if image.header2.case_number.is_some() || image.header2.os_version.is_some() || size == 0 {
        return Ok(image);
    }
    let buf: Vec<u8> = match read_some(
        read,
        i,
        d.offset + SECTION_DESCRIPTOR_SIZE as u64,
        size,
    ) {
        Ok(buf) => buf,
        Err(e) => {
            return Err(e);
        },
    };
    if buf.len() != size {
        return Ok(image);
    }
    Ok(take_header2_data(inflate(buf.as_slice(), MAX_DECOMPRESSED_SIZE), image))
}

/// `image` after an `error2` section.
pub open spec fn error2_applied(
    file: Seq<u8>,
    d: SectionDescriptorView,
    image: EwfImageView,
) -> Result<EwfImageView, EwfErrorView> {
    let size = bounded_data_size(d.section_size);
    if size == 0 {
        Ok(image)
    } else {
        match source::exact(file, data_offset(d), size) {
            Err(e) => Err(e),
            Ok(buf) => Ok(
                EwfImageView { acquisition_errors: parse::error2_entries(buf), ..image },
            ),
        }
    }
}

fn apply_error2<F: Fn(usize, u64, usize) -> Result<Vec<u8>, String>>(
    read: &F,
    i: usize,
    d: &SectionDescriptor,
    image: EwfImage,
) -> (r: Result<EwfImage, EwfError>)
    requires
        source::readable(*read, i + 1),
        d.offset + SECTION_DESCRIPTOR_SIZE <= u64::MAX,
    ensures
        forall|len: u64, content: Seq<u8>| #[trigger]
            source::serves(*read, i, len, content) ==> source::outcome(
                *read,
                error::viewed(r),
                error2_applied(content, d@, image@),
            ),
        r matches Ok(after) ==> after@.chunks == image@.chunks && after.chunk_size
            == image.chunk_size,
{
    let size: usize = readable_data_size(d.section_size);
    if size == 0 {
        return Ok(image);
    }
    let buf: Vec<u8> = match read_exact(
        read,
        i,
        d.offset + SECTION_DESCRIPTOR_SIZE as u64,
        size,
    ) {
        Ok(buf) => buf,
        Err(e) => {
            return Err(e);
        },
    };
    let mut image = image;
    image.acquisition_errors = parse_error2_data(buf.as_slice());
    Ok(image)
}

/// The kind of section that the chunk table of a segment is taken from: `table`
/// where there is one, else its copy `table2`.
pub open spec fn table_kind(ds: Seq<SectionDescriptorView>) -> SectionKind {
    if exists|k: int| 0 <= k < ds.len() && (#[trigger] ds[k]).kind() == SectionKind::Table {
        SectionKind::Table
    } else {
        SectionKind::Table2
    }
}

/// Where the first sectors section of `ds` ends, from descriptor `k` on.
pub open spec fn sectors_end(ds: Seq<SectionDescriptorView>, k: int) -> Option<u64>
    decreases ds.len() - k,
{
    if k < 0 || k >= ds.len() {
        None
    } else if ds[k].kind() == SectionKind::Sectors {
        Some(
            if ds[k].offset + ds[k].section_size <= u64::MAX {
                (ds[k].offset + ds[k].section_size) as u64
            } else {
                u64::MAX
            },
        )
    } else {
        sectors_end(ds, k + 1)
    }
}

fn find_table_kind(ds: &Vec<SectionDescriptor>) -> (r: SectionKind)
    ensures
        r == table_kind(descriptor_views(ds@)),
{
    let ghost views = descriptor_views(ds@);
    let mut k: usize = 0;
    while k < ds.len()
        invariant
            k <= ds@.len(),
            views == descriptor_views(ds@),
            forall|j: int| 0 <= j < k ==> (#[trigger] views[j]).kind() != SectionKind::Table,
        decreases ds@.len() - k,
    {
        if ds[k].kind() == SectionKind::Table {
            assert(views[k as int].kind() == SectionKind::Table);
            return SectionKind::Table;
        }
        k += 1;
    }
    SectionKind::Table2
}

fn find_sectors_end(ds: &Vec<SectionDescriptor>) -> (r: Option<u64>)
    ensures
        r == sectors_end(descriptor_views(ds@), 0),
{
    let ghost views = descriptor_views(ds@);
    let mut k: usize = 0;
    while k < ds.len()
        invariant
            k <= ds@.len(),
            views == descriptor_views(ds@),
            sectors_end(views, 0) == sectors_end(views, k as int),
        decreases ds@.len() - k,
    {
        assert(views[k as int] == ds@[k as int]@);
        if ds[k].kind() == SectionKind::Sectors {
            return Some(ds[k].offset.saturating_add(ds[k].section_size));
        }
        k += 1;
    }
    None
}

/// `image` after one section of segment `seg`.
#[verifier::opaque]
pub open spec fn section_applied(
    file: Seq<u8>,
    seg: usize,
    d: SectionDescriptorView,
    table: SectionKind,
    end: Option<u64>,
    image: EwfImageView,
) -> Result<EwfImageView, EwfErrorView> {
    match d.kind() {
        SectionKind::Volume => volume_applied(file, d, image),
        SectionKind::Hash => hash_applied(file, d, image),
        SectionKind::Digest => digest_applied(file, d, image),
        SectionKind::Header => header_applied(file, d, image),
        SectionKind::Header2 => header2_applied(file, d, image),
        SectionKind::Error2 => error2_applied(file, d, image),
        kind => if kind == table {
            table_applied(file, seg, d, end, image)
        } else {
            Ok(image)
        },
    }
}

fn apply_section<F: Fn(usize, u64, usize) -> Result<Vec<u8>, String>>(
    read: &F,
    i: usize,
    seg: usize,
    d: &SectionDescriptor,
    table: SectionKind,
    end: Option<u64>,
    image: EwfImage,
) -> (r: Result<EwfImage, EwfError>)
    requires
        source::readable(*read, i + 1),
        d.offset + SECTION_DESCRIPTOR_SIZE <= u64::MAX,
        image.chunk_size <= MAX_CHUNK_SIZE,
        image@.wf(seg + 1),
    ensures
        forall|len: u64, content: Seq<u8>| #[trigger]
            source::serves(*read, i, len, content) ==> source::outcome(
                *read,
                error::viewed(r),
                section_applied(content, seg, d@, table, end, image@),
            ),
        r matches Ok(after) ==> after@.wf(seg + 1) && after.chunk_size <= MAX_CHUNK_SIZE,
{
    proof {
        reveal(section_applied);
    }
    let kind: SectionKind = d.kind();
    match kind {
        SectionKind::Volume => apply_volume(read, i, d, image),
        SectionKind::Hash => apply_hash(read, i, d, image),
        SectionKind::Digest => apply_digest(read, i, d, image),
        SectionKind::Header => apply_header(read, i, d, image),
        SectionKind::Header2 => apply_header2(read, i, d, image),
        SectionKind::Error2 => apply_error2(read, i, d, image),
        _ => if kind == table {
            apply_table(read, i, seg, d, end, image)
        } else {
            Ok(image)
        },
    }
}

/// `image` after the first `n` sections `ds` of segment `seg`.
pub open spec fn sections_applied(
    file: Seq<u8>,
    seg: usize,
    ds: Seq<SectionDescriptorView>,
    n: nat,
    image: EwfImageView,
) -> Result<EwfImageView, EwfErrorView>
    decreases n,
{
    if n == 0 {
        Ok(image)
    } else {
        match sections_applied(file, seg, ds, (n - 1) as nat, image) {
            Err(e) => Err(e),
            Ok(before) => section_applied(
                file,
                seg,
                ds[n - 1],
                table_kind(ds),
                sectors_end(ds, 0),
                before,
            ),
        }
    }
}

/// `image` after all sections of segment `seg`.
pub open spec fn segment_applied(
    file: Seq<u8>,
    seg: usize,
    image: EwfImageView,
) -> Result<EwfImageView, EwfErrorView> {
    let ds = chain(file, FILE_HEADER_SIZE as int);
    sections_applied(file, seg, ds, ds.len(), image)
}

/// An error of an earlier section is the error of the segment.
proof fn lemma_sections_err(
    file: Seq<u8>,
    seg: usize,
    ds: Seq<SectionDescriptorView>,
    n: nat,
    m: nat,
    image: EwfImageView,
)
    requires
        n <= m,
        sections_applied(file, seg, ds, n, image) is Err,
    ensures
        sections_applied(file, seg, ds, m, image) == sections_applied(file, seg, ds, n, image),
    decreases m,
{
    if n < m {
        lemma_sections_err(file, seg, ds, n, (m - 1) as nat, image);
    }
}

/// Reads all sections of a segment file.
pub(crate) fn apply_segment<F: Fn(usize, u64, usize) -> Result<Vec<u8>, String>>(
    read: &F,
    i: usize,
    len: u64,
    seg: usize,
    image: EwfImage,
) -> (r: Result<EwfImage, EwfError>)
    requires
        source::readable(*read, i + 1),
        image.chunk_size <= MAX_CHUNK_SIZE,
        image@.wf(seg + 1),
    ensures
        forall|content: Seq<u8>| #[trigger]
            source::serves(*read, i, len, content) ==> source::outcome(
                *read,
                error::viewed(r),
                segment_applied(content, seg, image@),
            ),
        r matches Ok(after) ==> after@.wf(seg + 1) && after.chunk_size <= MAX_CHUNK_SIZE,
{
    let ghost first = image@;
    let ds: Vec<SectionDescriptor> = match read_chain(read, i, len) {
        Ok(ds) => ds,
        Err(e) => {
            return Err(e);
        },
    };
    let ghost views = descriptor_views(ds@);
    let table: SectionKind = find_table_kind(&ds);
    let end: Option<u64> = find_sectors_end(&ds);
    let mut current: EwfImage = image;
    let mut k: usize = 0;
    while k < ds.len()
        invariant
            k <= ds@.len(),
            source::readable(*read, i + 1),
            views == descriptor_views(ds@),
            table == table_kind(views),
            end == sectors_end(views, 0),
            forall|j: int|
                0 <= j < ds@.len() ==> (#[trigger] ds@[j]).offset + SECTION_DESCRIPTOR_SIZE <= len,
            first == image@,
            current.chunk_size <= MAX_CHUNK_SIZE,
            current@.wf(seg + 1),
            forall|content: Seq<u8>| #[trigger]
                source::serves(*read, i, len, content) ==> views == chain(
                    content,
                    FILE_HEADER_SIZE as int,
                ) && sections_applied(content, seg, views, k as nat, first) == Ok::<
                    EwfImageView,
                    EwfErrorView,
                >(current@),
        decreases ds@.len() - k,
    {
        match apply_section(read, i, seg, &ds[k], table, end, current) {
            Ok(after) => {
                assert forall|content: Seq<u8>| #[trigger]
                    source::serves(*read, i, len, content) implies sections_applied(
                    content,
                    seg,
                    views,
                    (k + 1) as nat,
                    first,
                ) == Ok::<EwfImageView, EwfErrorView>(after@) by {
                    assert(views[k as int] == ds@[k as int]@);
                }
                current = after;
            },
            Err(e) => {
                assert forall|content: Seq<u8>| #[trigger]
                    source::serves(*read, i, len, content) implies source::outcome(
                    *read,
                    Err::<EwfImageView, EwfErrorView>(e@),
                    segment_applied(content, seg, first),
                ) by {
                    assert(views[k as int] == ds@[k as int]@);
                    if !source::failed_with(*read, e@) {
                        lemma_sections_err(
                            content,
                            seg,
                            views,
                            (k + 1) as nat,
                            views.len(),
                            first,
                        );
                    }
                }
                return Err(e);
            },
        }
        k += 1;
    }
    Ok(current)
}

/// The descriptors of a segment file lie behind each other, from the given
/// offset on, and inside the file: following the chain always comes to an end.
pub proof fn law_chain_leads_forward(file: Seq<u8>, offset: int)
    requires
        0 <= offset,
        file.len() <= u64::MAX,
    ensures
        forall|k: int|
            0 <= k < chain(file, offset).len() ==> offset <= (#[trigger] chain(
                file,
                offset,
            )[k]).offset && data_offset(chain(file, offset)[k]) <= file.len(),
        forall|j: int, k: int|
            0 <= j < k < chain(file, offset).len() ==> (#[trigger] chain(file, offset)[j]).offset
                < (#[trigger] chain(file, offset)[k]).offset,
    decreases
            (if offset <= file.len() {
                file.len() - offset
            } else {
                0
            }),
{
    if offset + SECTION_DESCRIPTOR_SIZE <= file.len() {
        let d = SectionDescriptorView::of(
            file.subrange(offset, offset + SECTION_DESCRIPTOR_SIZE),
            offset as u64,
        );
        if d.next > offset {
            let rest = chain(file, d.next as int);
            law_chain_leads_forward(file, d.next as int);
            let all = chain(file, offset);
            assert forall|k: int| 0 <= k < all.len() implies offset <= (#[trigger] all[k]).offset
                && data_offset(all[k]) <= file.len() by {
                if k > 0 {
                    assert(all[k] == rest[k - 1]);
                }
            }
            assert forall|j: int, k: int| 0 <= j < k < all.len() implies (
            #[trigger] all[j]).offset < (#[trigger] all[k]).offset by {
                assert(all[k] == rest[k - 1]);
                if j > 0 {
                    assert(all[j] == rest[j - 1]);
                }
            }
        }
    }
}

/// Where a segment has a `table` section, its copies of the table change
/// nothing: no chunk is counted twice.
pub proof fn law_table2_is_a_copy(
    file: Seq<u8>,
    seg: usize,
    ds: Seq<SectionDescriptorView>,
    k: int,
    j: int,
    image: EwfImageView,
)
    requires
        0 <= k < ds.len(),
        ds[k].kind() == SectionKind::Table,
        0 <= j < ds.len(),
        ds[j].kind() == SectionKind::Table2,
    ensures
        section_applied(file, seg, ds[j], table_kind(ds), sectors_end(ds, 0), image) == Ok::<
            EwfImageView,
            EwfErrorView,
        >(image),
{
    reveal(section_applied);
}

/// What reading sections keeps: the number of chunks and the chunk size stay
/// within their limits.
pub open spec fn within_limits(image: EwfImageView) -> bool {
    image.chunks.len() <= MAX_CHUNK_COUNT && image.chunk_size <= MAX_CHUNK_SIZE
}

/// No section takes an image out of its limits, whatever it declares.
pub proof fn law_section_keeps_limits(
    file: Seq<u8>,
    seg: usize,
    d: SectionDescriptorView,
    table: SectionKind,
    end: Option<u64>,
    image: EwfImageView,
)
    requires
        within_limits(image),
    ensures
        section_applied(file, seg, d, table, end, image) matches Ok(after) ==> within_limits(after),
{
    reveal(section_applied);
}

/// No segment takes an image out of its limits.
pub proof fn law_segment_keeps_limits(file: Seq<u8>, seg: usize, image: EwfImageView)
    requires
        within_limits(image),
    ensures
        segment_applied(file, seg, image) matches Ok(after) ==> within_limits(after),
{
    let ds = chain(file, FILE_HEADER_SIZE as int);
    lemma_sections_keep_limits(file, seg, ds, ds.len(), image);
}

proof fn lemma_sections_keep_limits(
    file: Seq<u8>,
    seg: usize,
    ds: Seq<SectionDescriptorView>,
    n: nat,
    image: EwfImageView,
)
    requires
        within_limits(image),
    ensures
        sections_applied(file, seg, ds, n, image) matches Ok(after) ==> within_limits(after),
    decreases n,
{
    if n > 0 {
        lemma_sections_keep_limits(file, seg, ds, (n - 1) as nat, image);
        match sections_applied(file, seg, ds, (n - 1) as nat, image) {
            Ok(before) => {
                law_section_keeps_limits(
                    file,
                    seg,
                    ds[n - 1],
                    table_kind(ds),
                    sectors_end(ds, 0),
                    before,
                );
            },
            Err(_) => {},
        }
    }
}

/// A stored MD5 is never replaced by a `hash` section, and always by a
/// `digest` section, which alone brings a SHA-1.
pub proof fn law_digest_outranks_hash(
    file: Seq<u8>,
    d: SectionDescriptorView,
    image: EwfImageView,
)
    ensures
        hash_applied(file, d, image) matches Ok(after) ==> after.sha1 == image.sha1 && (
        image.md5 is Some ==> after == image),
        digest_applied(file, d, image) matches Ok(after) ==> after.md5 == Some(
            file.subrange(data_offset(d), data_offset(d) + 16),
        ) && after.sha1 == Some(file.subrange(data_offset(d) + 16, data_offset(d) + 36)),
{
    if data_offset(d) + 36 <= file.len() {
        let buf = file.subrange(data_offset(d), data_offset(d) + 36);
        assert(buf.subrange(0, 16) =~= file.subrange(data_offset(d), data_offset(d) + 16));
        assert(buf.subrange(16, 36) =~= file.subrange(data_offset(d) + 16, data_offset(d) + 36));
    }
}

/// Metadata is taken from the first header that fills in the case number or the
/// system version: later ones change nothing, and are not even read.
pub proof fn law_known_case_is_kept(
    file: Seq<u8>,
    seg: usize,
    d: SectionDescriptorView,
    table: SectionKind,
    end: Option<u64>,
    image: EwfImageView,
)
    requires
        d.kind() == SectionKind::Header,
        image.metadata.case_number is Some || image.metadata.os_version is Some,
    ensures
        section_applied(file, seg, d, table, end, image) == Ok::<EwfImageView, EwfErrorView>(image),
{
    reveal(section_applied);
}

/// A section of any other name is passed over.
pub proof fn law_other_sections_are_passed_over(
    file: Seq<u8>,
    seg: usize,
    ds: Seq<SectionDescriptorView>,
    k: int,
    image: EwfImageView,
)
    requires
        0 <= k < ds.len(),
        ds[k].kind() == SectionKind::Other || ds[k].kind() == SectionKind::Sectors,
    ensures
        section_applied(file, seg, ds[k], table_kind(ds), sectors_end(ds, 0), image) == Ok::<
            EwfImageView,
            EwfErrorView,
        >(image),
{
    reveal(section_applied);
}

/// A `header2` section never keeps an image from opening, whatever it holds or
/// declares.
pub proof fn law_header2_refuses_nothing(
    file: Seq<u8>,
    seg: usize,
    d: SectionDescriptorView,
    table: SectionKind,
    end: Option<u64>,
    image: EwfImageView,
)
    requires
        d.kind() == SectionKind::Header2,
    ensures
        section_applied(file, seg, d, table, end, image) is Ok,
{
    reveal(section_applied);
}

} // verus!
