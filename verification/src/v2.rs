//! Version 2 images (`.Ex01`, `.Lx01`): the backward chain of sections in each
//! segment file, and what each section adds to the image.

use std::collections::HashSet;
use vstd::prelude::*;
use crate::bytes::read_array;
use crate::codec;
use crate::codec::inflate;
use crate::error;
use crate::error::{short_read_error, EwfError, EwfErrorView};
use crate::ewf2::{Ewf2SectionDescriptor, Ewf2SectionDescriptorView, Ewf2SectionType,
    Ewf2TableEntry, Ewf2TableHeader, CHUNK_FLAG_COMPRESSED, SECTION_DESCRIPTOR_SIZE,
    TABLE_ENTRY_SIZE, TABLE_HEADER_SIZE};
use crate::image::{EwfImage, EwfImageView, MAX_CHUNK_COUNT, MAX_CHUNK_SIZE, MAX_DECOMPRESSED_SIZE,
    MAX_SECTION_DATA_SIZE, MAX_TABLE_ENTRIES};
use crate::parse;
use crate::parse::{parse_ewf2_case_data, read_device_geometry, DeviceGeometry};
use crate::sections::Chunk;
use crate::source;
use crate::source::read_exact;
use crate::text;
use crate::text::{push_decimal, push_hexadecimal};
use crate::types::StoredHashes;
use crate::v1;
use crate::v1::too_many_chunks;

verus! {

/// A chain that comes back to a descriptor it has passed.
pub open spec fn cycle_error() -> EwfErrorView {
    EwfErrorView::Parse("EWF2 section descriptor list contains a cycle"@)
}

/// A link that leads out of the file.
pub open spec fn link_error(previous: u64, len: int) -> EwfErrorView {
    EwfErrorView::Parse(
        "EWF2 previous_offset "@ + text::hexadecimal(previous as nat) + " exceeds file length "@
            + text::hexadecimal(len as nat),
    )
}

/// The descriptors from the one at `offset` back to the first of the segment
/// file, in the order of the file. `visited` holds the offsets that the walk
/// has passed.
pub open spec fn backward(file: Seq<u8>, offset: int, visited: Set<int>) -> Result<
    Seq<Ewf2SectionDescriptorView>,
    EwfErrorView,
>
    decreases vstd::set_lib::set_int_range(0, file.len() as int).difference(visited).len(),
{
    if visited.contains(offset) {
        Err(cycle_error())
    } else if offset < 0 {
        Err(error::short_read())
    } else {
        match source::exact(file, offset, SECTION_DESCRIPTOR_SIZE as int) {
            Err(e) => Err(e),
            Ok(buf) => {
                let d = Ewf2SectionDescriptorView::of(buf, offset as u64);
                if d.previous_offset == 0 {
                    Ok(seq![d])
                } else if d.previous_offset >= file.len() {
                    Err(link_error(d.previous_offset, file.len() as int))
                } else {
                    proof {
                        lemma_fewer_left(file.len() as int, offset, visited);
                    }
                    match backward(file, d.previous_offset as int, visited.insert(offset)) {
                        Err(e) => Err(e),
                        Ok(before) => Ok(before.push(d)),
                    }
                }
            },
        }
    }
}

/// Passing one more offset leaves fewer that have not been passed.
pub proof fn lemma_fewer_left(len: int, offset: int, visited: Set<int>)
    requires
        0 <= offset < len,
        !visited.contains(offset),
    ensures
        vstd::set_lib::set_int_range(0, len).difference(visited.insert(offset)).len() < vstd::set_lib::set_int_range(
            0,
            len,
        ).difference(visited).len(),
{
    let all = vstd::set_lib::set_int_range(0, len);
    vstd::set_lib::lemma_int_range(0, len);
    assert(all.difference(visited.insert(offset)) =~= all.difference(visited).remove(offset));
    assert(all.difference(visited).contains(offset));
    assert(all.difference(visited).subset_of(all));
    vstd::set_lib::lemma_len_subset(all.difference(visited), all);
}

/// The descriptors of a version 2 segment file. The last one ends the file.
pub open spec fn descriptors(file: Seq<u8>) -> Result<
    Seq<Ewf2SectionDescriptorView>,
    EwfErrorView,
> {
    if file.len() < SECTION_DESCRIPTOR_SIZE {
        Ok(Seq::empty())
    } else {
        backward(file, file.len() - SECTION_DESCRIPTOR_SIZE, Set::empty())
    }
}

/// The views of descriptors that were met from the end of a file on, in the
/// order of the file.
pub open spec fn forward_views(v: Seq<Ewf2SectionDescriptor>) -> Seq<Ewf2SectionDescriptorView> {
    Seq::new(v.len(), |i: int| v[v.len() - 1 - i]@)
}

/// The views of descriptors.
pub open spec fn descriptor_views(v: Seq<Ewf2SectionDescriptor>) -> Seq<
    Ewf2SectionDescriptorView,
> {
    Seq::new(v.len(), |i: int| v[i]@)
}

/// `r` with more descriptors behind it.
pub open spec fn followed_by(
    r: Result<Seq<Ewf2SectionDescriptorView>, EwfErrorView>,
    tail: Seq<Ewf2SectionDescriptorView>,
) -> Result<Seq<Ewf2SectionDescriptorView>, EwfErrorView> {
    match r {
        Ok(s) => Ok(s + tail),
        Err(e) => Err(e),
    }
}

fn reversed(v: Vec<Ewf2SectionDescriptor>) -> (r: Vec<Ewf2SectionDescriptor>)
    ensures
        descriptor_views(r@) == forward_views(v@),
{
    let mut out: Vec<Ewf2SectionDescriptor> = Vec::new();
    let mut i: usize = v.len();
    while i > 0
        invariant
            i <= v@.len(),
            out@.len() == v@.len() - i,
            forall|k: int| 0 <= k < out@.len() ==> #[trigger] out@[k] == v@[v@.len() - 1 - k],
        decreases i,
    {
        i -= 1;
        out.push(v[i]);
    }
    assert(descriptor_views(out@) =~= forward_views(v@));
    out
}

/// Walks the descriptors of a segment file backwards from its end, and returns
/// them in the order of the file.
pub(crate) fn collect_ewf2_descriptors<F: Fn(usize, u64, usize) -> Result<Vec<u8>, String>>(
    read: &F,
    i: usize,
    len: u64,
) -> (r: Result<Vec<Ewf2SectionDescriptor>, EwfError>)
    requires
        source::readable(*read, i + 1),
    ensures
        forall|content: Seq<u8>| #[trigger]
            source::serves(*read, i, len, content) ==> match r {
                Ok(v) => Ok::<Seq<Ewf2SectionDescriptorView>, EwfErrorView>(descriptor_views(v@))
                    == descriptors(content),
                Err(e) => source::outcome(*read, Err(e@), descriptors(content)),
            },
{
    let mut met: Vec<Ewf2SectionDescriptor> = Vec::new();
    if len < SECTION_DESCRIPTOR_SIZE as u64 {
        assert(descriptor_views(met@) =~= Seq::<Ewf2SectionDescriptorView>::empty());
        return Ok(met);
    }
    let mut visited: HashSet<u64> = HashSet::new();
    let mut offset: u64 = len - SECTION_DESCRIPTOR_SIZE as u64;
    let ghost start = offset as int;
    let ghost mut passed: Set<int> = Set::empty();
    proof {
        assert(forward_views(met@) =~= Seq::<Ewf2SectionDescriptorView>::empty());
        assert forall|content: Seq<u8>| #[trigger]
            source::serves(*read, i, len, content) implies descriptors(content) == followed_by(
            backward(content, offset as int, passed),
            forward_views(met@),
        ) by {
            match backward(content, offset as int, passed) {
                Ok(s) => {
                    assert(s + forward_views(met@) =~= s);
                },
                Err(_) => {},
            }
        }
    }
    loop
        invariant
            source::readable(*read, i + 1),
            offset < len,
            forall|x: u64| visited@.contains(x) <==> passed.contains(x as int),
            passed.finite(),
            passed.subset_of(vstd::set_lib::set_int_range(0, len as int)),
            forall|content: Seq<u8>| #[trigger]
                source::serves(*read, i, len, content) ==> descriptors(content) == followed_by(
                    backward(content, offset as int, passed),
                    forward_views(met@),
                ),
        decreases len - passed.len(),
    {
        broadcast use vstd::std_specs::hash::group_hash_axioms;

        if !visited.insert(offset) {
            assert(passed.contains(offset as int));
            return Err(
                EwfError::Parse("EWF2 section descriptor list contains a cycle".to_owned()),
            );
        }
        let ghost before = passed;
        proof {
            assert(!passed.contains(offset as int));
            passed = passed.insert(offset as int);
            vstd::set_lib::lemma_int_range(0, len as int);
            vstd::set_lib::lemma_len_subset(passed, vstd::set_lib::set_int_range(0, len as int));
        }
        let buf: Vec<u8> = match read_exact(read, i, offset, SECTION_DESCRIPTOR_SIZE) {
            Ok(buf) => buf,
            Err(e) => {
                return Err(e);
            },
        };
        let descriptor: Ewf2SectionDescriptor = match Ewf2SectionDescriptor::parse(
            buf.as_slice(),
            offset,
        ) {
            Ok(descriptor) => descriptor,
            Err(e) => {
                return Err(e);
            },
        };
        let previous: u64 = descriptor.previous_offset;
        let ghost tail = forward_views(met@);
        met.push(descriptor);
        assert(forward_views(met@) =~= seq![descriptor@] + tail);
        if previous == 0 {
            proof {
                assert forall|content: Seq<u8>| #[trigger]
                    source::serves(*read, i, len, content) implies descriptors(content) == Ok::<
                    Seq<Ewf2SectionDescriptorView>,
                    EwfErrorView,
                >(forward_views(met@)) by {}
            }
            return Ok(reversed(met));
        }
        if previous >= len {
            let mut m: String = "EWF2 previous_offset ".to_owned();
            push_hexadecimal(&mut m, previous);
            m.append(" exceeds file length ");
            push_hexadecimal(&mut m, len);
            return Err(EwfError::Parse(m));
        }
        proof {
            assert forall|content: Seq<u8>| #[trigger]
                source::serves(*read, i, len, content) implies descriptors(content) == followed_by(
                backward(content, previous as int, passed),
                forward_views(met@),
            ) by {
                match backward(content, previous as int, passed) {
                    Ok(s) => {
                        assert(s.push(descriptor@) + tail =~= s + forward_views(met@));
                    },
                    Err(_) => {},
                }
            }
        }
        offset = previous;
    }
}

/// Where the data of a section starts: it ends where the descriptor begins.
pub open spec fn data_start(d: Ewf2SectionDescriptorView) -> Result<int, EwfErrorView> {
    if d.data_size > d.offset {
        Err(
            EwfErrorView::Parse(
                "EWF2 "@ + d.section_type.spec_name() + " offset underflow: desc="@
                    + text::hexadecimal(d.offset as nat) + " size="@ + text::hexadecimal(
                    d.data_size as nat,
                ),
            ),
        )
    } else {
        Ok(d.offset - d.data_size)
    }
}

fn find_data_start(d: &Ewf2SectionDescriptor) -> (r: Result<u64, EwfError>)
    ensures
        match r {
            Ok(start) => data_start(d@) == Ok::<int, EwfErrorView>(start as int),
            Err(e) => data_start(d@) == Err::<int, EwfErrorView>(e@),
        },
{
    match d.offset.checked_sub(d.data_size) {
        Some(start) => Ok(start),
        None => {
            let mut m: String = "EWF2 ".to_owned();
            m.append(d.section_type.name());
            m.append(" offset underflow: desc=");
            push_hexadecimal(&mut m, d.offset);
            m.append(" size=");
            push_hexadecimal(&mut m, d.data_size);
            Err(EwfError::Parse(m))
        },
    }
}

/// Whether section data is a zlib stream, by its first byte.
pub open spec fn looks_compressed(raw: Seq<u8>) -> bool {
    raw.len() >= 2 && raw[0] == 0x78
}

/// The plain bytes of section data that decompressed to `inflated`.
pub open spec fn inflated_bytes(
    inflated: Result<(Seq<u8>, Option<Seq<char>>), Seq<char>>,
) -> Result<Seq<u8>, EwfErrorView> {
    match inflated {
        Ok((plain, _)) => Ok(plain),
        Err(m) => Err(EwfErrorView::Parse("EWF2 zlib decompress failed: "@ + m)),
    }
}

/// The plain bytes of section data, which may be compressed.
pub open spec fn plain_bytes(raw: Seq<u8>) -> Result<Seq<u8>, EwfErrorView> {
    if looks_compressed(raw) {
        inflated_bytes(codec::inflated(raw, MAX_DECOMPRESSED_SIZE))
    } else {
        Ok(raw)
    }
}

/// Turns the outcome of decompressing section data into its plain bytes.
pub fn take_inflated(inflated: Result<(Vec<u8>, Option<String>), String>) -> (r: Result<
    Vec<u8>,
    EwfError,
>)
    ensures
        error::viewed(r) == inflated_bytes(codec::inflated_view(inflated)),
{
    match inflated {
        Ok((plain, _)) => Ok(plain),
        Err(message) => {
            let mut m: String = "EWF2 zlib decompress failed: ".to_owned();
            m.append(message.as_str());
            Err(EwfError::Parse(m))
        },
    }
}

/// Returns the plain bytes of section data: decompressed, to a bounded length,
/// if they start like a zlib stream, and as they are if they do not.
pub fn maybe_zlib_decompress(raw: Vec<u8>) -> (r: Result<Vec<u8>, EwfError>)
    ensures
        error::viewed(r) == plain_bytes(raw@),
        looks_compressed(raw@) ==> (r matches Ok(out) ==> out@.len() <= MAX_DECOMPRESSED_SIZE),
{
    if raw.len() >= 2 && raw[0] == 0x78 {
        take_inflated(inflate(raw.as_slice(), MAX_DECOMPRESSED_SIZE))
    } else {
        Ok(raw)
    }
}

/// The plain bytes of a text section.
pub open spec fn section_text(file: Seq<u8>, d: Ewf2SectionDescriptorView) -> Result<
    Seq<u8>,
    EwfErrorView,
> {
    match data_start(d) {
        Err(e) => Err(e),
        Ok(start) => match source::exact(file, start, d.data_size as int) {
            Err(e) => Err(e),
            Ok(raw) => plain_bytes(raw),
        },
    }
}

fn read_section_text<F: Fn(usize, u64, usize) -> Result<Vec<u8>, String>>(
    read: &F,
    i: usize,
    d: &Ewf2SectionDescriptor,
) -> (r: Result<Vec<u8>, EwfError>)
    requires
        source::readable(*read, i + 1),
        d.data_size < MAX_SECTION_DATA_SIZE,
    ensures
        forall|len: u64, content: Seq<u8>| #[trigger]
            source::serves(*read, i, len, content) ==> source::outcome(
                *read,
                error::viewed(r),
                section_text(content, d@),
            ),
{
    match find_data_start(d) {
        Err(e) => Err(e),
        Ok(start) => match read_exact(read, i, start, d.data_size as usize) {
            Err(e) => Err(e),
            Ok(raw) => maybe_zlib_decompress(raw),
        },
    }
}

/// `image` after a case data section.
pub open spec fn case_data_applied(
    file: Seq<u8>,
    d: Ewf2SectionDescriptorView,
    image: EwfImageView,
) -> Result<EwfImageView, EwfErrorView> {
    match section_text(file, d) {
        Err(e) => Err(e),
        Ok(plain) => Ok(
            EwfImageView { metadata: parse::case_data_metadata(image.metadata, plain), ..image },
        ),
    }
}

/// Larger chunks than an acquisition can have.
pub open spec fn chunk_size_error(chunk_size: int) -> EwfErrorView {
    EwfErrorView::Parse(
        "EWF2 chunk size "@ + text::decimal(chunk_size as nat) + " exceeds maximum 134217728"@,
    )
}

/// Builds the error of larger chunks than an acquisition can have.
pub(crate) fn too_large_chunks(chunk_size: u64) -> (r: EwfError)
    ensures
        r@ == chunk_size_error(chunk_size as int),
{
    let mut m: String = "EWF2 chunk size ".to_owned();
    push_decimal(&mut m, chunk_size);
    m.append(" exceeds maximum 134217728");
    EwfError::Parse(m)
}

/// `image` after a device information section.
pub open spec fn device_info_applied(
    file: Seq<u8>,
    d: Ewf2SectionDescriptorView,
    image: EwfImageView,
) -> Result<EwfImageView, EwfErrorView> {
    match section_text(file, d) {
        Err(e) => Err(e),
        Ok(plain) => match DeviceGeometry::of(plain) {
            None => Ok(image),
            Some(g) => if !g.fits() {
                Err(EwfErrorView::Parse("EWF2 device_info media size exceeds 64 bits"@))
            } else if g.chunk_size() > MAX_CHUNK_SIZE {
                Err(chunk_size_error(g.chunk_size()))
            } else {
                Ok(
                    EwfImageView {
                        chunk_size: g.chunk_size_over(image.chunk_size),
                        total_size: g.total_size_over(image.total_size),
                        ..image
                    },
                )
            },
        },
    }
}

fn apply_case_data<F: Fn(usize, u64, usize) -> Result<Vec<u8>, String>>(
    read: &F,
    i: usize,
    d: &Ewf2SectionDescriptor,
    image: EwfImage,
) -> (r: Result<EwfImage, EwfError>)
    requires
        source::readable(*read, i + 1),
        d.data_size < MAX_SECTION_DATA_SIZE,
    ensures
        forall|len: u64, content: Seq<u8>| #[trigger]
            source::serves(*read, i, len, content) ==> source::outcome(
                *read,
                error::viewed(r),
                case_data_applied(content, d@, image@),
            ),
        r matches Ok(after) ==> after@.chunks == image@.chunks,
{
    match read_section_text(read, i, d) {
        Err(e) => Err(e),
        Ok(plain) => {
            let mut image = image;
            parse_ewf2_case_data(plain.as_slice(), &mut image.metadata);
            Ok(image)
        },
    }
}

fn apply_device_info<F: Fn(usize, u64, usize) -> Result<Vec<u8>, String>>(
    read: &F,
    i: usize,
    d: &Ewf2SectionDescriptor,
    image: EwfImage,
) -> (r: Result<EwfImage, EwfError>)
    requires
        source::readable(*read, i + 1),
        d.data_size < MAX_SECTION_DATA_SIZE,
    ensures
        forall|len: u64, content: Seq<u8>| #[trigger]
            source::serves(*read, i, len, content) ==> source::outcome(
                *read,
                error::viewed(r),
                device_info_applied(content, d@, image@),
            ),
        r matches Ok(after) ==> after@.chunks == image@.chunks,
{
    match read_section_text(read, i, d) {
        Err(e) => Err(e),
        Ok(plain) => match read_device_geometry(plain.as_slice()) {
            None => Ok(image),
            Some(geometry) => if !geometry.check_fits() {
                Err(EwfError::Parse("EWF2 device_info media size exceeds 64 bits".to_owned()))
            } else {
                let chunk_size: u64 = geometry.bytes_per_sector * geometry.sectors_per_chunk;
                if chunk_size > MAX_CHUNK_SIZE {
                    return Err(too_large_chunks(chunk_size));
                }
                let mut image = image;
                geometry.apply(&mut image.chunk_size, &mut image.total_size);
                Ok(image)
            },
        },
    }
}

/// The chunk of entry `k` of the table entries `buf`.
pub open spec fn table_chunk(seg: usize, buf: Seq<u8>, k: int) -> Chunk {
    let entry = Ewf2TableEntry::at(buf, TABLE_ENTRY_SIZE * k);
    Chunk {
        segment_idx: seg,
        compressed: entry.flags & CHUNK_FLAG_COMPRESSED != 0,
        offset: entry.chunk_data_offset,
        size: entry.chunk_data_size as u64,
    }
}

/// The chunks of the first `n` table entries.
pub open spec fn table_chunks(seg: usize, buf: Seq<u8>, n: nat) -> Seq<Chunk> {
    Seq::new(n, |k: int| table_chunk(seg, buf, k))
}

/// `image` after a sector table section.
pub open spec fn table_applied(
    file: Seq<u8>,
    seg: usize,
    d: Ewf2SectionDescriptorView,
    image: EwfImageView,
) -> Result<EwfImageView, EwfErrorView> {
    match data_start(d) {
        Err(e) => Err(e),
        Ok(start) => match source::exact(file, start, TABLE_HEADER_SIZE as int) {
            Err(e) => Err(e),
            Ok(head) => {
                let n = Ewf2TableHeader::of(head).entry_count;
                if n > MAX_TABLE_ENTRIES {
                    Err(
                        EwfErrorView::Parse(
                            "table entry count "@ + text::decimal(n as nat)
                                + " exceeds maximum 4000000"@,
                        ),
                    )
                } else if image.chunks.len() + n > MAX_CHUNK_COUNT {
                    Err(v1::chunk_count_error())
                } else {
                    match source::exact(file, start + TABLE_HEADER_SIZE, n * TABLE_ENTRY_SIZE) {
                        Err(e) => Err(e),
                        Ok(buf) => Ok(
                            EwfImageView {
                                chunks: image.chunks + table_chunks(seg, buf, n as nat),
                                ..image
                            },
                        ),
                    }
                }
            },
        },
    }
}

fn append_table(chunks: &mut Vec<Chunk>, seg: usize, buf: &Vec<u8>, n: usize)
    requires
        buf@.len() == n * TABLE_ENTRY_SIZE,
        n <= MAX_TABLE_ENTRIES,
    ensures
        final(chunks)@ == old(chunks)@ + table_chunks(seg, buf@, n as nat),
{
    let mut k: usize = 0;
    assert(chunks@ =~= old(chunks)@ + table_chunks(seg, buf@, 0));
    while k < n
        invariant
            k <= n <= MAX_TABLE_ENTRIES,
            buf@.len() == n * TABLE_ENTRY_SIZE,
            chunks@ == old(chunks)@ + table_chunks(seg, buf@, k as nat),
        decreases n - k,
    {
        let entry: Ewf2TableEntry = Ewf2TableEntry::read(buf.as_slice(), TABLE_ENTRY_SIZE * k);
        chunks.push(
            Chunk {
                segment_idx: seg,
                compressed: entry.is_compressed(),
                offset: entry.chunk_data_offset,
                size: entry.chunk_data_size as u64,
            },
        );
        k += 1;
        assert(chunks@ =~= old(chunks)@ + table_chunks(seg, buf@, k as nat));
    }
}

fn apply_table<F: Fn(usize, u64, usize) -> Result<Vec<u8>, String>>(
    read: &F,
    i: usize,
    seg: usize,
    d: &Ewf2SectionDescriptor,
    image: EwfImage,
) -> (r: Result<EwfImage, EwfError>)
    requires
        source::readable(*read, i + 1),
        image@.wf(seg + 1),
    ensures
        forall|len: u64, content: Seq<u8>| #[trigger]
            source::serves(*read, i, len, content) ==> source::outcome(
                *read,
                error::viewed(r),
                table_applied(content, seg, d@, image@),
            ),
        r matches Ok(after) ==> after@.wf(seg + 1),
{
    let start: u64 = match find_data_start(d) {
        Ok(start) => start,
        Err(e) => {
            return Err(e);
        },
    };
    let buf: Vec<u8> = match read_exact(read, i, start, TABLE_HEADER_SIZE) {
        Ok(buf) => buf,
        Err(e) => {
            return Err(e);
        },
    };
    let head: Ewf2TableHeader = match Ewf2TableHeader::parse(buf.as_slice()) {
        Ok(head) => head,
        Err(e) => {
            return Err(e);
        },
    };
    if head.entry_count as usize > MAX_TABLE_ENTRIES {
        let mut m: String = "table entry count ".to_owned();
        push_decimal(&mut m, head.entry_count as u64);
        m.append(" exceeds maximum 4000000");
        return Err(EwfError::Parse(m));
    }
    let n: usize = head.entry_count as usize;
    if image.chunks.len() > MAX_CHUNK_COUNT - n {
        return Err(too_many_chunks());
    }
    if start > u64::MAX - TABLE_HEADER_SIZE as u64 {
        // Such a header cannot have been read from a file.
        return Err(short_read_error());
    }
    let entries: Vec<u8> = match read_exact(
        read,
        i,
        start + TABLE_HEADER_SIZE as u64,
        n * TABLE_ENTRY_SIZE,
    ) {
        Ok(entries) => entries,
        Err(e) => {
            return Err(e);
        },
    };
    let mut image = image;
    append_table(&mut image.chunks, seg, &entries, n);
    Ok(image)
}

/// `image` after an MD5 section.
pub open spec fn md5_applied(
    file: Seq<u8>,
    d: Ewf2SectionDescriptorView,
    image: EwfImageView,
) -> Result<EwfImageView, EwfErrorView> {
    match data_start(d) {
        Err(e) => Err(e),
        Ok(start) => match source::exact(file, start, 16) {
            Err(e) => Err(e),
            Ok(hash) => Ok(EwfImageView { md5: Some(hash), ..image }),
        },
    }
}

fn apply_md5<F: Fn(usize, u64, usize) -> Result<Vec<u8>, String>>(
    read: &F,
    i: usize,
    d: &Ewf2SectionDescriptor,
    image: EwfImage,
) -> (r: Result<EwfImage, EwfError>)
    requires
        source::readable(*read, i + 1),
    ensures
        forall|len: u64, content: Seq<u8>| #[trigger]
            source::serves(*read, i, len, content) ==> source::outcome(
                *read,
                error::viewed(r),
                md5_applied(content, d@, image@),
            ),
        r matches Ok(after) ==> after@.chunks == image@.chunks,
{
    match find_data_start(d) {
        Err(e) => Err(e),
        Ok(start) => match read_exact(read, i, start, 16) {
            Err(e) => Err(e),
            Ok(buf) => {
                let md5: [u8; 16] = read_array(buf.as_slice(), 0);
                assert(md5@ =~= buf@);
                let mut image = image;
                image.hashes = StoredHashes { md5: Some(md5), sha1: image.hashes.sha1 };
                Ok(image)
            },
        },
    }
}

/// `image` after a SHA-1 section.
pub open spec fn sha1_applied(
    file: Seq<u8>,
    d: Ewf2SectionDescriptorView,
    image: EwfImageView,
) -> Result<EwfImageView, EwfErrorView> {
    match data_start(d) {
        Err(e) => Err(e),
        Ok(start) => match source::exact(file, start, 20) {
            Err(e) => Err(e),
            Ok(hash) => Ok(EwfImageView { sha1: Some(hash), ..image }),
        },
    }
}

fn apply_sha1<F: Fn(usize, u64, usize) -> Result<Vec<u8>, String>>(
    read: &F,
    i: usize,
    d: &Ewf2SectionDescriptor,
    image: EwfImage,
) -> (r: Result<EwfImage, EwfError>)
    requires
        source::readable(*read, i + 1),
    ensures
        forall|len: u64, content: Seq<u8>| #[trigger]
            source::serves(*read, i, len, content) ==> source::outcome(
                *read,
                error::viewed(r),
                sha1_applied(content, d@, image@),
            ),
        r matches Ok(after) ==> after@.chunks == image@.chunks,
{
    match find_data_start(d) {
        Err(e) => Err(e),
        Ok(start) => match read_exact(read, i, start, 20) {
            Err(e) => Err(e),
            Ok(buf) => {
                let sha1: [u8; 20] = read_array(buf.as_slice(), 0);
                assert(sha1@ =~= buf@);
                let mut image = image;
                image.hashes = StoredHashes { md5: image.hashes.md5, sha1: Some(sha1) };
                Ok(image)
            },
        },
    }
}

/// `image` after one section of segment `seg`.
#[verifier::opaque]
pub open spec fn section_applied(
    file: Seq<u8>,
    seg: usize,
    d: Ewf2SectionDescriptorView,
    image: EwfImageView,
) -> Result<EwfImageView, EwfErrorView> {
    let bounded = 0 < d.data_size < MAX_SECTION_DATA_SIZE;
    if d.is_encrypted() {
        Err(EwfErrorView::EncryptedNotSupported)
    } else if d.section_type == Ewf2SectionType::CaseData && bounded
        && image.metadata.case_number is None {
        case_data_applied(file, d, image)
    } else if d.section_type == Ewf2SectionType::DeviceInfo && bounded && image.chunk_size == 0 {
        device_info_applied(file, d, image)
    } else if d.section_type == Ewf2SectionType::SectorTable {
        table_applied(file, seg, d, image)
    } else if d.section_type == Ewf2SectionType::Md5Hash && d.data_size >= 16 {
        md5_applied(file, d, image)
    } else if d.section_type == Ewf2SectionType::Sha1Hash && d.data_size >= 20 {
        sha1_applied(file, d, image)
    } else {
        Ok(image)
    }
}

fn apply_section<F: Fn(usize, u64, usize) -> Result<Vec<u8>, String>>(
    read: &F,
    i: usize,
    seg: usize,
    d: &Ewf2SectionDescriptor,
    image: EwfImage,
) -> (r: Result<EwfImage, EwfError>)
    requires
        source::readable(*read, i + 1),
        image@.wf(seg + 1),
    ensures
        forall|len: u64, content: Seq<u8>| #[trigger]
            source::serves(*read, i, len, content) ==> source::outcome(
                *read,
                error::viewed(r),
                section_applied(content, seg, d@, image@),
            ),
        r matches Ok(after) ==> after@.wf(seg + 1),
{
    proof {
        reveal(section_applied);
    }
    if d.is_encrypted() {
        return Err(EwfError::EncryptedNotSupported);
    }
    let bounded: bool = d.data_size > 0 && d.data_size < MAX_SECTION_DATA_SIZE;
    match d.section_type {
        Ewf2SectionType::CaseData if bounded && image.metadata.case_number.is_none() => {
            apply_case_data(read, i, d, image)
        },
        Ewf2SectionType::DeviceInfo if bounded && image.chunk_size == 0 => {
            apply_device_info(read, i, d, image)
        },
        Ewf2SectionType::SectorTable => apply_table(read, i, seg, d, image),
        Ewf2SectionType::Md5Hash if d.data_size >= 16 => apply_md5(read, i, d, image),
        Ewf2SectionType::Sha1Hash if d.data_size >= 20 => apply_sha1(read, i, d, image),
        _ => Ok(image),
    }
}

/// `image` after the first `n` sections `ds` of segment `seg`.
pub open spec fn sections_applied(
    file: Seq<u8>,
    seg: usize,
    ds: Seq<Ewf2SectionDescriptorView>,
    n: nat,
    image: EwfImageView,
) -> Result<EwfImageView, EwfErrorView>
    decreases n,
{
    if n == 0 {
        Ok(image)
    } else {
        match sections_applied(file, seg, ds, (n - 1) as nat, image) {
            Err(e) => Err(e),
            Ok(before) => section_applied(file, seg, ds[n - 1], before),
        }
    }
}

/// `image` after all sections of segment `seg`.
pub open spec fn segment_applied(
    file: Seq<u8>,
    seg: usize,
    image: EwfImageView,
) -> Result<EwfImageView, EwfErrorView> {
    match descriptors(file) {
        Err(e) => Err(e),
        Ok(ds) => sections_applied(file, seg, ds, ds.len(), image),
    }
}

/// An error of an earlier section is the error of the segment.
proof fn lemma_sections_err(
    file: Seq<u8>,
    seg: usize,
    ds: Seq<Ewf2SectionDescriptorView>,
    n: nat,
    m: nat,
    image: EwfImageView,
)
    requires
        n <= m,
        sections_applied(file, seg, ds, n, image) is Err,
    ensures
        sections_applied(file, seg, ds, m, image) == sections_applied(file, seg, ds, n, image),
    decreases m,
{
    if n < m {
        lemma_sections_err(file, seg, ds, n, (m - 1) as nat, image);
    }
}

/// Reads all sections of a segment file.
pub(crate) fn apply_segment<F: Fn(usize, u64, usize) -> Result<Vec<u8>, String>>(
    read: &F,
    i: usize,
    len: u64,
    seg: usize,
    image: EwfImage,
) -> (r: Result<EwfImage, EwfError>)
    requires
        source::readable(*read, i + 1),
        image@.wf(seg + 1),
    ensures
        forall|content: Seq<u8>| #[trigger]
            source::serves(*read, i, len, content) ==> source::outcome(
                *read,
                error::viewed(r),
                segment_applied(content, seg, image@),
            ),
        r matches Ok(after) ==> after@.wf(seg + 1),
{
    let ghost first = image@;
    let ds: Vec<Ewf2SectionDescriptor> = match collect_ewf2_descriptors(read, i, len) {
        Ok(ds) => ds,
        Err(e) => {
            return Err(e);
        },
    };
    let ghost views = descriptor_views(ds@);
    let mut current: EwfImage = image;
    let mut k: usize = 0;
    while k < ds.len()
        invariant
            k <= ds@.len(),
            source::readable(*read, i + 1),
            views == descriptor_views(ds@),
            first == image@,
            current@.wf(seg + 1),
            forall|content: Seq<u8>| #[trigger]
                source::serves(*read, i, len, content) ==> descriptors(content) == Ok::<
                    Seq<Ewf2SectionDescriptorView>,
                    EwfErrorView,
                >(views) && sections_applied(content, seg, views, k as nat, first) == Ok::<
                    EwfImageView,
                    EwfErrorView,
                >(current@),
        decreases ds@.len() - k,
    {
        match apply_section(read, i, seg, &ds[k], current) {
            Ok(after) => {
                assert forall|content: Seq<u8>| #[trigger]
                    source::serves(*read, i, len, content) implies sections_applied(
                    content,
                    seg,
                    views,
                    (k + 1) as nat,
                    first,
                ) == Ok::<EwfImageView, EwfErrorView>(after@) by {
                    assert(views[k as int] == ds@[k as int]@);
                }
                current = after;
            },
            Err(e) => {
                assert forall|content: Seq<u8>| #[trigger]
                    source::serves(*read, i, len, content) implies source::outcome(
                    *read,
                    Err::<EwfImageView, EwfErrorView>(e@),
                    segment_applied(content, seg, first),
                ) by {
                    assert(views[k as int] == ds@[k as int]@);
                    if !source::failed_with(*read, e@) {
                        lemma_sections_err(
                            content,
                            seg,
                            views,
                            (k + 1) as nat,
                            views.len(),
                            first,
                        );
                    }
                }
                return Err(e);
            },
        }
        k += 1;
    }
    Ok(current)
}

/// Where the sections of a segment are accepted, none of them is encrypted.
pub proof fn law_accepted_is_not_encrypted(
    file: Seq<u8>,
    seg: usize,
    image: EwfImageView,
    k: int,
)
    requires
        segment_applied(file, seg, image) is Ok,
        descriptors(file) is Ok,
        0 <= k < descriptors(file)->Ok_0.len(),
    ensures
        !descriptors(file)->Ok_0[k].is_encrypted(),
{
    let ds = descriptors(file)->Ok_0;
    lemma_not_encrypted(file, seg, ds, ds.len(), image, k);
}

proof fn lemma_not_encrypted(
    file: Seq<u8>,
    seg: usize,
    ds: Seq<Ewf2SectionDescriptorView>,
    n: nat,
    image: EwfImageView,
    k: int,
)
    requires
        0 <= k < n,
        sections_applied(file, seg, ds, n, image) is Ok,
    ensures
        !ds[k].is_encrypted(),
    decreases n,
{
    reveal(section_applied);
    if k < n - 1 {
        lemma_not_encrypted(file, seg, ds, (n - 1) as nat, image, k);
    }
}

/// The chain of descriptors never passes the same place twice: a chain that
/// would is refused, so following it always comes to an end.
pub proof fn law_chain_has_no_cycle(file: Seq<u8>, offset: int, visited: Set<int>)
    requires
        0 <= offset,
        file.len() <= u64::MAX,
        backward(file, offset, visited) is Ok,
    ensures
        ({
            let ds = backward(file, offset, visited)->Ok_0;
            &&& forall|k: int|
                0 <= k < ds.len() ==> !visited.contains((#[trigger] ds[k]).offset as int)
                    && ds[k].offset + SECTION_DESCRIPTOR_SIZE <= file.len()
            &&& forall|j: int, k: int|
                0 <= j < k < ds.len() ==> (#[trigger] ds[j]).offset != (#[trigger] ds[k]).offset
        }),
    decreases vstd::set_lib::set_int_range(0, file.len() as int).difference(visited).len(),
{
    let buf = file.subrange(offset, offset + SECTION_DESCRIPTOR_SIZE);
    let d = Ewf2SectionDescriptorView::of(buf, offset as u64);
    let ds = backward(file, offset, visited)->Ok_0;
    if d.previous_offset != 0 {
        lemma_fewer_left(file.len() as int, offset, visited);
        law_chain_has_no_cycle(file, d.previous_offset as int, visited.insert(offset));
        let before = backward(
            file,
            d.previous_offset as int,
            visited.insert(offset),
        )->Ok_0;
        assert(ds == before.push(d));
        assert forall|k: int| 0 <= k < ds.len() implies !visited.contains(
            (#[trigger] ds[k]).offset as int,
        ) && ds[k].offset + SECTION_DESCRIPTOR_SIZE <= file.len() by {
            if k < before.len() {
                assert(ds[k] == before[k]);
                assert(!visited.insert(offset).contains(before[k].offset as int));
            }
        }
        assert forall|j: int, k: int| 0 <= j < k < ds.len() implies (#[trigger] ds[j]).offset != (
        #[trigger] ds[k]).offset by {
            assert(ds[j] == before[j]);
            if k < before.len() {
                assert(ds[k] == before[k]);
            } else {
                assert(!visited.insert(offset).contains(before[j].offset as int));
            }
        }
    }
}

/// The first device information that gives a chunk size, and the first case
/// data that gives a case number, count: later ones change nothing.
pub proof fn law_first_information_counts(
    file: Seq<u8>,
    seg: usize,
    d: Ewf2SectionDescriptorView,
    image: EwfImageView,
)
    requires
        !d.is_encrypted(),
        (d.section_type == Ewf2SectionType::DeviceInfo && image.chunk_size > 0) || (d.section_type
            == Ewf2SectionType::CaseData && image.metadata.case_number is Some),
    ensures
        section_applied(file, seg, d, image) == Ok::<EwfImageView, EwfErrorView>(image),
{
    reveal(section_applied);
}

/// A section of a kind that the reader does not use is passed over.
pub proof fn law_other_sections_are_passed_over(
    file: Seq<u8>,
    seg: usize,
    d: Ewf2SectionDescriptorView,
    image: EwfImageView,
)
    requires
        !d.is_encrypted(),
        d.section_type != Ewf2SectionType::DeviceInfo,
        d.section_type != Ewf2SectionType::CaseData,
        d.section_type != Ewf2SectionType::SectorTable,
        d.section_type != Ewf2SectionType::Md5Hash,
        d.section_type != Ewf2SectionType::Sha1Hash,
    ensures
        section_applied(file, seg, d, image) == Ok::<EwfImageView, EwfErrorView>(image),
{
    reveal(section_applied);
}

/// No section takes an image out of its limits, whatever it declares.
pub proof fn law_section_keeps_limits(
    file: Seq<u8>,
    seg: usize,
    d: Ewf2SectionDescriptorView,
    image: EwfImageView,
)
    requires
        v1::within_limits(image),
    ensures
        section_applied(file, seg, d, image) matches Ok(after) ==> v1::within_limits(after),
{
    reveal(section_applied);
}

/// No segment takes an image out of its limits.
pub proof fn law_segment_keeps_limits(file: Seq<u8>, seg: usize, image: EwfImageView)
    requires
        v1::within_limits(image),
    ensures
        segment_applied(file, seg, image) matches Ok(after) ==> v1::within_limits(after),
{
    match descriptors(file) {
        Ok(ds) => {
            lemma_sections_keep_limits(file, seg, ds, ds.len(), image);
        },
        Err(_) => {},
    }
}

proof fn lemma_sections_keep_limits(
    file: Seq<u8>,
    seg: usize,
    ds: Seq<Ewf2SectionDescriptorView>,
    n: nat,
    image: EwfImageView,
)
    requires
        v1::within_limits(image),
    ensures
        sections_applied(file, seg, ds, n, image) matches Ok(after) ==> v1::within_limits(after),
    decreases n,
{
    if n > 0 {
        lemma_sections_keep_limits(file, seg, ds, (n - 1) as nat, image);
        match sections_applied(file, seg, ds, (n - 1) as nat, image) {
            Ok(before) => {
                law_section_keeps_limits(file, seg, ds[n - 1], before);
            },
            Err(_) => {},
        }
    }
}

} // verus!
