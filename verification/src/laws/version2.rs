//! Version 2 images: which bytes of a segment file become which part of the
//! image.

use vstd::prelude::*;
use crate::bytes;
use crate::codec;
use crate::error;
use crate::error::EwfErrorView;
use crate::ewf2::{Ewf2SectionDescriptorView, Ewf2SectionType, Ewf2TableEntry};
use crate::image::EwfImageView;
use crate::parse;
use crate::parse::DeviceGeometry;
use crate::sections::Chunk;
use crate::text;
use crate::v2;

verus! {

/// Whether `d` is what the bytes at its offset say.
pub open spec fn is_descriptor_of(file: Seq<u8>, d: Ewf2SectionDescriptorView) -> bool {
    &&& d.offset + 64 <= file.len()
    &&& d.section_type == Ewf2SectionType::numbered(bytes::le32(file, d.offset as int) as u32)
    &&& d.data_flags == bytes::le32(file, d.offset + 4)
    &&& d.previous_offset == bytes::le64(file, d.offset + 8)
    &&& d.data_size == bytes::le64(file, d.offset + 16)
    &&& d.descriptor_size == bytes::le32(file, d.offset + 24)
    &&& d.padding_size == bytes::le32(file, d.offset + 28)
    &&& d.data_integrity_hash == file.subrange(d.offset + 32, d.offset + 48)
}

proof fn lemma_descriptor_at(file: Seq<u8>, offset: u64)
    requires
        offset + 64 <= file.len(),
    ensures
        is_descriptor_of(
            file,
            Ewf2SectionDescriptorView::of(
                file.subrange(offset as int, offset as int + 64),
                offset,
            ),
        ),
{
    let buf = file.subrange(offset as int, offset as int + 64);
    assert(bytes::le32(buf, 0) == bytes::le32(file, offset as int));
    assert(bytes::le32(buf, 4) == bytes::le32(file, offset + 4));
    assert(bytes::le64(buf, 8) == bytes::le64(file, offset + 8));
    assert(bytes::le64(buf, 16) == bytes::le64(file, offset + 16));
    assert(bytes::le32(buf, 24) == bytes::le32(file, offset + 24));
    assert(bytes::le32(buf, 28) == bytes::le32(file, offset + 28));
    assert(buf.subrange(32, 48) =~= file.subrange(offset + 32, offset + 48));
}

/// Whether `ds` are descriptors of the file, each of which leads to the one
/// before it.
pub open spec fn linked(file: Seq<u8>, ds: Seq<Ewf2SectionDescriptorView>) -> bool {
    &&& forall|k: int| 0 <= k < ds.len() ==> is_descriptor_of(file, #[trigger] ds[k])
    &&& forall|k: int|
        1 <= k < ds.len() ==> 0 < (#[trigger] ds[k]).previous_offset == ds[k - 1].offset
}

/// The descriptors of a segment file are those that the links lead to, from the
/// one that ends the file back to one that has none before it.
pub proof fn law_chain_follows_the_links(file: Seq<u8>)
    requires
        file.len() <= u64::MAX,
    ensures
        v2::descriptors(file) matches Ok(ds) ==> {
            &&& linked(file, ds)
            &&& ds.len() > 0 <==> file.len() >= 64
            &&& ds.len() > 0 ==> ds.last().offset == file.len() - 64 && ds[0].previous_offset == 0
        },
{
    if file.len() >= 64 {
        lemma_backward(file, file.len() - 64, Set::empty());
    }
}

proof fn lemma_backward(file: Seq<u8>, offset: int, visited: Set<int>)
    requires
        0 <= offset,
        file.len() <= u64::MAX,
    ensures
        v2::backward(file, offset, visited) matches Ok(ds) ==> {
            &&& linked(file, ds)
            &&& ds.len() > 0
            &&& ds.last().offset == offset
            &&& ds[0].previous_offset == 0
        },
    decreases vstd::set_lib::set_int_range(0, file.len() as int).difference(visited).len(),
{
    if v2::backward(file, offset, visited) is Ok {
        let ds = v2::backward(file, offset, visited)->Ok_0;
        assert(offset + 64 <= file.len());
        lemma_descriptor_at(file, offset as u64);
        let d = Ewf2SectionDescriptorView::of(file.subrange(offset, offset + 64), offset as u64);
        if d.previous_offset == 0 {
            assert(ds =~= seq![d]);
        } else {
            v2::lemma_fewer_left(file.len() as int, offset, visited);
            lemma_backward(file, d.previous_offset as int, visited.insert(offset));
            let before = v2::backward(
                file,
                d.previous_offset as int,
                visited.insert(offset),
            )->Ok_0;
            assert(ds =~= before.push(d));
            assert forall|k: int| 0 <= k < ds.len() implies is_descriptor_of(
                file,
                #[trigger] ds[k],
            ) by {
                if k < before.len() {
                    assert(ds[k] == before[k]);
                }
            }
            assert forall|k: int| 1 <= k < ds.len() implies 0 < (#[trigger] ds[k]).previous_offset
                == ds[k - 1].offset by {
                assert(ds[k - 1] == before[k - 1]);
                if k < before.len() {
                    assert(ds[k] == before[k]);
                } else {
                    assert(before[k - 1] == before.last());
                }
            }
            assert(ds[0] == before[0]);
        }
    }
}

/// Descriptors that lead from the end of a file to one that has none before it
/// are all found. A link that leads out of the file or back to a descriptor
/// that was passed is refused, and so is one to where no descriptor has room.
pub proof fn law_linked_descriptors_are_found(file: Seq<u8>, ds: Seq<Ewf2SectionDescriptorView>)
    requires
        64 <= file.len() <= u64::MAX,
        linked(file, ds),
        ds.len() > 0,
        ds.last().offset == file.len() - 64,
        forall|j: int, k: int|
            0 <= j < k < ds.len() ==> (#[trigger] ds[j]).offset != (#[trigger] ds[k]).offset,
    ensures
        ({
            let p = ds[0].previous_offset;
            let found = v2::descriptors(file);
            &&& p == 0 ==> found == Ok::<Seq<Ewf2SectionDescriptorView>, EwfErrorView>(ds)
            &&& p >= file.len() ==> found == Err::<Seq<Ewf2SectionDescriptorView>, EwfErrorView>(
                EwfErrorView::Parse(
                    "EWF2 previous_offset "@ + text::hexadecimal(p as nat)
                        + " exceeds file length "@ + text::hexadecimal(file.len()),
                ),
            )
            &&& p > 0 && (exists|j: int| 0 <= j < ds.len() && (#[trigger] ds[j]).offset == p)
                ==> found == Err::<Seq<Ewf2SectionDescriptorView>, EwfErrorView>(
                EwfErrorView::Parse("EWF2 section descriptor list contains a cycle"@),
            )
            &&& 0 < p < file.len() < p + 64 ==> found is Err
        }),
{
    assert(fresh(ds, Set::empty()));
    lemma_found(file, ds, Set::empty());
    let p = ds[0].previous_offset;
    if exists|j: int| 0 <= j < ds.len() && (#[trigger] ds[j]).offset == p {
        let j = choose|j: int| 0 <= j < ds.len() && (#[trigger] ds[j]).offset == p;
        assert(is_descriptor_of(file, ds[j]));
        assert(at_one_of(ds, p));
    }
}

/// One step of the walk back.
proof fn lemma_step(file: Seq<u8>, d: Ewf2SectionDescriptorView, visited: Set<int>)
    requires
        file.len() <= u64::MAX,
        is_descriptor_of(file, d),
        !visited.contains(d.offset as int),
    ensures
        ({
            let p = d.previous_offset;
            let found = v2::backward(file, d.offset as int, visited);
            let before = v2::backward(file, p as int, visited.insert(d.offset as int));
            &&& p == 0 ==> found == Ok::<Seq<Ewf2SectionDescriptorView>, EwfErrorView>(seq![d])
            &&& p >= file.len() ==> found == Err::<Seq<Ewf2SectionDescriptorView>, EwfErrorView>(
                v2::link_error(p, file.len() as int),
            )
            &&& 0 < p < file.len() ==> found == v2::followed_by(before, seq![d])
        }),
{
    let offset = d.offset as int;
    lemma_descriptor_at(file, d.offset);
    let read = Ewf2SectionDescriptorView::of(file.subrange(offset, offset + 64), d.offset);
    assert(read =~= d);
    let before = v2::backward(file, d.previous_offset as int, visited.insert(offset));
    if before is Ok {
        assert(before->Ok_0.push(d) =~= before->Ok_0 + seq![d]);
    }
}

proof fn lemma_no_step(file: Seq<u8>, p: int, visited: Set<int>)
    ensures
        visited.contains(p) ==> v2::backward(file, p, visited) == Err::<
            Seq<Ewf2SectionDescriptorView>,
            EwfErrorView,
        >(v2::cycle_error()),
        file.len() < p + 64 ==> v2::backward(file, p, visited) is Err,
{
}

/// Whether the offsets of `ds` differ from each other and from those passed.
spec fn fresh(ds: Seq<Ewf2SectionDescriptorView>, visited: Set<int>) -> bool {
    &&& forall|j: int, k: int|
        0 <= j < k < ds.len() ==> (#[trigger] ds[j]).offset != (#[trigger] ds[k]).offset
    &&& forall|j: int| 0 <= j < ds.len() ==> !visited.contains((#[trigger] ds[j]).offset as int)
}

/// Whether one of `ds` is at `p`.
spec fn at_one_of(ds: Seq<Ewf2SectionDescriptorView>, p: u64) -> bool {
    exists|j: int| 0 <= j < ds.len() && (#[trigger] ds[j]).offset == p
}

proof fn lemma_without_last(
    file: Seq<u8>,
    ds: Seq<Ewf2SectionDescriptorView>,
    visited: Set<int>,
    p: u64,
)
    requires
        linked(file, ds),
        ds.len() > 1,
        fresh(ds, visited),
    ensures
        linked(file, ds.drop_last()),
        fresh(ds.drop_last(), visited.insert(ds.last().offset as int)),
        is_descriptor_of(file, ds.last()),
        is_descriptor_of(file, ds.drop_last().last()),
        !visited.contains(ds.last().offset as int),
        ds.last().previous_offset == ds.drop_last().last().offset,
        ds.last().previous_offset > 0,
        at_one_of(ds, p) ==> at_one_of(ds.drop_last(), p) || ds.last().offset == p,
{
    let before = ds.drop_last();
    assert(ds[ds.len() - 1] == ds.last());
    assert(ds[ds.len() - 2] == before.last());
    assert forall|k: int| 0 <= k < before.len() implies is_descriptor_of(
        file,
        #[trigger] before[k],
    ) by {
        assert(before[k] == ds[k]);
    }
    assert forall|k: int| 1 <= k < before.len() implies 0 < (#[trigger] before[k]).previous_offset
        == before[k - 1].offset by {
        assert(before[k] == ds[k] && before[k - 1] == ds[k - 1]);
    }
    assert forall|j: int| 0 <= j < before.len() implies !visited.insert(
        ds.last().offset as int,
    ).contains((#[trigger] before[j]).offset as int) by {
        assert(before[j] == ds[j]);
        assert(ds[j].offset != ds[ds.len() - 1].offset);
    }
    if at_one_of(ds, p) {
        let j = choose|j: int| 0 <= j < ds.len() && (#[trigger] ds[j]).offset == p;
        if j < before.len() {
            assert(before[j].offset == p);
        }
    }
}

proof fn lemma_found(file: Seq<u8>, ds: Seq<Ewf2SectionDescriptorView>, visited: Set<int>)
    requires
        file.len() <= u64::MAX,
        linked(file, ds),
        ds.len() > 0,
        fresh(ds, visited),
    ensures
        ({
            let p = ds[0].previous_offset;
            let found = v2::backward(file, ds.last().offset as int, visited);
            &&& p == 0 ==> found == Ok::<Seq<Ewf2SectionDescriptorView>, EwfErrorView>(ds)
            &&& p >= file.len() ==> found == Err::<Seq<Ewf2SectionDescriptorView>, EwfErrorView>(
                v2::link_error(p, file.len() as int),
            )
            &&& 0 < p < file.len() && (visited.contains(p as int) || at_one_of(ds, p)) ==> found
                == Err::<Seq<Ewf2SectionDescriptorView>, EwfErrorView>(v2::cycle_error())
            &&& 0 < p < file.len() < p + 64 ==> found is Err
        }),
    decreases ds.len(),
{
    let d = ds.last();
    let p = ds[0].previous_offset;
    if ds.len() == 1 {
        assert(ds[0] == d);
        assert(seq![d] =~= ds);
        lemma_step(file, d, visited);
        lemma_no_step(file, p as int, visited.insert(d.offset as int));
    } else {
        lemma_without_last(file, ds, visited, p);
        lemma_step(file, d, visited);
        lemma_found(file, ds.drop_last(), visited.insert(d.offset as int));
        assert(ds.drop_last() + seq![d] =~= ds);
    }
}

/// The sections of a segment are taken one after the other, each on what those
/// before it gave. The first that fails ends it.
pub proof fn law_sections_in_file_order(
    file: Seq<u8>,
    seg: usize,
    ds: Seq<Ewf2SectionDescriptorView>,
    k: int,
    image: EwfImageView,
)
    requires
        0 <= k < ds.len(),
    ensures
        v2::sections_applied(file, seg, ds, 0, image) == Ok::<EwfImageView, EwfErrorView>(image),
        v2::sections_applied(file, seg, ds, k as nat, image) matches Err(e)
            ==> v2::sections_applied(file, seg, ds, (k + 1) as nat, image) == Err::<
            EwfImageView,
            EwfErrorView,
        >(e),
        v2::sections_applied(file, seg, ds, k as nat, image) matches Ok(before)
            ==> v2::sections_applied(file, seg, ds, (k + 1) as nat, image) == v2::section_applied(
            file,
            seg,
            ds[k],
            before,
        ),
        v2::descriptors(file) == Ok::<Seq<Ewf2SectionDescriptorView>, EwfErrorView>(ds)
            ==> v2::segment_applied(file, seg, image) == v2::sections_applied(
            file,
            seg,
            ds,
            ds.len(),
            image,
        ),
{
}

/// Whether the flags of a section say that it is encrypted.
pub open spec fn says_encrypted(d: Ewf2SectionDescriptorView) -> bool {
    (d.data_flags / 2) % 2 == 1
}

proof fn lemma_encrypted(d: Ewf2SectionDescriptorView)
    ensures
        d.is_encrypted() == says_encrypted(d),
{
    let flags = d.data_flags;
    assert((flags & 2 != 0) == ((flags / 2) % 2 == 1)) by (bit_vector);
}

/// An encrypted section is refused, whatever else it is.
pub proof fn law_encrypted_section(
    file: Seq<u8>,
    seg: usize,
    d: Ewf2SectionDescriptorView,
    image: EwfImageView,
)
    requires
        says_encrypted(d),
    ensures
        v2::section_applied(file, seg, d, image) == Err::<EwfImageView, EwfErrorView>(
            EwfErrorView::EncryptedNotSupported,
        ),
{
    reveal(v2::section_applied);
    lemma_encrypted(d);
}

/// Where the data of a section starts, which its descriptor follows.
pub open spec fn start(d: Ewf2SectionDescriptorView) -> int {
    d.offset - d.data_size
}

/// The number of entries that a sector table declares.
pub open spec fn declared(file: Seq<u8>, d: Ewf2SectionDescriptorView) -> int {
    bytes::le32(file, start(d) + 8)
}

/// Whether `c` is the chunk of entry `j` of a sector table of segment `seg`.
pub open spec fn is_chunk_of(
    file: Seq<u8>,
    seg: usize,
    d: Ewf2SectionDescriptorView,
    j: int,
    c: Chunk,
) -> bool {
    let at = start(d) + 32 + 16 * j;
    &&& c.segment_idx == seg
    &&& c.offset == bytes::le64(file, at)
    &&& c.size == bytes::le32(file, at + 8)
    &&& c.compressed == (bytes::le32(file, at + 12) % 2 == 1)
}

proof fn lemma_entry(file: Seq<u8>, seg: usize, d: Ewf2SectionDescriptorView, n: int, j: int)
    requires
        0 <= start(d),
        0 <= j < n,
        start(d) + 32 + 16 * n <= file.len(),
    ensures
        is_chunk_of(
            file,
            seg,
            d,
            j,
            v2::table_chunk(seg, file.subrange(start(d) + 32, start(d) + 32 + 16 * n), j),
        ),
{
    let buf = file.subrange(start(d) + 32, start(d) + 32 + 16 * n);
    let at = start(d) + 32 + 16 * j;
    let c = v2::table_chunk(seg, buf, j);
    assert(bytes::le64(buf, 16 * j) == bytes::le64(file, at));
    assert(bytes::le32(buf, 16 * j + 8) == bytes::le32(file, at + 8));
    assert(bytes::le32(buf, 16 * j + 12) == bytes::le32(file, at + 12));
    let flags = Ewf2TableEntry::at(buf, 16 * j).flags;
    assert((flags & 1 != 0) == (flags % 2 == 1)) by (bit_vector);
}

/// A sector table is accepted exactly if it is there as a whole, declares no
/// more entries than a table can have, and takes the image to no more chunks
/// than an acquisition can have. It adds one chunk for each entry that it
/// declares, in their order, behind the chunks that are there, each stored in
/// the segment that the table is in. Nothing else changes.
pub proof fn law_table_section(
    file: Seq<u8>,
    seg: usize,
    d: Ewf2SectionDescriptorView,
    image: EwfImageView,
)
    requires
        !says_encrypted(d),
        d.section_type == Ewf2SectionType::SectorTable,
    ensures
        v2::section_applied(file, seg, d, image) is Ok <==> {
            let n = declared(file, d);
            &&& d.data_size <= d.offset
            &&& start(d) + 32 <= file.len()
            &&& n <= 4_000_000
            &&& image.chunks.len() + n <= 67_108_864
            &&& n > 0 ==> start(d) + 32 + 16 * n <= file.len()
        },
        v2::section_applied(file, seg, d, image) matches Ok(after) ==> {
            let held = image.chunks.len() as int;
            &&& after == EwfImageView { chunks: after.chunks, ..image }
            &&& after.chunks.len() == held + declared(file, d)
            &&& declared(file, d) >= 0
            &&& forall|x: int| 0 <= x < held ==> #[trigger] after.chunks[x] == image.chunks[x]
            &&& forall|x: int|
                held <= x < after.chunks.len() ==> is_chunk_of(
                    file,
                    seg,
                    d,
                    x - held,
                    #[trigger] after.chunks[x],
                )
        },
{
    reveal(v2::section_applied);
    lemma_encrypted(d);
    if d.data_size <= d.offset && start(d) + 32 <= file.len() {
        let head = file.subrange(start(d), start(d) + 32);
        let n = declared(file, d);
        assert(bytes::le32(head, 8) == n);
        if v2::section_applied(file, seg, d, image) is Ok {
            let after = v2::section_applied(file, seg, d, image)->Ok_0;
            let held = image.chunks.len() as int;
            assert forall|x: int| held <= x < after.chunks.len() implies is_chunk_of(
                file,
                seg,
                d,
                x - held,
                #[trigger] after.chunks[x],
            ) by {
                lemma_entry(file, seg, d, n, x - held);
            }
        }
    }
}

/// What is wrong with a sector table that is refused is told: the first of that
/// its data would begin before the file, that it is cut short, that it declares
/// too many entries, and that there would be too many chunks.
pub proof fn law_table_section_is_refused(
    file: Seq<u8>,
    seg: usize,
    d: Ewf2SectionDescriptorView,
    image: EwfImageView,
)
    requires
        !says_encrypted(d),
        d.section_type == Ewf2SectionType::SectorTable,
    ensures
        ({
            let n = declared(file, d);
            let applied = v2::section_applied(file, seg, d, image);
            let behind = d.data_size <= d.offset;
            let there = behind && start(d) + 32 <= file.len();
            let few = there && n <= 4_000_000;
            let room = few && image.chunks.len() + n <= 67_108_864;
            &&& !behind ==> applied == Err::<EwfImageView, EwfErrorView>(
                EwfErrorView::Parse(
                    "EWF2 "@ + "sector_table"@ + " offset underflow: desc="@ + text::hexadecimal(
                        d.offset as nat,
                    ) + " size="@ + text::hexadecimal(d.data_size as nat),
                ),
            )
            &&& behind && !there ==> applied == Err::<EwfImageView, EwfErrorView>(
                error::short_read(),
            )
            &&& there && !few ==> applied == Err::<EwfImageView, EwfErrorView>(
                EwfErrorView::Parse(
                    "table entry count "@ + text::decimal(n as nat) + " exceeds maximum 4000000"@,
                ),
            )
            &&& few && !room ==> applied == Err::<EwfImageView, EwfErrorView>(
                EwfErrorView::Parse("cumulative table chunk count exceeds maximum 67108864"@),
            )
            &&& room && n > 0 && start(d) + 32 + 16 * n > file.len() ==> applied == Err::<
                EwfImageView,
                EwfErrorView,
            >(error::short_read())
        }),
{
    reveal(v2::section_applied);
    lemma_encrypted(d);
    if d.data_size <= d.offset && start(d) + 32 <= file.len() {
        let head = file.subrange(start(d), start(d) + 32);
        assert(bytes::le32(head, 8) == declared(file, d));
    }
}

/// No other section adds, moves or drops a chunk.
pub proof fn law_other_sections_keep_the_chunks(
    file: Seq<u8>,
    seg: usize,
    d: Ewf2SectionDescriptorView,
    image: EwfImageView,
)
    requires
        d.section_type != Ewf2SectionType::SectorTable,
    ensures
        v2::section_applied(file, seg, d, image) matches Ok(after) ==> after.chunks
            == image.chunks,
{
    reveal(v2::section_applied);
}

/// The entries that the sector tables among the first `n` sections declare.
pub open spec fn entries_in(file: Seq<u8>, ds: Seq<Ewf2SectionDescriptorView>, n: int) -> int
    decreases n,
{
    if n <= 0 {
        0
    } else {
        entries_in(file, ds, n - 1) + if ds[n - 1].section_type == Ewf2SectionType::SectorTable {
            declared(file, ds[n - 1])
        } else {
            0
        }
    }
}

/// Whether `chunks`, from `first` on, are those of the entries of table `d`.
pub open spec fn holds_table(
    file: Seq<u8>,
    seg: usize,
    d: Ewf2SectionDescriptorView,
    chunks: Seq<Chunk>,
    first: int,
) -> bool {
    &&& 0 <= first
    &&& first + declared(file, d) <= chunks.len()
    &&& forall|x: int|
        first <= x < first + declared(file, d) ==> is_chunk_of(
            file,
            seg,
            d,
            x - first,
            #[trigger] chunks[x],
        )
}

/// Every sector table of a segment is indexed: where its sections are accepted,
/// the chunks that it adds are those of the entries of all its sector tables,
/// in the order of the file, however many there are and whatever chunks are
/// there already, which stay as they are. All are stored in that segment.
pub proof fn law_every_table_is_indexed(file: Seq<u8>, seg: usize, image: EwfImageView)
    ensures
        v2::segment_applied(file, seg, image) matches Ok(after) ==> (v2::descriptors(
            file,
        ) matches Ok(ds) && {
            let held = image.chunks.len() as int;
            &&& after.chunks.len() == held + entries_in(file, ds, ds.len() as int)
            &&& after.chunks.len() >= held
            &&& forall|x: int| 0 <= x < held ==> #[trigger] after.chunks[x] == image.chunks[x]
            &&& forall|x: int|
                held <= x < after.chunks.len() ==> (#[trigger] after.chunks[x]).segment_idx == seg
            &&& forall|k: int|
                0 <= k < ds.len() && (#[trigger] ds[k]).section_type
                    == Ewf2SectionType::SectorTable ==> holds_table(
                    file,
                    seg,
                    ds[k],
                    after.chunks,
                    held + entries_in(file, ds, k),
                )
        }),
{
    if v2::segment_applied(file, seg, image) is Ok {
        let ds = v2::descriptors(file)->Ok_0;
        lemma_sections_index(file, seg, ds, ds.len(), image);
    }
}

proof fn lemma_sections_index(
    file: Seq<u8>,
    seg: usize,
    ds: Seq<Ewf2SectionDescriptorView>,
    n: nat,
    image: EwfImageView,
)
    requires
        n <= ds.len(),
        v2::sections_applied(file, seg, ds, n, image) is Ok,
    ensures
        ({
            let chunks = v2::sections_applied(file, seg, ds, n, image)->Ok_0.chunks;
            let held = image.chunks.len() as int;
            &&& chunks.len() == held + entries_in(file, ds, n as int)
            &&& chunks.len() >= held
            &&& forall|x: int| 0 <= x < held ==> #[trigger] chunks[x] == image.chunks[x]
            &&& forall|x: int|
                held <= x < chunks.len() ==> (#[trigger] chunks[x]).segment_idx == seg
            &&& forall|k: int|
                0 <= k < n && (#[trigger] ds[k]).section_type == Ewf2SectionType::SectorTable
                    ==> holds_table(file, seg, ds[k], chunks, held + entries_in(file, ds, k))
        }),
    decreases n,
{
    if n > 0 {
        let m = (n - 1) as nat;
        lemma_sections_index(file, seg, ds, m, image);
        let before = v2::sections_applied(file, seg, ds, m, image)->Ok_0;
        let chunks = v2::sections_applied(file, seg, ds, n, image)->Ok_0.chunks;
        let held = image.chunks.len() as int;
        let d = ds[m as int];
        if says_encrypted(d) {
            law_encrypted_section(file, seg, d, before);
        } else if d.section_type == Ewf2SectionType::SectorTable {
            law_table_section(file, seg, d, before);
            assert forall|x: int| 0 <= x < held implies #[trigger] chunks[x]
                == image.chunks[x] by {
                assert(chunks[x] == before.chunks[x]);
            }
            assert forall|x: int| held <= x < chunks.len() implies (
            #[trigger] chunks[x]).segment_idx == seg by {
                if x < before.chunks.len() {
                    assert(chunks[x] == before.chunks[x]);
                } else {
                    assert(is_chunk_of(file, seg, d, x - before.chunks.len(), chunks[x]));
                }
            }
            assert forall|k: int|
                0 <= k < n && (#[trigger] ds[k]).section_type
                    == Ewf2SectionType::SectorTable implies holds_table(
                file,
                seg,
                ds[k],
                chunks,
                held + entries_in(file, ds, k),
            ) by {
                let first = held + entries_in(file, ds, k);
                if k < m {
                    assert(holds_table(file, seg, ds[k], before.chunks, first));
                    assert forall|x: int|
                        first <= x < first + declared(file, ds[k]) implies is_chunk_of(
                        file,
                        seg,
                        ds[k],
                        x - first,
                        #[trigger] chunks[x],
                    ) by {
                        assert(chunks[x] == before.chunks[x]);
                    }
                }
            }
        } else {
            law_other_sections_keep_the_chunks(file, seg, d, before);
        }
    }
}

/// A hash section gives its hash, in place of one that is there. One that is
/// too small for its hash changes nothing.
pub proof fn law_hash_sections(
    file: Seq<u8>,
    seg: usize,
    d: Ewf2SectionDescriptorView,
    image: EwfImageView,
)
    requires
        !says_encrypted(d),
    ensures
        ({
            let applied = v2::section_applied(file, seg, d, image);
            &&& d.section_type == Ewf2SectionType::Md5Hash ==> {
                &&& d.data_size < 16 ==> applied == Ok::<EwfImageView, EwfErrorView>(image)
                &&& d.data_size >= 16 ==> {
                    &&& applied is Ok <==> 0 <= start(d) <= file.len() - 16
                    &&& start(d) > file.len() - 16 && start(d) >= 0 ==> applied == Err::<
                        EwfImageView,
                        EwfErrorView,
                    >(error::short_read())
                    &&& start(d) < 0 ==> applied == Err::<EwfImageView, EwfErrorView>(
                        EwfErrorView::Parse(
                            "EWF2 "@ + "md5_hash"@ + " offset underflow: desc="@ + text::hexadecimal(
                                d.offset as nat,
                            ) + " size="@ + text::hexadecimal(d.data_size as nat),
                        ),
                    )
                    &&& applied matches Ok(after) ==> after == EwfImageView {
                        md5: Some(file.subrange(start(d), start(d) + 16)),
                        ..image
                    }
                }
            }
            &&& d.section_type == Ewf2SectionType::Sha1Hash ==> {
                &&& d.data_size < 20 ==> applied == Ok::<EwfImageView, EwfErrorView>(image)
                &&& d.data_size >= 20 ==> {
                    &&& applied is Ok <==> 0 <= start(d) <= file.len() - 20
                    &&& start(d) > file.len() - 20 && start(d) >= 0 ==> applied == Err::<
                        EwfImageView,
                        EwfErrorView,
                    >(error::short_read())
                    &&& start(d) < 0 ==> applied == Err::<EwfImageView, EwfErrorView>(
                        EwfErrorView::Parse(
                            "EWF2 "@ + "sha1_hash"@ + " offset underflow: desc="@ + text::hexadecimal(
                                d.offset as nat,
                            ) + " size="@ + text::hexadecimal(d.data_size as nat),
                        ),
                    )
                    &&& applied matches Ok(after) ==> after == EwfImageView {
                        sha1: Some(file.subrange(start(d), start(d) + 20)),
                        ..image
                    }
                }
            }
        }),
{
    reveal(v2::section_applied);
    lemma_encrypted(d);
}

/// The text of a section is its data, decompressed if it begins like a
/// compressed stream.
pub proof fn law_section_text(file: Seq<u8>, d: Ewf2SectionDescriptorView)
    requires
        0 < d.data_size,
        d.offset <= file.len(),
    ensures
        d.data_size > d.offset ==> v2::section_text(file, d) == Err::<Seq<u8>, EwfErrorView>(
            EwfErrorView::Parse(
                "EWF2 "@ + d.section_type.spec_name() + " offset underflow: desc="@
                    + text::hexadecimal(d.offset as nat) + " size="@ + text::hexadecimal(
                    d.data_size as nat,
                ),
            ),
        ),
        d.data_size <= d.offset ==> {
            let raw = file.subrange(start(d), d.offset as int);
            let plain = codec::inflated(raw, 10_000_000);
            let read = v2::section_text(file, d);
            &&& d.data_size == 1 || raw[0] != 0x78 ==> read == Ok::<Seq<u8>, EwfErrorView>(raw)
            &&& d.data_size >= 2 && raw[0] == 0x78 ==> match plain {
                Ok((p, _)) => read == Ok::<Seq<u8>, EwfErrorView>(p),
                Err(m) => read == Err::<Seq<u8>, EwfErrorView>(
                    EwfErrorView::Parse("EWF2 zlib decompress failed: "@ + m),
                ),
            }
        },
{
}

/// A case data section gives metadata while the case number is unknown.
pub proof fn law_case_data_section(
    file: Seq<u8>,
    seg: usize,
    d: Ewf2SectionDescriptorView,
    image: EwfImageView,
)
    requires
        !says_encrypted(d),
        d.section_type == Ewf2SectionType::CaseData,
    ensures
        ({
            let applied = v2::section_applied(file, seg, d, image);
            let wanted = 0 < d.data_size < 1_000_000 && image.metadata.case_number is None;
            &&& !wanted ==> applied == Ok::<EwfImageView, EwfErrorView>(image)
            &&& wanted ==> match v2::section_text(file, d) {
                Ok(plain) => applied == Ok::<EwfImageView, EwfErrorView>(
                    EwfImageView {
                        metadata: parse::case_data_metadata(image.metadata, plain),
                        ..image
                    },
                ),
                Err(e) => applied == Err::<EwfImageView, EwfErrorView>(e),
            }
        }),
{
    reveal(v2::section_applied);
    lemma_encrypted(d);
}

/// A device information section gives the chunk size while it is unknown, and
/// the size of the media: the products of the numbers in its text. It is refused
/// if one does not fit 64 bits or if the chunks would be too large, and a
/// product of zero changes nothing.
pub proof fn law_device_info_section(
    file: Seq<u8>,
    seg: usize,
    d: Ewf2SectionDescriptorView,
    image: EwfImageView,
)
    requires
        !says_encrypted(d),
        d.section_type == Ewf2SectionType::DeviceInfo,
    ensures
        ({
            let applied = v2::section_applied(file, seg, d, image);
            let wanted = 0 < d.data_size < 1_000_000 && image.chunk_size == 0;
            &&& !wanted ==> applied == Ok::<EwfImageView, EwfErrorView>(image)
            &&& wanted ==> match v2::section_text(file, d) {
                Err(e) => applied == Err::<EwfImageView, EwfErrorView>(e),
                Ok(plain) => match DeviceGeometry::of(plain) {
                    None => applied == Ok::<EwfImageView, EwfErrorView>(image),
                    Some(g) => {
                        let chunk = g.bytes_per_sector * g.sectors_per_chunk;
                        let media = g.bytes_per_sector * g.total_sectors;
                        let fits = chunk <= u64::MAX && media <= u64::MAX;
                        &&& !fits ==> applied == Err::<EwfImageView, EwfErrorView>(
                            EwfErrorView::Parse("EWF2 device_info media size exceeds 64 bits"@),
                        )
                        &&& fits && chunk > 134_217_728 ==> applied == Err::<
                            EwfImageView,
                            EwfErrorView,
                        >(
                            EwfErrorView::Parse(
                                "EWF2 chunk size "@ + text::decimal(chunk as nat)
                                    + " exceeds maximum 134217728"@,
                            ),
                        )
                        &&& fits && chunk <= 134_217_728 ==> (applied matches Ok(after) && {
                            &&& after == EwfImageView {
                                chunk_size: after.chunk_size,
                                total_size: after.total_size,
                                ..image
                            }
                            &&& after.chunk_size == chunk
                            &&& media > 0 ==> after.total_size == media
                            &&& media == 0 ==> after.total_size == image.total_size
                        })
                    },
                },
            }
        }),
{
    reveal(v2::section_applied);
    lemma_encrypted(d);
    if v2::section_text(file, d) is Ok {
        if DeviceGeometry::of(v2::section_text(file, d)->Ok_0) is Some {
            let g = DeviceGeometry::of(v2::section_text(file, d)->Ok_0)->Some_0;
            let (a, b, c) = (
                g.bytes_per_sector as int,
                g.sectors_per_chunk as int,
                g.total_sectors as int,
            );
            assert(0 <= a * b && 0 <= a * c) by (nonlinear_arith)
                requires
                    0 <= a,
                    0 <= b,
                    0 <= c,
            ;
        }
    }
}

/// A section of any other type changes nothing, and is only refused if it is
/// encrypted.
pub proof fn law_other_section(
    file: Seq<u8>,
    seg: usize,
    d: Ewf2SectionDescriptorView,
    image: EwfImageView,
)
    requires
        !says_encrypted(d),
        d.section_type != Ewf2SectionType::CaseData,
        d.section_type != Ewf2SectionType::DeviceInfo,
        d.section_type != Ewf2SectionType::SectorTable,
        d.section_type != Ewf2SectionType::Md5Hash,
        d.section_type != Ewf2SectionType::Sha1Hash,
    ensures
        v2::section_applied(file, seg, d, image) == Ok::<EwfImageView, EwfErrorView>(image),
{
    reveal(v2::section_applied);
    lemma_encrypted(d);
}

} // verus!
