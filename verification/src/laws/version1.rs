//! Version 1 images: which bytes of a segment file become which part of the
//! image.

use vstd::prelude::*;
use crate::bytes;
use crate::codec;
use crate::error;
use crate::error::EwfErrorView;
use crate::image::EwfImageView;
use crate::laws::structures;
use crate::parse;
use crate::sections;
use crate::sections::{Chunk, SectionDescriptorView, SectionKind, TableEntry};
use crate::text;
use crate::v1;

verus! {

/// Whether `d` is what the bytes at its offset say.
pub open spec fn is_descriptor_of(file: Seq<u8>, d: SectionDescriptorView) -> bool {
    &&& d.offset + 76 <= file.len()
    &&& d.section_type == sections::padded_name(file.subrange(d.offset as int, d.offset + 16))
    &&& d.next == bytes::le64(file, d.offset + 16)
    &&& d.section_size == bytes::le64(file, d.offset + 24)
}

/// The descriptors of a segment file are those that the links lead to: each one
/// is where the one before says, from the given offset on, and the last one
/// leads nowhere forward inside the file.
pub proof fn law_chain_follows_the_links(file: Seq<u8>, offset: int)
    requires
        0 <= offset,
        file.len() <= u64::MAX,
    ensures
        ({
            let ds = v1::chain(file, offset);
            &&& ds.len() > 0 <==> offset + 76 <= file.len()
            &&& ds.len() > 0 ==> ds[0].offset == offset && (ds.last().next <= ds.last().offset
                || ds.last().next + 76 > file.len())
            &&& forall|k: int| 0 <= k < ds.len() ==> is_descriptor_of(file, #[trigger] ds[k])
            &&& forall|k: int|
                0 <= k < ds.len() - 1 ==> (#[trigger] ds[k]).offset < ds[k].next == ds[k
                    + 1].offset
        }),
    decreases
            (if offset <= file.len() {
                file.len() - offset
            } else {
                0
            }),
{
    if offset + 76 <= file.len() {
        let buf = file.subrange(offset, offset + 76);
        let d = SectionDescriptorView::of(buf, offset as u64);
        assert(buf.take(16) =~= file.subrange(offset, offset + 16));
        assert(bytes::le64(buf, 16) == bytes::le64(file, offset + 16));
        assert(bytes::le64(buf, 24) == bytes::le64(file, offset + 24));
        assert(is_descriptor_of(file, d));
        let ds = v1::chain(file, offset);
        if d.next > offset {
            let rest = v1::chain(file, d.next as int);
            law_chain_follows_the_links(file, d.next as int);
            assert(ds =~= seq![d] + rest);
            assert forall|k: int| 0 <= k < ds.len() implies is_descriptor_of(
                file,
                #[trigger] ds[k],
            ) by {
                if k > 0 {
                    assert(ds[k] == rest[k - 1]);
                }
            }
            assert forall|k: int| 0 <= k < ds.len() - 1 implies (#[trigger] ds[k]).offset
                < ds[k].next == ds[k + 1].offset by {
                assert(ds[k + 1] == rest[k]);
                if k > 0 {
                    assert(ds[k] == rest[k - 1]);
                    assert(rest[k - 1].offset < rest[k - 1].next == rest[k].offset);
                }
            }
            if rest.len() > 0 {
                assert(ds.last() == rest.last());
            } else {
                assert(ds.last() == d);
            }
        } else {
            assert(ds =~= seq![d]);
        }
    }
}

/// The sections of a segment are taken one after the other, each on what those
/// before it gave. The first that fails ends it.
pub proof fn law_sections_in_file_order(
    file: Seq<u8>,
    seg: usize,
    ds: Seq<SectionDescriptorView>,
    k: int,
    image: EwfImageView,
)
    requires
        0 <= k < ds.len(),
    ensures
        v1::sections_applied(file, seg, ds, 0, image) == Ok::<EwfImageView, EwfErrorView>(image),
        v1::sections_applied(file, seg, ds, k as nat, image) matches Err(e)
            ==> v1::sections_applied(file, seg, ds, (k + 1) as nat, image) == Err::<
            EwfImageView,
            EwfErrorView,
        >(e),
        v1::sections_applied(file, seg, ds, k as nat, image) matches Ok(before)
            ==> v1::sections_applied(file, seg, ds, (k + 1) as nat, image) == v1::section_applied(
            file,
            seg,
            ds[k],
            v1::table_kind(ds),
            v1::sectors_end(ds, 0),
            before,
        ),
        v1::segment_applied(file, seg, image) == v1::sections_applied(
            file,
            seg,
            v1::chain(file, 13),
            v1::chain(file, 13).len(),
            image,
        ),
{
}

/// Whether chunks are indexed from section `k`: from every section called
/// `table` or, in a segment that has none, from every one called `table2`.
pub open spec fn indexes(ds: Seq<SectionDescriptorView>, k: int) -> bool {
    if exists|j: int| 0 <= j < ds.len() && (#[trigger] ds[j]).section_type == "table"@ {
        ds[k].section_type == "table"@
    } else {
        ds[k].section_type == "table2"@
    }
}

proof fn lemma_indexes(ds: Seq<SectionDescriptorView>, k: int)
    requires
        0 <= k < ds.len(),
    ensures
        indexes(ds, k) <==> ds[k].kind() == v1::table_kind(ds),
        v1::table_kind(ds) == SectionKind::Table || v1::table_kind(ds) == SectionKind::Table2,
{
    structures::law_section_names(ds[k]);
    if exists|j: int| 0 <= j < ds.len() && (#[trigger] ds[j]).section_type == "table"@ {
        let j = choose|j: int| 0 <= j < ds.len() && (#[trigger] ds[j]).section_type == "table"@;
        structures::law_section_names(ds[j]);
        assert(ds[j].kind() == SectionKind::Table);
    } else {
        assert forall|j: int| 0 <= j < ds.len() implies (#[trigger] ds[j]).kind()
            != SectionKind::Table by {
            structures::law_section_names(ds[j]);
        }
    }
}

/// The number of entries that a table section declares.
pub open spec fn declared(file: Seq<u8>, d: SectionDescriptorView) -> int {
    bytes::le32(file, d.offset + 76)
}

/// Entry `j` of a table section.
pub open spec fn entry(file: Seq<u8>, d: SectionDescriptorView, j: int) -> int {
    bytes::le32(file, d.offset + 100 + 4 * j)
}

/// Where in the segment file the chunk of entry `j` is stored.
pub open spec fn place(file: Seq<u8>, d: SectionDescriptorView, j: int) -> int {
    bytes::le64(file, d.offset + 84) + entry(file, d, j) % 0x8000_0000
}

/// Whether `c` is the chunk of entry `j` of a table section of segment `seg`.
pub open spec fn is_chunk_of(
    file: Seq<u8>,
    seg: usize,
    d: SectionDescriptorView,
    j: int,
    c: Chunk,
) -> bool {
    &&& c.segment_idx == seg
    &&& c.compressed == (entry(file, d, j) >= 0x8000_0000)
    &&& c.offset == place(file, d, j)
    &&& c.compressed && j + 1 < declared(file, d) && place(file, d, j + 1) > place(file, d, j)
        ==> c.size == place(file, d, j + 1) - place(file, d, j)
}

/// Whether two chunks are stored at the same place in the same way.
pub open spec fn same_place(a: Chunk, b: Chunk) -> bool {
    a.segment_idx == b.segment_idx && a.compressed == b.compressed && a.offset == b.offset
}

proof fn lemma_table_parts(file: Seq<u8>, d: SectionDescriptorView)
    requires
        d.offset + 100 <= file.len(),
    ensures
        ({
            let head = file.subrange(d.offset + 76, d.offset + 100);
            &&& bytes::le32(head, 0) == declared(file, d)
            &&& bytes::le64(head, 8) == bytes::le64(file, d.offset + 84)
        }),
        d.offset + 100 + 4 * declared(file, d) <= file.len() ==> {
            let base = bytes::le64(file, d.offset + 84);
            let buf = file.subrange(d.offset + 100, d.offset + 100 + 4 * declared(file, d));
            forall|j: int|
                0 <= j < declared(file, d) ==> #[trigger] v1::entry_offset(buf, base, j) == place(
                    file,
                    d,
                    j,
                ) && TableEntry::at(buf, 4 * j).compressed == (entry(file, d, j) >= 0x8000_0000)
        },
{
    if d.offset + 100 + 4 * declared(file, d) <= file.len() {
        let base = bytes::le64(file, d.offset + 84);
        let buf = file.subrange(d.offset + 100, d.offset + 100 + 4 * declared(file, d));
        assert forall|j: int| 0 <= j < declared(file, d) implies #[trigger] v1::entry_offset(
            buf,
            base,
            j,
        ) == place(file, d, j) && TableEntry::at(buf, 4 * j).compressed == (entry(file, d, j)
            >= 0x8000_0000) by {
            assert(bytes::le32(buf, 4 * j) == entry(file, d, j));
        }
    }
}

/// A table section adds one chunk for each entry that it declares, in their
/// order, behind the chunks that are there.
///
/// An entry gives the place of its chunk from the base of the table on, and
/// whether it is compressed. A compressed chunk reaches up to the place of the
/// next entry, if that lies behind it. All others are of full size, but a
/// compressed one at the end of the table ends with the sectors data at the
/// latest. Nothing else of the image changes.
pub proof fn law_table_section(
    file: Seq<u8>,
    seg: usize,
    ds: Seq<SectionDescriptorView>,
    k: int,
    image: EwfImageView,
)
    requires
        0 <= k < ds.len(),
        indexes(ds, k),
    ensures
        v1::section_applied(
            file,
            seg,
            ds[k],
            v1::table_kind(ds),
            v1::sectors_end(ds, 0),
            image,
        ) matches Ok(after) ==> {
            let d = ds[k];
            let n = declared(file, d);
            let held = image.chunks.len() as int;
            let cs = image.chunk_size;
            &&& after == EwfImageView { chunks: after.chunks, ..image }
            &&& after.chunks.len() == held + n
            &&& forall|x: int|
                0 <= x < held ==> same_place(#[trigger] after.chunks[x], image.chunks[x]) && (x
                    < held - 1 || n > 0 ==> after.chunks[x] == image.chunks[x])
            &&& n == 0 && held > 0 ==> {
                let c = image.chunks[held - 1];
                let cut = c.compressed && c.size == cs && (v1::sectors_end(ds, 0) matches Some(e)
                    && 0 < e - c.offset < cs);
                &&& !cut ==> after.chunks[held - 1] == c
                &&& cut ==> (v1::sectors_end(ds, 0) matches Some(e) && after.chunks[held - 1].size
                    == e - c.offset)
            }
            &&& forall|x: int|
                held <= x < held + n ==> is_chunk_of(
                    file,
                    seg,
                    d,
                    x - held,
                    #[trigger] after.chunks[x],
                )
            &&& forall|x: int|
                held <= x < held + n ==> {
                    let c = #[trigger] after.chunks[x];
                    let j = x - held;
                    let more = c.compressed && j + 1 < n && place(file, d, j + 1) > place(
                        file,
                        d,
                        j,
                    );
                    let cut = c.compressed && j + 1 == n && (v1::sectors_end(ds, 0) matches Some(
                        e,
                    ) && 0 < e - c.offset < cs);
                    &&& !more && !cut ==> c.size == cs
                    &&& cut ==> Some((c.offset + c.size) as u64) == v1::sectors_end(ds, 0)
                        && c.offset + c.size <= u64::MAX
                }
        },
{
    reveal(v1::section_applied);
    lemma_indexes(ds, k);
    let d = ds[k];
    let end = v1::sectors_end(ds, 0);
    let applied = v1::section_applied(file, seg, d, v1::table_kind(ds), end, image);
    if applied is Ok {
        lemma_table_parts(file, d);
        let after = applied->Ok_0;
        let n = declared(file, d);
        let held = image.chunks.len() as int;
        let base = bytes::le64(file, d.offset + 84);
        let buf = if n == 0 {
            Seq::<u8>::empty()
        } else {
            file.subrange(d.offset + 100, d.offset + 100 + 4 * n)
        };
        let added = v1::table_chunks(seg, buf, base, n, image.chunk_size, n as nat);
        let all = image.chunks + added;
        assert(after.chunks == v1::last_bounded(all, end, image.chunk_size));
        assert forall|x: int| held <= x < held + n implies all[x] == v1::table_chunk(
            seg,
            buf,
            base,
            n,
            image.chunk_size,
            x - held,
        ) && v1::entry_offset(buf, base, x - held) == place(file, d, x - held) by {
            assert(all[x] == added[x - held]);
        }
        assert forall|x: int| held <= x < held + n implies is_chunk_of(
            file,
            seg,
            d,
            x - held,
            #[trigger] after.chunks[x],
        ) by {
            let j = x - held;
            assert(v1::entry_offset(buf, base, j) == place(file, d, j));
            if j + 1 < n {
                assert(v1::entry_offset(buf, base, j + 1) == place(file, d, j + 1));
            }
            assert(v1::entry_offset(buf, base, j) <= u64::MAX);
            assert(same_place(after.chunks[x], all[x]));
        }
        assert forall|x: int| held <= x < held + n implies ({
            let c = #[trigger] after.chunks[x];
            let j = x - held;
            let more = c.compressed && j + 1 < n && place(file, d, j + 1) > place(file, d, j);
            let cut = c.compressed && j + 1 == n && (v1::sectors_end(ds, 0) matches Some(e) && 0
                < e - c.offset < image.chunk_size);
            &&& !more && !cut ==> c.size == image.chunk_size
            &&& cut ==> Some((c.offset + c.size) as u64) == v1::sectors_end(ds, 0) && c.offset
                + c.size <= u64::MAX
        }) by {
            let j = x - held;
            assert(v1::entry_offset(buf, base, j) == place(file, d, j));
            if j + 1 < n {
                assert(v1::entry_offset(buf, base, j + 1) == place(file, d, j + 1));
            }
            assert(v1::entry_offset(buf, base, j) <= u64::MAX);
        }
    }
}

/// A table section is accepted exactly if it is there as a whole, declares no
/// more entries than a table can have, takes the image to no more chunks than
/// an acquisition can have, and places every chunk within 64 bits.
pub proof fn law_table_section_is_accepted(
    file: Seq<u8>,
    seg: usize,
    ds: Seq<SectionDescriptorView>,
    k: int,
    image: EwfImageView,
)
    requires
        0 <= k < ds.len(),
        indexes(ds, k),
    ensures
        v1::section_applied(
            file,
            seg,
            ds[k],
            v1::table_kind(ds),
            v1::sectors_end(ds, 0),
            image,
        ) is Ok <==> {
            let d = ds[k];
            let n = declared(file, d);
            &&& d.offset + 100 <= file.len()
            &&& n <= 4_000_000
            &&& image.chunks.len() + n <= 67_108_864
            &&& n > 0 ==> d.offset + 100 + 4 * n <= file.len()
            &&& forall|j: int| 0 <= j < n ==> #[trigger] place(file, d, j) <= u64::MAX
        },
{
    reveal(v1::section_applied);
    lemma_indexes(ds, k);
    let d = ds[k];
    let n = declared(file, d);
    if d.offset + 100 <= file.len() {
        lemma_table_parts(file, d);
        if n > 0 && d.offset + 100 + 4 * n <= file.len() {
            let base = bytes::le64(file, d.offset + 84);
            let buf = file.subrange(d.offset + 100, d.offset + 100 + 4 * n);
            assert forall|j: int| 0 <= j < n implies #[trigger] place(file, d, j)
                == v1::entry_offset(buf, base, j) by {
                assert(v1::entry_offset(buf, base, j) == place(file, d, j));
            }
        }
    }
}

/// What is wrong with a table section that is refused is told: the first of that
/// it is cut short, that it declares too many entries, that there would be too
/// many chunks, and that a chunk would lie beyond 64 bits.
pub proof fn law_table_section_is_refused(
    file: Seq<u8>,
    seg: usize,
    ds: Seq<SectionDescriptorView>,
    k: int,
    image: EwfImageView,
    j: int,
)
    requires
        0 <= k < ds.len(),
        indexes(ds, k),
    ensures
        ({
            let d = ds[k];
            let n = declared(file, d);
            let applied = v1::section_applied(
                file,
                seg,
                d,
                v1::table_kind(ds),
                v1::sectors_end(ds, 0),
                image,
            );
            let there = d.offset + 100 <= file.len();
            let few = there && n <= 4_000_000;
            let room = few && image.chunks.len() + n <= 67_108_864;
            let whole = room && (n > 0 ==> d.offset + 100 + 4 * n <= file.len());
            &&& !there ==> applied == Err::<EwfImageView, EwfErrorView>(error::short_read())
            &&& there && !few ==> applied == Err::<EwfImageView, EwfErrorView>(
                EwfErrorView::Parse(
                    "table entry count "@ + text::decimal(n as nat) + " exceeds maximum 4000000"@,
                ),
            )
            &&& few && !room ==> applied == Err::<EwfImageView, EwfErrorView>(
                EwfErrorView::Parse("cumulative table chunk count exceeds maximum 67108864"@),
            )
            &&& room && !whole ==> applied == Err::<EwfImageView, EwfErrorView>(
                error::short_read(),
            )
            &&& whole && 0 <= j < n && place(file, d, j) > u64::MAX ==> applied == Err::<
                EwfImageView,
                EwfErrorView,
            >(EwfErrorView::Parse("table entry offset exceeds 64 bits"@))
        }),
{
    reveal(v1::section_applied);
    lemma_indexes(ds, k);
    let d = ds[k];
    let n = declared(file, d);
    if d.offset + 100 <= file.len() {
        lemma_table_parts(file, d);
        if 0 <= j < n && d.offset + 100 + 4 * n <= file.len() {
            let base = bytes::le64(file, d.offset + 84);
            let buf = file.subrange(d.offset + 100, d.offset + 100 + 4 * n);
            assert(v1::entry_offset(buf, base, j) == place(file, d, j));
        }
    }
}

/// The sectors data of a segment ends with its first section of that name.
pub proof fn law_sectors_end(ds: Seq<SectionDescriptorView>, k: int)
    requires
        0 <= k <= ds.len(),
        forall|j: int| 0 <= j < k ==> (#[trigger] ds[j]).section_type != "sectors"@,
    ensures
        k == ds.len() ==> v1::sectors_end(ds, 0) is None,
        k < ds.len() && ds[k].section_type == "sectors"@ ==> (v1::sectors_end(ds, 0) matches Some(
            end,
        ) && end == if ds[k].offset + ds[k].section_size <= u64::MAX {
            ds[k].offset + ds[k].section_size
        } else {
            u64::MAX as int
        }),
{
    lemma_sectors_end(ds, 0, k);
    if k < ds.len() {
        structures::law_section_names(ds[k]);
    }
}

proof fn lemma_sectors_end(ds: Seq<SectionDescriptorView>, from: int, k: int)
    requires
        0 <= from <= k <= ds.len(),
        forall|j: int| 0 <= j < k ==> (#[trigger] ds[j]).section_type != "sectors"@,
    ensures
        v1::sectors_end(ds, from) == v1::sectors_end(ds, k),
    decreases k - from,
{
    if from < k {
        structures::law_section_names(ds[from]);
        lemma_sectors_end(ds, from + 1, k);
    }
}

/// No other section adds, moves or drops a chunk.
pub proof fn law_other_sections_keep_the_chunks(
    file: Seq<u8>,
    seg: usize,
    ds: Seq<SectionDescriptorView>,
    k: int,
    image: EwfImageView,
)
    requires
        0 <= k < ds.len(),
        !indexes(ds, k),
    ensures
        v1::section_applied(
            file,
            seg,
            ds[k],
            v1::table_kind(ds),
            v1::sectors_end(ds, 0),
            image,
        ) matches Ok(after) ==> after.chunks == image.chunks,
{
    reveal(v1::section_applied);
    lemma_indexes(ds, k);
}

/// The entries that the first `n` sections declare, in all that chunks are
/// indexed from.
pub open spec fn entries_in(file: Seq<u8>, ds: Seq<SectionDescriptorView>, n: int) -> int
    decreases n,
{
    if n <= 0 {
        0
    } else {
        entries_in(file, ds, n - 1) + if indexes(ds, n - 1) {
            declared(file, ds[n - 1])
        } else {
            0
        }
    }
}

/// Whether `chunks`, from `first` on, are those of the entries of section `d`.
pub open spec fn holds_table(
    file: Seq<u8>,
    seg: usize,
    d: SectionDescriptorView,
    chunks: Seq<Chunk>,
    first: int,
) -> bool {
    &&& 0 <= first
    &&& first + declared(file, d) <= chunks.len()
    &&& forall|x: int|
        first <= x < first + declared(file, d) ==> is_chunk_of(
            file,
            seg,
            d,
            x - first,
            #[trigger] chunks[x],
        )
}

proof fn lemma_sections_index(
    file: Seq<u8>,
    seg: usize,
    ds: Seq<SectionDescriptorView>,
    n: nat,
    image: EwfImageView,
)
    requires
        n <= ds.len(),
        v1::sections_applied(file, seg, ds, n, image) is Ok,
    ensures
        ({
            let chunks = v1::sections_applied(file, seg, ds, n, image)->Ok_0.chunks;
            let held = image.chunks.len() as int;
            &&& chunks.len() == held + entries_in(file, ds, n as int)
            &&& chunks.len() >= held
            &&& forall|x: int|
                0 <= x < held ==> same_place(#[trigger] chunks[x], image.chunks[x])
            &&& forall|x: int|
                held <= x < chunks.len() ==> (#[trigger] chunks[x]).segment_idx == seg
            &&& forall|k: int|
                0 <= k < n && #[trigger] indexes(ds, k) ==> holds_table(
                    file,
                    seg,
                    ds[k],
                    chunks,
                    held + entries_in(file, ds, k),
                )
        }),
    decreases n,
{
    if n > 0 {
        let m = (n - 1) as nat;
        lemma_sections_index(file, seg, ds, m, image);
        let before = v1::sections_applied(file, seg, ds, m, image)->Ok_0;
        let chunks = v1::sections_applied(file, seg, ds, n, image)->Ok_0.chunks;
        let held = image.chunks.len() as int;
        if indexes(ds, m as int) {
            law_table_section(file, seg, ds, m as int, before);
            law_table_section_is_accepted(file, seg, ds, m as int, before);
            assert(declared(file, ds[m as int]) >= 0);
            assert forall|x: int| 0 <= x < held implies same_place(
                #[trigger] chunks[x],
                image.chunks[x],
            ) by {
                assert(same_place(chunks[x], before.chunks[x]));
                assert(same_place(before.chunks[x], image.chunks[x]));
            }
            assert forall|x: int| held <= x < chunks.len() implies (
            #[trigger] chunks[x]).segment_idx == seg by {
                let first = before.chunks.len() as int;
                if x < first {
                    assert(same_place(chunks[x], before.chunks[x]));
                } else {
                    assert(is_chunk_of(file, seg, ds[m as int], x - first, chunks[x]));
                }
            }
            assert forall|k: int| 0 <= k < n && #[trigger] indexes(ds, k) implies holds_table(
                file,
                seg,
                ds[k],
                chunks,
                held + entries_in(file, ds, k),
            ) by {
                let first = held + entries_in(file, ds, k);
                if k < m {
                    assert(holds_table(file, seg, ds[k], before.chunks, first));
                    assert forall|x: int|
                        first <= x < first + declared(file, ds[k]) implies is_chunk_of(
                        file,
                        seg,
                        ds[k],
                        x - first,
                        #[trigger] chunks[x],
                    ) by {
                        assert(is_chunk_of(file, seg, ds[k], x - first, before.chunks[x]));
                        assert(same_place(chunks[x], before.chunks[x]));
                        lemma_last_entry_is_cut_alone(
                            file,
                            seg,
                            ds[k],
                            x - first,
                            before,
                            chunks,
                            x,
                        );
                    }
                }
            }
        } else {
            law_other_sections_keep_the_chunks(file, seg, ds, m as int, before);
            assert forall|k: int| 0 <= k < n && #[trigger] indexes(ds, k) implies holds_table(
                file,
                seg,
                ds[k],
                chunks,
                held + entries_in(file, ds, k),
            ) by {
                assert(k < m);
            }
        }
    }
}

/// Only the very last chunk can be cut by a later table.
proof fn lemma_last_entry_is_cut_alone(
    file: Seq<u8>,
    seg: usize,
    d: SectionDescriptorView,
    j: int,
    before: EwfImageView,
    chunks: Seq<Chunk>,
    x: int,
)
    requires
        0 <= x < before.chunks.len(),
        0 <= j < declared(file, d),
        x - j + declared(file, d) <= before.chunks.len(),
        same_place(chunks[x], before.chunks[x]),
        x < before.chunks.len() - 1 ==> chunks[x] == before.chunks[x],
        is_chunk_of(file, seg, d, j, before.chunks[x]),
    ensures
        is_chunk_of(file, seg, d, j, chunks[x]),
{
}

/// Every table of a segment is indexed: where its sections are accepted, the
/// chunks that it adds are those of the entries of all sections that chunks are
/// indexed from, in the order of the file, however many there are and whatever
/// chunks are there already, which stay where they are. All that are added are
/// stored in that segment.
pub proof fn law_every_table_is_indexed(file: Seq<u8>, seg: usize, image: EwfImageView)
    ensures
        v1::segment_applied(file, seg, image) matches Ok(after) ==> {
            let ds = v1::chain(file, 13);
            let held = image.chunks.len() as int;
            &&& after.chunks.len() == held + entries_in(file, ds, ds.len() as int)
            &&& after.chunks.len() >= held
            &&& forall|x: int|
                0 <= x < held ==> same_place(#[trigger] after.chunks[x], image.chunks[x])
            &&& forall|x: int|
                held <= x < after.chunks.len() ==> (#[trigger] after.chunks[x]).segment_idx == seg
            &&& forall|k: int|
                0 <= k < ds.len() && #[trigger] indexes(ds, k) ==> holds_table(
                    file,
                    seg,
                    ds[k],
                    after.chunks,
                    held + entries_in(file, ds, k),
                )
        },
{
    if v1::segment_applied(file, seg, image) is Ok {
        let ds = v1::chain(file, 13);
        lemma_sections_index(file, seg, ds, ds.len(), image);
    }
}

/// A volume section gives the chunk size and the size of the media: the number
/// of its sectors times their size or, where that is zero, the number of its
/// chunks times theirs. It is accepted exactly if it is there as a whole, within
/// the limits, and the media fits 64 bits.
pub proof fn law_volume_section(
    file: Seq<u8>,
    seg: usize,
    d: SectionDescriptorView,
    table: SectionKind,
    end: Option<u64>,
    image: EwfImageView,
)
    requires
        d.section_type == "volume"@ || d.section_type == "disk"@,
    ensures
        ({
            let chunks = bytes::le32(file, d.offset + 80);
            let per_chunk = bytes::le32(file, d.offset + 84);
            let per_sector = bytes::le32(file, d.offset + 88);
            let sectors = bytes::le64(file, d.offset + 92);
            let applied = v1::section_applied(file, seg, d, table, end, image);
            &&& applied is Ok <==> {
                &&& d.offset + 170 <= file.len()
                &&& per_chunk * per_sector <= 134_217_728
                &&& chunks <= 67_108_864
                &&& per_sector * sectors <= u64::MAX
            }
            &&& applied matches Ok(after) ==> {
                &&& after == EwfImageView {
                    chunk_size: after.chunk_size,
                    total_size: after.total_size,
                    ..image
                }
                &&& after.chunk_size == per_chunk * per_sector
                &&& per_sector * sectors > 0 ==> after.total_size == per_sector * sectors
                &&& per_sector * sectors == 0 ==> after.total_size == per_chunk * per_sector
                    * chunks
            }
        }),
{
    reveal(v1::section_applied);
    structures::law_section_names(d);
    if d.offset + 170 <= file.len() {
        let buf = file.subrange(d.offset + 76, d.offset + 170);
        assert(bytes::le32(buf, 4) == bytes::le32(file, d.offset + 80));
        assert(bytes::le32(buf, 8) == bytes::le32(file, d.offset + 84));
        assert(bytes::le32(buf, 12) == bytes::le32(file, d.offset + 88));
        assert(bytes::le64(buf, 16) == bytes::le64(file, d.offset + 92));
        let cs = bytes::le32(file, d.offset + 84) * bytes::le32(file, d.offset + 88);
        let chunks = bytes::le32(file, d.offset + 80);
        if cs <= 134_217_728 && chunks <= 67_108_864 {
            assert(0 <= cs * chunks <= 134_217_728 * 67_108_864) by (nonlinear_arith)
                requires
                    0 <= cs <= 134_217_728,
                    0 <= chunks <= 67_108_864,
            ;
        }
        let per_sector = bytes::le32(file, d.offset + 88);
        let sectors = bytes::le64(file, d.offset + 92);
        assert(0 <= per_sector * sectors) by (nonlinear_arith)
            requires
                0 <= per_sector,
                0 <= sectors,
        ;
    }
}

/// Which limit a volume section breaks is told.
pub proof fn law_volume_section_is_refused(
    file: Seq<u8>,
    seg: usize,
    d: SectionDescriptorView,
    table: SectionKind,
    end: Option<u64>,
    image: EwfImageView,
)
    requires
        d.section_type == "volume"@ || d.section_type == "disk"@,
    ensures
        ({
            let chunks = bytes::le32(file, d.offset + 80);
            let size = bytes::le32(file, d.offset + 84) * bytes::le32(file, d.offset + 88);
            let applied = v1::section_applied(file, seg, d, table, end, image);
            &&& d.offset + 170 > file.len() ==> applied == Err::<EwfImageView, EwfErrorView>(
                error::short_read(),
            )
            &&& d.offset + 170 <= file.len() && 134_217_728 < size <= u32::MAX ==> applied == Err::<
                EwfImageView,
                EwfErrorView,
            >(EwfErrorView::InvalidChunkSize(size))
            &&& d.offset + 170 <= file.len() && size > u32::MAX ==> applied == Err::<
                EwfImageView,
                EwfErrorView,
            >(EwfErrorView::InvalidChunkSize(0xffff_ffff))
            &&& d.offset + 170 <= file.len() && size <= 134_217_728 && chunks > 67_108_864
                ==> applied == Err::<EwfImageView, EwfErrorView>(
                EwfErrorView::Parse(
                    "volume chunk_count "@ + text::decimal(chunks as nat)
                        + " exceeds maximum 67108864"@,
                ),
            )
            &&& d.offset + 170 <= file.len() && size <= 134_217_728 && chunks <= 67_108_864
                && bytes::le32(file, d.offset + 88) * bytes::le64(file, d.offset + 92) > u64::MAX
                ==> applied == Err::<EwfImageView, EwfErrorView>(
                EwfErrorView::Parse("volume media size exceeds 64 bits"@),
            )
        }),
{
    reveal(v1::section_applied);
    structures::law_section_names(d);
    if d.offset + 170 <= file.len() {
        let buf = file.subrange(d.offset + 76, d.offset + 170);
        assert(bytes::le32(buf, 4) == bytes::le32(file, d.offset + 80));
        assert(bytes::le32(buf, 8) == bytes::le32(file, d.offset + 84));
        assert(bytes::le32(buf, 12) == bytes::le32(file, d.offset + 88));
        assert(bytes::le64(buf, 16) == bytes::le64(file, d.offset + 92));
    }
}

/// A hash section gives the MD5 of an image that has none, and a digest section
/// always gives both hashes. Each is accepted exactly if it is there as a whole
/// and changes nothing else.
pub proof fn law_hash_sections(
    file: Seq<u8>,
    seg: usize,
    d: SectionDescriptorView,
    table: SectionKind,
    end: Option<u64>,
    image: EwfImageView,
)
    ensures
        ({
            let applied = v1::section_applied(file, seg, d, table, end, image);
            let at = d.offset + 76;
            &&& d.section_type == "hash"@ ==> {
                &&& applied is Ok <==> at + 16 <= file.len()
                &&& applied is Err ==> applied == Err::<EwfImageView, EwfErrorView>(
                    error::short_read(),
                )
                &&& applied matches Ok(after) ==> after == EwfImageView {
                    md5: if image.md5 is Some {
                        image.md5
                    } else {
                        Some(file.subrange(at, at + 16))
                    },
                    ..image
                }
            }
            &&& d.section_type == "digest"@ ==> {
                &&& applied is Ok <==> at + 36 <= file.len()
                &&& applied is Err ==> applied == Err::<EwfImageView, EwfErrorView>(
                    error::short_read(),
                )
                &&& applied matches Ok(after) ==> after == EwfImageView {
                    md5: Some(file.subrange(at, at + 16)),
                    sha1: Some(file.subrange(at + 16, at + 36)),
                    ..image
                }
            }
        }),
{
    reveal(v1::section_applied);
    structures::law_section_names(d);
    let at = d.offset + 76;
    if at + 36 <= file.len() {
        let buf = file.subrange(at, at + 36);
        assert(buf.subrange(0, 16) =~= file.subrange(at, at + 16));
        assert(buf.subrange(16, 36) =~= file.subrange(at + 16, at + 36));
    }
}

/// Whether section data is read: it is neither empty nor a million bytes or
/// more.
pub open spec fn is_read(d: SectionDescriptorView) -> bool {
    76 < d.section_size < 1_000_076
}

/// An `error2` section gives the list of acquisition errors in its data, which
/// reaches to the end of the section.
pub proof fn law_error2_section(
    file: Seq<u8>,
    seg: usize,
    d: SectionDescriptorView,
    table: SectionKind,
    end: Option<u64>,
    image: EwfImageView,
)
    requires
        d.section_type == "error2"@,
    ensures
        ({
            let applied = v1::section_applied(file, seg, d, table, end, image);
            let behind = d.offset + d.section_size;
            &&& !is_read(d) ==> applied == Ok::<EwfImageView, EwfErrorView>(image)
            &&& is_read(d) && behind > file.len() ==> applied == Err::<EwfImageView, EwfErrorView>(
                error::short_read(),
            )
            &&& is_read(d) && behind <= file.len() ==> applied == Ok::<EwfImageView, EwfErrorView>(
                EwfImageView {
                    acquisition_errors: parse::error2_entries(
                        file.subrange(d.offset + 76, behind),
                    ),
                    ..image
                },
            )
        }),
{
    reveal(v1::section_applied);
    structures::law_section_names(d);
}

/// A `header` section gives metadata while neither the case number nor the
/// system version is known from one: what its text says, which is compressed.
/// One that does not decompress is passed over.
pub proof fn law_header_section(
    file: Seq<u8>,
    seg: usize,
    d: SectionDescriptorView,
    table: SectionKind,
    end: Option<u64>,
    image: EwfImageView,
)
    requires
        d.section_type == "header"@,
    ensures
        ({
            let applied = v1::section_applied(file, seg, d, table, end, image);
            let behind = d.offset + d.section_size;
            let wanted = is_read(d) && image.metadata.case_number is None
                && image.metadata.os_version is None;
            let data = codec::inflated(file.subrange(d.offset + 76, behind), 10_000_000);
            &&& !wanted ==> applied == Ok::<EwfImageView, EwfErrorView>(image)
            &&& wanted && behind > file.len() ==> applied == Err::<EwfImageView, EwfErrorView>(
                error::short_read(),
            )
            &&& wanted && behind <= file.len() && data is Err ==> applied == Ok::<
                EwfImageView,
                EwfErrorView,
            >(image)
            &&& wanted && behind <= file.len() ==> (data matches Ok((plain, _)) ==> applied == Ok::<
                EwfImageView,
                EwfErrorView,
            >(
                EwfImageView {
                    metadata: parse::header_text_metadata(image.metadata, codec::utf8_lossy(plain)),
                    ..image
                },
            ))
        }),
{
    reveal(v1::section_applied);
    structures::law_section_names(d);
}

/// A `header2` section does the same for the metadata of its own kind, with
/// text in UTF-16, and is also passed over where the file cuts it short.
pub proof fn law_header2_section(
    file: Seq<u8>,
    seg: usize,
    d: SectionDescriptorView,
    table: SectionKind,
    end: Option<u64>,
    image: EwfImageView,
)
    requires
        d.section_type == "header2"@,
    ensures
        ({
            let applied = v1::section_applied(file, seg, d, table, end, image);
            let behind = d.offset + d.section_size;
            let wanted = is_read(d) && behind <= file.len() && image.header2.case_number is None
                && image.header2.os_version is None;
            let data = codec::inflated(file.subrange(d.offset + 76, behind), 10_000_000);
            &&& !wanted || data is Err ==> applied == Ok::<EwfImageView, EwfErrorView>(image)
            &&& wanted ==> (data matches Ok((plain, _)) ==> applied == Ok::<
                EwfImageView,
                EwfErrorView,
            >(
                EwfImageView {
                    header2: parse::header_text_metadata(image.header2, text::utf16_text(plain)),
                    ..image
                },
            ))
        }),
{
    reveal(v1::section_applied);
    structures::law_section_names(d);
}

/// A section of any other name changes nothing and refuses nothing.
pub proof fn law_unknown_section(
    file: Seq<u8>,
    seg: usize,
    ds: Seq<SectionDescriptorView>,
    k: int,
    image: EwfImageView,
)
    requires
        0 <= k < ds.len(),
        !indexes(ds, k),
        ds[k].section_type != "volume"@,
        ds[k].section_type != "disk"@,
        ds[k].section_type != "hash"@,
        ds[k].section_type != "digest"@,
        ds[k].section_type != "header"@,
        ds[k].section_type != "header2"@,
        ds[k].section_type != "error2"@,
    ensures
        v1::section_applied(
            file,
            seg,
            ds[k],
            v1::table_kind(ds),
            v1::sectors_end(ds, 0),
            image,
        ) == Ok::<EwfImageView, EwfErrorView>(image),
{
    reveal(v1::section_applied);
    structures::law_section_names(ds[k]);
    lemma_indexes(ds, k);
}

} // verus!
