//! Opening a set of segment files: which file is which segment, and that every
//! chunk is sought in the segment that stores it.

use vstd::prelude::*;
use crate::bytes;
use crate::error;
use crate::error::EwfErrorView;
use crate::image::EwfImageView;
use crate::laws::structures;
use crate::laws::version1;
use crate::laws::version2;
use crate::media::Media;
use crate::open;
use crate::open::Version;
use crate::segments;
use crate::text;
use crate::types::EwfMetadataView;
use crate::v1;
use crate::v2;

verus! {

/// The version of an image is told by the signature of its first file.
pub proof fn law_version(file: Seq<u8>)
    ensures
        file.len() < 8 ==> open::version_of(file) == Err::<Version, EwfErrorView>(
            error::short_read(),
        ),
        file.len() >= 8 && structures::opens_version_2(file) ==> open::version_of(file) == Ok::<
            Version,
            EwfErrorView,
        >(Version::V2),
        file.len() >= 8 && !structures::opens_version_2(file) ==> open::version_of(file) == Ok::<
            Version,
            EwfErrorView,
        >(Version::V1),
{
    if file.len() >= 8 {
        let s = file.subrange(0, 8);
        structures::lemma_version_2(s);
        assert(s.subrange(0, 4) =~= file.subrange(0, 4));
        assert(s.subrange(4, 8) =~= file.subrange(4, 8));
    }
}

/// The number that a segment file bears behind its signature.
pub open spec fn number_in(version: Version, file: Seq<u8>) -> int {
    match version {
        Version::V1 => bytes::le16(file, 9),
        Version::V2 => bytes::le32(file, 12),
    }
}

/// A file is taken as a segment exactly if it is long enough for a file header,
/// bears the signature of its version and, in version 2, a known compression
/// method. Its number is the one that stands in the header.
pub proof fn law_segment_number(version: Version, file: Seq<u8>)
    ensures
        open::segment_number(version, file) is Ok <==> match version {
            Version::V1 => file.len() >= 13 && structures::opens_version_1(file),
            Version::V2 => file.len() >= 32 && structures::opens_version_2(file) && bytes::le16(
                file,
                10,
            ) <= 2,
        },
        open::segment_number(version, file) matches Ok(n) ==> n == number_in(version, file),
        open::segment_number(version, file) matches Err(e) ==> match version {
            Version::V1 => if file.len() < 13 {
                e == error::short_read()
            } else {
                e == EwfErrorView::InvalidSignature
            },
            Version::V2 => if file.len() < 32 {
                e == error::short_read()
            } else if !structures::opens_version_2(file) {
                e == EwfErrorView::InvalidSignature
            } else {
                e == EwfErrorView::Parse(
                    "unknown EWF2 compression method: "@ + text::decimal(
                        bytes::le16(file, 10) as nat,
                    ),
                )
            },
        },
{
    match version {
        Version::V1 => {
            if file.len() >= 13 {
                let buf = file.subrange(0, 13);
                structures::lemma_version_1(buf);
                assert(buf.subrange(1, 8) =~= file.subrange(1, 8));
                assert(bytes::le16(buf, 9) == bytes::le16(file, 9));
            }
        },
        Version::V2 => {
            if file.len() >= 32 {
                let buf = file.subrange(0, 32);
                structures::lemma_version_2(buf);
                assert(buf.subrange(0, 4) =~= file.subrange(0, 4));
                assert(buf.subrange(4, 8) =~= file.subrange(4, 8));
                assert(bytes::le16(buf, 10) == bytes::le16(file, 10));
                assert(bytes::le32(buf, 12) == bytes::le32(file, 12));
            }
        },
    }
}

/// Segment numbers are accepted exactly if they are 1, 2, 3 and so on, in any
/// order. Of others, the first that is out of place in ascending order is told,
/// with the number that belongs there.
pub proof fn law_numbering(numbers: Seq<u32>, sorted: Seq<u32>, p: int)
    requires
        sorted.to_multiset() == numbers.to_multiset(),
        forall|i: int, j: int| 0 <= i < j < sorted.len() ==> sorted[i] <= sorted[j],
        0 <= p <= sorted.len(),
        p < u32::MAX,
        forall|q: int| 0 <= q < p ==> #[trigger] sorted[q] == q + 1,
    ensures
        p == sorted.len() ==> segments::numbering_fault(numbers) is None,
        p < sorted.len() && sorted[p] != p + 1 ==> segments::numbering_fault(numbers) == Some(
            EwfErrorView::SegmentGap { expected: p + 1, got: sorted[p] as int },
        ),
{
    let leq = |a: u32, b: u32| a <= b;
    numbers.lemma_sort_by_ensures(leq);
    vstd::seq_lib::lemma_sorted_unique(segments::ascending(numbers), sorted, leq);
    lemma_gap(sorted, 0, p);
}

proof fn lemma_gap(sorted: Seq<u32>, from: int, p: int)
    requires
        0 <= from <= p <= sorted.len(),
        forall|q: int| 0 <= q < p ==> #[trigger] sorted[q] == q + 1,
    ensures
        segments::first_gap(sorted, from) == segments::first_gap(sorted, p),
    decreases p - from,
{
    if from < p {
        lemma_gap(sorted, from + 1, p);
    }
}

/// Nothing is known of an image before its first segment.
pub proof fn law_nothing_is_known_at_first(version: Version, files: Seq<Seq<u8>>, order: Seq<usize>)
    ensures
        open::segments_applied(version, files, order, 0) matches Ok(image) && {
            &&& image.chunk_size == 0
            &&& image.total_size == 0
            &&& image.chunks.len() == 0
            &&& image.md5 is None
            &&& image.sha1 is None
            &&& image.metadata == EwfMetadataView::blank()
            &&& image.header2 == EwfMetadataView::blank()
            &&& image.acquisition_errors.len() == 0
        },
{
}

/// Segment `p` is read from the file in its place, on what the segments before
/// it gave. The first that fails ends it.
pub proof fn law_segments_in_order(
    version: Version,
    files: Seq<Seq<u8>>,
    order: Seq<usize>,
    p: usize,
)
    ensures
        open::segments_applied(version, files, order, p as nat) matches Err(e)
            ==> open::segments_applied(version, files, order, (p + 1) as nat) == Err::<
            EwfImageView,
            EwfErrorView,
        >(e),
        open::segments_applied(version, files, order, p as nat) matches Ok(before)
            ==> open::segments_applied(version, files, order, (p + 1) as nat) == match version {
            Version::V1 => v1::segment_applied(files[order[p as int] as int], p, before),
            Version::V2 => v2::segment_applied(files[order[p as int] as int], p, before),
        },
{
}

/// An empty list of files is refused, and so is one with a file that is no
/// segment. All others are put in order, read one after the other and
/// completed.
pub proof fn law_opening(files: Seq<Seq<u8>>, version: Version, numbers: Seq<u32>)
    ensures
        files.len() == 0 ==> open::opened(files) == Err::<(Seq<usize>, EwfImageView), EwfErrorView>(
            EwfErrorView::NoSegments("empty path list"@),
        ),
        files.len() > 0 && files[0].len() < 8 ==> open::opened(files) == Err::<
            (Seq<usize>, EwfImageView),
            EwfErrorView,
        >(error::short_read()),
        files.len() > 0 && open::version_of(files[0]) == Ok::<Version, EwfErrorView>(version) && (
        exists|i: int|
            0 <= i < files.len() && (open::segment_number(version, #[trigger] files[i]) is Err))
            ==> open::opened(files) is Err,
        files.len() > 0 && open::version_of(files[0]) == Ok::<Version, EwfErrorView>(version)
            && numbers.len() == files.len() && (forall|i: int|
            0 <= i < files.len() ==> open::segment_number(version, #[trigger] files[i]) == Ok::<
                u32,
                EwfErrorView,
            >(numbers[i])) ==> match segments::numbering_fault(numbers) {
            Some(e) => open::opened(files) == Err::<(Seq<usize>, EwfImageView), EwfErrorView>(e),
            None => {
                let order = segments::segment_order(numbers);
                match open::segments_applied(version, files, order, files.len()) {
                    Err(e) => open::opened(files) == Err::<
                        (Seq<usize>, EwfImageView),
                        EwfErrorView,
                    >(e),
                    Ok(image) => match open::completed(version, image) {
                        Err(e) => open::opened(files) == Err::<
                            (Seq<usize>, EwfImageView),
                            EwfErrorView,
                        >(e),
                        Ok(whole) => open::opened(files) == Ok::<
                            (Seq<usize>, EwfImageView),
                            EwfErrorView,
                        >((order, whole)),
                    },
                }
            },
        },
{
    open::lemma_numbers_of_each(version, files, files.len());
    if open::segment_numbers(version, files, files.len()) is Ok && numbers.len() == files.len() && (
    forall|i: int|
        0 <= i < files.len() ==> open::segment_number(version, #[trigger] files[i]) == Ok::<
            u32,
            EwfErrorView,
        >(numbers[i])) {
        let found = open::segment_numbers(version, files, files.len())->Ok_0;
        assert forall|i: int| 0 <= i < files.len() implies found[i] == numbers[i] by {
            assert(files[i] == files[i]);
        }
        assert(found =~= numbers);
    }
}

/// The first file that is no segment gives the error.
pub proof fn law_first_wrong_file_is_told(files: Seq<Seq<u8>>, version: Version, i: int)
    requires
        0 <= i < files.len(),
        open::version_of(files[0]) == Ok::<Version, EwfErrorView>(version),
        forall|j: int|
            0 <= j < i ==> (open::segment_number(version, #[trigger] files[j]) is Ok),
    ensures
        open::segment_number(version, files[i]) matches Err(e) ==> open::opened(files) == Err::<
            (Seq<usize>, EwfImageView),
            EwfErrorView,
        >(e),
{
    if open::segment_number(version, files[i]) is Err {
        open::lemma_numbers_of_each(version, files, i as nat);
        lemma_first_wrong_file(version, files, i, files.len());
    }
}

proof fn lemma_first_wrong_file(version: Version, files: Seq<Seq<u8>>, i: int, n: nat)
    requires
        0 <= i < n <= files.len(),
        open::segment_numbers(version, files, i as nat) is Ok,
        open::segment_number(version, files[i]) is Err,
    ensures
        open::segment_numbers(version, files, n) == Err::<Seq<u32>, EwfErrorView>(
            open::segment_number(version, files[i])->Err_0,
        ),
    decreases n,
{
    if n > i + 1 {
        lemma_first_wrong_file(version, files, i, (n - 1) as nat);
    }
}

/// Whether `order` puts every file in the place of its number.
pub open spec fn places(version: Version, files: Seq<Seq<u8>>, order: Seq<usize>) -> bool {
    &&& order.len() == files.len()
    &&& forall|p: int|
        0 <= p < order.len() ==> 0 <= (#[trigger] order[p]) < files.len() && number_in(
            version,
            files[order[p] as int],
        ) == p + 1
    &&& forall|i: int|
        0 <= i < files.len() ==> 1 <= number_in(version, #[trigger] files[i]) <= order.len()
            && order[number_in(version, files[i]) - 1] == i
}

/// Where an image opens, segment `p` is the file that bears the number `p + 1`,
/// and every file is a segment.
pub proof fn law_files_take_the_places_of_their_numbers(files: Seq<Seq<u8>>)
    ensures
        open::opened(files) matches Ok((order, _)) ==> (open::version_of(files[0]) matches Ok(v)
            && places(v, files, order)),
{
    if open::opened(files) is Ok {
        let version = open::version_of(files[0])->Ok_0;
        let numbers = open::segment_numbers(version, files, files.len())->Ok_0;
        let order = open::opened(files)->Ok_0.0;
        open::lemma_numbers_of_each(version, files, files.len());
        open::lemma_faultless_numbers_differ(numbers);
        assert forall|i: int| 0 <= i < files.len() implies number_in(version, #[trigger] files[i])
            == numbers[i] by {
            law_segment_number(version, files[i]);
        }
        assert forall|p: int| 0 <= p < order.len() implies 0 <= (#[trigger] order[p])
            < files.len() && numbers[order[p] as int] == p + 1 by {
            assert(numbers.contains(segments::number_at(p)));
            let k = numbers.index_of(segments::number_at(p));
            assert(numbers[k] == segments::number_at(p));
            assert(order[p] == k as usize);
            assert(1 <= numbers[k] <= numbers.len());
        }
        assert forall|i: int| 0 <= i < files.len() implies 1 <= number_in(
            version,
            #[trigger] files[i],
        ) <= order.len() && order[number_in(version, files[i]) - 1] == i by {
            let p = numbers[i] - 1;
            assert(1 <= numbers[i] <= numbers.len());
            assert(numbers[order[p] as int] == p + 1);
        }
    }
}

/// Every chunk that a segment adds is stored in that segment, and the chunks
/// of the segments before it stay where they are: after `n` segments, each chunk
/// that was not there before the last of them has its index.
pub proof fn law_new_chunks_are_in_their_segment(
    version: Version,
    files: Seq<Seq<u8>>,
    order: Seq<usize>,
    n: nat,
)
    requires
        0 < n <= usize::MAX,
    ensures
        open::segments_applied(version, files, order, n) matches Ok(after) ==> (
        open::segments_applied(version, files, order, (n - 1) as nat) matches Ok(before) && {
            &&& after.chunks.len() >= before.chunks.len()
            &&& forall|x: int|
                0 <= x < before.chunks.len() ==> version1::same_place(
                    #[trigger] after.chunks[x],
                    before.chunks[x],
                )
            &&& forall|x: int|
                before.chunks.len() <= x < after.chunks.len() ==> (
                #[trigger] after.chunks[x]).segment_idx == n - 1
        }),
{
    if open::segments_applied(version, files, order, n) is Ok {
        let before = open::segments_applied(version, files, order, (n - 1) as nat)->Ok_0;
        let file = files[order[n - 1] as int];
        version1::law_every_table_is_indexed(file, (n - 1) as usize, before);
        version2::law_every_table_is_indexed(file, (n - 1) as usize, before);
    }
}

proof fn lemma_chunks_stay(
    version: Version,
    files: Seq<Seq<u8>>,
    order: Seq<usize>,
    p: nat,
    n: nat,
)
    requires
        p <= n <= usize::MAX,
        open::segments_applied(version, files, order, n) is Ok,
    ensures
        open::segments_applied(version, files, order, p) is Ok,
        ({
            let before = open::segments_applied(version, files, order, p)->Ok_0.chunks;
            let after = open::segments_applied(version, files, order, n)->Ok_0.chunks;
            &&& before.len() <= after.len()
            &&& forall|x: int|
                0 <= x < before.len() ==> version1::same_place(#[trigger] after[x], before[x])
        }),
    decreases n - p,
{
    if p < n {
        law_new_chunks_are_in_their_segment(version, files, order, n);
        let m = (n - 1) as nat;
        lemma_chunks_stay(version, files, order, p, m);
        let before = open::segments_applied(version, files, order, p)->Ok_0.chunks;
        let middle = open::segments_applied(version, files, order, m)->Ok_0.chunks;
        let after = open::segments_applied(version, files, order, n)->Ok_0.chunks;
        assert forall|x: int| 0 <= x < before.len() implies version1::same_place(
            #[trigger] after[x],
            before[x],
        ) by {
            assert(version1::same_place(after[x], middle[x]));
            assert(version1::same_place(middle[x], before[x]));
        }
    }
}

/// The number of chunks that the first `p` segments hold.
pub open spec fn chunks_before(
    version: Version,
    files: Seq<Seq<u8>>,
    order: Seq<usize>,
    p: nat,
) -> int {
    open::segments_applied(version, files, order, p)->Ok_0.chunks.len() as int
}

/// The number of entries in the tables of a segment file.
pub open spec fn entries_of(version: Version, file: Seq<u8>) -> int {
    match version {
        Version::V1 => version1::entries_in(
            file,
            v1::chain(file, 13),
            v1::chain(file, 13).len() as int,
        ),
        Version::V2 => version2::entries_in(
            file,
            v2::descriptors(file)->Ok_0,
            v2::descriptors(file)->Ok_0.len() as int,
        ),
    }
}

/// In an image that opens, the chunks of segment `p` stand behind those of the
/// segments before it, as many as the tables of its file have entries, and each
/// of them is stored in segment `p`.
pub proof fn law_chunks_are_sought_in_their_segment(files: Seq<Seq<u8>>, p: nat)
    requires
        p < files.len() <= usize::MAX,
    ensures
        open::opened(files) matches Ok((order, image)) ==> (open::version_of(files[0]) matches Ok(v)
            && {
            let first = chunks_before(v, files, order, p);
            let last = chunks_before(v, files, order, p + 1);
            &&& chunks_before(v, files, order, 0) == 0
            &&& chunks_before(v, files, order, files.len()) == image.chunks.len()
            &&& 0 <= first <= last <= image.chunks.len()
            &&& last - first == entries_of(v, files[order[p as int] as int])
            &&& forall|x: int|
                first <= x < last ==> (#[trigger] image.chunks[x]).segment_idx == p
        }),
{
    if open::opened(files) is Ok {
        let (order, image) = open::opened(files)->Ok_0;
        let v = open::version_of(files[0])->Ok_0;
        lemma_chunks_stay(v, files, order, p + 1, files.len());
        lemma_chunks_stay(v, files, order, p, files.len());
        law_new_chunks_are_in_their_segment(v, files, order, p + 1);
        let before = open::segments_applied(v, files, order, p)->Ok_0;
        let after = open::segments_applied(v, files, order, p + 1)->Ok_0;
        let all = open::segments_applied(v, files, order, files.len())->Ok_0;
        let file = files[order[p as int] as int];
        version1::law_every_table_is_indexed(file, p as usize, before);
        version2::law_every_table_is_indexed(file, p as usize, before);
        assert(image.chunks == all.chunks);
        assert forall|x: int| before.chunks.len() <= x < after.chunks.len() implies (
        #[trigger] image.chunks[x]).segment_idx == p by {
            assert(version1::same_place(all.chunks[x], after.chunks[x]));
        }
    }
}

/// The number of entries in the tables of the first `n` segments.
pub open spec fn entries_in_all(
    version: Version,
    files: Seq<Seq<u8>>,
    order: Seq<usize>,
    n: nat,
) -> int
    decreases n,
{
    if n == 0 {
        0
    } else {
        entries_in_all(version, files, order, (n - 1) as nat) + entries_of(
            version,
            files[order[n - 1] as int],
        )
    }
}

/// An image that opens has a chunk for every entry of every table in all of its
/// segments, and no other.
pub proof fn law_every_entry_is_a_chunk(files: Seq<Seq<u8>>)
    requires
        files.len() <= usize::MAX,
    ensures
        open::opened(files) matches Ok((order, image)) ==> (open::version_of(files[0]) matches Ok(v)
            && image.chunks.len() == entries_in_all(v, files, order, files.len())),
{
    if open::opened(files) is Ok {
        let (order, image) = open::opened(files)->Ok_0;
        let v = open::version_of(files[0])->Ok_0;
        lemma_entries_in_all(v, files, order, files.len());
    }
}

proof fn lemma_entries_in_all(
    version: Version,
    files: Seq<Seq<u8>>,
    order: Seq<usize>,
    n: nat,
)
    requires
        n <= usize::MAX,
        open::segments_applied(version, files, order, n) is Ok,
    ensures
        chunks_before(version, files, order, n) == entries_in_all(version, files, order, n),
    decreases n,
{
    if n > 0 {
        let m = (n - 1) as nat;
        lemma_entries_in_all(version, files, order, m);
        let before = open::segments_applied(version, files, order, m)->Ok_0;
        let file = files[order[n - 1] as int];
        version1::law_every_table_is_indexed(file, m as usize, before);
        version2::law_every_table_is_indexed(file, m as usize, before);
    }
}

/// A chunk of segment `p` that is stored as it is reads back the bytes of the
/// file that bears the number `p + 1`, from the place that its table gives on.
/// A chunk that is stored shorter than a page goes on with zeros.
pub proof fn law_stored_chunks_read_back_their_file(files: Seq<Seq<u8>>, p: nat, x: int, at: int)
    requires
        p < files.len() <= usize::MAX,
        open::opened(files) is Ok,
        ({
            let (order, image) = open::opened(files)->Ok_0;
            let v = open::version_of(files[0])->Ok_0;
            let c = image.chunks[x];
            &&& chunks_before(v, files, order, p) <= x < chunks_before(v, files, order, p + 1)
            &&& 0 <= at < image.chunk_size
            &&& !c.compressed
            &&& c.offset + c.size <= files[order[p as int] as int].len()
        }),
    ensures
        ({
            let (order, image) = open::opened(files)->Ok_0;
            let v = open::version_of(files[0])->Ok_0;
            let media = Media { image, order, files };
            let c = image.chunks[x];
            let file = files[order[p as int] as int];
            &&& number_in(v, file) == p + 1
            &&& media.byte(x * image.chunk_size + at) == if at < c.size {
                file[c.offset + at]
            } else {
                0u8
            }
        }),
{
    let (order, image) = open::opened(files)->Ok_0;
    let media = Media { image, order, files };
    law_chunks_are_sought_in_their_segment(files, p);
    law_files_take_the_places_of_their_numbers(files);
    let cs = image.chunk_size as int;
    let i = x * cs + at;
    assert(0 <= x * cs) by (nonlinear_arith)
        requires
            0 <= x,
            0 < cs,
    ;
    vstd::arithmetic::div_mod::lemma_fundamental_div_mod_converse(i, cs, x, at);
    media.law_stored_bytes_are_read_back(i);
}

/// A version 1 image that has no chunk size is refused. In any other, metadata
/// that its `header` sections leave blank is that of its `header2` sections.
pub proof fn law_version_1_is_completed(image: EwfImageView)
    ensures
        image.chunk_size == 0 ==> open::completed(Version::V1, image) == Err::<
            EwfImageView,
            EwfErrorView,
        >(EwfErrorView::MissingVolume),
        image.chunk_size > 0 ==> (open::completed(Version::V1, image) matches Ok(after) && {
            &&& after.chunk_size == image.chunk_size
            &&& after.total_size == image.total_size
            &&& after.chunks == image.chunks
            &&& after.md5 == image.md5
            &&& after.sha1 == image.sha1
            &&& after.acquisition_errors == image.acquisition_errors
            &&& after.metadata == image.metadata.completed_by(image.header2)
        }),
{
}

/// A version 2 image that has no chunk size gets one of 64 sectors, and one
/// that has no media size gets that of all its chunks. It is refused if its
/// chunks are too large or too many.
pub proof fn law_version_2_is_completed(image: EwfImageView)
    ensures
        ({
            let done = open::completed(Version::V2, image);
            &&& image.chunk_size > 134_217_728 ==> done == Err::<EwfImageView, EwfErrorView>(
                EwfErrorView::Parse(
                    "EWF2 chunk size "@ + text::decimal(image.chunk_size as nat)
                        + " exceeds maximum 134217728"@,
                ),
            )
            &&& image.chunk_size <= 134_217_728 && image.chunks.len() > 67_108_864 ==> done == Err::<
                EwfImageView,
                EwfErrorView,
            >(EwfErrorView::Parse("cumulative table chunk count exceeds maximum 67108864"@))
            &&& image.chunk_size <= 134_217_728 && image.chunks.len() <= 67_108_864 ==> (
            done matches Ok(after) && {
                &&& after.chunk_size == if image.chunk_size > 0 {
                    image.chunk_size
                } else {
                    32_768
                }
                &&& after.total_size == if image.total_size > 0 {
                    image.total_size as int
                } else {
                    image.chunks.len() * after.chunk_size
                }
                &&& after == EwfImageView {
                    chunk_size: after.chunk_size,
                    total_size: after.total_size,
                    ..image
                }
            })
        }),
{
    let size: int = if image.chunk_size > 0 {
        image.chunk_size as int
    } else {
        32_768
    };
    let count = image.chunks.len() as int;
    if size <= 134_217_728 && count <= 67_108_864 {
        assert(0 <= count * size <= 67_108_864 * 134_217_728) by (nonlinear_arith)
            requires
                0 <= size <= 134_217_728,
                0 <= count <= 67_108_864,
        ;
    }
}

} // verus!
