//! Opening an image: telling the versions apart, ordering the segment files,
//! and reading the sections of all of them.

use vstd::prelude::*;
use crate::error;
use crate::error::{EwfError, EwfErrorView};
use crate::ewf2;
use crate::ewf2::{Ewf2FileHeader, EVF2_SIGNATURE, LEF2_SIGNATURE};
use crate::image::{EwfImage, EwfImageView, DEFAULT_V2_CHUNK_SIZE, MAX_CHUNK_COUNT, MAX_CHUNK_SIZE};
use crate::sections;
use crate::sections::EwfFileHeader;
use crate::segments;
use crate::segments::order_segments;
use crate::source;
use crate::source::read_exact;
use crate::types::{EwfMetadata, EwfMetadataView, MetadataField};
use crate::v1;
use crate::v2;

verus! {

/// The two versions of the format.
#[derive(Debug, Clone, Copy, PartialEq, Eq, Structural)]
pub enum Version {
    V1,
    V2,
}

/// The number that the header of a segment file gives it.
pub open spec fn segment_number(version: Version, file: Seq<u8>) -> Result<u32, EwfErrorView> {
    match version {
        Version::V1 => match source::exact(file, 0, sections::FILE_HEADER_SIZE as int) {
            Err(e) => Err(e),
            Ok(buf) => match EwfFileHeader::parsed(buf) {
                Err(e) => Err(e),
                Ok(header) => Ok(header.segment_number as u32),
            },
        },
        Version::V2 => match source::exact(file, 0, ewf2::FILE_HEADER_SIZE as int) {
            Err(e) => Err(e),
            Ok(buf) => match Ewf2FileHeader::parsed(buf) {
                Err(e) => Err(e),
                Ok(header) => Ok(header.segment_number),
            },
        },
    }
}

/// The numbers of the first `n` segment files.
pub open spec fn segment_numbers(version: Version, files: Seq<Seq<u8>>, n: nat) -> Result<
    Seq<u32>,
    EwfErrorView,
>
    decreases n,
{
    if n == 0 {
        Ok(Seq::empty())
    } else {
        match segment_numbers(version, files, (n - 1) as nat) {
            Err(e) => Err(e),
            Ok(before) => match segment_number(version, files[n - 1]) {
                Err(e) => Err(e),
                Ok(number) => Ok(before.push(number)),
            },
        }
    }
}

/// The image after the first `n` segments, which are files taken in `order`.
pub open spec fn segments_applied(
    version: Version,
    files: Seq<Seq<u8>>,
    order: Seq<usize>,
    n: nat,
) -> Result<EwfImageView, EwfErrorView>
    decreases n,
{
    if n == 0 {
        Ok(EwfImageView::unread())
    } else {
        match segments_applied(version, files, order, (n - 1) as nat) {
            Err(e) => Err(e),
            Ok(image) => {
                let file = files[order[n - 1] as int];
                match version {
                    Version::V1 => v1::segment_applied(file, (n - 1) as usize, image),
                    Version::V2 => v2::segment_applied(file, (n - 1) as usize, image),
                }
            },
        }
    }
}

/// The image once all sections have been read. A version 1 image must have got
/// its chunk size from a section, and what its `header` sections leave blank is
/// taken from its `header2` sections. A version 2 image has sizes to fall back
/// on, and is refused if it is out of the limits of an acquisition.
pub open spec fn completed(version: Version, image: EwfImageView) -> Result<
    EwfImageView,
    EwfErrorView,
> {
    match version {
        Version::V1 => if image.chunk_size == 0 {
            Err(EwfErrorView::MissingVolume)
        } else {
            Ok(
                EwfImageView {
                    metadata: image.metadata.completed_by(image.header2),
                    header2: EwfMetadataView::blank(),
                    ..image
                },
            )
        },
        Version::V2 => {
            let chunk_size = if image.chunk_size == 0 {
                DEFAULT_V2_CHUNK_SIZE
            } else {
                image.chunk_size
            };
            if chunk_size > MAX_CHUNK_SIZE {
                Err(v2::chunk_size_error(chunk_size as int))
            } else if image.chunks.len() > MAX_CHUNK_COUNT {
                Err(v1::chunk_count_error())
            } else {
                Ok(
                    EwfImageView {
                        chunk_size,
                        total_size: if image.total_size > 0 {
                            image.total_size
                        } else {
                            (image.chunks.len() * chunk_size) as u64
                        },
                        ..image
                    },
                )
            }
        },
    }
}

/// The version that the first segment file is of, by its signature.
pub open spec fn version_of(file: Seq<u8>) -> Result<Version, EwfErrorView> {
    match source::exact(file, 0, 8) {
        Err(e) => Err(e),
        Ok(signature) => Ok(
            if ewf2::has_v2_signature(signature) {
                Version::V2
            } else {
                Version::V1
            },
        ),
    }
}

/// What opening segment files with these contents gives: the order in which
/// they belong and the image, or the error.
pub open spec fn opened(files: Seq<Seq<u8>>) -> Result<(Seq<usize>, EwfImageView), EwfErrorView> {
    if files.len() == 0 {
        Err(EwfErrorView::NoSegments("empty path list"@))
    } else {
        match version_of(files[0]) {
            Err(e) => Err(e),
            Ok(version) => opened_as(version, files),
        }
    }
}

/// What opening segment files of a known version gives.
pub open spec fn opened_as(version: Version, files: Seq<Seq<u8>>) -> Result<
    (Seq<usize>, EwfImageView),
    EwfErrorView,
> {
    match segment_numbers(version, files, files.len()) {
        Err(e) => Err(e),
        Ok(numbers) => match segments::numbering_fault(numbers) {
            Some(e) => Err(e),
            None => {
                let order = segments::segment_order(numbers);
                match segments_applied(version, files, order, files.len()) {
                    Err(e) => Err(e),
                    Ok(image) => match completed(version, image) {
                        Err(e) => Err(e),
                        Ok(image) => Ok((order, image)),
                    },
                }
            },
        },
    }
}

fn read_segment_number<F: Fn(usize, u64, usize) -> Result<Vec<u8>, String>>(
    read: &F,
    i: usize,
    version: Version,
) -> (r: Result<u32, EwfError>)
    requires
        source::readable(*read, i + 1),
    ensures
        forall|len: u64, content: Seq<u8>| #[trigger]
            source::serves(*read, i, len, content) ==> source::outcome(
                *read,
                error::viewed(r),
                segment_number(version, content),
            ),
{
    match version {
        Version::V1 => match read_exact(read, i, 0, sections::FILE_HEADER_SIZE) {
            Err(e) => Err(e),
            Ok(buf) => match EwfFileHeader::parse(buf.as_slice()) {
                Err(e) => Err(e),
                Ok(header) => Ok(header.segment_number as u32),
            },
        },
        Version::V2 => match read_exact(read, i, 0, ewf2::FILE_HEADER_SIZE) {
            Err(e) => Err(e),
            Ok(buf) => match Ewf2FileHeader::parse(buf.as_slice()) {
                Err(e) => Err(e),
                Ok(header) => Ok(header.segment_number),
            },
        },
    }
}

/// An error of an earlier segment file is the error of the set.
proof fn lemma_numbers_err(version: Version, files: Seq<Seq<u8>>, n: nat, m: nat)
    requires
        n <= m,
        segment_numbers(version, files, n) is Err,
    ensures
        segment_numbers(version, files, m) == segment_numbers(version, files, n),
    decreases m,
{
    if n < m {
        lemma_numbers_err(version, files, n, (m - 1) as nat);
    }
}

/// An error of an earlier segment is the error of the image.
proof fn lemma_segments_err(
    version: Version,
    files: Seq<Seq<u8>>,
    order: Seq<usize>,
    n: nat,
    m: nat,
)
    requires
        n <= m,
        segments_applied(version, files, order, n) is Err,
    ensures
        segments_applied(version, files, order, m) == segments_applied(version, files, order, n),
    decreases m,
{
    if n < m {
        lemma_segments_err(version, files, order, n, (m - 1) as nat);
    }
}

fn read_segment_numbers<F: Fn(usize, u64, usize) -> Result<Vec<u8>, String>>(
    read: &F,
    lens: &Vec<u64>,
    version: Version,
) -> (r: Result<Vec<u32>, EwfError>)
    requires
        source::readable(*read, lens@.len() as int),
    ensures
        forall|files: Seq<Seq<u8>>| #[trigger]
            source::serves_all(*read, lens@, files) ==> source::outcome(
                *read,
                error::viewed(r),
                segment_numbers(version, files, files.len()),
            ),
        r matches Ok(numbers) ==> numbers@.len() == lens@.len(),
{
    let mut numbers: Vec<u32> = Vec::new();
    let mut i: usize = 0;
    while i < lens.len()
        invariant
            i <= lens@.len(),
            numbers@.len() == i,
            source::readable(*read, lens@.len() as int),
            forall|files: Seq<Seq<u8>>| #[trigger]
                source::serves_all(*read, lens@, files) ==> segment_numbers(
                    version,
                    files,
                    i as nat,
                ) == Ok::<Seq<u32>, EwfErrorView>(numbers@),
        decreases lens@.len() - i,
    {
        match read_segment_number(read, i, version) {
            Err(e) => {
                assert forall|files: Seq<Seq<u8>>| #[trigger]
                    source::serves_all(*read, lens@, files) implies source::outcome(
                    *read,
                    Err::<Seq<u32>, EwfErrorView>(e@),
                    segment_numbers(version, files, files.len()),
                ) by {
                    assert(source::serves(*read, i, lens@[i as int], files[i as int]));
                    if !source::failed_with(*read, e@) {
                        lemma_numbers_err(version, files, (i + 1) as nat, files.len());
                    }
                }
                return Err(e);
            },
            Ok(number) => {
                assert forall|files: Seq<Seq<u8>>| #[trigger]
                    source::serves_all(*read, lens@, files) implies segment_numbers(
                    version,
                    files,
                    (i + 1) as nat,
                ) == Ok::<Seq<u32>, EwfErrorView>(numbers@.push(number)) by {
                    assert(source::serves(*read, i, lens@[i as int], files[i as int]));
                }
                numbers.push(number);
            },
        }
        i += 1;
    }
    Ok(numbers)
}

fn read_segments<F: Fn(usize, u64, usize) -> Result<Vec<u8>, String>>(
    read: &F,
    lens: &Vec<u64>,
    order: &Vec<usize>,
    version: Version,
) -> (r: Result<EwfImage, EwfError>)
    requires
        source::readable(*read, lens@.len() as int),
        order@.len() == lens@.len(),
        forall|p: int| 0 <= p < order@.len() ==> #[trigger] order@[p] < lens@.len(),
    ensures
        forall|files: Seq<Seq<u8>>| #[trigger]
            source::serves_all(*read, lens@, files) ==> source::outcome(
                *read,
                error::viewed(r),
                segments_applied(version, files, order@, files.len()),
            ),
        r matches Ok(image) ==> image@.wf(order@.len() as int) && (version == Version::V1
            ==> image.chunk_size <= MAX_CHUNK_SIZE),
{
    let mut image: EwfImage = EwfImage::unread();
    let mut seg: usize = 0;
    while seg < order.len()
        invariant
            seg <= order@.len(),
            source::readable(*read, lens@.len() as int),
            order@.len() == lens@.len(),
            forall|p: int| 0 <= p < order@.len() ==> #[trigger] order@[p] < lens@.len(),
            image@.wf(seg as int),
            version == Version::V1 ==> image.chunk_size <= MAX_CHUNK_SIZE,
            forall|files: Seq<Seq<u8>>| #[trigger]
                source::serves_all(*read, lens@, files) ==> segments_applied(
                    version,
                    files,
                    order@,
                    seg as nat,
                ) == Ok::<EwfImageView, EwfErrorView>(image@),
        decreases order@.len() - seg,
    {
        let i: usize = order[seg];
        let ghost before = image@;
        let step: Result<EwfImage, EwfError> = match version {
            Version::V1 => v1::apply_segment(read, i, lens[i], seg, image),
            Version::V2 => v2::apply_segment(read, i, lens[i], seg, image),
        };
        match step {
            Err(e) => {
                assert forall|files: Seq<Seq<u8>>| #[trigger]
                    source::serves_all(*read, lens@, files) implies source::outcome(
                    *read,
                    Err::<EwfImageView, EwfErrorView>(e@),
                    segments_applied(version, files, order@, files.len()),
                ) by {
                    assert(source::serves(*read, i, lens@[i as int], files[i as int]));
                    if !source::failed_with(*read, e@) {
                        lemma_segments_err(version, files, order@, (seg + 1) as nat, files.len());
                    }
                }
                return Err(e);
            },
            Ok(after) => {
                assert forall|files: Seq<Seq<u8>>| #[trigger]
                    source::serves_all(*read, lens@, files) implies segments_applied(
                    version,
                    files,
                    order@,
                    (seg + 1) as nat,
                ) == Ok::<EwfImageView, EwfErrorView>(after@) by {
                    assert(source::serves(*read, i, lens@[i as int], files[i as int]));
                }
                image = after;
            },
        }
        seg += 1;
    }
    Ok(image)
}

/// Completes an image whose sections have all been read.
pub fn complete(version: Version, image: EwfImage) -> (r: Result<EwfImage, EwfError>)
    ensures
        error::viewed(r) == completed(version, image@),
{
    match version {
        Version::V1 => if image.chunk_size == 0 {
            Err(EwfError::MissingVolume)
        } else {
            Ok(
                EwfImage {
                    chunk_size: image.chunk_size,
                    total_size: image.total_size,
                    chunks: image.chunks,
                    hashes: image.hashes,
                    metadata: image.metadata.complete_with(image.header2),
                    header2: EwfMetadata::default(),
                    acquisition_errors: image.acquisition_errors,
                },
            )
        },
        Version::V2 => {
            let mut image = image;
            if image.chunk_size == 0 {
                image.chunk_size = DEFAULT_V2_CHUNK_SIZE;
            }
            if image.chunk_size > MAX_CHUNK_SIZE {
                return Err(v2::too_large_chunks(image.chunk_size));
            }
            if image.chunks.len() > MAX_CHUNK_COUNT {
                return Err(v1::too_many_chunks());
            }
            if image.total_size == 0 {
                assert(image.chunks.len() * image.chunk_size <= MAX_CHUNK_COUNT * MAX_CHUNK_SIZE)
                    by (nonlinear_arith)
                    requires
                        image.chunks.len() <= MAX_CHUNK_COUNT,
                        image.chunk_size <= MAX_CHUNK_SIZE,
                ;
                image.total_size = image.chunks.len() as u64 * image.chunk_size;
            }
            Ok(image)
        },
    }
}

/// Tells the version of the first segment file.
fn read_version<F: Fn(usize, u64, usize) -> Result<Vec<u8>, String>>(read: &F) -> (r: Result<
    Version,
    EwfError,
>)
    requires
        source::readable(*read, 1),
    ensures
        forall|len: u64, content: Seq<u8>| #[trigger]
            source::serves(*read, 0, len, content) ==> match r {
                Ok(version) => version_of(content) == Ok::<Version, EwfErrorView>(version),
                Err(e) => source::outcome(*read, Err(e@), version_of(content)),
            },
{
    match read_exact(read, 0, 0, 8) {
        Err(e) => Err(e),
        Ok(signature) => {
            assert(signature@.take(8) =~= signature@);
            if crate::bytes::same_bytes(signature.as_slice(), EVF2_SIGNATURE.as_slice())
                || crate::bytes::same_bytes(signature.as_slice(), LEF2_SIGNATURE.as_slice()) {
                Ok(Version::V2)
            } else {
                Ok(Version::V1)
            }
        },
    }
}

fn load_as<F: Fn(usize, u64, usize) -> Result<Vec<u8>, String>>(
    read: &F,
    lens: &Vec<u64>,
    version: Version,
) -> (r: Result<(Vec<usize>, EwfImage), EwfError>)
    requires
        source::readable(*read, lens@.len() as int),
    ensures
        forall|files: Seq<Seq<u8>>| #[trigger]
            source::serves_all(*read, lens@, files) ==> source::outcome(
                *read,
                error::viewed(r),
                opened_as(version, files),
            ),
        r matches Ok((order, image)) ==> {
            &&& order@.len() == lens@.len()
            &&& forall|p: int| 0 <= p < order@.len() ==> #[trigger] order@[p] < lens@.len()
            &&& image@.wf(order@.len() as int)
            &&& 0 < image@.chunk_size <= MAX_CHUNK_SIZE
        },
{
    let numbers: Vec<u32> = match read_segment_numbers(read, lens, version) {
        Err(e) => {
            return Err(e);
        },
        Ok(numbers) => numbers,
    };
    let order: Vec<usize> = match order_segments(numbers) {
        Err(e) => {
            return Err(e);
        },
        Ok(order) => order,
    };
    let image: EwfImage = match read_segments(read, lens, &order, version) {
        Err(e) => {
            return Err(e);
        },
        Ok(image) => image,
    };
    match complete(version, image) {
        Err(e) => Err(e),
        Ok(image) => Ok((order, image)),
    }
}

/// Opens the segment files that `read` serves, whose lengths are `lens`.
pub(crate) fn load<F: Fn(usize, u64, usize) -> Result<Vec<u8>, String>>(
    read: &F,
    lens: &Vec<u64>,
) -> (r: Result<(Vec<usize>, EwfImage), EwfError>)
    requires
        source::readable(*read, lens@.len() as int),
    ensures
        forall|files: Seq<Seq<u8>>| #[trigger]
            source::serves_all(*read, lens@, files) ==> source::outcome(
                *read,
                error::viewed(r),
                opened(files),
            ),
        r matches Ok((order, image)) ==> {
            &&& order@.len() == lens@.len()
            &&& forall|p: int| 0 <= p < order@.len() ==> #[trigger] order@[p] < lens@.len()
            &&& image@.wf(order@.len() as int)
            &&& 0 < image@.chunk_size <= MAX_CHUNK_SIZE
        },
{
    if lens.len() == 0 {
        return Err(EwfError::NoSegments("empty path list".to_owned()));
    }
    match read_version(read) {
        Err(e) => {
            assert forall|files: Seq<Seq<u8>>| #[trigger]
                source::serves_all(*read, lens@, files) implies source::outcome(
                *read,
                Err::<(Seq<usize>, EwfImageView), EwfErrorView>(e@),
                opened(files),
            ) by {
                assert(source::serves(*read, 0, lens@[0], files[0]));
            }
            Err(e)
        },
        Ok(version) => {
            assert forall|files: Seq<Seq<u8>>| #[trigger]
                source::serves_all(*read, lens@, files) implies opened(files) == opened_as(
                version,
                files,
            ) by {
                assert(source::serves(*read, 0, lens@[0], files[0]));
            }
            load_as(read, lens, version)
        },
    }
}

/// An image that opens has no more chunks, and no larger ones, than the limits
/// of an acquisition allow, whatever its sections declare.
pub proof fn law_opened_within_limits(files: Seq<Seq<u8>>)
    ensures
        opened(files) matches Ok((_, image)) ==> 0 < image.chunk_size && v1::within_limits(image),
{
    if opened(files) is Ok {
        let version = version_of(files[0])->Ok_0;
        let numbers = segment_numbers(version, files, files.len())->Ok_0;
        lemma_segments_within_limits(
            version,
            files,
            segments::segment_order(numbers),
            files.len(),
        );
    }
}

proof fn lemma_segments_within_limits(
    version: Version,
    files: Seq<Seq<u8>>,
    order: Seq<usize>,
    n: nat,
)
    ensures
        segments_applied(version, files, order, n) matches Ok(image) ==> v1::within_limits(image),
    decreases n,
{
    if n > 0 {
        lemma_segments_within_limits(version, files, order, (n - 1) as nat);
        match segments_applied(version, files, order, (n - 1) as nat) {
            Ok(image) => {
                let file = files[order[n - 1] as int];
                match version {
                    Version::V1 => {
                        v1::law_segment_keeps_limits(file, (n - 1) as usize, image);
                    },
                    Version::V2 => {
                        v2::law_segment_keeps_limits(file, (n - 1) as usize, image);
                    },
                }
            },
            Err(_) => {},
        }
    }
}

/// Every field of the metadata of a version 1 image is what its `header`
/// sections say, or what its `header2` sections say where those are blank. It
/// is blank only where both are.
pub proof fn law_header2_fills_what_header_leaves_blank(
    image: EwfImageView,
    field: MetadataField,
)
    requires
        image.chunk_size > 0,
    ensures
        completed(Version::V1, image) matches Ok(after) && after.metadata.get(field) == if image.metadata.get(field) is Some {
            image.metadata.get(field)
        } else {
            image.header2.get(field)
        },
{
}

/// The numbers of a set of segment files are those of the files one by one.
pub(crate) proof fn lemma_numbers_of_each(version: Version, files: Seq<Seq<u8>>, n: nat)
    requires
        n <= files.len(),
    ensures
        match segment_numbers(version, files, n) {
            Ok(numbers) => numbers.len() == n && forall|i: int|
                0 <= i < n ==> segment_number(version, #[trigger] files[i]) == Ok::<
                    u32,
                    EwfErrorView,
                >(numbers[i]),
            Err(_) => !(forall|i: int|
                0 <= i < n ==> (segment_number(version, #[trigger] files[i]) is Ok)),
        },
    decreases n,
{
    if n > 0 {
        lemma_numbers_of_each(version, files, (n - 1) as nat);
        assert(files[n - 1] == files[n - 1]);
    }
}

/// A file whose header is read as one version bears its signature.
pub(crate) proof fn lemma_version_of_numbered(version: Version, file: Seq<u8>)
    requires
        segment_number(version, file) is Ok,
    ensures
        version_of(file) == Ok::<Version, EwfErrorView>(version),
{
    let signature = file.subrange(0, 8);
    assert(signature.take(8) =~= signature);
    match version {
        Version::V1 => {
            let buf = file.subrange(0, sections::FILE_HEADER_SIZE as int);
            assert(buf.take(8) =~= signature);
            assert(signature[3] == 0x09);
        },
        Version::V2 => {
            let buf = file.subrange(0, ewf2::FILE_HEADER_SIZE as int);
            assert(buf.take(8) =~= signature);
        },
    }
}

/// Whether `p` lists every number below `n` once.
pub open spec fn is_permutation(p: Seq<int>, n: nat) -> bool {
    &&& p.len() == n
    &&& forall|i: int| 0 <= i < n ==> 0 <= #[trigger] p[i] < n
    &&& forall|i: int, j: int| 0 <= i < j < n ==> p[i] != p[j]
    &&& forall|x: int| 0 <= x < n ==> #[trigger] p.contains(x)
}

/// Segment numbers without a fault are all different.
pub(crate) proof fn lemma_faultless_numbers_differ(numbers: Seq<u32>)
    requires
        segments::numbering_fault(numbers) is None,
    ensures
        numbers.no_duplicates(),
        forall|i: int| 0 <= i < numbers.len() ==> 1 <= #[trigger] numbers[i] <= numbers.len(),
        forall|p: int|
            0 <= p < numbers.len() ==> numbers.contains(#[trigger] segments::number_at(p)),
        numbers.len() <= u32::MAX,
{
    let leq = |a: u32, b: u32| a <= b;
    let sorted = segments::ascending(numbers);
    numbers.lemma_sort_by_ensures(leq);
    vstd::seq_lib::to_multiset_len(numbers);
    vstd::seq_lib::to_multiset_len(sorted);
    lemma_no_gap(sorted, 0);
    assert(sorted.no_duplicates());
    sorted.lemma_multiset_has_no_duplicates();
    assert forall|x: u32| numbers.to_multiset().contains(x) implies numbers.to_multiset().count(x)
        == 1 by {
        assert(sorted.to_multiset().contains(x));
    }
    numbers.lemma_multiset_has_no_duplicates_conv();
    assert(sorted.len() > 0 ==> sorted[sorted.len() - 1] == sorted.len());
    assert forall|i: int| 0 <= i < numbers.len() implies 1 <= #[trigger] numbers[i]
        <= numbers.len() by {
        assert(numbers.contains(numbers[i]));
        vstd::seq_lib::to_multiset_contains(numbers, numbers[i]);
        vstd::seq_lib::to_multiset_contains(sorted, numbers[i]);
        let j = choose|j: int| 0 <= j < sorted.len() && sorted[j] == numbers[i];
        assert(sorted[j] == j + 1);
    }
    assert forall|p: int| 0 <= p < numbers.len() implies numbers.contains(
        #[trigger] segments::number_at(p),
    ) by {
        assert(sorted[p] == p + 1);
        assert(sorted.contains(sorted[p]));
        vstd::seq_lib::to_multiset_contains(numbers, sorted[p]);
        vstd::seq_lib::to_multiset_contains(sorted, sorted[p]);
    }
}

proof fn lemma_no_gap(sorted: Seq<u32>, p: int)
    requires
        0 <= p <= sorted.len(),
        segments::first_gap(sorted, p) is None,
    ensures
        forall|q: int| p <= q < sorted.len() ==> #[trigger] sorted[q] == q + 1,
    decreases sorted.len() - p,
{
    if p < sorted.len() {
        lemma_no_gap(sorted, p + 1);
    }
}

pub(crate) proof fn lemma_no_gap_found(sorted: Seq<u32>, p: int)
    requires
        0 <= p <= sorted.len(),
        forall|q: int| p <= q < sorted.len() ==> #[trigger] sorted[q] == q + 1,
    ensures
        segments::first_gap(sorted, p) is None,
    decreases sorted.len() - p,
{
    if p < sorted.len() {
        lemma_no_gap_found(sorted, p + 1);
    }
}

/// Numbers in another order have the same ascending order.
proof fn lemma_permuted_numbers(numbers: Seq<u32>, permuted: Seq<u32>, p: Seq<int>)
    requires
        numbers.no_duplicates(),
        is_permutation(p, numbers.len()),
        permuted.len() == numbers.len(),
        forall|i: int| 0 <= i < numbers.len() ==> #[trigger] permuted[i] == numbers[p[i]],
    ensures
        permuted.no_duplicates(),
        segments::ascending(permuted) == segments::ascending(numbers),
{
    let leq = |a: u32, b: u32| a <= b;
    assert(permuted.no_duplicates());
    numbers.lemma_multiset_has_no_duplicates();
    permuted.lemma_multiset_has_no_duplicates();
    assert forall|x: u32| numbers.to_multiset().count(x) == permuted.to_multiset().count(x) by {
        vstd::seq_lib::to_multiset_contains(numbers, x);
        vstd::seq_lib::to_multiset_contains(permuted, x);
        if numbers.contains(x) {
            let i = choose|i: int| 0 <= i < numbers.len() && numbers[i] == x;
            assert(p.contains(i));
            let j = choose|j: int| 0 <= j < p.len() && p[j] == i;
            assert(permuted[j] == x);
        }
        if permuted.contains(x) {
            let j = choose|j: int| 0 <= j < permuted.len() && permuted[j] == x;
            assert(numbers[p[j]] == x);
        }
    }
    assert(numbers.to_multiset() =~= permuted.to_multiset());
    numbers.lemma_sort_by_ensures(leq);
    permuted.lemma_sort_by_ensures(leq);
    vstd::seq_lib::lemma_sorted_unique(
        segments::ascending(permuted),
        segments::ascending(numbers),
        leq,
    );
}

/// The image depends on which files its segments are, not on where they are
/// listed.
proof fn lemma_same_segments(
    version: Version,
    files: Seq<Seq<u8>>,
    order: Seq<usize>,
    others: Seq<Seq<u8>>,
    other_order: Seq<usize>,
    n: nat,
)
    requires
        forall|k: int|
            0 <= k < n ==> files[(#[trigger] order[k]) as int] == others[other_order[k] as int],
    ensures
        segments_applied(version, files, order, n) == segments_applied(
            version,
            others,
            other_order,
            n,
        ),
    decreases n,
{
    if n > 0 {
        lemma_same_segments(version, files, order, others, other_order, (n - 1) as nat);
        assert(files[order[n - 1] as int] == others[other_order[n - 1] as int]);
    }
}

/// The order in which segment files are listed does not matter: an image that
/// opens is the same image however its files are arranged.
pub proof fn law_any_order_opens_the_same(files: Seq<Seq<u8>>, p: Seq<int>)
    requires
        opened(files) is Ok,
        is_permutation(p, files.len()),
    ensures
        ({
            let arranged = Seq::new(files.len(), |i: int| files[p[i]]);
            &&& opened(arranged) is Ok
            &&& opened(arranged)->Ok_0.1 == opened(files)->Ok_0.1
            &&& forall|k: int|
                0 <= k < files.len() ==> arranged[(#[trigger] opened(
                    arranged,
                )->Ok_0.0[k]) as int] == files[opened(files)->Ok_0.0[k] as int]
        }),
{
    let arranged = Seq::new(files.len(), |i: int| files[p[i]]);
    let n = files.len();
    let version = version_of(files[0])->Ok_0;
    let numbers = segment_numbers(version, files, n)->Ok_0;
    lemma_numbers_of_each(version, files, n);
    lemma_numbers_of_each(version, arranged, n);
    assert forall|i: int| 0 <= i < n implies segment_number(version, #[trigger] arranged[i])
        == Ok::<u32, EwfErrorView>(numbers[p[i]]) by {
        assert(arranged[i] == files[p[i]]);
    }
    lemma_version_of_numbered(version, arranged[0]);
    let others = segment_numbers(version, arranged, n)->Ok_0;
    assert forall|i: int| 0 <= i < n implies #[trigger] others[i] == numbers[p[i]] by {
        assert(segment_number(version, arranged[i]) == Ok::<u32, EwfErrorView>(others[i]));
    }
    lemma_faultless_numbers_differ(numbers);
    lemma_permuted_numbers(numbers, others, p);
    let order = segments::segment_order(numbers);
    let other_order = segments::segment_order(others);
    lemma_faultless_numbers_differ(others);
    assert forall|k: int| 0 <= k < n implies arranged[(#[trigger] other_order[k]) as int]
        == files[order[k] as int] && 0 <= other_order[k] < n by {
        let number = segments::number_at(k);
        assert(numbers.contains(number));
        assert(others.contains(number));
        let a = numbers.index_of(number);
        let b = others.index_of(number);
        assert(numbers[a] == number && others[b] == number);
        assert(numbers[p[b]] == numbers[a]);
        assert(p[b] == a);
    }
    lemma_same_segments(version, arranged, other_order, files, order, n);
}

/// Where all segments are accepted, each of them is.
pub(crate) proof fn lemma_each_segment_accepted(
    version: Version,
    files: Seq<Seq<u8>>,
    order: Seq<usize>,
    n: nat,
    p: int,
)
    requires
        0 <= p < n,
        segments_applied(version, files, order, n) is Ok,
    ensures
        segments_applied(version, files, order, p as nat) is Ok,
        segments_applied(version, files, order, (p + 1) as nat) is Ok,
    decreases n,
{
    if p < n - 1 {
        lemma_each_segment_accepted(version, files, order, (n - 1) as nat, p);
    }
}

/// An encrypted image is never opened: where a version 2 image opens, no
/// section of any of its segment files is encrypted.
pub proof fn law_encrypted_is_refused(files: Seq<Seq<u8>>, i: int, k: int)
    requires
        opened(files) is Ok,
        version_of(files[0]) == Ok::<Version, EwfErrorView>(Version::V2),
        0 <= i < files.len(),
    ensures
        v2::descriptors(files[i]) is Ok,
        0 <= k < v2::descriptors(files[i])->Ok_0.len() ==> !v2::descriptors(
            files[i],
        )->Ok_0[k].is_encrypted(),
{
    let version = Version::V2;
    let n = files.len();
    let numbers = segment_numbers(version, files, n)->Ok_0;
    lemma_numbers_of_each(version, files, n);
    lemma_faultless_numbers_differ(numbers);
    let order = segments::segment_order(numbers);
    let p = numbers[i] - 1;
    assert(segments::number_at(p) == numbers[i]);
    let q = numbers.index_of(numbers[i]);
    assert(numbers.contains(numbers[i]));
    assert(numbers[q] == numbers[i] && q == i);
    assert(order[p] == i);
    lemma_each_segment_accepted(version, files, order, n, p);
    let before = segments_applied(version, files, order, p as nat)->Ok_0;
    assert(v2::segment_applied(files[i], p as usize, before) is Ok);
    if 0 <= k < v2::descriptors(files[i])->Ok_0.len() {
        v2::law_accepted_is_not_encrypted(files[i], p as usize, before, k);
    }
}

} // verus!
