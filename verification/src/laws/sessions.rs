//! Working with a reader: what its operations give back for the segment files
//! that it was opened on.

use vstd::prelude::*;
use crate::cache;
use crate::error;
use crate::error::{EwfError, EwfErrorView, IoError, IoErrorKind};
use crate::image::EwfImageView;
use crate::laws::media;
use crate::laws::opening;
use crate::laws::reading;
use crate::open;
use crate::reader;
use crate::reader::{EwfReader, EwfReaderView, SeekFrom};
use crate::sections::Chunk;
use crate::source;
use crate::types::{AcquisitionError, EwfMetadata, StoredHashes, VerifyResult};

verus! {

/// Whether no call of a source can fail.
pub open spec fn never_fails<F: Fn(usize, u64, usize) -> Result<Vec<u8>, String>>(
    source: F,
) -> bool {
    forall|i: usize, offset: u64, n: usize, m: String|
        !#[trigger] call_ensures(source, (i, offset, n), Err(m))
}

/// Opening a set of files gives a reader of the image that they hold, at its
/// start and with nothing remembered, or the error that they have.
pub proof fn law_opening_gives_the_image<F: Fn(usize, u64, usize) -> Result<Vec<u8>, String>>(
    lens: Vec<u64>,
    source: F,
    cache_size: usize,
    r: Result<EwfReader<F>, EwfError>,
    files: Seq<Seq<u8>>,
)
    requires
        call_ensures(
            EwfReader::<F>::open_segments_with_cache_size,
            (lens, source, cache_size),
            r,
        ),
        source::serves_all(source, lens@, files),
        never_fails(source),
    ensures
        match r {
            Ok(reader) => {
                &&& open::opened(files) == Ok::<(Seq<usize>, EwfImageView), EwfErrorView>(
                    (reader@.order, reader@.image),
                )
                &&& reader@.reads(files)
                &&& reader@.position == 0
                &&& reader@.cached.len() == 0
                &&& cache_size == 0 ==> reader@.capacity == 1
                &&& cache_size > 0 ==> reader@.capacity == cache_size
            },
            Err(e) => open::opened(files) == Err::<(Seq<usize>, EwfImageView), EwfErrorView>(e@),
        },
{
    reading::law_only_the_source_can_fail(source, reader::opening_view(r), open::opened(files));
}

/// Where no size is given, a hundred chunks are remembered.
pub proof fn law_opening_with_the_usual_cache<
    F: Fn(usize, u64, usize) -> Result<Vec<u8>, String>,
>(lens: Vec<u64>, source: F, r: Result<EwfReader<F>, EwfError>, files: Seq<Seq<u8>>)
    requires
        call_ensures(EwfReader::<F>::open_segments, (lens, source), r),
        source::serves_all(source, lens@, files),
        never_fails(source),
    ensures
        match r {
            Ok(reader) => {
                &&& open::opened(files) == Ok::<(Seq<usize>, EwfImageView), EwfErrorView>(
                    (reader@.order, reader@.image),
                )
                &&& reader@.reads(files)
                &&& reader@.position == 0
                &&& reader@.cached.len() == 0
                &&& reader@.capacity == 100
            },
            Err(e) => open::opened(files) == Err::<(Seq<usize>, EwfImageView), EwfErrorView>(e@),
        },
{
    reading::law_only_the_source_can_fail(source, reader::opening_view(r), open::opened(files));
}

/// A reader counts one chunk for every entry of every table, and one segment
/// for every file.
pub proof fn law_chunks_are_counted<F: Fn(usize, u64, usize) -> Result<Vec<u8>, String>>(
    lens: Vec<u64>,
    source: F,
    reader: EwfReader<F>,
    files: Seq<Seq<u8>>,
    chunks: usize,
    segments: usize,
)
    requires
        call_ensures(EwfReader::<F>::open_segments, (lens, source), Ok(reader)),
        source::serves_all(source, lens@, files),
        call_ensures(EwfReader::<F>::chunk_count, (&reader,), chunks),
        call_ensures(EwfReader::<F>::segment_count, (&reader,), segments),
        files.len() <= usize::MAX,
    ensures
        segments == files.len(),
        open::version_of(files[0]) matches Ok(v) && chunks == opening::entries_in_all(
            v,
            files,
            reader@.order,
            files.len(),
        ),
{
    opening::law_every_entry_is_a_chunk(files);
    opening::law_files_take_the_places_of_their_numbers(files);
}

/// A reader seeks each chunk of a segment in that segment.
pub proof fn law_chunks_are_placed<F: Fn(usize, u64, usize) -> Result<Vec<u8>, String>>(
    lens: Vec<u64>,
    source: F,
    reader: EwfReader<F>,
    files: Seq<Seq<u8>>,
    p: nat,
    x: usize,
    chunk: &Chunk,
)
    requires
        call_ensures(EwfReader::<F>::open_segments, (lens, source), Ok(reader)),
        source::serves_all(source, lens@, files),
        p < files.len() <= usize::MAX,
        open::version_of(files[0]) matches Ok(v) && opening::chunks_before(
            v,
            files,
            reader@.order,
            p,
        ) <= x < opening::chunks_before(v, files, reader@.order, p + 1),
        call_ensures(EwfReader::<F>::chunk_meta, (&reader, x), chunk),
    ensures
        chunk.segment_idx == p,
{
    opening::law_chunks_are_sought_in_their_segment(files, p);
}

/// A reader hands out the parts of its image as they are.
pub proof fn law_parts_of_the_image<F: Fn(usize, u64, usize) -> Result<Vec<u8>, String>>(
    reader: EwfReader<F>,
    total: u64,
    size: u64,
    hashes: StoredHashes,
    metadata: &EwfMetadata,
    errors: &[AcquisitionError],
    held: usize,
    position: u64,
)
    requires
        call_ensures(EwfReader::<F>::total_size, (&reader,), total),
        call_ensures(EwfReader::<F>::chunk_size, (&reader,), size),
        call_ensures(EwfReader::<F>::stored_hashes, (&reader,), hashes),
        call_ensures(EwfReader::<F>::metadata, (&reader,), metadata),
        call_ensures(EwfReader::<F>::acquisition_errors, (&reader,), errors),
        call_ensures(EwfReader::<F>::cached_chunks, (&reader,), held),
        call_ensures(EwfReader::<F>::position, (&reader,), position),
    ensures
        total == reader@.image.total_size,
        size == reader@.image.chunk_size,
        hashes.md5 is Some <==> reader@.image.md5 is Some,
        hashes.md5 matches Some(h) ==> reader@.image.md5 == Some(h@),
        hashes.sha1 is Some <==> reader@.image.sha1 is Some,
        hashes.sha1 matches Some(h) ==> reader@.image.sha1 == Some(h@),
        metadata@ == reader@.image.metadata,
        errors@ == reader@.image.acquisition_errors,
        held == reader@.cached.len(),
        position == reader@.position,
{
}

/// Where checking an image succeeds, the stored MD5 matches exactly if it is the
/// one that was computed, and nothing is said of it exactly if none is stored;
/// so with the SHA-1. What is computed are the hashes of the content.
pub proof fn law_checking_an_image<F: Fn(usize, u64, usize) -> Result<Vec<u8>, String>>(
    reader: EwfReader<F>,
    files: Seq<Seq<u8>>,
    hashes: StoredHashes,
    v: VerifyResult,
)
    requires
        reader@.reads(files),
        call_ensures(EwfReader::<F>::stored_hashes, (&reader,), hashes),
        call_ensures(EwfReader::<F>::verify, (&reader,), Ok(v)),
    ensures
        v.md5_match is Some <==> hashes.md5 is Some,
        v.md5_match matches Some(b) ==> (hashes.md5 matches Some(h) && (b <==> h@
            == v.computed_md5@)),
        v.computed_sha1 is Some <==> hashes.sha1 is Some,
        v.sha1_match is Some <==> hashes.sha1 is Some,
        v.sha1_match matches Some(b) ==> (hashes.sha1 matches Some(h) && (
        v.computed_sha1 matches Some(c) && (b <==> h@ == c@))),
        v.computed_md5@ == crate::codec::md5_digest(reader@.media(files).content()),
        v.computed_sha1 matches Some(c) ==> c@ == crate::codec::sha1_digest(
            reader@.media(files).content(),
        ),
{
    let m = reader@.media(files);
    media::law_each_stored_hash_is_compared(m);
    let r: Result<VerifyResult, EwfError> = Ok(v);
    assert(source::outcome(reader@.source, error::viewed(r), m.verified()));
}

/// Checking fails only where a chunk cannot be decoded, or with the source.
pub proof fn law_checking_fails_on_damage<F: Fn(usize, u64, usize) -> Result<Vec<u8>, String>>(
    reader: EwfReader<F>,
    files: Seq<Seq<u8>>,
    r: Result<VerifyResult, EwfError>,
)
    requires
        reader@.reads(files),
        never_fails(reader@.source),
        call_ensures(EwfReader::<F>::verify, (&reader,), r),
        forall|j: int|
            0 <= j < reader@.image.chunks.len() ==> (#[trigger] reader@.media(files).page(j)) is Ok,
    ensures
        r is Ok,
{
    let m = reader@.media(files);
    media::law_first_damaged_chunk_ends_the_check(m, m.image.chunks.len() as int);
    assert(source::outcome(reader@.source, error::viewed(r), m.verified()));
    reading::law_only_the_source_can_fail(reader@.source, error::viewed(r), m.verified());
}

/// Decoding a chunk gives its page.
pub proof fn law_decoding_a_chunk<F: Fn(usize, u64, usize) -> Result<Vec<u8>, String>>(
    reader: EwfReader<F>,
    files: Seq<Seq<u8>>,
    id: usize,
    r: Result<Vec<u8>, EwfError>,
)
    requires
        reader@.reads(files),
        never_fails(reader@.source),
        call_ensures(EwfReader::<F>::decompress_chunk, (&reader, id), r),
    ensures
        match r {
            Ok(page) => reader@.media(files).page(id as int) == Ok::<Seq<u8>, EwfErrorView>(page@),
            Err(e) => reader@.media(files).page(id as int) == Err::<Seq<u8>, EwfErrorView>(e@),
        },
{
    let wanted = reader@.media(files).page(id as int);
    assert(source::outcome(reader@.source, error::viewed(r), wanted));
    reading::law_only_the_source_can_fail(reader@.source, error::viewed(r), wanted);
}

/// Reading a chunk gives its page too, and puts it first among those that are
/// remembered. It moves nothing else.
pub proof fn law_reading_a_chunk<F: Fn(usize, u64, usize) -> Result<Vec<u8>, String>>(
    reader: &mut EwfReader<F>,
    files: Seq<Seq<u8>>,
    id: usize,
    r: Result<Vec<u8>, EwfError>,
)
    requires
        old(reader)@.reads(files),
        never_fails(old(reader)@.source),
        call_ensures(EwfReader::<F>::read_chunk, (reader, id), r),
    ensures
        final(reader)@.reads(files),
        final(reader)@.image == old(reader)@.image,
        final(reader)@.position == old(reader)@.position,
        final(reader)@.capacity == old(reader)@.capacity,
        match r {
            Ok(page) => {
                &&& old(reader)@.media(files).page(id as int) == Ok::<Seq<u8>, EwfErrorView>(page@)
                &&& final(reader)@.cached[0] == (id, page@)
                &&& !cache::has_key(old(reader)@.cached, id) && old(reader)@.cached.len() < old(
                    reader,
                )@.capacity ==> final(reader)@.cached == seq![(id, page@)] + old(reader)@.cached
                &&& !cache::has_key(old(reader)@.cached, id) && old(reader)@.cached.len() == old(
                    reader,
                )@.capacity ==> final(reader)@.cached == seq![(id, page@)] + old(
                    reader,
                )@.cached.drop_last()
            },
            Err(e) => {
                &&& old(reader)@.media(files).page(id as int) == Err::<Seq<u8>, EwfErrorView>(e@)
                &&& final(reader)@.cached == old(reader)@.cached
            },
        },
{
    let wanted = old(reader)@.media(files).page(id as int);
    assert(source::outcome(old(reader)@.source, error::viewed(r), wanted));
    reading::law_only_the_source_can_fail(old(reader)@.source, error::viewed(r), wanted);
}

/// A positioned read of bytes that the media has puts just those into the
/// buffer and leaves the rest of it, and the position, as they are.
pub proof fn law_reading_at<F: Fn(usize, u64, usize) -> Result<Vec<u8>, String>>(
    reader: &mut EwfReader<F>,
    buf: &mut [u8],
    offset: u64,
    files: Seq<Seq<u8>>,
    r: Result<usize, EwfError>,
)
    requires
        old(reader)@.reads(files),
        never_fails(old(reader)@.source),
        old(buf)@.len() <= usize::MAX,
        call_ensures(EwfReader::<F>::read_at, (reader, buf, offset), r),
    ensures
        final(reader)@.reads(files),
        final(reader)@.image == old(reader)@.image,
        final(reader)@.position == old(reader)@.position,
        final(buf)@.len() == old(buf)@.len(),
        match r {
            Ok(n) => {
                let total = old(reader)@.image.total_size as int;
                let len = old(buf)@.len() as int;
                &&& offset >= total ==> n == 0
                &&& offset < total && len <= total - offset ==> n == len
                &&& offset < total && len > total - offset ==> n == total - offset
                &&& forall|k: int|
                    0 <= k < n ==> #[trigger] final(buf)@[k] == old(reader)@.media(files).byte(
                        offset + k,
                    )
                &&& forall|k: int| n <= k < len ==> #[trigger] final(buf)@[k] == old(buf)@[k]
            },
            Err(e) => old(reader)@.media(files).read(offset as int, old(buf)@.len() as int)
                == Err::<Seq<u8>, EwfErrorView>(e@),
        },
{
    let before = old(reader)@;
    let after = final(reader)@;
    reading::law_positioned_read(
        before,
        files,
        offset,
        old(buf)@,
        after,
        final(buf)@,
        error::viewed(r),
    );
    if r is Err {
        assert(!source::failed_with(before.source, r->Err_0@));
    }
}

/// A sequential read gives the bytes from the position on and moves it behind
/// them. One that fails leaves it where it was.
pub proof fn law_reading_on<F: Fn(usize, u64, usize) -> Result<Vec<u8>, String>>(
    reader: &mut EwfReader<F>,
    buf: &mut [u8],
    files: Seq<Seq<u8>>,
    r: Result<usize, IoError>,
)
    requires
        old(reader)@.reads(files),
        call_ensures(EwfReader::<F>::read, (reader, buf), r),
    ensures
        final(reader)@.reads(files),
        final(reader)@.image == old(reader)@.image,
        final(buf)@.len() == old(buf)@.len(),
        match r {
            Ok(n) => {
                let at = old(reader)@.position as int;
                let total = old(reader)@.image.total_size as int;
                let len = old(buf)@.len() as int;
                &&& at >= total ==> n == 0
                &&& at < total && len <= total - at ==> n == len
                &&& at < total && len > total - at ==> n == total - at
                &&& final(reader)@.position == at + n
                &&& forall|k: int|
                    0 <= k < n ==> #[trigger] final(buf)@[k] == old(reader)@.media(files).byte(
                        at + k,
                    )
                &&& forall|k: int| n <= k < len ==> #[trigger] final(buf)@[k] == old(buf)@[k]
            },
            Err(e) => {
                &&& final(reader)@.position == old(reader)@.position
                &&& e.kind == IoErrorKind::Other
                &&& never_fails(old(reader)@.source) ==> (old(reader)@.media(files).read(
                    old(reader)@.position as int,
                    old(buf)@.len() as int,
                ) matches Err(cause) && e.message@ == cause.message())
            },
        },
{
    let before = old(reader)@;
    let given = old(buf)@;
    let filled = final(buf)@;
    match r {
        Ok(n) => {
            let media = before.media(files);
            let s = filled.take(n as int);
            assert(media.read(before.position as int, given.len() as int) == Ok::<
                Seq<u8>,
                EwfErrorView,
            >(s));
            assert forall|k: int| 0 <= k < n implies #[trigger] filled[k] == media.byte(
                before.position + k,
            ) by {
                assert(s[k] == filled[k]);
            }
            assert forall|k: int| n <= k < given.len() implies #[trigger] filled[k] == given[k] by {
                assert(filled.skip(n as int)[k - n] == given.skip(n as int)[k - n]);
            }
        },
        Err(e) => {},
    }
}

/// A seek moves the position to where it leads, or nothing if that is before
/// the start.
pub proof fn law_seeking<F: Fn(usize, u64, usize) -> Result<Vec<u8>, String>>(
    reader: &mut EwfReader<F>,
    pos: SeekFrom,
    r: Result<u64, IoError>,
)
    requires
        call_ensures(EwfReader::<F>::seek, (reader, pos), r),
        old(reader)@.image.total_size < 0x8000_0000_0000_0000,
        old(reader)@.position < 0x8000_0000_0000_0000,
    ensures
        ({
            let to = match pos {
                SeekFrom::Start(p) => if p < 0x8000_0000_0000_0000 {
                    p as int
                } else {
                    -1
                },
                SeekFrom::End(by) => old(reader)@.image.total_size + by,
                SeekFrom::Current(by) => old(reader)@.position + by,
            };
            match r {
                Ok(at) => at == to && final(reader)@ == (EwfReaderView {
                    position: at,
                    ..old(reader)@
                }),
                Err(e) => to < 0 && final(reader)@ == old(reader)@ && e.kind
                    == IoErrorKind::InvalidInput && e.message@ == "seek to negative position"@,
            }
        }),
{
}

/// A seek can be made exactly if where it leads can be written as a signed
/// 64-bit number.
pub proof fn law_seeks_that_can_be_made<F: Fn(usize, u64, usize) -> Result<Vec<u8>, String>>(
    reader: EwfReader<F>,
    pos: SeekFrom,
    b: bool,
)
    requires
        call_ensures(EwfReader::<F>::can_seek, (&reader, pos), b),
        reader@.image.total_size < 0x8000_0000_0000_0000,
        reader@.position < 0x8000_0000_0000_0000,
    ensures
        b == match pos {
            SeekFrom::Start(_) => true,
            SeekFrom::End(by) => reader@.image.total_size + by < 0x8000_0000_0000_0000,
            SeekFrom::Current(by) => reader@.position + by < 0x8000_0000_0000_0000,
        },
{
}

/// A read can be served exactly if the chunks of the image hold all that it
/// gets.
pub proof fn law_reads_that_can_be_served<F: Fn(usize, u64, usize) -> Result<Vec<u8>, String>>(
    reader: EwfReader<F>,
    offset: u64,
    len: usize,
    b: bool,
)
    requires
        reader@.image.chunk_size > 0,
        call_ensures(EwfReader::<F>::can_read, (&reader, offset, len), b),
    ensures
        ({
            let total = reader@.image.total_size as int;
            let end = if offset + len <= total {
                offset + len
            } else {
                total
            };
            b <==> offset >= total || len == 0 || end <= reader@.image.chunks.len()
                * reader@.image.chunk_size
        }),
{
    media::law_covered_reads(reader@.image, offset as int, len as int);
}

/// Files that are held in memory serve what they hold and never fail.
pub proof fn law_files_in_memory(
    files: &Vec<Vec<u8>>,
    i: usize,
    offset: u64,
    n: usize,
    r: Result<Vec<u8>, String>,
)
    requires
        i < files@.len(),
        call_ensures(source::memory_read, (files, i, offset, n), r),
    ensures
        r matches Ok(v) && {
            let file = files@[i as int]@;
            &&& offset >= file.len() ==> v@.len() == 0
            &&& offset < file.len() && n <= file.len() - offset ==> v@ == file.subrange(
                offset as int,
                offset + n,
            )
            &&& offset < file.len() && n > file.len() - offset ==> v@ == file.subrange(
                offset as int,
                file.len() as int,
            )
        },
{
}

} // verus!
