//! The reader: bytes of the media at any position.

use lru::LruCache;
use vstd::prelude::*;
use crate::cache;
use crate::cache::{cache_get, cache_len, cache_new, cache_put};
use crate::codec::inflate;
use crate::error;
use crate::error::{EwfError, EwfErrorView, IoError, IoErrorKind, IoErrorView};
use crate::image;
use crate::image::{EwfImage, EwfImageView, MAX_CHUNK_SIZE};
use crate::media::Media;
use crate::open;
use crate::page::{page_from_inflated, page_from_stored};
use crate::sections::{Chunk, DEFAULT_LRU_SIZE};
use crate::source;
use crate::source::read_some;
use crate::types::{AcquisitionError, EwfMetadata, StoredHashes, VerifyResult};
use crate::verify;
use crate::verify::MediaHasher;

verus! {

/// A reader for Expert Witness Format disk images.
///
/// It reads the logical image that is stored across one or more segment files,
/// whose bytes it gets from the function `source`, and remembers the chunks
/// that it decoded last.
pub struct EwfReader<F> {
    source: F,
    lens: Vec<u64>,
    order: Vec<usize>,
    image: EwfImage,
    cache: LruCache<usize, Vec<u8>>,
    position: u64,
}

/// An [`EwfReader`] over sequences.
#[verifier::ext_equal]
#[verifier::reject_recursive_types(F)]
pub struct EwfReaderView<F> {
    /// The function that reads from the segment files.
    pub source: F,
    /// The lengths of the segment files.
    pub lens: Seq<u64>,
    /// Which file each segment is.
    pub order: Seq<usize>,
    /// The image.
    pub image: EwfImageView,
    /// The pages that are remembered, the most recently used first.
    pub cached: Seq<(usize, Seq<u8>)>,
    /// How many pages can be remembered.
    pub capacity: nat,
    /// Where the next sequential read starts.
    pub position: u64,
}

impl<F> View for EwfReader<F> {
    type V = EwfReaderView<F>;

    closed spec fn view(&self) -> EwfReaderView<F> {
        EwfReaderView {
            source: self.source,
            lens: self.lens@,
            order: self.order@,
            image: self.image@,
            cached: cache::cached_pages(self.cache),
            capacity: cache::cache_capacity(self.cache),
            position: self.position,
        }
    }
}

/// What opening an image came to, over sequences.
pub open spec fn opening_view<F>(r: Result<EwfReader<F>, EwfError>) -> Result<
    (Seq<usize>, EwfImageView),
    EwfErrorView,
> {
    match r {
        Ok(reader) => Ok((reader@.order, reader@.image)),
        Err(e) => Err(e@),
    }
}

/// Whether `r` can be what opening the files that `source` serves came to,
/// whichever files those are.
pub open spec fn opens<F: Fn(usize, u64, usize) -> Result<Vec<u8>, String>>(
    source: F,
    lens: Seq<u64>,
    r: Result<(Seq<usize>, EwfImageView), EwfErrorView>,
) -> bool {
    forall|files: Seq<Seq<u8>>| #[trigger]
        source::serves_all(source, lens, files) ==> source::outcome(source, r, open::opened(files))
}

/// The error that a sequential read gives when the reader has the error `cause`.
pub open spec fn read_error(cause: EwfErrorView) -> IoErrorView {
    IoErrorView { kind: IoErrorKind::Other, message: cause.message() }
}

/// Whether `e` is what a sequential read gives when a call of `read` fails.
pub open spec fn failed_read<F: Fn(usize, u64, usize) -> Result<Vec<u8>, String>>(
    read: F,
    e: IoErrorView,
) -> bool {
    exists|cause: EwfErrorView| #[trigger]
        source::failed_with(read, cause) && e == read_error(cause)
}

/// Where a seek goes from.
#[derive(Debug, Clone, Copy, PartialEq, Eq, Structural)]
pub enum SeekFrom {
    /// From the start of the image.
    Start(u64),
    /// From the end of the image.
    End(i64),
    /// From the current position.
    Current(i64),
}

/// A 64-bit offset read as a signed number.
pub open spec fn signed(x: u64) -> int {
    if x <= i64::MAX {
        x as int
    } else {
        x - 0x1_0000_0000_0000_0000
    }
}

fn to_signed(x: u64) -> (r: i64)
    ensures
        r == signed(x),
{
    if x <= i64::MAX as u64 {
        x as i64
    } else {
        -((u64::MAX - x) as i64) - 1
    }
}

/// The pages `cached` after `page` has been used under the key `id`: it comes
/// first, and a full cache loses its last page to one that it did not hold.
pub open spec fn page_used(
    cached: Seq<(usize, Seq<u8>)>,
    capacity: nat,
    id: usize,
    page: Seq<u8>,
) -> Seq<(usize, Seq<u8>)> {
    if cache::has_key(cached, id) {
        seq![(id, page)] + cache::without(cached, id)
    } else if cached.len() == capacity {
        seq![(id, page)] + cached.drop_last()
    } else {
        seq![(id, page)] + cached
    }
}

impl<F: Fn(usize, u64, usize) -> Result<Vec<u8>, String>> EwfReaderView<F> {
    /// The media, if the segment files hold `files`.
    pub open spec fn media(self, files: Seq<Seq<u8>>) -> Media {
        Media { image: self.image, order: self.order, files }
    }

    /// Whether the reader works on segment files that hold `files`: its source
    /// serves them, and what it remembers was decoded from them.
    pub open spec fn reads(self, files: Seq<Seq<u8>>) -> bool {
        &&& source::serves_all(self.source, self.lens, files)
        &&& forall|k: int|
            0 <= k < self.cached.len() ==> self.media(files).page(
                (#[trigger] self.cached[k]).0 as int,
            ) == Ok::<Seq<u8>, EwfErrorView>(self.cached[k].1)
    }

    /// What every reader has.
    pub open spec fn wf(self) -> bool {
        &&& 0 < self.image.chunk_size <= MAX_CHUNK_SIZE
        &&& self.image.wf(self.order.len() as int)
        &&& forall|p: int| 0 <= p < self.order.len() ==> #[trigger] self.order[p] < self.lens.len()
        &&& source::readable(self.source, self.lens.len() as int)
        &&& 1 <= self.capacity
        &&& self.cached.len() <= self.capacity
        &&& forall|k: int|
            0 <= k < self.cached.len() ==> (#[trigger] self.cached[k]).1.len()
                == self.image.chunk_size
    }

    /// Whether a positioned read at `offset` can leave the reader as `after`,
    /// turn a buffer that holds `given` into `filled`, and return `r`.
    pub open spec fn read_done(
        self,
        offset: u64,
        given: Seq<u8>,
        after: EwfReaderView<F>,
        filled: Seq<u8>,
        r: Result<usize, EwfErrorView>,
    ) -> bool {
        &&& after.wf()
        &&& after == EwfReaderView { cached: after.cached, ..self }
        &&& filled.len() == given.len()
        &&& r matches Ok(n) ==> n == self.image.available(offset as int, given.len() as int)
            && filled.skip(n as int) == given.skip(n as int)
        &&& self.image.available(offset as int, given.len() as int) == 0 ==> r == Ok::<
            usize,
            EwfErrorView,
        >(0)
        &&& forall|files: Seq<Seq<u8>>| #[trigger]
            self.reads(files) ==> {
                let media = self.media(files);
                &&& after.reads(files)
                &&& match r {
                    Ok(n) => media.read(offset as int, given.len() as int) == Ok::<
                        Seq<u8>,
                        EwfErrorView,
                    >(filled.take(n as int)),
                    Err(e) => media.read(offset as int, given.len() as int) == Err::<
                        Seq<u8>,
                        EwfErrorView,
                    >(e) || source::failed_with(self.source, e),
                }
                &&& forall|k: int|
                    0 <= k < given.len() ==> (#[trigger] filled[k]) == given[k] || filled[k]
                        == media.byte(offset + k)
            }
    }

    /// Whether a sequential read returns `r` where a positioned read at the same
    /// place returns `positioned`: the same number of bytes, behind which the
    /// position then lies, or an error with the text of the other, after which
    /// the position is where it was.
    pub open spec fn follows(
        self,
        positioned: Result<usize, EwfErrorView>,
        r: Result<usize, IoErrorView>,
        position: u64,
    ) -> bool {
        match positioned {
            Ok(n) => r == Ok::<usize, IoErrorView>(n) && position == self.position + n,
            Err(cause) => r == Err::<usize, IoErrorView>(read_error(cause)) && position
                == self.position,
        }
    }

    /// The position that a seek leads to, or a negative number.
    pub open spec fn seek_target(self, pos: SeekFrom) -> int {
        match pos {
            SeekFrom::Start(p) => signed(p),
            SeekFrom::End(p) => signed(self.image.total_size) + p,
            SeekFrom::Current(p) => signed(self.position) + p,
        }
    }
}

impl<F: Fn(usize, u64, usize) -> Result<Vec<u8>, String>> EwfReader<F> {
    /// Opens an image from its segment files, in any order, and remembers up to
    /// `cache_size` decoded chunks, but at least one.
    ///
    /// `lens` holds the lengths of the files that `source` reads from.
    pub fn open_segments_with_cache_size(lens: Vec<u64>, source: F, cache_size: usize) -> (r:
        Result<EwfReader<F>, EwfError>)
        requires
            source::readable(source, lens@.len() as int),
            cache_size <= usize::MAX / 128,
        ensures
            match r {
                Ok(reader) => {
                    &&& reader@.wf()
                    &&& reader@.source == source
                    &&& reader@.lens == lens@
                    &&& reader@.position == 0
                    &&& reader@.cached.len() == 0
                    &&& reader@.capacity == if cache_size == 0 {
                        1
                    } else {
                        cache_size as nat
                    }
                    &&& forall|files: Seq<Seq<u8>>| #[trigger]
                        source::serves_all(source, lens@, files) ==> reader@.reads(files)
                            && open::opened(files) == Ok::<
                            (Seq<usize>, EwfImageView),
                            EwfErrorView,
                        >((reader@.order, reader@.image))
                },
                Err(e) => forall|files: Seq<Seq<u8>>| #[trigger]
                    source::serves_all(source, lens@, files) ==> open::opened(files) == Err::<
                        (Seq<usize>, EwfImageView),
                        EwfErrorView,
                    >(e@) || source::failed_with(source, e@),
            },
            opens(source, lens@, opening_view(r)),
    {
        match open::load(&source, &lens) {
            Err(e) => Err(e),
            Ok((order, image)) => {
                let capacity: usize = if cache_size == 0 {
                    1
                } else {
                    cache_size
                };
                Ok(
                    EwfReader {
                        source,
                        lens,
                        order,
                        image,
                        cache: cache_new(capacity),
                        position: 0,
                    },
                )
            },
        }
    }

    /// Opens an image from its segment files, in any order.
    pub fn open_segments(lens: Vec<u64>, source: F) -> (r: Result<EwfReader<F>, EwfError>)
        requires
            source::readable(source, lens@.len() as int),
        ensures
            match r {
                Ok(reader) => {
                    &&& reader@.wf()
                    &&& reader@.source == source
                    &&& reader@.lens == lens@
                    &&& reader@.position == 0
                    &&& reader@.cached.len() == 0
                    &&& reader@.capacity == DEFAULT_LRU_SIZE
                    &&& forall|files: Seq<Seq<u8>>| #[trigger]
                        source::serves_all(source, lens@, files) ==> reader@.reads(files)
                            && open::opened(files) == Ok::<
                            (Seq<usize>, EwfImageView),
                            EwfErrorView,
                        >((reader@.order, reader@.image))
                },
                Err(e) => forall|files: Seq<Seq<u8>>| #[trigger]
                    source::serves_all(source, lens@, files) ==> open::opened(files) == Err::<
                        (Seq<usize>, EwfImageView),
                        EwfErrorView,
                    >(e@) || source::failed_with(source, e@),
            },
            opens(source, lens@, opening_view(r)),
    {
        Self::open_segments_with_cache_size(lens, source, DEFAULT_LRU_SIZE)
    }

    /// Decodes a chunk without remembering it.
    pub fn decompress_chunk(&self, chunk_id: usize) -> (r: Result<Vec<u8>, EwfError>)
        requires
            self@.wf(),
            chunk_id < self@.image.chunks.len(),
        ensures
            forall|files: Seq<Seq<u8>>| #[trigger]
                source::serves_all(self@.source, self@.lens, files) ==> source::outcome(
                    self@.source,
                    error::viewed(r),
                    self@.media(files).page(chunk_id as int),
                ),
            r matches Ok(page) ==> page@.len() == self@.image.chunk_size,
    {
        let chunk: Chunk = self.image.chunks[chunk_id];
        let chunk_size: usize = self.image.chunk_size as usize;
        let file: usize = self.order[chunk.segment_idx];
        let wanted: usize = if chunk.compressed || chunk.size < self.image.chunk_size {
            chunk.size as usize
        } else {
            chunk_size
        };
        match read_some(&self.source, file, chunk.offset, wanted) {
            Err(e) => Err(e),
            Ok(data) => {
                assert forall|files: Seq<Seq<u8>>| #[trigger]
                    source::serves_all(self@.source, self@.lens, files) implies data@
                    == source::window(
                    files[file as int],
                    chunk.offset as int,
                    wanted as int,
                ) by {
                    assert(source::serves(
                        self.source,
                        file,
                        self.lens@[file as int],
                        files[file as int],
                    ));
                }
                if chunk.compressed {
                    page_from_inflated(
                        inflate(data.as_slice(), self.image.chunk_size),
                        chunk_size,
                    )
                } else if data.len() > chunk_size {
                    // More than was asked for: no file reads like this.
                    Err(crate::error::short_read_error())
                } else {
                    page_from_stored(data, wanted, chunk_id, chunk_size)
                }
            },
        }
    }

    /// Decodes a chunk, or takes it from the pages that are remembered.
    pub fn read_chunk(&mut self, chunk_id: usize) -> (r: Result<Vec<u8>, EwfError>)
        requires
            old(self)@.wf(),
            chunk_id < old(self)@.image.chunks.len(),
        ensures
            final(self)@.wf(),
            final(self)@ == (EwfReaderView { cached: final(self)@.cached, ..old(self)@ }),
            match r {
                Ok(page) => final(self)@.cached == page_used(
                    old(self)@.cached,
                    old(self)@.capacity,
                    chunk_id,
                    page@,
                ) && page@.len() == old(self)@.image.chunk_size,
                Err(_) => final(self)@.cached == old(self)@.cached,
            },
            cache::has_key(old(self)@.cached, chunk_id) ==> (r matches Ok(page) && old(
                self,
            )@.cached.contains((chunk_id, page@))),
            forall|files: Seq<Seq<u8>>| #[trigger]
                old(self)@.reads(files) ==> final(self)@.reads(files) && source::outcome(
                    old(self)@.source,
                    error::viewed(r),
                    old(self)@.media(files).page(chunk_id as int),
                ),
    {
        let ghost before = self@;
        proof {
            cache::lemma_without(before.cached, chunk_id);
        }
        match cache_get(&mut self.cache, chunk_id) {
            Some(page) => {
                proof {
                    let k = choose|k: int|
                        0 <= k < before.cached.len() && before.cached[k] == (chunk_id, page@);
                    lemma_page_used(before, chunk_id, page@);
                    assert(self@ =~= EwfReaderView {
                        cached: page_used(before.cached, before.capacity, chunk_id, page@),
                        ..before
                    });
                }
                Ok(page)
            },
            None => match self.decompress_chunk(chunk_id) {
                Err(e) => Err(e),
                Ok(page) => {
                    let kept: Vec<u8> = page.clone();
                    assert(kept@ =~= page@);
                    cache_put(&mut self.cache, chunk_id, kept);
                    proof {
                        lemma_page_used(before, chunk_id, page@);
                        assert(self@ =~= EwfReaderView {
                            cached: page_used(before.cached, before.capacity, chunk_id, page@),
                            ..before
                        });
                    }
                    Ok(page)
                },
            },
        }
    }

    /// Reads from the chunk that byte `at` lies in, up to the end of the chunk
    /// and at most `left` bytes, to position `done` of `buf`.
    fn read_piece(&mut self, buf: &mut [u8], done: usize, at: u64, left: usize) -> (r: Result<
        usize,
        EwfError,
    >)
        requires
            old(self)@.wf(),
            at / old(self)@.image.chunk_size < old(self)@.image.chunks.len(),
            0 < left,
            done + left <= old(buf)@.len(),
        ensures
            final(self)@.wf(),
            final(self)@ == (EwfReaderView { cached: final(self)@.cached, ..old(self)@ }),
            final(buf)@.len() == old(buf)@.len(),
            forall|files: Seq<Seq<u8>>| #[trigger]
                old(self)@.reads(files) ==> final(self)@.reads(files),
            match r {
                Err(e) => {
                    &&& final(buf)@ == old(buf)@
                    &&& forall|files: Seq<Seq<u8>>| #[trigger]
                        old(self)@.reads(files) ==> old(self)@.media(files).page(
                            (at / old(self)@.image.chunk_size) as int,
                        ) == Err::<Seq<u8>, EwfErrorView>(e@) || source::failed_with(
                            old(self)@.source,
                            e@,
                        )
                },
                Ok(count) => {
                    &&& 0 < count <= left
                    &&& (at + count - 1) / (old(self)@.image.chunk_size as int) == at
                        / old(self)@.image.chunk_size
                    &&& count < left ==> (at + count) / (old(self)@.image.chunk_size as int) == at
                        / old(self)@.image.chunk_size + 1
                    &&& forall|k: int|
                        0 <= k < old(buf)@.len() && !(done <= k < done + count) ==> (
                        #[trigger] final(buf)@[k]) == old(buf)@[k]
                    &&& forall|files: Seq<Seq<u8>>| #[trigger]
                        old(self)@.reads(files) ==> {
                            &&& old(self)@.media(files).page(
                                (at / old(self)@.image.chunk_size) as int,
                            ) is Ok
                            &&& forall|k: int|
                                done <= k < done + count ==> #[trigger] final(buf)@[k] == old(
                                    self,
                                )@.media(files).byte(at + (k - done))
                        }
                },
            },
    {
        let ghost before = self@;
        let ghost cs = before.image.chunk_size as int;
        let chunk_size: u64 = self.image.chunk_size;
        let page_offset: u64 = at % chunk_size;
        let in_chunk: u64 = chunk_size - page_offset;
        let count: usize = if in_chunk < left as u64 {
            in_chunk as usize
        } else {
            left
        };
        proof {
            assert(self.image.chunks@.len() == self.image.chunks.len());
        }
        let chunk_id: usize = (at / chunk_size) as usize;
        match self.read_chunk(chunk_id) {
            Err(e) => Err(e),
            Ok(page) => {
                copy_into(buf, done, &page, page_offset as usize, count);
                proof {
                    lemma_same_chunk(at as int, cs, count as int);
                    assert forall|files: Seq<Seq<u8>>| #[trigger]
                        before.reads(files) implies before.media(files).page(chunk_id as int) is Ok
                        && forall|k: int|
                        done <= k < done + count ==> #[trigger] buf@[k] == before.media(files).byte(
                            at + (k - done),
                        ) by {
                        let media = before.media(files);
                        assert(media.page(chunk_id as int) == Ok::<Seq<u8>, EwfErrorView>(page@));
                        assert forall|k: int| done <= k < done + count implies #[trigger] buf@[k]
                            == media.byte(at + (k - done)) by {
                            let j = k - done;
                            assert((at + j) / cs == chunk_id && (at + j) % cs == page_offset + j);
                        }
                    }
                }
                Ok(count)
            },
        }
    }

    /// Reads the bytes at `offset` of the image, as many as `buf` has room for.
    /// Fewer are read only at the end of the image.
    pub fn read_at(&mut self, buf: &mut [u8], offset: u64) -> (r: Result<usize, EwfError>)
        requires
            old(self)@.wf(),
            old(self)@.image.covers(offset as int, old(buf)@.len() as int),
        ensures
            old(self)@.read_done(
                offset,
                old(buf)@,
                final(self)@,
                final(buf)@,
                error::viewed(r),
            ),
    {
        let ghost before = self@;
        let ghost given = buf@;
        let ghost cs = before.image.chunk_size as int;
        let n: usize = self.image.available(offset, buf.len());
        let ghost first = offset as int / cs;
        let ghost mut hi: int = first;
        let mut done: usize = 0;
        while done < n
            invariant
                self@.wf(),
                self@ == (EwfReaderView { cached: self@.cached, ..before }),
                before == old(self)@,
                given == old(buf)@,
                buf@.len() == given.len(),
                before.image.covers(offset as int, given.len() as int),
                cs == before.image.chunk_size as int,
                cs > 0,
                n == before.image.available(offset as int, given.len() as int),
                n <= given.len(),
                done <= n,
                first == offset as int / cs,
                first <= hi,
                done < n ==> hi == (offset + done) / cs,
                done > 0 ==> hi == (offset + done - 1) / cs + 1,
                forall|k: int| done <= k < given.len() ==> buf@[k] == given[k],
                forall|files: Seq<Seq<u8>>| #[trigger]
                    before.reads(files) ==> {
                        &&& self@.reads(files)
                        &&& forall|id: int|
                            first <= id < hi ==> (#[trigger] before.media(files).page(id)) is Ok
                        &&& forall|k: int|
                            0 <= k < done ==> #[trigger] buf@[k] == before.media(files).byte(
                                offset + k,
                            )
                    },
            decreases n - done,
        {
            let at: u64 = offset + done as u64;
            proof {
                vstd::arithmetic::div_mod::lemma_div_is_ordered(at as int, offset + n - 1, cs);
            }
            let ghost reader_before = self@;
            let ghost earlier = buf@;
            match self.read_piece(buf, done, at, n - done) {
                Err(e) => {
                    proof {
                        assert forall|files: Seq<Seq<u8>>| #[trigger]
                            before.reads(files) implies before.media(files).read(
                            offset as int,
                            given.len() as int,
                        ) == Err::<Seq<u8>, EwfErrorView>(e@) || source::failed_with(
                            before.source,
                            e@,
                        ) by {
                            let media = before.media(files);
                            assert(reader_before.reads(files));
                            assert(reader_before.media(files) == media);
                            if !source::failed_with(before.source, e@) {
                                media.lemma_first_fault(
                                    first,
                                    at as int / cs,
                                    (offset + n - 1) / cs + 1,
                                );
                            }
                        }
                    }
                    return Err(e);
                },
                Ok(count) => {
                    proof {
                        hi = at as int / cs + 1;
                        assert forall|files: Seq<Seq<u8>>| #[trigger]
                            before.reads(files) implies ({
                            &&& self@.reads(files)
                            &&& forall|id: int|
                                first <= id < hi ==> (#[trigger] before.media(files).page(id)) is Ok
                            &&& forall|k: int|
                                0 <= k < done + count ==> #[trigger] buf@[k] == before.media(
                                    files,
                                ).byte(offset + k)
                        }) by {
                            let media = before.media(files);
                            assert(reader_before.reads(files));
                            assert(reader_before.media(files) == media);
                            assert forall|k: int| 0 <= k < done + count implies (
                            #[trigger] buf@[k]) == media.byte(offset + k) by {
                                if k < done {
                                    assert(buf@[k] == earlier[k]);
                                } else {
                                    assert(at + (k - done) == offset + k);
                                }
                            }
                        }
                    }
                    done = done + count;
                },
            }
        }
        proof {
            assert forall|files: Seq<Seq<u8>>| #[trigger] before.reads(files) implies before.media(
                files,
            ).read(offset as int, given.len() as int) == Ok::<Seq<u8>, EwfErrorView>(
                buf@.take(n as int),
            ) by {
                let media = before.media(files);
                if n > 0 {
                    media.lemma_no_fault(first, hi);
                    assert(buf@.take(n as int) =~= Seq::new(
                        n as nat,
                        |k: int| media.byte(offset + k),
                    ));
                } else {
                    assert(buf@.take(n as int) =~= Seq::<u8>::empty());
                }
            }
            assert(buf@.skip(n as int) =~= given.skip(n as int));
        }
        Ok(n)
    }

    /// Reads the bytes at the current position, as many as `buf` has room for,
    /// and moves the position behind them.
    pub fn read(&mut self, buf: &mut [u8]) -> (r: Result<usize, IoError>)
        requires
            old(self)@.wf(),
            old(self)@.image.covers(old(self)@.position as int, old(buf)@.len() as int),
        ensures
            exists|positioned: Result<usize, EwfErrorView>|
                old(self)@.read_done(
                    old(self)@.position,
                    old(buf)@,
                    (EwfReaderView { position: old(self)@.position, ..final(self)@ }),
                    final(buf)@,
                    positioned,
                ) && #[trigger] old(self)@.follows(positioned, error::io_viewed(r), final(self)@.position),
            final(self)@.wf(),
            final(self)@ == (EwfReaderView {
                cached: final(self)@.cached,
                position: final(self)@.position,
                ..old(self)@
            }),
            final(buf)@.len() == old(buf)@.len(),
            match r {
                Ok(n) => {
                    &&& n == old(self)@.image.available(
                        old(self)@.position as int,
                        old(buf)@.len() as int,
                    )
                    &&& final(self)@.position == old(self)@.position + n
                    &&& final(buf)@.skip(n as int) == old(buf)@.skip(n as int)
                },
                Err(e) => final(self)@.position == old(self)@.position,
            },
            old(self)@.image.available(old(self)@.position as int, old(buf)@.len() as int) == 0
                ==> (r matches Ok(n) && n == 0),
            forall|files: Seq<Seq<u8>>| #[trigger]
                old(self)@.reads(files) ==> final(self)@.reads(files) && match r {
                    Ok(n) => old(self)@.media(files).read(
                        old(self)@.position as int,
                        old(buf)@.len() as int,
                    ) == Ok::<Seq<u8>, EwfErrorView>(final(buf)@.take(n as int)),
                    Err(e) => {
                        ||| old(self)@.media(files).read(
                            old(self)@.position as int,
                            old(buf)@.len() as int,
                        ) matches Err(cause) && e@ == read_error(cause)
                        ||| failed_read(old(self)@.source, e@)
                    },
                },
    {
        let position: u64 = self.position;
        let positioned: Result<usize, EwfError> = self.read_at(buf, position);
        let ghost after = self@;
        let ghost outcome = error::viewed(positioned);
        assert(old(self)@.read_done(position, old(buf)@, after, buf@, outcome));
        match positioned {
            Ok(n) => {
                self.position = position + n as u64;
                assert(after == EwfReaderView { position, ..self@ });
                assert(old(self)@.follows(outcome, Ok(n), self@.position));
                Ok(n)
            },
            Err(e) => {
                assert(after == EwfReaderView { position, ..self@ });
                let message: String = e.message();
                assert(old(self)@.follows(
                    outcome,
                    Err(IoErrorView { kind: IoErrorKind::Other, message: message@ }),
                    self@.position,
                ));
                Err(IoError { kind: IoErrorKind::Other, message })
            },
        }
    }

    /// Moves the position. It can lie behind the end of the image, but not
    /// before its start.
    pub fn seek(&mut self, pos: SeekFrom) -> (r: Result<u64, IoError>)
        requires
            i64::MIN <= old(self)@.seek_target(pos) <= i64::MAX,
        ensures
            match r {
                Ok(at) => {
                    &&& at == old(self)@.seek_target(pos)
                    &&& final(self)@ == (EwfReaderView { position: at, ..old(self)@ })
                },
                Err(e) => {
                    &&& old(self)@.seek_target(pos) < 0
                    &&& e@ == (IoErrorView {
                        kind: IoErrorKind::InvalidInput,
                        message: "seek to negative position"@,
                    })
                    &&& final(self)@ == old(self)@
                },
            },
    {
        let target: i64 = match pos {
            SeekFrom::Start(p) => to_signed(p),
            SeekFrom::End(p) => to_signed(self.image.total_size) + p,
            SeekFrom::Current(p) => to_signed(self.position) + p,
        };
        if target < 0 {
            return Err(
                IoError {
                    kind: IoErrorKind::InvalidInput,
                    message: "seek to negative position".to_owned(),
                },
            );
        }
        self.position = target as u64;
        Ok(self.position)
    }

    /// Checks the media of the image against the stored hashes: MD5, and SHA-1
    /// if the image stores one.
    pub fn verify(&self) -> (r: Result<VerifyResult, EwfError>)
        requires
            self@.wf(),
        ensures
            forall|files: Seq<Seq<u8>>| #[trigger]
                source::serves_all(self@.source, self@.lens, files) ==> source::outcome(
                    self@.source,
                    error::viewed(r),
                    self@.media(files).verified(),
                ),
    {
        let ghost cs = self.image.chunk_size as int;
        let ghost total = self.image.total_size as int;
        let mut hasher: MediaHasher = MediaHasher::new(self.image.hashes, self.image.total_size);
        let mut id: usize = 0;
        while id < self.image.chunks.len()
            invariant
                self@.wf(),
                cs == self.image.chunk_size as int,
                total == self.image.total_size as int,
                id <= self.image.chunks@.len(),
                hasher.wf(),
                hasher.stored() == self.image.hashes,
                hasher.fed().len() == least(id * cs, total),
                hasher.left() == total - least(id * cs, total),
                forall|files: Seq<Seq<u8>>| #[trigger]
                    source::serves_all(self@.source, self@.lens, files) ==> {
                        &&& forall|k: int|
                            0 <= k < id ==> (#[trigger] self@.media(files).page(k)) is Ok
                        &&& forall|k: int|
                            0 <= k < hasher.fed().len() ==> #[trigger] hasher.fed()[k]
                                == self@.media(files).byte(k)
                    },
            decreases self.image.chunks@.len() - id,
        {
            match self.decompress_chunk(id) {
                Err(e) => {
                    proof {
                        assert forall|files: Seq<Seq<u8>>| #[trigger]
                            source::serves_all(self@.source, self@.lens, files) implies source::outcome(
                            self@.source,
                            Err::<verify::VerifyResultView, EwfErrorView>(e@),
                            self@.media(files).verified(),
                        ) by {
                            if !source::failed_with(self@.source, e@) {
                                self@.media(files).lemma_first_fault(
                                    0,
                                    id as int,
                                    self.image.chunks@.len() as int,
                                );
                            }
                        }
                    }
                    return Err(e);
                },
                Ok(page) => {
                    let ghost fed = hasher.fed();
                    let ghost taken = least(cs, total - least(id * cs, total));
                    hasher.absorb(page.as_slice());
                    proof {
                        assert((id + 1) * cs == id * cs + cs) by (nonlinear_arith);
                        assert forall|files: Seq<Seq<u8>>| #[trigger]
                            source::serves_all(self@.source, self@.lens, files) implies ({
                            &&& forall|k: int|
                                0 <= k < id + 1 ==> (#[trigger] self@.media(files).page(k)) is Ok
                            &&& forall|k: int|
                                0 <= k < hasher.fed().len() ==> #[trigger] hasher.fed()[k]
                                    == self@.media(files).byte(k)
                        }) by {
                            let media = self@.media(files);
                            assert(media.page(id as int) == Ok::<Seq<u8>, EwfErrorView>(page@));
                            assert forall|k: int| 0 <= k < hasher.fed().len() implies (
                            #[trigger] hasher.fed()[k]) == media.byte(k) by {
                                if k < fed.len() {
                                    assert(hasher.fed()[k] == fed[k]);
                                } else {
                                    let j = k - fed.len();
                                    assert(hasher.fed()[k] == page@[j]);
                                    vstd::arithmetic::div_mod::lemma_fundamental_div_mod_converse(
                                        k,
                                        cs,
                                        id as int,
                                        j,
                                    );
                                }
                            }
                        }
                    }
                    id += 1;
                },
            }
        }
        proof {
            assert forall|files: Seq<Seq<u8>>| #[trigger]
                source::serves_all(self@.source, self@.lens, files) implies self@.media(
                files,
            ).verified() == Ok::<verify::VerifyResultView, EwfErrorView>(
                verify::checked(hasher.fed(), self@.image.md5, self@.image.sha1),
            ) by {
                self@.media(files).lemma_no_fault(0, self.image.chunks@.len() as int);
                assert(hasher.fed() =~= self@.media(files).content());
            }
        }
        Ok(hasher.finish())
    }

    /// Total logical size of the image in bytes.
    #[must_use]
    pub fn total_size(&self) -> (r: u64)
        ensures
            r == self@.image.total_size,
    {
        self.image.total_size
    }

    /// Chunk size in bytes.
    #[must_use]
    pub fn chunk_size(&self) -> (r: u64)
        ensures
            r == self@.image.chunk_size,
    {
        self.image.chunk_size
    }

    /// Number of chunks in the image.
    #[must_use]
    pub fn chunk_count(&self) -> (r: usize)
        ensures
            r == self@.image.chunks.len(),
    {
        self.image.chunks.len()
    }

    /// Where one chunk is stored.
    pub fn chunk_meta(&self, idx: usize) -> (r: &Chunk)
        requires
            idx < self@.image.chunks.len(),
        ensures
            *r == self@.image.chunks[idx as int],
    {
        &self.image.chunks[idx]
    }

    /// The integrity hashes stored within the image by the acquisition tool.
    #[must_use]
    pub fn stored_hashes(&self) -> (r: StoredHashes)
        ensures
            image::array_bytes(r.md5) == self@.image.md5,
            image::array_bytes(r.sha1) == self@.image.sha1,
    {
        self.image.hashes
    }

    /// Case and acquisition metadata from the header sections.
    #[must_use]
    pub fn metadata(&self) -> (r: &EwfMetadata)
        ensures
            r@ == self@.image.metadata,
    {
        &self.image.metadata
    }

    /// Sectors that had read errors during acquisition.
    #[must_use]
    pub fn acquisition_errors(&self) -> (r: &[AcquisitionError])
        ensures
            r@ == self@.image.acquisition_errors,
    {
        self.image.acquisition_errors.as_slice()
    }

    /// Number of segment files.
    pub fn segment_count(&self) -> (r: usize)
        ensures
            r == self@.order.len(),
    {
        self.order.len()
    }

    /// Number of decoded chunks that are remembered.
    pub fn cached_chunks(&self) -> (r: usize)
        ensures
            r == self@.cached.len(),
    {
        cache_len(&self.cache)
    }

    /// Where the next sequential read starts.
    pub fn position(&self) -> (r: u64)
        ensures
            r == self@.position,
    {
        self.position
    }

    /// Whether a read of `len` bytes at `offset` can be served: the chunks of
    /// the image cover what it gets.
    pub fn can_read(&self, offset: u64, len: usize) -> (r: bool)
        requires
            self@.wf(),
        ensures
            r == self@.image.covers(offset as int, len as int),
    {
        self.image.covers(offset, len)
    }

    /// Whether `pos` leads to a position that can be computed.
    pub fn can_seek(&self, pos: SeekFrom) -> (r: bool)
        ensures
            r == (i64::MIN <= self@.seek_target(pos) <= i64::MAX),
    {
        match pos {
            SeekFrom::Start(_) => true,
            SeekFrom::End(p) => to_signed(self.image.total_size).checked_add(p).is_some(),
            SeekFrom::Current(p) => to_signed(self.position).checked_add(p).is_some(),
        }
    }
}

/// Two reads at the same place agree. Where both succeed they get the same
/// bytes, whatever either of them remembers afterwards; where one fails, the
/// other fails in the same way or by its source, unless it was the source that
/// failed the first.
pub proof fn law_reads_at_one_place_agree<F: Fn(usize, u64, usize) -> Result<Vec<u8>, String>>(
    reader: EwfReaderView<F>,
    files: Seq<Seq<u8>>,
    offset: u64,
    given: Seq<u8>,
    after: EwfReaderView<F>,
    filled: Seq<u8>,
    r: Result<usize, EwfErrorView>,
    other_after: EwfReaderView<F>,
    other_filled: Seq<u8>,
    other_r: Result<usize, EwfErrorView>,
)
    requires
        reader.reads(files),
        reader.read_done(offset, given, after, filled, r),
        reader.read_done(offset, given, other_after, other_filled, other_r),
    ensures
        r is Ok && other_r is Ok ==> r == other_r && filled == other_filled,
        r matches Err(e) ==> source::failed_with(reader.source, e) || (other_r matches Err(f) && (f
            == e || source::failed_with(reader.source, f))),
{
    if r is Ok && other_r is Ok {
        let n = r->Ok_0 as int;
        assert(filled =~= filled.take(n) + filled.skip(n));
        assert(other_filled =~= other_filled.take(n) + other_filled.skip(n));
    }
}

/// The smaller of two numbers.
pub open spec fn least(a: int, b: int) -> int {
    if a < b {
        a
    } else {
        b
    }
}

/// The bytes from `at` up to the end of its chunk lie in that chunk.
proof fn lemma_same_chunk(at: int, cs: int, count: int)
    requires
        cs > 0,
        0 <= at,
        0 < count <= cs - at % cs,
    ensures
        forall|j: int|
            0 <= j < count ==> (#[trigger] (at + j)) / cs == at / cs && (at + j) % cs == at % cs
                + j,
        (at + count - 1) / cs == at / cs,
        count == cs - at % cs ==> (at + count) / cs == at / cs + 1,
{
    vstd::arithmetic::div_mod::lemma_fundamental_div_mod(at, cs);
    let id = at / cs;
    assert(at == id * cs + at % cs) by {
        assert(cs * id == id * cs) by (nonlinear_arith);
    }
    assert forall|j: int| 0 <= j < count implies (#[trigger] (at + j)) / cs == id && (at + j) % cs
        == at % cs + j by {
        vstd::arithmetic::div_mod::lemma_fundamental_div_mod_converse(at + j, cs, id, at % cs + j);
    }
    assert((at + (count - 1)) / cs == id);
    if count == cs - at % cs {
        assert((id + 1) * cs == id * cs + cs) by (nonlinear_arith);
        vstd::arithmetic::div_mod::lemma_fundamental_div_mod_converse(at + count, cs, id + 1, 0);
    }
}

/// Copies `count` bytes of `page` from `from` on to position `at` of `buf`.
fn copy_into(buf: &mut [u8], at: usize, page: &Vec<u8>, from: usize, count: usize)
    requires
        at + count <= old(buf)@.len(),
        from + count <= page@.len(),
    ensures
        final(buf)@.len() == old(buf)@.len(),
        forall|k: int|
            0 <= k < old(buf)@.len() ==> #[trigger] final(buf)@[k] == if at <= k < at + count {
                page@[from + (k - at)]
            } else {
                old(buf)@[k]
            },
{
    let mut j: usize = 0;
    while j < count
        invariant
            j <= count,
            at + count <= buf.len() == buf@.len(),
            buf@.len() == old(buf)@.len(),
            from + count <= page.len() == page@.len(),
            forall|k: int|
                0 <= k < old(buf)@.len() ==> #[trigger] buf@[k] == if at <= k < at + j {
                    page@[from + (k - at)]
                } else {
                    old(buf)@[k]
                },
        decreases count - j,
    {
        buf[at + j] = page[from + j];
        j += 1;
    }
}

/// Using a page keeps what every reader has, and what is remembered of the
/// segment files if the page is theirs.
proof fn lemma_page_used<F: Fn(usize, u64, usize) -> Result<Vec<u8>, String>>(
    before: EwfReaderView<F>,
    id: usize,
    page: Seq<u8>,
)
    requires
        before.wf(),
        page.len() == before.image.chunk_size,
    ensures
        ({
            let after = EwfReaderView {
                cached: page_used(before.cached, before.capacity, id, page),
                ..before
            };
            &&& after.wf()
            &&& forall|files: Seq<Seq<u8>>|
                before.reads(files) && before.media(files).page(id as int) == Ok::<
                    Seq<u8>,
                    EwfErrorView,
                >(page) ==> #[trigger] after.reads(files)
        }),
{
    let cached = page_used(before.cached, before.capacity, id, page);
    let after = EwfReaderView { cached, ..before };
    cache::lemma_without(before.cached, id);
    assert forall|k: int| 0 <= k < cached.len() implies #[trigger] cached[k] == (id, page)
        || before.cached.contains(cached[k]) by {
        if k > 0 {
            if cache::has_key(before.cached, id) {
                assert(cached[k] == cache::without(before.cached, id)[k - 1]);
                assert(cache::without(before.cached, id).contains(cached[k]));
            } else {
                assert(cached[k] == before.cached[k - 1]);
            }
        }
    }
    assert forall|files: Seq<Seq<u8>>|
        before.reads(files) && before.media(files).page(id as int) == Ok::<
            Seq<u8>,
            EwfErrorView,
        >(page) implies #[trigger] after.reads(files) by {
        assert(after.media(files) == before.media(files));
        assert forall|k: int| 0 <= k < cached.len() implies after.media(files).page(
            (#[trigger] cached[k]).0 as int,
        ) == Ok::<Seq<u8>, EwfErrorView>(cached[k].1) by {
            if cached[k] != (id, page) {
                let j = choose|j: int| 0 <= j < before.cached.len() && before.cached[j] == cached[k];
                assert(before.media(files).page(before.cached[j].0 as int) == Ok::<
                    Seq<u8>,
                    EwfErrorView,
                >(before.cached[j].1));
            }
        }
    }
}

} // verus!
