//! The media of an image: its pages, what reading it gives and what checking it
//! against the stored hashes says.

use vstd::prelude::*;
use crate::codec;
use crate::error::{EwfErrorView, IoErrorKind};
use crate::image::EwfImageView;
use crate::media::Media;
use crate::page;
use crate::source;
use crate::text;
use crate::verify;

verus! {

/// Where the media is checked, an MD5 is compared exactly if one is stored, and
/// matches exactly if it is the one that was computed; so with the SHA-1, which
/// is computed exactly if one is stored. Neither depends on the other.
pub proof fn law_each_stored_hash_is_compared(media: Media)
    ensures
        media.verified() matches Ok(v) ==> {
            &&& v.md5_match is Some <==> media.image.md5 is Some
            &&& v.md5_match matches Some(b) ==> (b <==> media.image.md5 == Some(v.computed_md5))
            &&& v.computed_sha1 is Some <==> media.image.sha1 is Some
            &&& v.sha1_match is Some <==> media.image.sha1 is Some
            &&& v.sha1_match matches Some(b) ==> (b <==> media.image.sha1 == v.computed_sha1)
            &&& v.computed_md5 == codec::md5_digest(media.content())
            &&& v.computed_sha1 matches Some(h) ==> h == codec::sha1_digest(media.content())
        },
{
}

/// The same of any bytes and any stored hashes.
pub proof fn law_hashes_are_checked_apart(
    media: Seq<u8>,
    md5: Option<Seq<u8>>,
    sha1: Option<Seq<u8>>,
)
    ensures
        ({
            let v = verify::checked(media, md5, sha1);
            &&& v.computed_md5 == codec::md5_digest(media)
            &&& v.md5_match is Some <==> md5 is Some
            &&& v.md5_match matches Some(b) ==> (b <==> md5 == Some(v.computed_md5))
            &&& v.computed_sha1 is Some <==> sha1 is Some
            &&& v.computed_sha1 matches Some(h) ==> h == codec::sha1_digest(media)
            &&& v.sha1_match is Some <==> sha1 is Some
            &&& v.sha1_match matches Some(b) ==> (b <==> sha1 == v.computed_sha1)
        }),
        // A stored hash of one kind does not change what is said of the other.
        forall|other: Option<Seq<u8>>|
            {
                let v = verify::checked(media, md5, sha1);
                let w = #[trigger] verify::checked(media, md5, other);
                w.computed_md5 == v.computed_md5 && w.md5_match == v.md5_match
            },
        forall|other: Option<Seq<u8>>|
            {
                let v = verify::checked(media, md5, sha1);
                let w = #[trigger] verify::checked(media, other, sha1);
                w.computed_sha1 == v.computed_sha1 && w.sha1_match == v.sha1_match
            },
{
}

/// The media is checked exactly if every chunk can be decoded. Otherwise the
/// first that cannot gives the error.
pub proof fn law_first_damaged_chunk_ends_the_check(media: Media, k: int)
    requires
        0 <= k <= media.image.chunks.len(),
        forall|j: int| 0 <= j < k ==> (#[trigger] media.page(j)) is Ok,
    ensures
        k == media.image.chunks.len() ==> media.verified() is Ok,
        k < media.image.chunks.len() ==> (media.page(k) matches Err(e) ==> (
        media.verified() matches Err(f) && f == e)),
{
    if k == media.image.chunks.len() {
        media.lemma_no_fault(0, k);
    } else if media.page(k) is Err {
        media.lemma_first_fault(0, k, media.image.chunks.len() as int);
    }
}

/// What the chunks hold of the media goes no further than its size, and is made
/// of the pages one after the other.
pub proof fn law_content_is_made_of_pages(media: Media, x: int, at: int)
    requires
        media.image.chunk_size > 0,
        0 <= x < media.image.chunks.len(),
        0 <= at < media.image.chunk_size,
    ensures
        ({
            let held = media.image.chunks.len() * media.image.chunk_size;
            let n = media.content().len();
            let i = x * media.image.chunk_size + at;
            &&& n <= held && n <= media.image.total_size
            &&& n == held || n == media.image.total_size
            &&& i < n ==> (media.page(x) matches Ok(p) ==> media.content()[i] == p[at])
        }),
{
    let cs = media.image.chunk_size as int;
    let count = media.image.chunks.len() as int;
    let i = x * cs + at;
    assert(0 <= x * cs && 0 <= count * cs) by (nonlinear_arith)
        requires
            0 <= x,
            0 <= count,
            0 < cs,
    ;
    vstd::arithmetic::div_mod::lemma_fundamental_div_mod_converse(i, cs, x, at);
}

/// The page of a chunk that is stored as it is has the bytes of the file from its
/// place on, and zeros up to the size of a chunk. Where the file ends before
/// them, how many are there is told.
pub proof fn law_page_of_stored_chunk(media: Media, x: int)
    requires
        0 <= x < media.image.chunks.len(),
        !media.image.chunks[x].compressed,
    ensures
        ({
            let c = media.image.chunks[x];
            let cs = media.image.chunk_size as int;
            let file = media.files[media.order[c.segment_idx as int] as int];
            let wanted = if c.size < cs {
                c.size as int
            } else {
                cs
            };
            let there = if c.offset >= file.len() {
                0
            } else {
                file.len() - c.offset
            };
            &&& wanted <= there ==> (media.page(x) matches Ok(p) && p.len() == cs && forall|j: int|
                0 <= j < cs ==> #[trigger] p[j] == if j < wanted {
                    file[c.offset + j]
                } else {
                    0
                })
            &&& wanted > there ==> (media.page(x) matches Err(EwfErrorView::Io(e)) && e.kind
                == IoErrorKind::UnexpectedEof && e.message == "short read for chunk "@
                + text::decimal(x as nat) + ": got "@ + text::decimal(there as nat) + " of "@
                + text::decimal(wanted as nat) + " bytes"@)
        }),
{
}

/// The page of a compressed chunk is what its stream decompresses to, and zeros
/// up to the size of a chunk. A stream that gives nothing is refused, and so is
/// one that is damaged right behind a full page.
pub proof fn law_page_of_compressed_chunk(media: Media, x: int)
    requires
        0 <= x < media.image.chunks.len(),
        media.image.chunks[x].compressed,
    ensures
        ({
            let c = media.image.chunks[x];
            let cs = media.image.chunk_size as int;
            let file = media.files[media.order[c.segment_idx as int] as int];
            let from = if c.offset < file.len() {
                c.offset as int
            } else {
                file.len() as int
            };
            let to = if c.offset + c.size < file.len() {
                c.offset + c.size
            } else {
                file.len() as int
            };
            match codec::inflated(file.subrange(from, to), media.image.chunk_size) {
                Err(m) => media.page(x) == Err::<Seq<u8>, EwfErrorView>(
                    EwfErrorView::Decompression(m),
                ),
                Ok((plain, fault)) => if plain.len() == cs && fault is Some {
                    media.page(x) == Err::<Seq<u8>, EwfErrorView>(
                        EwfErrorView::Decompression(fault->Some_0),
                    )
                } else {
                    media.page(x) matches Ok(p) && p.take(plain.len() as int) == plain && (
                    plain.len() <= cs ==> p.len() == cs) && forall|j: int|
                        plain.len() <= j < p.len() ==> #[trigger] p[j] == 0
                },
            }
        }),
{
    let c = media.image.chunks[x];
    let file = media.files[media.order[c.segment_idx as int] as int];
    let from = if c.offset < file.len() {
        c.offset as int
    } else {
        file.len() as int
    };
    let to = if c.offset + c.size < file.len() {
        c.offset + c.size
    } else {
        file.len() as int
    };
    assert(source::window(file, c.offset as int, c.size as int) =~= file.subrange(from, to));
    match codec::inflated(file.subrange(from, to), media.image.chunk_size) {
        Ok((plain, fault)) => {
            let p = page::padded(plain, media.image.chunk_size as int);
            assert(p.take(plain.len() as int) =~= plain);
        },
        Err(_) => {},
    }
}

/// A read gives as many bytes as are asked for, as far as the media goes, each
/// of them from its place in its page.
pub proof fn law_reads_end_with_the_media(media: Media, offset: int, len: int)
    requires
        media.image.chunk_size > 0,
        0 <= offset,
        0 <= len,
    ensures
        ({
            let total = media.image.total_size as int;
            let cs = media.image.chunk_size as int;
            media.read(offset, len) matches Ok(s) ==> {
                &&& offset >= total ==> s.len() == 0
                &&& offset < total ==> s.len() == if len <= total - offset {
                    len
                } else {
                    total - offset
                }
                &&& forall|k: int|
                    0 <= k < s.len() ==> #[trigger] s[k] == media.page(
                        (offset + k) / cs,
                    )->Ok_0[(offset + k) % cs]
            }
        }),
{
}

/// A read is covered exactly if the chunks hold all that it gets.
pub proof fn law_covered_reads(image: EwfImageView, offset: int, len: int)
    requires
        image.chunk_size > 0,
        0 <= offset,
        0 <= len,
    ensures
        ({
            let total = image.total_size as int;
            let end = if offset + len <= total {
                offset + len
            } else {
                total
            };
            image.covers(offset, len) <==> offset >= total || len == 0 || end <= image.chunks.len()
                * image.chunk_size
        }),
{
    let n = image.available(offset, len);
    let cs = image.chunk_size as int;
    let count = image.chunks.len() as int;
    if n > 0 {
        let last = offset + n - 1;
        let q = last / cs;
        vstd::arithmetic::div_mod::lemma_fundamental_div_mod(last, cs);
        if q < count {
            assert(last + 1 <= count * cs) by (nonlinear_arith)
                requires
                    last == cs * q + last % cs,
                    0 <= last % cs < cs,
                    q + 1 <= count,
                    cs > 0,
            ;
        } else {
            assert(last + 1 > count * cs) by (nonlinear_arith)
                requires
                    last == cs * q + last % cs,
                    0 <= last % cs < cs,
                    q >= count,
                    cs > 0,
            ;
        }
    }
}

/// A read fails exactly if a chunk that it touches cannot be decoded, with the
/// error of the first of them.
pub proof fn law_reads_fail_with_the_first_damaged_chunk(
    media: Media,
    offset: int,
    len: int,
    k: int,
)
    requires
        media.image.chunk_size > 0,
        0 <= offset,
        0 < len,
        offset + len <= media.image.total_size,
        offset / (media.image.chunk_size as int) <= k,
        k <= (offset + len - 1) / (media.image.chunk_size as int) + 1,
        forall|j: int|
            offset / (media.image.chunk_size as int) <= j < k ==> (#[trigger] media.page(j)) is Ok,
    ensures
        k == (offset + len - 1) / (media.image.chunk_size as int) + 1 ==> media.read(
            offset,
            len,
        ) is Ok,
        k <= (offset + len - 1) / (media.image.chunk_size as int) ==> (media.page(k) matches Err(e)
            ==> (media.read(offset, len) matches Err(f) && f == e)),
{
    let cs = media.image.chunk_size as int;
    let from = offset / cs;
    let to = (offset + len - 1) / cs + 1;
    if k == to {
        media.lemma_no_fault(from, to);
    } else if media.page(k) is Err {
        media.lemma_first_fault(from, k, to);
    }
}

} // verus!
