//! Checking the media of an image against the hashes stored in it.

use vstd::prelude::*;
use crate::codec;
use crate::codec::{md5_finish, md5_new, md5_update, sha1_finish, sha1_new, sha1_update, Md5Stream,
    Sha1Stream};
use crate::image;
use crate::types::{StoredHashes, VerifyResult};

verus! {

/// A [`VerifyResult`] over sequences.
#[verifier::ext_equal]
pub struct VerifyResultView {
    pub computed_md5: Seq<u8>,
    pub computed_sha1: Option<Seq<u8>>,
    pub md5_match: Option<bool>,
    pub sha1_match: Option<bool>,
}

impl View for VerifyResult {
    type V = VerifyResultView;

    open spec fn view(&self) -> VerifyResultView {
        VerifyResultView {
            computed_md5: self.computed_md5@,
            computed_sha1: image::array_bytes(self.computed_sha1),
            md5_match: self.md5_match,
            sha1_match: self.sha1_match,
        }
    }
}

/// What checking the bytes `media` against stored hashes gives. SHA-1 is
/// computed only where one is stored.
pub open spec fn checked(media: Seq<u8>, md5: Option<Seq<u8>>, sha1: Option<Seq<u8>>)
    -> VerifyResultView {
    VerifyResultView {
        computed_md5: codec::md5_digest(media),
        computed_sha1: match sha1 {
            Some(_) => Some(codec::sha1_digest(media)),
            None => None,
        },
        md5_match: match md5 {
            Some(stored) => Some(stored == codec::md5_digest(media)),
            None => None,
        },
        sha1_match: match sha1 {
            Some(stored) => Some(stored == codec::sha1_digest(media)),
            None => None,
        },
    }
}

/// Hashes the pages of an image, handed in one after the other, up to the size
/// of the image.
pub struct MediaHasher {
    md5: Md5Stream,
    sha1: Option<Sha1Stream>,
    remaining: u64,
    hashes: StoredHashes,
}

impl MediaHasher {
    /// What has been hashed.
    pub closed spec fn fed(self) -> Seq<u8> {
        codec::md5_fed(self.md5)
    }

    /// How much more will be hashed.
    pub closed spec fn left(self) -> u64 {
        self.remaining
    }

    /// The hashes to check against.
    pub closed spec fn stored(self) -> StoredHashes {
        self.hashes
    }

    /// Whether both computations have been fed the same.
    pub closed spec fn wf(self) -> bool {
        &&& self.sha1 is Some <==> self.hashes.sha1 is Some
        &&& self.sha1 matches Some(s) ==> codec::sha1_fed(s) == codec::md5_fed(self.md5)
    }

    /// Starts hashing an image of `total_size` bytes.
    pub fn new(hashes: StoredHashes, total_size: u64) -> (r: MediaHasher)
        ensures
            r.wf(),
            r.fed() == Seq::<u8>::empty(),
            r.left() == total_size,
            r.stored() == hashes,
    {
        let sha1: Option<Sha1Stream> = if hashes.sha1.is_some() {
            Some(sha1_new())
        } else {
            None
        };
        MediaHasher { md5: md5_new(), sha1, remaining: total_size, hashes }
    }

    /// Hashes the next page, or the part of it that belongs to the image.
    pub fn absorb(&mut self, page: &[u8])
        requires
            old(self).wf(),
        ensures
            final(self).wf(),
            final(self).stored() == old(self).stored(),
            ({
                let taken = if page@.len() < old(self).left() {
                    page@.len() as int
                } else {
                    old(self).left() as int
                };
                &&& final(self).fed() == old(self).fed() + page@.take(taken)
                &&& final(self).left() == old(self).left() - taken
            }),
    {
        let taken: usize = if (page.len() as u64) < self.remaining {
            page.len()
        } else {
            self.remaining as usize
        };
        let data: &[u8] = vstd::slice::slice_subrange(page, 0, taken);
        assert(data@ =~= page@.take(taken as int));
        md5_update(&mut self.md5, data);
        let mut sha1: Option<Sha1Stream> = None;
        std::mem::swap(&mut sha1, &mut self.sha1);
        match sha1 {
            Some(stream) => {
                let mut stream = stream;
                sha1_update(&mut stream, data);
                self.sha1 = Some(stream);
            },
            None => {},
        }
        self.remaining = self.remaining - taken as u64;
    }

    /// Compares what was computed with what is stored.
    pub fn finish(self) -> (r: VerifyResult)
        requires
            self.wf(),
        ensures
            r@ == checked(
                self.fed(),
                image::array_bytes(self.stored().md5),
                image::array_bytes(self.stored().sha1),
            ),
    {
        let hashes: StoredHashes = self.hashes;
        let computed_md5: [u8; 16] = md5_finish(self.md5);
        let md5_match: Option<bool> = match hashes.md5 {
            Some(stored) => Some(
                crate::bytes::same_bytes(stored.as_slice(), computed_md5.as_slice()),
            ),
            None => None,
        };
        match (self.sha1, hashes.sha1) {
            (Some(stream), Some(stored)) => {
                let computed: [u8; 20] = sha1_finish(stream);
                let same: bool = crate::bytes::same_bytes(stored.as_slice(), computed.as_slice());
                VerifyResult {
                    computed_md5,
                    computed_sha1: Some(computed),
                    md5_match,
                    sha1_match: Some(same),
                }
            },
            _ => VerifyResult { computed_md5, computed_sha1: None, md5_match, sha1_match: None },
        }
    }
}

} // verus!
