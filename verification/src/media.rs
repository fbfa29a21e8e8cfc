//! The media that an image holds: its pages and its bytes.

use vstd::prelude::*;
use crate::codec;
use crate::error::EwfErrorView;
use crate::image::EwfImageView;
use crate::page;
use crate::source;
use crate::verify;
use crate::verify::VerifyResultView;

verus! {

/// An image together with the segment files that its chunks are stored in.
/// Segment `p` is file `order[p]`.
#[verifier::ext_equal]
pub struct Media {
    pub image: EwfImageView,
    pub order: Seq<usize>,
    pub files: Seq<Seq<u8>>,
}

impl Media {
    /// Bytes in one chunk.
    pub open spec fn chunk_size(self) -> int {
        self.image.chunk_size as int
    }

    /// The page that chunk `id` holds.
    pub open spec fn page(self, id: int) -> Result<Seq<u8>, EwfErrorView> {
        let chunk = self.image.chunks[id];
        let file = self.files[self.order[chunk.segment_idx as int] as int];
        if chunk.compressed {
            let data = source::window(file, chunk.offset as int, chunk.size as int);
            page::inflated_page(codec::inflated(data, self.image.chunk_size), self.chunk_size())
        } else {
            let wanted = if chunk.size < self.chunk_size() {
                chunk.size as int
            } else {
                self.chunk_size()
            };
            let data = source::window(file, chunk.offset as int, wanted);
            page::stored_page(data, wanted, id, self.chunk_size())
        }
    }

    /// Byte `i` of the media.
    pub open spec fn byte(self, i: int) -> u8 {
        self.page(i / self.chunk_size())->Ok_0[i % self.chunk_size()]
    }

    /// The error of the first of the pages from `from` up to `to` that cannot
    /// be decoded.
    pub open spec fn first_fault(self, from: int, to: int) -> Option<EwfErrorView>
        decreases to - from,
    {
        if from >= to {
            None
        } else {
            match self.page(from) {
                Err(e) => Some(e),
                Ok(_) => self.first_fault(from + 1, to),
            }
        }
    }

    /// What a read of `len` bytes at `offset` gives.
    pub open spec fn read(self, offset: int, len: int) -> Result<Seq<u8>, EwfErrorView> {
        let n = self.image.available(offset, len);
        if n == 0 {
            Ok(Seq::empty())
        } else {
            match self.first_fault(
                offset / self.chunk_size(),
                (offset + n - 1) / self.chunk_size() + 1,
            ) {
                Some(e) => Err(e),
                None => Ok(Seq::new(n as nat, |k: int| self.byte(offset + k))),
            }
        }
    }

    /// All bytes that the chunks hold of the media.
    pub open spec fn content(self) -> Seq<u8> {
        let held = self.image.chunks.len() * self.chunk_size();
        Seq::new(
            (if held < self.image.total_size {
                held
            } else {
                self.image.total_size as int
            }) as nat,
            |i: int| self.byte(i),
        )
    }

    /// What checking the media against the stored hashes gives.
    pub open spec fn verified(self) -> Result<VerifyResultView, EwfErrorView> {
        match self.first_fault(0, self.image.chunks.len() as int) {
            Some(e) => Err(e),
            None => Ok(verify::checked(self.content(), self.image.md5, self.image.sha1)),
        }
    }

    /// Where all pages before `id` are decoded and `id` is not, its error is the
    /// first.
    pub proof fn lemma_first_fault(self, from: int, id: int, to: int)
        requires
            from <= id < to,
            forall|k: int| from <= k < id ==> (#[trigger] self.page(k)) is Ok,
            self.page(id) is Err,
        ensures
            self.first_fault(from, to) == Some(self.page(id)->Err_0),
        decreases id - from,
    {
        if from < id {
            self.lemma_first_fault(from + 1, id, to);
        }
    }

    /// Where all pages are decoded there is no first fault.
    pub proof fn lemma_no_fault(self, from: int, to: int)
        requires
            forall|k: int| from <= k < to ==> (#[trigger] self.page(k)) is Ok,
        ensures
            self.first_fault(from, to) is None,
        decreases to - from,
    {
        if from < to {
            self.lemma_no_fault(from + 1, to);
        }
    }

    /// Where there is no first fault all pages are decoded.
    pub proof fn lemma_all_decoded(self, from: int, to: int, id: int)
        requires
            self.first_fault(from, to) is None,
            from <= id < to,
        ensures
            self.page(id) is Ok,
        decreases id - from,
    {
        if from < id {
            self.lemma_all_decoded(from + 1, to, id);
        }
    }

    /// The first fault of a run of pages is that of its first part or, without
    /// one, that of the rest.
    pub proof fn lemma_fault_splits(self, from: int, mid: int, to: int)
        requires
            from <= mid <= to,
        ensures
            self.first_fault(from, to) == match self.first_fault(from, mid) {
                Some(e) => Some(e),
                None => self.first_fault(mid, to),
            },
        decreases mid - from,
    {
        if from < mid {
            self.lemma_fault_splits(from + 1, mid, to);
        }
    }

    /// What a read gives is the part of the media at that place: no read
    /// depends on where earlier ones started or ended.
    pub proof fn law_read_is_part_of_content(self, offset: int, len: int)
        requires
            self.image.chunk_size > 0,
            0 <= offset,
            0 <= len,
            self.image.covers(offset, len),
            self.read(offset, len) is Ok,
        ensures
            self.image.available(offset, len) > 0 ==> self.read(offset, len)->Ok_0
                == self.content().subrange(offset, offset + self.image.available(offset, len)),
            self.image.available(offset, len) == 0 ==> self.read(offset, len)->Ok_0.len() == 0,
    {
        let n = self.image.available(offset, len);
        let cs = self.chunk_size();
        if n > 0 {
            let last = offset + n - 1;
            vstd::arithmetic::div_mod::lemma_fundamental_div_mod(last, cs);
            let held = self.image.chunks.len() * cs;
            assert(offset + n <= held) by (nonlinear_arith)
                requires
                    last == cs * (last / cs) + last % cs,
                    0 <= last % cs < cs,
                    last / cs < self.image.chunks.len(),
                    held == self.image.chunks.len() * cs,
                    offset + n == last + 1,
                    cs > 0,
            ;
            assert(self.read(offset, len)->Ok_0 =~= self.content().subrange(offset, offset + n));
        }
    }

    /// Reading in two steps gives what reading in one step gives: the bytes of
    /// the first step followed by those of the second, and the error of
    /// whichever step fails first.
    pub proof fn law_reads_compose(self, offset: int, a: int, b: int)
        requires
            self.image.chunk_size > 0,
            0 <= offset,
            0 <= a,
            0 <= b,
        ensures
            self.read(offset, a + b) == match self.read(offset, a) {
                Err(e) => Err(e),
                Ok(s) => match self.read(offset + s.len(), a + b - s.len()) {
                    Err(e) => Err(e),
                    Ok(t) => Ok(s + t),
                },
            },
    {
        let cs = self.chunk_size();
        let n = self.image.available(offset, a + b);
        let m = self.image.available(offset, a);
        let first = offset / cs;
        if m == 0 {
            match self.read(offset, a + b) {
                Ok(t) => {
                    assert(Seq::<u8>::empty() + t =~= t);
                },
                Err(_) => {},
            }
        } else {
            let rest = self.image.available(offset + m, a + b - m);
            assert(rest == n - m);
            let mid = (offset + m - 1) / cs + 1;
            let last = (offset + n - 1) / cs + 1;
            vstd::arithmetic::div_mod::lemma_div_is_ordered(offset, offset + m - 1, cs);
            vstd::arithmetic::div_mod::lemma_div_is_ordered(offset + m - 1, offset + n - 1, cs);
            self.lemma_fault_splits(first, mid, last);
            if rest > 0 && self.first_fault(first, mid) is None {
                let from = (offset + m) / cs;
                vstd::arithmetic::div_mod::lemma_div_is_ordered(offset + m - 1, offset + m, cs);
                vstd::arithmetic::div_mod::lemma_div_is_ordered(offset + m, offset + n - 1, cs);
                lemma_next_chunk(offset + m - 1, cs);
                if from < mid {
                    // The second step starts in the chunk that the first ended in.
                    self.lemma_all_decoded(first, mid, from);
                }
            }
            if self.read(offset, a + b) is Ok && rest >= 0 {
                let s = Seq::new(m as nat, |k: int| self.byte(offset + k));
                let t = Seq::new(rest as nat, |k: int| self.byte(offset + m + k));
                assert(s + t =~= Seq::new(n as nat, |k: int| self.byte(offset + k)));
                if rest == 0 {
                    assert(t =~= Seq::<u8>::empty());
                }
            }
        }
    }

    /// A byte of a chunk that is stored as it is reads back as it is stored in
    /// the segment file; a chunk that is stored shorter than a page goes on with
    /// zeros.
    pub proof fn law_stored_bytes_are_read_back(self, i: int)
        requires
            self.image.chunk_size > 0,
            0 <= i,
            i / self.chunk_size() < self.image.chunks.len(),
            ({
                let chunk = self.image.chunks[i / self.chunk_size()];
                &&& !chunk.compressed
                &&& chunk.offset + chunk.size <= self.files[self.order[chunk.segment_idx as int] as int].len()
            }),
        ensures
            self.page(i / self.chunk_size()) is Ok,
            ({
                let chunk = self.image.chunks[i / self.chunk_size()];
                let file = self.files[self.order[chunk.segment_idx as int] as int];
                let at = i % self.chunk_size();
                self.byte(i) == if at < chunk.size {
                    file[chunk.offset + at]
                } else {
                    0u8
                }
            }),
    {
    }

    /// Where the chunks hold all of the media, checking an image hashes exactly
    /// what reading the whole of it gives, and fails wherever reading it fails,
    /// with the same error. It can fail otherwise only in a chunk behind the
    /// media: not where the chunks are just as many as the media needs.
    pub proof fn law_verify_hashes_what_is_read(self)
        requires
            self.image.chunk_size > 0,
            self.image.chunks.len() * self.chunk_size() >= self.image.total_size,
        ensures
            match self.read(0, self.image.total_size as int) {
                Err(e) => self.verified() == Err::<VerifyResultView, EwfErrorView>(e),
                Ok(s) => {
                    &&& self.verified() matches Ok(v) ==> v == verify::checked(
                        s,
                        self.image.md5,
                        self.image.sha1,
                    )
                    &&& (self.image.chunks.len() - 1) * self.chunk_size() < self.image.total_size
                        ==> self.verified() is Ok
                },
            },
    {
        let cs = self.chunk_size();
        let total = self.image.total_size as int;
        let count = self.image.chunks.len() as int;
        if total > 0 {
            let q = (total - 1) / cs;
            vstd::arithmetic::div_mod::lemma_fundamental_div_mod(total - 1, cs);
            assert(0int / cs == 0) by {
                vstd::arithmetic::div_mod::lemma_div_of0(cs);
            }
            assert(q + 1 <= count) by (nonlinear_arith)
                requires
                    total - 1 == cs * q + (total - 1) % cs,
                    0 <= (total - 1) % cs < cs,
                    count * cs >= total,
            ;
            assert(0 <= q) by (nonlinear_arith)
                requires
                    total - 1 == cs * q + (total - 1) % cs,
                    0 <= (total - 1) % cs < cs,
                    total > 0,
            ;
            if (count - 1) * cs < total {
                assert(count <= q + 1) by (nonlinear_arith)
                    requires
                        total - 1 == cs * q + (total - 1) % cs,
                        0 <= (total - 1) % cs < cs,
                        (count - 1) * cs < total,
                ;
            }
            self.lemma_fault_splits(0, q + 1, count);
            if self.read(0, total) is Ok {
                assert(self.read(0, total)->Ok_0 =~= self.content());
            }
        } else {
            assert(self.content() =~= Seq::<u8>::empty());
            if (count - 1) * cs < total {
                assert(count <= 0) by (nonlinear_arith)
                    requires
                        (count - 1) * cs < 0,
                        cs > 0,
                ;
            }
        }
    }
}

/// The byte behind `at` lies in the same chunk or in the next one.
proof fn lemma_next_chunk(at: int, cs: int)
    requires
        cs > 0,
        0 <= at,
    ensures
        (at + 1) / cs == at / cs || (at + 1) / cs == at / cs + 1,
{
    vstd::arithmetic::div_mod::lemma_fundamental_div_mod(at, cs);
    let q = at / cs;
    assert(cs * q == q * cs) by (nonlinear_arith);
    if at % cs + 1 < cs {
        vstd::arithmetic::div_mod::lemma_fundamental_div_mod_converse(at + 1, cs, q, at % cs + 1);
    } else {
        assert((q + 1) * cs == q * cs + cs) by (nonlinear_arith);
        vstd::arithmetic::div_mod::lemma_fundamental_div_mod_converse(at + 1, cs, q + 1, 0);
    }
}

} // verus!
