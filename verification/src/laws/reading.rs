//! Reading through a reader: what it gets from its source, what it hands out,
//! where it stands and what it remembers.

use vstd::prelude::*;
use crate::cache;
use crate::error::{EwfErrorView, IoErrorKind, IoErrorView};
use crate::fill;
use crate::fill::{Fill, ReadEvent};
use crate::reader;
use crate::reader::{EwfReaderView, SeekFrom};
use crate::source;

verus! {

/// A source serves files exactly if it hands out nothing but the bytes that
/// they have at the place that is asked for, cut short only by their end.
pub proof fn law_sources<F: Fn(usize, u64, usize) -> Result<Vec<u8>, String>>(
    read: F,
    lens: Seq<u64>,
    files: Seq<Seq<u8>>,
)
    requires
        lens.len() <= usize::MAX,
    ensures
        source::serves_all(read, lens, files) <==> {
            &&& files.len() == lens.len()
            &&& forall|i: int| 0 <= i < files.len() ==> (#[trigger] files[i]).len() == lens[i]
            &&& forall|i: usize, offset: u64, n: usize, v: Vec<u8>|
                i < files.len() && #[trigger] call_ensures(read, (i, offset, n), Ok(v)) ==> {
                    let file = files[i as int];
                    let there = if offset >= file.len() {
                        0
                    } else {
                        file.len() - offset
                    };
                    &&& v@.len() == if n <= there {
                        n as int
                    } else {
                        there
                    }
                    &&& forall|k: int| 0 <= k < v@.len() ==> #[trigger] v@[k] == file[offset + k]
                }
        },
{
    if source::serves_all(read, lens, files) {
        assert forall|i: int| 0 <= i < files.len() implies (#[trigger] files[i]).len()
            == lens[i] by {
            assert(source::serves(read, i as usize, lens[i], files[i]));
        }
        assert forall|i: usize, offset: u64, n: usize, v: Vec<u8>|
            i < files.len() && #[trigger] call_ensures(read, (i, offset, n), Ok(v)) implies ({
            let file = files[i as int];
            let there = if offset >= file.len() {
                0
            } else {
                file.len() - offset
            };
            &&& v@.len() == if n <= there {
                n as int
            } else {
                there
            }
            &&& forall|k: int| 0 <= k < v@.len() ==> #[trigger] v@[k] == file[offset + k]
        }) by {
            let file = files[i as int];
            assert(source::serves(read, i, lens[i as int], file));
            assert(v@ == source::window(file, offset as int, n as int));
        }
    } else if files.len() == lens.len() {
        let i = choose|i: int|
            0 <= i < lens.len() && !source::serves(read, i as usize, lens[i], #[trigger] files[i]);
        let file = files[i];
        if file.len() == lens[i] {
            let (offset, n, r) = choose|offset: u64, n: usize, r: Result<Vec<u8>, String>|
                #[trigger] call_ensures(read, (i as usize, offset, n), r) && !(r matches Ok(v)
                    ==> v@ == source::window(file, offset as int, n as int));
            let v = r->Ok_0;
            assert(call_ensures(read, (i as usize, offset, n), Ok(v)));
            if (forall|k: int| 0 <= k < v@.len() ==> #[trigger] v@[k] == file[offset + k])
                && v@.len() == source::window(file, offset as int, n as int).len() {
                assert(v@ =~= source::window(file, offset as int, n as int));
            }
        }
    }
}

/// A source can be read exactly if it can be asked for any run of bytes of the
/// files that there are.
pub proof fn law_readable_sources<F: Fn(usize, u64, usize) -> Result<Vec<u8>, String>>(
    read: F,
    count: usize,
)
    ensures
        source::readable(read, count as int) <==> forall|i: usize, offset: u64, n: usize|
            i < count ==> #[trigger] call_requires(read, (i, offset, n)),
{
}

/// What was wanted comes out unless the source fails, and then its message does.
pub proof fn law_only_the_source_can_fail<F: Fn(usize, u64, usize) -> Result<Vec<u8>, String>, T>(
    read: F,
    r: Result<T, EwfErrorView>,
    wanted: Result<T, EwfErrorView>,
)
    ensures
        source::outcome(read, wanted, wanted),
        source::outcome(read, r, wanted) && r is Ok ==> r == wanted,
        source::outcome(read, r, wanted) && (forall|i: usize, offset: u64, n: usize, m: String|
            !#[trigger] call_ensures(read, (i, offset, n), Err(m))) ==> r == wanted,
        source::outcome(read, r, wanted) && r != wanted ==> (r matches Err(EwfErrorView::Io(e))
            && e.kind == IoErrorKind::Other && exists|i: usize, offset: u64, n: usize, m: String|
            #[trigger] call_ensures(read, (i, offset, n), Err(m)) && m@ == e.message),
{
}

/// A positioned read fills the buffer with the bytes of the media from its
/// place on, as many as the buffer has room for and the media has, and leaves
/// the rest of the buffer and the position as they are. It fails only where
/// reading that part of the media does, or with the source.
pub proof fn law_positioned_read<F: Fn(usize, u64, usize) -> Result<Vec<u8>, String>>(
    before: EwfReaderView<F>,
    files: Seq<Seq<u8>>,
    offset: u64,
    given: Seq<u8>,
    after: EwfReaderView<F>,
    filled: Seq<u8>,
    r: Result<usize, EwfErrorView>,
)
    requires
        before.read_done(offset, given, after, filled, r),
        before.reads(files),
        given.len() <= usize::MAX,
    ensures
        ({
            let media = before.media(files);
            let total = before.image.total_size as int;
            &&& media.image == before.image
            &&& media.order == before.order
            &&& media.files == files
            &&& after.image == before.image
            &&& after.order == before.order
            &&& after.position == before.position
            &&& after.capacity == before.capacity
            &&& after.reads(files)
            &&& filled.len() == given.len()
            &&& r matches Ok(n) ==> {
                &&& n == if offset >= total {
                    0
                } else if given.len() <= total - offset {
                    given.len() as int
                } else {
                    total - offset
                }
                &&& forall|k: int| 0 <= k < n ==> #[trigger] filled[k] == media.byte(offset + k)
                &&& forall|k: int| n <= k < given.len() ==> #[trigger] filled[k] == given[k]
            }
            &&& r matches Err(e) ==> source::failed_with(before.source, e) || (media.read(
                offset as int,
                given.len() as int,
            ) matches Err(f) && f == e)
        }),
{
    if r is Ok {
        let n = r->Ok_0 as int;
        let media = before.media(files);
        let s = filled.take(n);
        assert(media.read(offset as int, given.len() as int) == Ok::<Seq<u8>, EwfErrorView>(s));
        assert forall|k: int| 0 <= k < n implies #[trigger] filled[k] == media.byte(offset + k) by {
            assert(s[k] == filled[k]);
        }
        assert forall|k: int| n <= k < given.len() implies #[trigger] filled[k] == given[k] by {
            assert(filled.skip(n)[k - n] == given.skip(n)[k - n]);
        }
    }
}

/// A sequential read moves the position behind what it got, and leaves it where
/// it was if it failed. The error keeps the text of its cause.
pub proof fn law_sequential_read<F: Fn(usize, u64, usize) -> Result<Vec<u8>, String>>(
    before: EwfReaderView<F>,
    positioned: Result<usize, EwfErrorView>,
    r: Result<usize, IoErrorView>,
    position: u64,
)
    requires
        before.follows(positioned, r, position),
    ensures
        positioned is Ok <==> r is Ok,
        r matches Ok(n) ==> positioned == Ok::<usize, EwfErrorView>(n) && position
            == before.position + n,
        r matches Err(e) ==> position == before.position && e.kind == IoErrorKind::Other && (
        positioned matches Err(cause) && e.message == cause.message()),
{
}

/// A seek leads from the start, the end or the current position by the number
/// that is given. What is too large for a signed number counts as negative.
pub proof fn law_seek<F: Fn(usize, u64, usize) -> Result<Vec<u8>, String>>(
    reader: EwfReaderView<F>,
    from_start: u64,
    by: i64,
)
    ensures
        from_start < 0x8000_0000_0000_0000 ==> reader.seek_target(SeekFrom::Start(from_start))
            == from_start,
        from_start >= 0x8000_0000_0000_0000 ==> reader.seek_target(SeekFrom::Start(from_start))
            < 0,
        reader.image.total_size < 0x8000_0000_0000_0000 ==> reader.seek_target(SeekFrom::End(by))
            == reader.image.total_size + by,
        reader.position < 0x8000_0000_0000_0000 ==> reader.seek_target(SeekFrom::Current(by))
            == reader.position + by,
        reader.image.total_size >= 0x8000_0000_0000_0000 ==> reader.seek_target(SeekFrom::End(by))
            == reader.image.total_size - 0x1_0000_0000_0000_0000 + by,
        reader.position >= 0x8000_0000_0000_0000 ==> reader.seek_target(SeekFrom::Current(by))
            == reader.position - 0x1_0000_0000_0000_0000 + by,
{
}

/// Whether no entry has the key.
pub open spec fn lacks(entries: Seq<(usize, Seq<u8>)>, id: usize) -> bool {
    forall|i: int| 0 <= i < entries.len() ==> (#[trigger] entries[i]).0 != id
}

/// A page that is used comes first among those that are remembered. One that
/// was there leaves its old place, and all others keep their order; one that was
/// not there takes the place of the last if there is no room.
pub proof fn law_pages_are_remembered_by_use(
    a: Seq<(usize, Seq<u8>)>,
    b: Seq<(usize, Seq<u8>)>,
    capacity: nat,
    id: usize,
    old_page: Seq<u8>,
    page: Seq<u8>,
)
    requires
        lacks(a, id),
        lacks(b, id),
    ensures
        reader::page_used(a + seq![(id, old_page)] + b, capacity, id, page) == seq![(id, page)] + a
            + b,
        a.len() < capacity ==> reader::page_used(a, capacity, id, page) == seq![(id, page)] + a,
        a.len() == capacity ==> reader::page_used(a, capacity, id, page) == seq![(id, page)]
            + a.drop_last(),
{
    let held = a + seq![(id, old_page)] + b;
    assert(held[a.len() as int].0 == id);
    lemma_without_one(a, b, id, old_page);
    assert(seq![(id, page)] + (a + b) =~= seq![(id, page)] + a + b);
}

proof fn lemma_without_none(a: Seq<(usize, Seq<u8>)>, id: usize)
    requires
        lacks(a, id),
    ensures
        cache::without(a, id) == a,
    decreases a.len(),
{
    if a.len() > 0 {
        assert(a[a.len() - 1].0 != id);
        assert forall|i: int| 0 <= i < a.drop_last().len() implies (
        #[trigger] a.drop_last()[i]).0 != id by {
            assert(a.drop_last()[i] == a[i]);
        }
        lemma_without_none(a.drop_last(), id);
        assert(a.drop_last().push(a.last()) =~= a);
    }
}

proof fn lemma_without_one(
    a: Seq<(usize, Seq<u8>)>,
    b: Seq<(usize, Seq<u8>)>,
    id: usize,
    old_page: Seq<u8>,
)
    requires
        lacks(a, id),
        lacks(b, id),
    ensures
        cache::without(a + seq![(id, old_page)] + b, id) == a + b,
    decreases b.len(),
{
    let all = a + seq![(id, old_page)] + b;
    if b.len() == 0 {
        assert(all.drop_last() =~= a);
        assert(all.last() == (id, old_page));
        lemma_without_none(a, id);
        assert(a + b =~= a);
    } else {
        assert(b[b.len() - 1].0 != id);
        assert(all.last() == b.last());
        assert(all.drop_last() =~= a + seq![(id, old_page)] + b.drop_last());
        assert forall|i: int| 0 <= i < b.drop_last().len() implies (
        #[trigger] b.drop_last()[i]).0 != id by {
            assert(b.drop_last()[i] == b[i]);
        }
        lemma_without_one(a, b.drop_last(), id, old_page);
        assert((a + b.drop_last()).push(b.last()) =~= a + b);
    }
}

/// A buffer is filled by reads until it is full, the data has ended or a read
/// has failed. A read that brings something adds to what is there, one that
/// brings nothing finds the end, and one that is interrupted is made again.
pub proof fn law_filling(state: Fill, n: usize)
    requires
        state.filled + n <= state.wanted,
    ensures
        state.due() <==> state.filled < state.wanted && !state.ended && !state.failed,
        state.fits(ReadEvent::Bytes(n)),
        state.next(ReadEvent::Bytes(n)).filled == state.filled + n,
        state.next(ReadEvent::Bytes(n)).ended == (state.ended || n == 0),
        state.next(ReadEvent::Bytes(n)).failed == state.failed,
        state.next(ReadEvent::Bytes(n)).wanted == state.wanted,
        state.next(ReadEvent::Interrupted) == state,
        state.next(ReadEvent::Failed).failed,
        state.next(ReadEvent::Failed).filled == state.filled,
        state.next(ReadEvent::Failed).wanted == state.wanted,
        state.next(ReadEvent::Failed).ended == state.ended,
        !state.next(ReadEvent::Failed).due(),
        fill::after_all(state, Seq::empty()) == state,
        fill::after_all(state, seq![ReadEvent::Bytes(n)]) == state.next(ReadEvent::Bytes(n)),
{
    let one = seq![ReadEvent::Bytes(n)];
    assert(one.drop_last() =~= Seq::<ReadEvent>::empty());
    reveal_with_fuel(fill::after_all, 2);
}

/// The operations on a buffer that is being filled follow these rules.
pub proof fn law_filling_step_by_step(
    wanted: usize,
    fresh: Fill,
    state: Fill,
    due: bool,
    event: ReadEvent,
    after: Fill,
)
    requires
        call_ensures(Fill::new, (wanted,), fresh),
        call_ensures(Fill::read_due, (&state,), due),
        state.filled <= state.wanted,
        event matches ReadEvent::Bytes(n) ==> state.filled + n <= state.wanted,
        call_ensures(Fill::step, (state, event), after),
    ensures
        fresh.wanted == wanted && fresh.filled == 0 && !fresh.ended && !fresh.failed,
        due <==> state.filled < state.wanted && !state.ended && !state.failed,
        after.wanted == state.wanted,
        after.filled == state.filled + match event {
            ReadEvent::Bytes(n) => n as int,
            _ => 0,
        },
        after.ended <==> state.ended || event == ReadEvent::Bytes(0),
        after.failed <==> state.failed || event == ReadEvent::Failed,
{
}

} // verus!
