//! Where the bytes of the segment files come from.
//!
//! The library opens no files. A caller hands it a function that reads a run
//! of bytes at an offset of one of the segment files, numbered from 0; at the
//! end of the file the run is cut short. What the functions of the library
//! return is stated for every set of file contents that such a function
//! serves.

use vstd::prelude::*;
use crate::error;
use crate::error::{short_read_error, EwfError, EwfErrorView, IoError, IoErrorKind, IoErrorView};

verus! {

/// The bytes of `file` from `offset` on, at most `len` of them.
pub open spec fn window(file: Seq<u8>, offset: int, len: int) -> Seq<u8> {
    let start = if offset < file.len() {
        offset
    } else {
        file.len() as int
    };
    let end = if offset + len < file.len() {
        offset + len
    } else {
        file.len() as int
    };
    file.subrange(start, end)
}

/// The `len` bytes of `file` at `offset`, all of them or an error.
pub open spec fn exact(file: Seq<u8>, offset: int, len: int) -> Result<Seq<u8>, EwfErrorView> {
    if len == 0 {
        Ok(Seq::empty())
    } else if offset + len <= file.len() {
        Ok(file.subrange(offset, offset + len))
    } else {
        Err(error::short_read())
    }
}

/// Whether `read` can be asked for any run of the first `count` files.
pub open spec fn readable<F: Fn(usize, u64, usize) -> Result<Vec<u8>, String>>(
    read: F,
    count: int,
) -> bool {
    forall|i: usize, offset: u64, len: usize|
        i < count ==> #[trigger] call_requires(read, (i, offset, len))
}

/// Whether everything that `read` hands out of file `i` is what `content` has
/// there, and the file is `len` bytes long.
pub open spec fn serves<F: Fn(usize, u64, usize) -> Result<Vec<u8>, String>>(
    read: F,
    i: usize,
    len: u64,
    content: Seq<u8>,
) -> bool {
    &&& content.len() == len
    &&& forall|offset: u64, n: usize, r: Result<Vec<u8>, String>|
        #[trigger] call_ensures(read, (i, offset, n), r) ==> (r matches Ok(v) ==> v@
            == window(content, offset as int, n as int))
}

/// Whether `read` serves the files `files`, whose lengths are `lens`.
pub open spec fn serves_all<F: Fn(usize, u64, usize) -> Result<Vec<u8>, String>>(
    read: F,
    lens: Seq<u64>,
    files: Seq<Seq<u8>>,
) -> bool {
    &&& files.len() == lens.len()
    &&& forall|i: int| 0 <= i < lens.len() ==> serves(read, i as usize, lens[i], #[trigger] files[i])
}

/// The error that a failed call of `read` with this message becomes.
pub open spec fn read_failure(message: Seq<char>) -> EwfErrorView {
    EwfErrorView::Io(IoErrorView { kind: IoErrorKind::Other, message })
}

/// Whether `e` is the failure of a call that `read` can make.
pub open spec fn failed_with<F: Fn(usize, u64, usize) -> Result<Vec<u8>, String>>(
    read: F,
    e: EwfErrorView,
) -> bool {
    exists|i: usize, offset: u64, n: usize, m: String|
        #[trigger] call_ensures(read, (i, offset, n), Err(m)) && e == read_failure(m@)
}

/// Whether `r` is what was `wanted`, or the failure of a call of `read`.
pub open spec fn outcome<F: Fn(usize, u64, usize) -> Result<Vec<u8>, String>, T>(
    read: F,
    r: Result<T, EwfErrorView>,
    wanted: Result<T, EwfErrorView>,
) -> bool {
    r == wanted || (r matches Err(e) && failed_with(read, e))
}

/// Reads what is there of the `n` bytes at `offset`.
pub(crate) fn read_some<F: Fn(usize, u64, usize) -> Result<Vec<u8>, String>>(
    read: &F,
    i: usize,
    offset: u64,
    n: usize,
) -> (r: Result<Vec<u8>, EwfError>)
    requires
        readable(*read, i + 1),
    ensures
        forall|len: u64, content: Seq<u8>| #[trigger]
            serves(*read, i, len, content) ==> outcome(
                *read,
                error::viewed(r),
                Ok(window(content, offset as int, n as int)),
            ),
        r matches Err(e) ==> failed_with(*read, e@),
{
    let outcome_of_call: Result<Vec<u8>, String> = (*read)(i, offset, n);
    assert(call_ensures(*read, (i, offset, n), outcome_of_call));
    match outcome_of_call {
        Ok(v) => Ok(v),
        Err(message) => {
            let e: EwfError = EwfError::Io(IoError { kind: IoErrorKind::Other, message });
            assert(failed_with(*read, e@));
            Err(e)
        },
    }
}

/// Reads the `n` bytes at `offset`, all of them or an error.
pub(crate) fn read_exact<F: Fn(usize, u64, usize) -> Result<Vec<u8>, String>>(
    read: &F,
    i: usize,
    offset: u64,
    n: usize,
) -> (r: Result<Vec<u8>, EwfError>)
    requires
        readable(*read, i + 1),
    ensures
        forall|len: u64, content: Seq<u8>| #[trigger]
            serves(*read, i, len, content) ==> outcome(
                *read,
                error::viewed(r),
                exact(content, offset as int, n as int),
            ),
        r matches Ok(v) ==> v@.len() == n,
{
    match read_some(read, i, offset, n) {
        Ok(v) => if v.len() == n {
            assert(n == 0 ==> v@ =~= Seq::<u8>::empty());
            Ok(v)
        } else {
            Err(short_read_error())
        },
        Err(e) => Err(e),
    }
}

/// Reads from files that are held in memory.
pub fn memory_read(files: &Vec<Vec<u8>>, i: usize, offset: u64, n: usize) -> (r: Result<
    Vec<u8>,
    String,
>)
    requires
        i < files@.len(),
    ensures
        r matches Ok(v) && v@ == window(files@[i as int]@, offset as int, n as int),
{
    let file: &Vec<u8> = &files[i];
    let mut out: Vec<u8> = Vec::new();
    if offset >= file.len() as u64 {
        assert(out@ =~= window(file@, offset as int, n as int));
        return Ok(out);
    }
    let start: usize = offset as usize;
    let available: usize = file.len() - start;
    let count: usize = if n < available {
        n
    } else {
        available
    };
    let piece: &[u8] = vstd::slice::slice_subrange(file.as_slice(), start, start + count);
    out.extend_from_slice(piece);
    assert(out@ =~= window(file@, offset as int, n as int));
    Ok(out)
}

} // verus!
