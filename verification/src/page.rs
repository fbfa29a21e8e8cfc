//! Decoding one chunk into a page of the image.

use vstd::prelude::*;
use crate::codec;
use crate::error;
use crate::error::{EwfError, EwfErrorView, IoError, IoErrorKind, IoErrorView};
use crate::text;
use crate::text::push_decimal;

verus! {

/// `data` followed by zeros up to `len` bytes.
pub open spec fn padded(data: Seq<u8>, len: int) -> Seq<u8> {
    data + Seq::new((len - data.len()) as nat, |i: int| 0u8)
}

/// The page of a compressed chunk, from what decompressing it to the chunk size
/// gives. A stream that ends early leaves zeros. A page that is full is
/// refused if the stream is found to be damaged right behind it.
pub open spec fn inflated_page(
    inflated: Result<(Seq<u8>, Option<Seq<char>>), Seq<char>>,
    chunk_size: int,
) -> Result<Seq<u8>, EwfErrorView> {
    match inflated {
        Err(m) => Err(EwfErrorView::Decompression(m)),
        Ok((plain, fault)) => match fault {
            Some(m) => if plain.len() == chunk_size {
                Err(EwfErrorView::Decompression(m))
            } else {
                Ok(padded(plain, chunk_size))
            },
            None => Ok(padded(plain, chunk_size)),
        },
    }
}

/// The page of a chunk that is stored as it is, of which `wanted` bytes should
/// be there and `data` is.
pub open spec fn stored_page(data: Seq<u8>, wanted: int, chunk_id: int, chunk_size: int) -> Result<
    Seq<u8>,
    EwfErrorView,
> {
    if data.len() < wanted {
        Err(
            EwfErrorView::Io(
                IoErrorView {
                    kind: IoErrorKind::UnexpectedEof,
                    message: "short read for chunk "@ + text::decimal(chunk_id as nat) + ": got "@
                        + text::decimal(data.len()) + " of "@ + text::decimal(wanted as nat)
                        + " bytes"@,
                },
            ),
        )
    } else {
        Ok(padded(data, chunk_size))
    }
}

fn pad(data: Vec<u8>, len: usize) -> (r: Vec<u8>)
    requires
        data@.len() <= len,
    ensures
        r@ == padded(data@, len as int),
{
    let mut page: Vec<u8> = data;
    page.resize(len, 0);
    assert(page@ =~= padded(data@, len as int));
    page
}

/// Makes a page of what decompressing a chunk gave.
pub fn page_from_inflated(
    inflated: Result<(Vec<u8>, Option<String>), String>,
    chunk_size: usize,
) -> (r: Result<Vec<u8>, EwfError>)
    requires
        inflated matches Ok((plain, _)) ==> plain@.len() <= chunk_size,
    ensures
        error::viewed(r) == inflated_page(codec::inflated_view(inflated), chunk_size as int),
        r matches Ok(page) ==> page@.len() == chunk_size,
{
    match inflated {
        Err(m) => Err(EwfError::Decompression(m)),
        Ok((plain, fault)) => match fault {
            Some(m) => if plain.len() == chunk_size {
                Err(EwfError::Decompression(m))
            } else {
                Ok(pad(plain, chunk_size))
            },
            None => Ok(pad(plain, chunk_size)),
        },
    }
}

/// Makes a page of the bytes of a chunk that is stored as it is.
pub fn page_from_stored(data: Vec<u8>, wanted: usize, chunk_id: usize, chunk_size: usize) -> (r:
    Result<Vec<u8>, EwfError>)
    requires
        data@.len() <= chunk_size,
    ensures
        error::viewed(r) == stored_page(data@, wanted as int, chunk_id as int, chunk_size as int),
        r matches Ok(page) ==> page@.len() == chunk_size,
{
    if data.len() < wanted {
        let mut m: String = "short read for chunk ".to_owned();
        push_decimal(&mut m, chunk_id as u64);
        m.append(": got ");
        push_decimal(&mut m, data.len() as u64);
        m.append(" of ");
        push_decimal(&mut m, wanted as u64);
        m.append(" bytes");
        Err(EwfError::Io(IoError { kind: IoErrorKind::UnexpectedEof, message: m }))
    } else {
        Ok(pad(data, chunk_size))
    }
}

} // verus!
