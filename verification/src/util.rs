//! Length-prefixed blocks: a block's length as a variable-length integer,
//! then its bytes.

use vstd::prelude::*;
use vstd::slice::slice_subrange;

use crate::error::DecodeError;
use crate::varint::{decoding, encoding, leb128_unsigned, write_unsigned};

verus! {

/// What reading one length-prefixed block from the front of `bytes` gives:
/// the bytes that follow the block, and the block.
pub open spec fn tagged(bytes: Seq<u8>) -> Result<(Seq<u8>, Seq<u8>), DecodeError> {
    match decoding(bytes) {
        Err(e) => Err(e),
        Ok((rest, len)) => if len > rest.len() {
            Err(DecodeError::UnexpectedEof)
        } else {
            Ok((rest.subrange(len as int, rest.len() as int), rest.subrange(0, len as int)))
        },
    }
}

/// A block behind its length.
pub open spec fn tagging(block: Seq<u8>) -> Seq<u8> {
    encoding(block.len()) + block
}

/// The view of a result that holds two byte slices.
pub open spec fn slices_result(r: Result<(&[u8], &[u8]), DecodeError>) -> Result<
    (Seq<u8>, Seq<u8>),
    DecodeError,
> {
    match r {
        Ok((rest, block)) => Ok((rest@, block@)),
        Err(e) => Err(e),
    }
}

/// Appends `data` to `bytes`.
pub fn append(bytes: &mut Vec<u8>, data: &[u8])
    ensures
        final(bytes)@ == old(bytes)@ + data@,
{
    let n = data.len();
    let mut i: usize = 0;
    while i < n
        invariant
            i <= n,
            n == data@.len(),
            bytes@ == old(bytes)@ + data@.subrange(0, i as int),
        decreases n - i,
    {
        bytes.push(data[i]);
        i += 1;
        assert(bytes@ =~= old(bytes)@ + data@.subrange(0, i as int));
    }
    assert(data@.subrange(0, n as int) =~= data@);
}

/// Puts `data` in front of what `bytes` holds.
pub fn prepend(bytes: &mut Vec<u8>, data: &[u8])
    ensures
        final(bytes)@ == data@ + old(bytes)@,
{
    let mut joined: Vec<u8> = Vec::new();
    append(&mut joined, data);
    append(&mut joined, bytes.as_slice());
    assert(joined@ =~= data@ + bytes@);
    *bytes = joined;
}

/// Puts the length of `bytes` in front of it, as a variable-length integer.
pub fn tag_length(bytes: &mut Vec<u8>)
    ensures
        final(bytes)@ == tagging(old(bytes)@),
{
    let mut temp: Vec<u8> = Vec::new();
    write_unsigned(&mut temp, bytes.len() as u64);
    assert(temp@ =~= encoding(bytes@.len()));
    prepend(bytes, temp.as_slice());
}

/// Reads a length, then takes exactly that many bytes.
///
/// Returns what follows the block, and the block.
pub fn read_tagged(input: &[u8]) -> (r: Result<(&[u8], &[u8]), DecodeError>)
    ensures
        slices_result(r) == tagged(input@),
{
    let (rest, len) = leb128_unsigned(input)?;
    if len > rest.len() as u64 {
        return Err(DecodeError::UnexpectedEof);
    }
    let n = len as usize;
    Ok((slice_subrange(rest, n, rest.len()), slice_subrange(rest, 0, n)))
}

/// Reading undoes tagging, whatever follows the block.
pub proof fn lemma_tagged_tagging(block: Seq<u8>, rest: Seq<u8>)
    requires
        block.len() <= u64::MAX,
    ensures
        tagged(tagging(block) + rest) == Ok::<_, DecodeError>((rest, block)),
{
    crate::varint::lemma_decode_encode(block.len() as u64, block + rest);
    assert(tagging(block) + rest =~= encoding(block.len()) + (block + rest));
    assert((block + rest).subrange(0, block.len() as int) =~= block);
    assert((block + rest).subrange(block.len() as int, (block + rest).len() as int) =~= rest);
}

} // verus!
