//! Unsigned LEB128: seven payload bits per byte, least significant group
//! first, the high bit of a byte set while more bytes follow.

use vstd::prelude::*;
use vstd::slice::slice_subrange;

use crate::error::DecodeError;

verus! {

/// The largest number of continuation bytes that a 64-bit value can need.
pub const MAX_CONTINUATION_BYTES: usize = 9;

/// The canonical encoding of `v`: the shortest one.
pub open spec fn encoding(v: nat) -> Seq<u8>
    decreases v,
{
    if v < 128 {
        seq![v as u8]
    } else {
        seq![(128 + v % 128) as u8] + encoding(v / 128)
    }
}

/// How many bytes at the start of `bytes` have their high bit set.
pub open spec fn continuation_run(bytes: Seq<u8>) -> nat
    decreases bytes.len(),
{
    if bytes.len() > 0 && bytes[0] >= 128 {
        1 + continuation_run(bytes.drop_first())
    } else {
        0
    }
}

/// The number whose base-128 digits, least significant first, are the low
/// seven bits of each byte.
pub open spec fn group_value(bytes: Seq<u8>) -> nat
    decreases bytes.len(),
{
    if bytes.len() == 0 {
        0
    } else {
        (bytes[0] % 128) as nat + 128 * group_value(bytes.drop_first())
    }
}

/// What decoding one integer from the front of `bytes` gives: the bytes that
/// follow it and its value, or the reason why there is none.
#[verifier::opaque]
pub open spec fn decoding(bytes: Seq<u8>) -> Result<(Seq<u8>, u64), DecodeError> {
    let n = continuation_run(bytes) as int;
    if n > MAX_CONTINUATION_BYTES {
        Err(DecodeError::Overflow)
    } else if n == bytes.len() {
        Err(DecodeError::UnexpectedEof)
    } else {
        let v = group_value(bytes.subrange(0, n + 1));
        if v > u64::MAX {
            Err(DecodeError::Overflow)
        } else {
            Ok((bytes.subrange(n + 1, bytes.len() as int), v as u64))
        }
    }
}

/// The view of a decoder's result whose value is a plain one.
pub open spec fn plain_result<T>(r: Result<(&[u8], T), DecodeError>) -> Result<
    (Seq<u8>, T),
    DecodeError,
> {
    match r {
        Ok((rest, v)) => Ok((rest@, v)),
        Err(e) => Err(e),
    }
}

/// Whether more bytes of the same integer follow `b`.
pub fn not_end_byte(b: u8) -> (r: bool)
    ensures
        r == (b >= 128),
{
    assert((b & 128 != 0) == (b >= 128)) by (bit_vector);
    (b & 128) != 0
}

/// The run of continuation bytes ends at the first byte that is none.
proof fn lemma_run_exact(bytes: Seq<u8>, n: nat)
    requires
        n <= bytes.len(),
        forall|j: int| 0 <= j < n ==> bytes[j] >= 128,
        n == bytes.len() || bytes[n as int] < 128,
    ensures
        continuation_run(bytes) == n,
    decreases n,
{
    if n > 0 {
        lemma_run_exact(bytes.drop_first(), (n - 1) as nat);
    }
}

/// The run of continuation bytes is as long as any prefix of such bytes.
proof fn lemma_run_at_least(bytes: Seq<u8>, n: nat)
    requires
        n <= bytes.len(),
        forall|j: int| 0 <= j < n ==> bytes[j] >= 128,
    ensures
        continuation_run(bytes) >= n,
    decreases n,
{
    if n > 0 {
        lemma_run_at_least(bytes.drop_first(), (n - 1) as nat);
    }
}

/// A longer tail of the same bytes never has the smaller value.
proof fn lemma_group_value_grows(bytes: Seq<u8>, k: int, end: int)
    requires
        0 <= k <= end <= bytes.len(),
    ensures
        group_value(bytes.subrange(k, end)) <= group_value(bytes.subrange(0, end)),
    decreases k,
{
    if k > 0 {
        assert(bytes.subrange(k - 1, end).drop_first() =~= bytes.subrange(k, end));
        lemma_group_value_grows(bytes, k - 1, end);
    }
}

/// Reads one unsigned LEB128 integer from the front of `input`.
///
/// At most nine continuation bytes are read before the closing byte. The value
/// must fit in 64 bits.
pub fn leb128_unsigned(input: &[u8]) -> (r: Result<(&[u8], u64), DecodeError>)
    ensures
        plain_result(r) == decoding(input@),
{
    reveal(decoding);
    let len = input.len();
    let mut n: usize = 0;
    while n < len && n <= MAX_CONTINUATION_BYTES && not_end_byte(input[n])
        invariant
            n <= len,
            n <= MAX_CONTINUATION_BYTES + 1,
            len == input@.len(),
            forall|j: int| 0 <= j < n ==> input@[j] >= 128,
        decreases len - n,
    {
        n += 1;
    }
    if n > MAX_CONTINUATION_BYTES {
        proof {
            lemma_run_at_least(input@, n as nat);
        }
        return Err(DecodeError::Overflow);
    }
    proof {
        lemma_run_exact(input@, n as nat);
    }
    if n == len {
        return Err(DecodeError::UnexpectedEof);
    }
    let end = input[n];
    assert(end & 127 == end % 128) by (bit_vector);
    let mut ret: u64 = (end & 127) as u64;
    let mut k: usize = n;
    assert(input@.subrange(n as int, n + 1).drop_first() =~= Seq::<u8>::empty());
    assert(group_value(Seq::<u8>::empty()) == 0);
    while k > 0
        invariant
            k <= n < len,
            n <= MAX_CONTINUATION_BYTES,
            len == input@.len(),
            continuation_run(input@) == n,
            ret == group_value(input@.subrange(k as int, n + 1)),
        decreases k,
    {
        k -= 1;
        let x = input[k];
        assert(x & 127 == x % 128) by (bit_vector);
        proof {
            reveal(decoding);
            assert(input@.subrange(k as int, n + 1).drop_first() =~= input@.subrange(
                k + 1,
                n + 1,
            ));
            assert(input@.subrange(k as int, n + 1)[0] == x);
            assert(group_value(input@.subrange(k as int, n + 1)) == (x % 128) as nat + 128
                * ret as nat);
            lemma_group_value_grows(input@, k as int, n + 1);
        }
        let shifted = match ret.checked_mul(128) {
            Some(v) => v,
            None => {
                return Err(DecodeError::Overflow);
            },
        };
        ret =
        match shifted.checked_add((x & 127) as u64) {
            Some(v) => v,
            None => {
                return Err(DecodeError::Overflow);
            },
        };
    }
    Ok((slice_subrange(input, n + 1, len), ret))
}

/// Appends the canonical encoding of `value` to `buf`.
///
/// The bytes are written by `leb128::write::unsigned`, whose output on a
/// vector is taken on trust to be `encoding(value)`: the value's seven-bit
/// groups from the least significant one, each byte but the last with its
/// high bit set, and no group after the last non-zero one. Writing to a
/// vector does not fail.
#[verifier::external_body]
pub(crate) fn write_unsigned(buf: &mut Vec<u8>, value: u64)
    ensures
        final(buf)@ == old(buf)@ + encoding(value as nat),
{
    leb128::write::unsigned(buf, value).unwrap();
}

/// The canonical encoding of `value`.
pub fn encode_unsigned(value: u64) -> (bytes: Vec<u8>)
    ensures
        bytes@ == encoding(value as nat),
{
    let mut bytes: Vec<u8> = Vec::new();
    write_unsigned(&mut bytes, value);
    bytes
}

/// The shape of a canonical encoding in front of any other bytes: all of its
/// bytes but the last are continuation bytes, and its groups spell the value.
pub proof fn lemma_encoding_shape(v: nat, rest: Seq<u8>)
    ensures
        encoding(v).len() >= 1,
        continuation_run(encoding(v) + rest) == encoding(v).len() - 1,
        group_value(encoding(v)) == v,
    decreases v,
{
    if v < 128 {
        assert(group_value(encoding(v).drop_first()) == 0);
        assert((encoding(v) + rest)[0] == v as u8);
    } else {
        lemma_encoding_shape(v / 128, rest);
        assert(encoding(v).drop_first() =~= encoding(v / 128));
        assert((encoding(v) + rest).drop_first() =~= encoding(v / 128) + rest);
        assert((encoding(v) + rest)[0] >= 128);
    }
}

/// A 64-bit value never needs more than ten bytes.
pub proof fn lemma_encoding_len(v: u64)
    ensures
        1 <= encoding(v as nat).len() <= MAX_CONTINUATION_BYTES + 1,
{
    let v0 = v as nat;
    let v1 = v0 / 128;
    let v2 = v1 / 128;
    let v3 = v2 / 128;
    let v4 = v3 / 128;
    let v5 = v4 / 128;
    let v6 = v5 / 128;
    let v7 = v6 / 128;
    let v8 = v7 / 128;
    let v9 = v8 / 128;
    assert(v9 < 128);
    assert(encoding(v9).len() == 1);
    assert(encoding(v8).len() <= 2);
    assert(encoding(v7).len() <= 3);
    assert(encoding(v6).len() <= 4);
    assert(encoding(v5).len() <= 5);
    assert(encoding(v4).len() <= 6);
    assert(encoding(v3).len() <= 7);
    assert(encoding(v2).len() <= 8);
    assert(encoding(v1).len() <= 9);
    assert(encoding(v0).len() <= 10);
}

/// Decoding undoes encoding: whatever follows the encoding of `v`, decoding
/// gives back `v` and leaves exactly what follows.
pub proof fn lemma_decode_encode(v: u64, rest: Seq<u8>)
    ensures
        decoding(encoding(v as nat) + rest) == Ok::<_, DecodeError>((rest, v)),
{
    reveal(decoding);
    let enc = encoding(v as nat);
    let all = enc + rest;
    lemma_encoding_shape(v as nat, rest);
    lemma_encoding_len(v);
    assert(all.subrange(0, enc.len() as int) =~= enc);
    assert(all.subrange(enc.len() as int, all.len() as int) =~= rest);
}

/// The run of continuation bytes is no longer than the bytes.
proof fn lemma_run_bound(bytes: Seq<u8>)
    ensures
        continuation_run(bytes) <= bytes.len(),
    decreases bytes.len(),
{
    if bytes.len() > 0 && bytes[0] >= 128 {
        lemma_run_bound(bytes.drop_first());
    }
}

/// Decoding a value uses at least one byte.
pub proof fn lemma_decoding_consumes(bytes: Seq<u8>)
    requires
        decoding(bytes) is Ok,
    ensures
        decoding(bytes).unwrap().0.len() < bytes.len(),
{
    reveal(decoding);
    lemma_run_bound(bytes);
}

/// The encoding of the value of some bytes is no longer than the bytes.
proof fn lemma_encoding_within(bytes: Seq<u8>)
    requires
        bytes.len() >= 1,
    ensures
        encoding(group_value(bytes)).len() <= bytes.len(),
    decreases bytes.len(),
{
    let v = group_value(bytes);
    let tail = bytes.drop_first();
    if v >= 128 {
        if tail.len() == 0 {
            assert(group_value(tail) == 0);
        } else {
            lemma_encoding_within(tail);
            assert(v / 128 == group_value(tail));
        }
    }
}

/// The canonical encoding is minimal: no byte string that decodes to a value
/// does so from fewer bytes than the value's encoding has.
pub proof fn lemma_encoding_minimal(bytes: Seq<u8>)
    requires
        decoding(bytes) is Ok,
    ensures
        encoding(decoding(bytes).unwrap().1 as nat).len() + decoding(bytes).unwrap().0.len()
            <= bytes.len(),
{
    reveal(decoding);
    let n = continuation_run(bytes) as int;
    lemma_run_bound(bytes);
    lemma_encoding_within(bytes.subrange(0, n + 1));
}

} // verus!
