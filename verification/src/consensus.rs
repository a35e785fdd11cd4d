//! The calls into the `bitcoin` crate's consensus encoding. Nothing in this file is proved: each
//! contract says what the called function does.

use psbt_v2::bitcoin::consensus::encode;
use psbt_v2::bitcoin::consensus::encode::Error as EncodeError;
use psbt_v2::bitcoin::consensus::encode::{deserialize, serialize, Decodable, VarInt};
use psbt_v2::bitcoin::Transaction;
use vstd::prelude::*;

use crate::wire::{compact_size, exact_compact_size, read_compact_size};

verus! {

/// The error of the `bitcoin` crate's decoders; only that one occurred is of interest here.
#[verifier::external_type_specification]
#[verifier::external_body]
pub struct ExEncodeError(EncodeError);

/// The most bytes that one byte vector may take up, its length included.
pub open spec fn max_vec_size() -> nat {
    4_000_000
}

/// Reads a byte vector, that is a compact size and as many bytes, from the front of `s`: the
/// vector, if there is one, and the bytes that are left unread. Only the first `max_vec_size()`
/// bytes of `s` are looked at. The length is cut down to what a `usize` holds.
pub open spec fn read_byte_vec(s: Seq<u8>) -> (Option<Seq<u8>>, Seq<u8>) {
    let window = s.take(if s.len() < max_vec_size() { s.len() as int } else { max_vec_size() as int });
    let (size, rest) = read_compact_size(window);
    let start = window.len() - rest.len();
    match size {
        None => (None, s.skip(start)),
        Some(n) => {
            let end = start + (n as usize);
            if end <= window.len() {
                (Some(s.subrange(start, end)), s.skip(end))
            } else {
                (None, s.skip(window.len() as int))
            }
        },
    }
}

/// How many inputs and how many outputs the transaction has that `bytes` decodes to, or `None`
/// where `bytes` does not decode to one. Lengths inside the transaction are cut down to `width`
/// bits, the width of a `usize`.
pub uninterp spec fn transaction_counts(bytes: Seq<u8>, width: u32) -> Option<(usize, usize)>;

/// Calls `VarInt::consensus_decode` on a slice. Claimed: it reads a compact size, refuses one
/// that is cut short or longer than need be, and advances `input` past what it has read.
#[verifier::external_body]
pub(crate) fn decode_var_int(input: &mut &[u8]) -> (result: Result<u64, EncodeError>)
    ensures
        match result {
            Ok(n) => read_compact_size((*old(input))@).0 == Some(n),
            Err(_) => read_compact_size((*old(input))@).0 is None,
        },
        (*final(input))@ == read_compact_size((*old(input))@).1,
{
    let VarInt(n) = Decodable::consensus_decode(input)?;
    Ok(n)
}

/// Calls `u8::consensus_decode` on a slice. Claimed: it takes the first byte of `input`, and
/// fails only where there is none.
#[verifier::external_body]
pub(crate) fn decode_u8(input: &mut &[u8]) -> (result: Result<u8, EncodeError>)
    ensures
        match result {
            Ok(byte) => (*old(input))@.len() > 0 && byte == (*old(input))@[0]
                && (*final(input))@ == (*old(input))@.skip(1),
            Err(_) => (*old(input))@.len() == 0 && (*final(input))@ == (*old(input))@,
        },
{
    Decodable::consensus_decode(input)
}

/// Calls `Vec::<u8>::consensus_decode` on a slice. Claimed: it reads a byte vector as
/// `read_byte_vec` says, and advances `input` past what it has read.
#[verifier::external_body]
pub(crate) fn decode_byte_vec(input: &mut &[u8]) -> (result: Result<Vec<u8>, EncodeError>)
    ensures
        match result {
            Ok(bytes) => read_byte_vec((*old(input))@).0 == Some(bytes@),
            Err(_) => read_byte_vec((*old(input))@).0 is None,
        },
        (*final(input))@ == read_byte_vec((*old(input))@).1,
{
    Decodable::consensus_decode(input)
}

/// Reads the constant `MAX_VEC_SIZE`. Claimed: its value.
#[verifier::external_body]
pub(crate) fn vec_size_limit() -> (limit: usize)
    ensures
        limit == max_vec_size(),
{
    encode::MAX_VEC_SIZE
}

/// Calls `deserialize::<VarInt>`. Claimed: it returns the number whose compact size `bytes` is,
/// and fails where `bytes` is no compact size or goes on after one.
#[verifier::external_body]
pub(crate) fn deserialize_var_int(bytes: &[u8]) -> (result: Result<u64, EncodeError>)
    ensures
        match result {
            Ok(n) => exact_compact_size(bytes@) == Some(n),
            Err(_) => exact_compact_size(bytes@) is None,
        },
{
    let VarInt(n) = deserialize(bytes)?;
    Ok(n)
}

/// Calls `deserialize::<Transaction>` and hands out how many inputs and outputs the transaction
/// has. Claimed: both, and whether it fails, depend on `bytes` and the width of a `usize` alone.
#[verifier::external_body]
pub(crate) fn deserialize_transaction(bytes: &[u8]) -> (result: Result<
    (usize, usize),
    EncodeError,
>)
    ensures
        match result {
            Ok(counts) => transaction_counts(bytes@, usize::BITS) == Some(counts),
            Err(_) => transaction_counts(bytes@, usize::BITS) is None,
        },
{
    let tx: Transaction = deserialize(bytes)?;
    Ok((tx.input.len(), tx.output.len()))
}

/// Calls `serialize` on the `VarInt` of `n`. Claimed: it returns the compact size of `n`.
#[verifier::external_body]
pub(crate) fn serialize_var_int(n: u64) -> (bytes: Vec<u8>)
    ensures
        bytes@ == compact_size(n),
{
    serialize(&VarInt::from(n))
}

/// Calls `serialize` on a `u8`. Claimed: it returns that one byte.
#[verifier::external_body]
pub(crate) fn serialize_u8(byte: u8) -> (bytes: Vec<u8>)
    ensures
        bytes@ == seq![byte],
{
    serialize(&byte)
}

} // verus!
