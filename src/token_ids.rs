//! Token identifiers derived from a time value and a nonce: the BLAKE2b
//! digest of their byte encodings, in hexadecimal.
use vstd::prelude::*;
use crate::ledger::TokenId;

verus! {

/// The `n` little-endian bytes of `v`.
pub open spec fn le_bytes(v: nat, n: nat) -> Seq<u8>
    decreases n,
{
    if n == 0 {
        Seq::empty()
    } else {
        seq![(v % 256) as u8] + le_bytes(v / 256, (n - 1) as nat)
    }
}

/// The lowercase hexadecimal digit of `d`, for `d` below 16.
pub open spec fn hex_digit(d: nat) -> char {
    if d < 10 {
        (48 + d) as char
    } else {
        (87 + d) as char
    }
}

/// Two lowercase hexadecimal digits per byte, the high one first.
pub open spec fn hex_of(b: Seq<u8>) -> Seq<char>
    decreases b.len(),
{
    if b.len() == 0 {
        Seq::empty()
    } else {
        seq![hex_digit(b[0] as nat / 16), hex_digit(b[0] as nat % 16)] + hex_of(b.drop_first())
    }
}

/// The 32-byte BLAKE2b digest of `data`.
pub uninterp spec fn blake2b_of(data: Seq<u8>) -> Seq<u8>;

/// The bytes hashed for the identifier made at `time` with nonce value `i`.
pub open spec fn id_input(time: u64, i: nat) -> Seq<u8> {
    le_bytes(time as nat, 8) + le_bytes(i, 4)
}

/// The identifier made at `time` with nonce value `i`.
pub open spec fn token_id_for(time: u64, i: nat) -> Seq<char> {
    hex_of(blake2b_of(id_input(time, i)))
}

/// Relies on casper_types' `ToBytes` for `u64`, which never fails: the eight
/// little-endian bytes of the value.
#[verifier::external_body]
fn u64_bytes(x: u64) -> (r: Vec<u8>)
    ensures
        r@ == le_bytes(x as nat, 8),
{
    match casper_types::bytesrepr::ToBytes::to_bytes(&x) {
        Ok(b) => b,
        Err(_) => Vec::new(),
    }
}

/// Relies on casper_types' `ToBytes` for `u32`, which never fails: the four
/// little-endian bytes of the value.
#[verifier::external_body]
fn u32_bytes(x: u32) -> (r: Vec<u8>)
    ensures
        r@ == le_bytes(x as nat, 4),
{
    match casper_types::bytesrepr::ToBytes::to_bytes(&x) {
        Ok(b) => b,
        Err(_) => Vec::new(),
    }
}

/// Relies on casper_types::Digest::hash: the 32-byte BLAKE2b digest, which
/// depends on the data alone.
#[verifier::external_body]
fn blake2b(data: &Vec<u8>) -> (r: Vec<u8>)
    ensures
        r@ == blake2b_of(data@),
        r@.len() == 32,
{
    casper_types::Digest::hash(data).value().to_vec()
}

/// Relies on hex::encode: two lowercase hexadecimal digits per byte, the high
/// one first.
#[verifier::external_body]
fn hex_encode(data: &Vec<u8>) -> (r: String)
    ensures
        r@ == hex_of(data@),
{
    hex::encode(data)
}

/// The identifier made at `time` with nonce value `i`.
pub fn token_id(time: u64, i: u32) -> (r: TokenId)
    ensures
        r@ == token_id_for(time, i as nat),
{
    let mut bytes = u64_bytes(time);
    let mut tail = u32_bytes(i);
    bytes.append(&mut tail);
    let digest = blake2b(&bytes);
    hex_encode(&digest)
}

} // verus!
