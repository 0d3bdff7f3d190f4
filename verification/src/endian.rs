//! Unsigned integers in network byte order, most significant byte first.

use byteorder::{BigEndian, ByteOrder};
use vstd::prelude::*;

verus! {

/// The number that `bytes` spell, most significant byte first.
pub open spec fn be_value(bytes: Seq<u8>) -> nat
    decreases bytes.len(),
{
    if bytes.len() == 0 {
        0
    } else {
        be_value(bytes.drop_last()) * 256 + bytes.last() as nat
    }
}

/// The `n` bytes that spell `v`, most significant byte first. Where `v`
/// needs more than `n` bytes, these are its lowest `n`.
pub open spec fn be_bytes(v: nat, n: nat) -> Seq<u8>
    decreases n,
{
    if n == 0 {
        Seq::empty()
    } else {
        be_bytes(v / 256, (n - 1) as nat).push((v % 256) as u8)
    }
}

/// Whether `n` bytes are enough to spell `v`.
pub open spec fn fits_in(v: nat, n: nat) -> bool
    decreases n,
{
    if n == 0 {
        v == 0
    } else {
        fits_in(v / 256, (n - 1) as nat)
    }
}

/// `be_bytes(v, n)` has `n` bytes.
pub proof fn lemma_be_bytes_len(v: nat, n: nat)
    ensures
        be_bytes(v, n).len() == n,
    decreases n,
{
    if n > 0 {
        lemma_be_bytes_len(v / 256, (n - 1) as nat);
    }
}

/// Reading back the bytes of a number that fits gives the number.
pub proof fn lemma_be_value_of_bytes(v: nat, n: nat)
    requires
        fits_in(v, n),
    ensures
        be_value(be_bytes(v, n)) == v,
    decreases n,
{
    if n > 0 {
        lemma_be_value_of_bytes(v / 256, (n - 1) as nat);
        assert(be_bytes(v, n).drop_last() =~= be_bytes(v / 256, (n - 1) as nat));
    }
}

/// Every 16-bit number fits in two bytes.
pub proof fn lemma_u16_fits(v: u16)
    ensures
        fits_in(v as nat, 2),
{
    reveal_with_fuel(fits_in, 3);
}

/// Every 64-bit number fits in eight bytes.
pub proof fn lemma_u64_fits(v: u64)
    ensures
        fits_in(v as nat, 8),
{
    reveal_with_fuel(fits_in, 9);
}

/// Calls `byteorder::BigEndian::read_u16`. Taken on trust: what comes
/// back is the number that the first two bytes of `buf` spell, the
/// first byte in the high half. The crate panics on fewer bytes.
#[verifier::external_body]
pub(crate) fn read_u16_be(buf: &[u8]) -> (v: u16)
    requires
        buf@.len() >= 2,
    ensures
        v == be_value(buf@.subrange(0, 2)),
{
    BigEndian::read_u16(buf)
}

/// Calls `byteorder::BigEndian::read_u64`. Taken on trust: what comes
/// back is the number that the first eight bytes of `buf` spell, the
/// first byte the most significant. The crate panics on fewer bytes.
#[verifier::external_body]
pub(crate) fn read_u64_be(buf: &[u8]) -> (v: u64)
    requires
        buf@.len() >= 8,
    ensures
        v == be_value(buf@.subrange(0, 8)),
{
    BigEndian::read_u64(buf)
}

/// Calls `byteorder::BigEndian::write_u16` on a buffer of two bytes.
/// Taken on trust: the buffer then holds the two bytes of `n`, the high
/// one first.
#[verifier::external_body]
pub(crate) fn write_u16_be(n: u16) -> (buf: [u8; 2])
    ensures
        buf@ == be_bytes(n as nat, 2),
{
    let mut buf = [0u8; 2];
    BigEndian::write_u16(&mut buf, n);
    buf
}

/// Calls `byteorder::BigEndian::write_u64` on a buffer of eight bytes.
/// Taken on trust: the buffer then holds the eight bytes of `n`, the
/// most significant first.
#[verifier::external_body]
pub(crate) fn write_u64_be(n: u64) -> (buf: [u8; 8])
    ensures
        buf@ == be_bytes(n as nat, 8),
{
    let mut buf = [0u8; 8];
    BigEndian::write_u64(&mut buf, n);
    buf
}

} // verus!
