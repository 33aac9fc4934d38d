//! Big-endian integers of the frame layout.

use vstd::prelude::*;

verus! {

/// The four bytes that stand for `n`, most significant first.
#[verifier::opaque]
pub open spec fn be_bytes(n: u32) -> Seq<u8> {
    seq![
        (n / 0x100_0000) as u8,
        (n / 0x1_0000 % 0x100) as u8,
        (n / 0x100 % 0x100) as u8,
        (n % 0x100) as u8,
    ]
}

/// The number that the four bytes of `bytes` from `at` on stand for.
pub open spec fn be_value(bytes: Seq<u8>, at: int) -> u32
    recommends
        0 <= at,
        at + 4 <= bytes.len(),
{
    (bytes[at] * 0x100_0000 + bytes[at + 1] * 0x1_0000 + bytes[at + 2] * 0x100 + bytes[at + 3]) as u32
}

/// Reading back what was written gives the number that was written.
pub proof fn lemma_be_round_trip(n: u32)
    ensures
        be_bytes(n).len() == 4,
        be_value(be_bytes(n), 0) == n,
{
    reveal(be_bytes);
}

/// Where the four bytes at `at` are those of `n`, the value read there is `n`.
pub proof fn lemma_be_value_at(bytes: Seq<u8>, at: int, n: u32)
    requires
        0 <= at,
        at + 4 <= bytes.len(),
        bytes.subrange(at, at + 4) == be_bytes(n),
    ensures
        be_value(bytes, at) == n,
{
    lemma_be_round_trip(n);
}

/// The low 32 bits of `n`: what the layout keeps of a machine-sized number.
pub open spec fn low32(n: usize) -> u32 {
    (n as int % 0x1_0000_0000) as u32
}

/// Cuts `n` down to the 32 bits that the layout has room for.
pub fn truncate32(n: usize) -> (low: u32)
    ensures
        low == low32(n),
        n <= u32::MAX ==> low == n,
{
    let wide: u64 = n as u64;
    (wide % 0x1_0000_0000u64) as u32
}

/// `bytes::BufMut::put_u8` on a `Vec<u8>`, which appends the one byte `n`.
/// Trusted: for a vector the crate forwards to `Vec::extend_from_slice`,
/// which fails only where the vector would outgrow `isize::MAX` bytes.
#[verifier::external_body]
pub(crate) fn put_u8(buf: &mut Vec<u8>, n: u8)
    requires
        old(buf)@.len() + 1 <= isize::MAX,
    ensures
        final(buf)@ == old(buf)@.push(n),
{
    bytes::BufMut::put_u8(buf, n)
}

/// `bytes::BufMut::put_u32` on a `Vec<u8>`, which appends `n` in big-endian
/// byte order. Trusted: the crate appends `n.to_be_bytes()` by way of
/// `Vec::extend_from_slice`.
#[verifier::external_body]
pub(crate) fn put_u32(buf: &mut Vec<u8>, n: u32)
    requires
        old(buf)@.len() + 4 <= isize::MAX,
    ensures
        final(buf)@ == old(buf)@ + be_bytes(n),
        final(buf)@.len() == old(buf)@.len() + 4,
{
    bytes::BufMut::put_u32(buf, n)
}

/// `bytes::BufMut::put_slice` on a `Vec<u8>`, which appends all of `src`.
/// Trusted: for a vector the crate calls `Vec::extend_from_slice`.
#[verifier::external_body]
pub(crate) fn put_slice(buf: &mut Vec<u8>, src: &[u8])
    requires
        old(buf)@.len() + src@.len() <= isize::MAX,
    ensures
        final(buf)@ == old(buf)@ + src@,
{
    bytes::BufMut::put_slice(buf, src)
}

/// Reads a big-endian `u32` at `at`.
pub fn read_u32(bytes: &Vec<u8>, at: usize) -> (n: u32)
    requires
        at + 4 <= bytes.len(),
    ensures
        n == be_value(bytes@, at as int),
{
    let b0: u32 = bytes[at] as u32;
    let b1: u32 = bytes[at + 1] as u32;
    let b2: u32 = bytes[at + 2] as u32;
    let b3: u32 = bytes[at + 3] as u32;
    b0 * 0x100_0000 + b1 * 0x1_0000 + b2 * 0x100 + b3
}

} // verus!
