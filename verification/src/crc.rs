//! Streaming CRC-32 hashing over uncompressed entry bytes.
//!
//! The hasher itself comes from the `crc32fast` crate; its state is modelled
//! as the sequence of bytes fed to it so far, and the finished hash as an
//! unnamed function of those bytes.

use vstd::prelude::*;

verus! {

/// `crc32fast::Hasher`, declared so a hasher can sit in a verified struct.
#[verifier::external_type_specification]
#[verifier::external_body]
pub struct ExHasher(crc32fast::Hasher);

/// The bytes fed to a hasher since it was created; a hasher's state is a
/// function of them.
pub uninterp spec fn hasher_fed(h: crc32fast::Hasher) -> Seq<u8>;

/// The IEEE CRC-32 of a byte sequence, as `crc32fast` computes it.
pub uninterp spec fn crc32_of(b: Seq<u8>) -> u32;

/// Relies on `crc32fast::Hasher::new`: a fresh hasher has been fed nothing.
#[verifier::external_body]
pub fn hasher_new() -> (h: crc32fast::Hasher)
    ensures
        hasher_fed(h) == Seq::<u8>::empty(),
{
    crc32fast::Hasher::new()
}

/// Relies on `crc32fast::Hasher::update`: feeding bytes appends them to what
/// the hasher has been fed.
#[verifier::external_body]
pub fn hasher_update(h: &mut crc32fast::Hasher, data: &[u8])
    ensures
        hasher_fed(*final(h)) == hasher_fed(*old(h)) + data@,
{
    h.update(data)
}

/// Relies on `crc32fast::Hasher::finalize`: the result is the CRC-32 of the
/// bytes the hasher was fed, and of them alone.
#[verifier::external_body]
pub fn hasher_finalize(h: crc32fast::Hasher) -> (r: u32)
    ensures
        r == crc32_of(hasher_fed(h)),
{
    h.finalize()
}

/// Computes the CRC-32 of a byte slice with a one-shot hasher.
pub fn compute_crc(data: &[u8]) -> (r: u32)
    ensures
        r == crc32_of(data@),
{
    let mut hasher = hasher_new();
    hasher_update(&mut hasher, data);
    proof {
        assert(Seq::<u8>::empty() + data@ =~= data@);
    }
    hasher_finalize(hasher)
}

} // verus!
