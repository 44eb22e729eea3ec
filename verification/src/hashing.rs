//! Content fingerprinting.
//!
//! A fingerprint is the lowercase hexadecimal digest of a file's bytes under
//! one of two algorithms. Fingerprint equality is the library's sole duplicate
//! criterion, so all files of one detection pass must use the same algorithm.

use vstd::prelude::*;

verus! {

/// The available fingerprint algorithms.
#[derive(Clone, Copy, PartialEq, Eq, Structural, Debug)]
pub enum HashAlgorithm {
    /// BLAKE3: a fast cryptographic hash.
    Blake3,
    /// xxHash (XXH3): a very fast non-cryptographic hash.
    XxHash3,
}

impl Default for HashAlgorithm {
    /// The default algorithm is the cryptographic one.
    fn default() -> (r: Self)
        ensures
            r == HashAlgorithm::Blake3,
    {
        HashAlgorithm::Blake3
    }
}

impl HashAlgorithm {
    /// The algorithm's display name.
    pub fn display_name(&self) -> (r: &'static str)
        ensures
            self is Blake3 ==> r@ == "BLAKE3"@,
            self is XxHash3 ==> r@ == "xxHash3"@,
    {
        match self {
            HashAlgorithm::Blake3 => "BLAKE3",
            HashAlgorithm::XxHash3 => "xxHash3",
        }
    }
}

/// The lowercase hex digest that BLAKE3 assigns to a byte sequence.
pub uninterp spec fn blake3_hex_of(bytes: Seq<u8>) -> Seq<char>;

/// The lowercase hex digest that XXH3 assigns to a byte sequence.
pub uninterp spec fn xxh3_hex_of(bytes: Seq<u8>) -> Seq<char>;

/// The fingerprint a byte sequence gets under the chosen algorithm.
pub open spec fn fingerprint_of(alg: HashAlgorithm, bytes: Seq<u8>) -> Seq<char> {
    match alg {
        HashAlgorithm::Blake3 => blake3_hex_of(bytes),
        HashAlgorithm::XxHash3 => xxh3_hex_of(bytes),
    }
}

/// Relies on `blake3::hash` and `blake3::Hash::to_hex`: the digest is a pure
/// function of the input bytes, and `to_hex` renders its 32 bytes as 64
/// lowercase hex characters.
#[verifier::external_body]
fn blake3_hex(bytes: &[u8]) -> (r: String)
    ensures
        r@ == blake3_hex_of(bytes@),
        r@.len() == 64,
{
    blake3::hash(bytes).to_hex().as_str().to_owned()
}

/// Relies on `xxhash_rust::xxh3::xxh3_64`: the 64-bit digest is a pure
/// function of the input bytes; formatted `{:x}` it takes 1 to 16 characters.
#[verifier::external_body]
fn xxh3_hex(bytes: &[u8]) -> (r: String)
    ensures
        r@ == xxh3_hex_of(bytes@),
        1 <= r@.len() <= 16,
{
    format!("{:x}", xxhash_rust::xxh3::xxh3_64(bytes))
}

/// Fingerprint a byte sequence with the chosen algorithm.
pub fn hash_bytes(alg: HashAlgorithm, bytes: &[u8]) -> (r: String)
    ensures
        r@ == fingerprint_of(alg, bytes@),
{
    match alg {
        HashAlgorithm::Blake3 => blake3_hex(bytes),
        HashAlgorithm::XxHash3 => xxh3_hex(bytes),
    }
}

} // verus!
