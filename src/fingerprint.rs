//! Content fingerprints: MD5 digests and their hexadecimal form.

use vstd::prelude::*;

verus! {

/// The MD5 digest of a byte string.
pub uninterp spec fn md5_of(data: Seq<u8>) -> Seq<u8>;

/// A lowercase hexadecimal digit.
pub open spec fn hex_digit(d: u8) -> char {
    if d < 10 {
        ((d + 48) as u8) as char
    } else {
        ((d + 87) as u8) as char
    }
}

/// Two lowercase hexadecimal digits per byte, high digit first.
pub open spec fn hex_spec(b: Seq<u8>) -> Seq<char>
    decreases b.len(),
{
    if b.len() == 0 {
        Seq::empty()
    } else {
        hex_spec(b.drop_last()) + seq![hex_digit(b.last() / 16), hex_digit(b.last() % 16)]
    }
}

/// Relies on `md5::compute`: the digest depends on the bytes alone.
#[verifier::external_body]
fn md5_digest(data: &[u8]) -> (r: [u8; 16])
    ensures
        r@ == md5_of(data@),
{
    md5::compute(data).0
}

/// Relies on `hex::encode`: two lowercase digits per byte, the high one
/// first, as its documentation states.
#[verifier::external_body]
fn hex_encode(data: &[u8]) -> (r: String)
    ensures
        r@ == hex_spec(data@),
{
    hex::encode(data)
}

/// A digest of some content.
#[derive(Clone, Copy, Debug, PartialEq, Eq, PartialOrd, Ord, Hash)]
pub struct Hash {
    bytes: [u8; 16],
}

impl Hash {
    pub closed spec fn bytes_spec(&self) -> Seq<u8> {
        self.bytes@
    }

    /// The MD5 digest of `data`.
    pub fn compute(data: &[u8]) -> (r: Hash)
        ensures
            r.bytes_spec() == md5_of(data@),
    {
        Hash { bytes: md5_digest(data) }
    }

    /// The digest in lowercase hexadecimal.
    pub fn hex(&self) -> (r: String)
        ensures
            r@ == hex_spec(self.bytes_spec()),
    {
        hex_encode(self.bytes.as_slice())
    }
}

} // verus!
