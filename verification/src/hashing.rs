use vstd::prelude::*;

verus! {

/// The 32-byte BLAKE3 digest of a byte string, named abstractly: by BLAKE3's
/// definition the digest is a function of the input bytes alone.
pub uninterp spec fn blake3_of(data: Seq<u8>) -> Seq<u8>;

/// Relies on blake3::hash: a deterministic function of the input bytes,
/// always returning a 32-byte digest.
#[verifier::external_body]
pub(crate) fn blake3_digest(data: &Vec<u8>) -> (r: Vec<u8>)
    ensures
        r@ == blake3_of(data@),
        r@.len() == 32,
{
    blake3::hash(data.as_slice()).as_bytes().to_vec()
}

/// Copies a digest. Stated over views so that callers keep every fact they
/// had about the original bytes.
pub(crate) fn clone_digest(v: &Vec<u8>) -> (r: Vec<u8>)
    ensures
        r@ == v@,
{
    let r = v.clone();
    proof {
        assert(r@ =~= v@);
    }
    r
}

/// Concatenates two byte strings into a fresh buffer.
pub(crate) fn concat_bytes(a: &Vec<u8>, b: &Vec<u8>) -> (r: Vec<u8>)
    ensures
        r@ == a@ + b@,
{
    let mut r: Vec<u8> = Vec::new();
    r.extend_from_slice(a.as_slice());
    r.extend_from_slice(b.as_slice());
    proof {
        assert(r@ =~= a@ + b@);
    }
    r
}

} // verus!
