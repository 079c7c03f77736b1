//! Leaf and internal-node hashing with domain separation.
//!
//! Every digest in the tree is a SHA-256 digest over a tagged byte string: a
//! leaf hashes `0x00` followed by the value's bytes, an internal node hashes
//! `0x01` followed by its two children's digests (an unpaired child is
//! combined with a copy of itself). The distinct tags keep a leaf digest from
//! ever being fed to the hash as an internal-node image and vice versa.

use vstd::prelude::*;

verus! {

/// The domain tag prefixed to a value's bytes before hashing a leaf.
pub const LEAF_SIG: u8 = 0;

/// The domain tag prefixed to the children's digests before hashing an
/// internal node.
pub const INTERNAL_SIG: u8 = 1;

/// The SHA-256 digest of a byte string, as the outside hash primitive
/// computes it.
pub uninterp spec fn sha256_of(bytes: Seq<u8>) -> Seq<u8>;

/// The exact bytes hashed for a leaf over the value bytes `bytes`.
pub open spec fn leaf_preimage(bytes: Seq<u8>) -> Seq<u8> {
    seq![LEAF_SIG] + bytes
}

/// The exact bytes hashed for an internal node over the child digests `left`
/// and `right`.
pub open spec fn internal_preimage(left: Seq<u8>, right: Seq<u8>) -> Seq<u8> {
    seq![INTERNAL_SIG] + left + right
}

/// The digest stored for a leaf over the value bytes `bytes`.
pub open spec fn leaf_digest(bytes: Seq<u8>) -> Seq<u8> {
    sha256_of(leaf_preimage(bytes))
}

/// The digest stored for an internal node over the child digests `left` and
/// `right`.
pub open spec fn internal_digest(left: Seq<u8>, right: Seq<u8>) -> Seq<u8> {
    sha256_of(internal_preimage(left, right))
}

/// Relies on sha2::Sha256 through digest::Digest::digest: the digest is a
/// function of the input bytes alone and is always 32 bytes long.
#[verifier::external_body]
fn sha256(bytes: &[u8]) -> (r: Vec<u8>)
    ensures
        r@ == sha256_of(bytes@),
        r@.len() == 32,
{
    <sha2::Sha256 as digest::Digest>::digest(bytes).to_vec()
}

/// Appends all of `bytes` to `buf`.
fn append_bytes(buf: &mut Vec<u8>, bytes: &[u8])
    ensures
        final(buf)@ == old(buf)@ + bytes@,
{
    let mut i: usize = 0;
    while i < bytes.len()
        invariant
            i <= bytes@.len(),
            buf@ == old(buf)@ + bytes@.take(i as int),
        decreases bytes@.len() - i,
    {
        buf.push(bytes[i]);
        proof {
            assert(bytes@.take(i + 1) =~= bytes@.take(i as int).push(bytes@[i as int]));
        }
        i = i + 1;
    }
    proof {
        assert(bytes@.take(bytes@.len() as int) =~= bytes@);
    }
}

/// Hashes a raw value into its domain-separated leaf digest.
pub fn hash_leaf(value: &[u8]) -> (r: Vec<u8>)
    ensures
        r@ == leaf_digest(value@),
        r@.len() == 32,
{
    let mut buf: Vec<u8> = Vec::new();
    buf.push(LEAF_SIG);
    proof {
        assert(buf@ =~= seq![LEAF_SIG]);
    }
    append_bytes(&mut buf, value);
    sha256(buf.as_slice())
}

/// Combines two child digests (or one digest with a copy of itself, when no
/// right sibling exists) into the parent's domain-separated digest.
pub fn hash_internal_node(left: &Vec<u8>, right: Option<&Vec<u8>>) -> (r: Vec<u8>)
    ensures
        r@ == internal_digest(
            left@,
            match right {
                Some(v) => v@,
                None => left@,
            },
        ),
        r@.len() == 32,
{
    let mut buf: Vec<u8> = Vec::new();
    buf.push(INTERNAL_SIG);
    proof {
        assert(buf@ =~= seq![INTERNAL_SIG]);
    }
    append_bytes(&mut buf, left.as_slice());
    match right {
        Some(sibling) => append_bytes(&mut buf, sibling.as_slice()),
        None => append_bytes(&mut buf, left.as_slice()),
    }
    sha256(buf.as_slice())
}

/// Law: the bytes hashed for a leaf never coincide with the bytes hashed for
/// an internal node, whatever the payloads, because the domain tags differ.
pub proof fn lemma_domain_separation(bytes: Seq<u8>, left: Seq<u8>, right: Seq<u8>)
    ensures
        leaf_preimage(bytes) != internal_preimage(left, right),
{
    assert(leaf_preimage(bytes)[0] == LEAF_SIG);
    assert(internal_preimage(left, right)[0] == INTERNAL_SIG);
}

} // verus!
