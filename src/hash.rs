//! SHA-256 and the two domain-separated hash steps of the tree.
use vstd::prelude::*;

verus! {

/// Tag prepended to an encoded leaf before hashing it.
pub const LEAF_TAG: u8 = 0;

/// Tag prepended to the two children of an internal node before hashing them.
pub const NODE_TAG: u8 = 1;

/// The SHA-256 digest of a byte string.
pub uninterp spec fn sha256_of(data: Seq<u8>) -> Seq<u8>;

/// Relies on `sha2::Sha256::digest`: the 32-byte SHA-256 digest of `data`.
#[verifier::external_body]
fn sha256(data: &Vec<u8>) -> (r: [u8; 32])
    ensures
        r@ == sha256_of(data@),
{
    <sha2::Sha256 as sha2::Digest>::digest(data.as_slice()).into()
}

/// Hash of a leaf: `SHA-256(LEAF_TAG ++ leaf)`.
pub open spec fn leaf_hash_of(leaf: Seq<u8>) -> Seq<u8> {
    sha256_of(seq![LEAF_TAG] + leaf)
}

/// Hash of an internal node: `SHA-256(NODE_TAG ++ left ++ right)`.
pub open spec fn node_hash_of(left: Seq<u8>, right: Seq<u8>) -> Seq<u8> {
    sha256_of(seq![NODE_TAG] + left + right)
}

/// Hashes an encoded leaf, with the leaf domain tag.
pub fn leaf_hash(leaf: &Vec<u8>) -> (r: [u8; 32])
    ensures
        r@ == leaf_hash_of(leaf@),
{
    let mut buf: Vec<u8> = Vec::new();
    buf.push(LEAF_TAG);
    let mut i: usize = 0;
    while i < leaf.len()
        invariant
            i <= leaf.len(),
            buf@ == seq![LEAF_TAG] + leaf@.take(i as int),
        decreases leaf.len() - i,
    {
        buf.push(leaf[i]);
        i += 1;
        assert(leaf@.take(i as int) == leaf@.take(i - 1) + seq![leaf@[i - 1]]);
    }
    assert(leaf@.take(leaf@.len() as int) == leaf@);
    sha256(&buf)
}

/// Hashes two child hashes into their parent, with the node domain tag.
pub fn node_hash(left: &[u8; 32], right: &[u8; 32]) -> (r: [u8; 32])
    ensures
        r@ == node_hash_of(left@, right@),
{
    let mut buf: Vec<u8> = Vec::new();
    buf.push(NODE_TAG);
    let mut i: usize = 0;
    while i < 32
        invariant
            i <= 32,
            left@.len() == 32,
            buf@ == seq![NODE_TAG] + left@.take(i as int),
        decreases 32 - i,
    {
        buf.push(left[i]);
        i += 1;
        assert(left@.take(i as int) == left@.take(i - 1) + seq![left@[i - 1]]);
    }
    assert(left@.take(32) == left@);
    let mut j: usize = 0;
    while j < 32
        invariant
            j <= 32,
            left@.len() == 32,
            right@.len() == 32,
            buf@ == seq![NODE_TAG] + left@ + right@.take(j as int),
        decreases 32 - j,
    {
        buf.push(right[j]);
        j += 1;
        assert(right@.take(j as int) == right@.take(j - 1) + seq![right@[j - 1]]);
    }
    assert(right@.take(32) == right@);
    sha256(&buf)
}

} // verus!
