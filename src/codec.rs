//! The canonical leaf encoding of a receiver `(index, address, amount)`.
//!
//! A leaf is the XDR form of the Soroban value
//! `Map({address: Address(address), amount: I128(amount), index: U32(index)})`,
//! its entries sorted by key: map tag, presence flag and entry count, then
//! each symbol key (length, bytes, zero padding to four) followed by its
//! value. All integers are big-endian; the amount is two's complement, high
//! 64 bits first.
use vstd::prelude::*;
use crate::address::Address;

verus! {

/// The four big-endian bytes of `x`.
pub open spec fn be32_of(x: u32) -> Seq<u8> {
    seq![(x >> 24u32) as u8, (x >> 16u32) as u8, (x >> 8u32) as u8, x as u8]
}

/// The eight big-endian bytes of `x`.
pub open spec fn be64_of(x: u64) -> Seq<u8> {
    seq![
        (x >> 56u64) as u8,
        (x >> 48u64) as u8,
        (x >> 40u64) as u8,
        (x >> 32u64) as u8,
        (x >> 24u64) as u8,
        (x >> 16u64) as u8,
        (x >> 8u64) as u8,
        x as u8,
    ]
}

/// The high limb of a 128-bit amount: `amount >> 64`, as 64 bits.
pub open spec fn amount_hi(amount: i128) -> u64 {
    (amount >> 64u32) as u64
}

/// The low limb of a 128-bit amount: its low 64 bits.
pub open spec fn amount_lo(amount: i128) -> u64 {
    amount as u64
}

/// Map value tag, "present" flag, and three entries; then the first key
/// `"address"` and the address value tag.
pub open spec fn address_entry_head() -> Seq<u8> {
    seq![
        0, 0, 0, 17, 0, 0, 0, 1, 0, 0, 0, 3,
        0, 0, 0, 15, 0, 0, 0, 7, 97, 100, 100, 114, 101, 115, 115, 0,
        0, 0, 0, 18,
    ]
}

/// The XDR of an address: account (type 0, key type 0, key) or contract
/// (type 1, hash).
pub open spec fn address_body(is_contract: bool, key: Seq<u8>) -> Seq<u8> {
    if is_contract {
        seq![0u8, 0, 0, 1] + key
    } else {
        seq![0u8, 0, 0, 0, 0, 0, 0, 0] + key
    }
}

/// The key `"amount"` and the 128-bit integer value tag.
pub open spec fn amount_entry_head() -> Seq<u8> {
    seq![0, 0, 0, 15, 0, 0, 0, 6, 97, 109, 111, 117, 110, 116, 0, 0, 0, 0, 0, 10]
}

/// The key `"index"` and the 32-bit unsigned value tag.
pub open spec fn index_entry_head() -> Seq<u8> {
    seq![0, 0, 0, 15, 0, 0, 0, 5, 105, 110, 100, 101, 120, 0, 0, 0, 0, 0, 0, 3]
}

/// The encoded leaf of a receiver.
pub open spec fn leaf_encoding(index: u32, is_contract: bool, key: Seq<u8>, amount: i128) -> Seq<
    u8,
> {
    address_entry_head() + address_body(is_contract, key) + amount_entry_head() + be64_of(
        amount_hi(amount),
    ) + be64_of(amount_lo(amount)) + index_entry_head() + be32_of(index)
}

proof fn lemma_be32_injective(x: u32, y: u32)
    requires
        be32_of(x) == be32_of(y),
    ensures
        x == y,
{
    assert(be32_of(x)[0] == be32_of(y)[0]);
    assert(be32_of(x)[1] == be32_of(y)[1]);
    assert(be32_of(x)[2] == be32_of(y)[2]);
    assert(be32_of(x)[3] == be32_of(y)[3]);
    assert(((x >> 24u32) as u8 == (y >> 24u32) as u8 && (x >> 16u32) as u8 == (y >> 16u32) as u8
        && (x >> 8u32) as u8 == (y >> 8u32) as u8 && x as u8 == y as u8) ==> x == y)
        by (bit_vector);
}

proof fn lemma_be64_injective(x: u64, y: u64)
    requires
        be64_of(x) == be64_of(y),
    ensures
        x == y,
{
    assert(be64_of(x)[0] == be64_of(y)[0]);
    assert(be64_of(x)[1] == be64_of(y)[1]);
    assert(be64_of(x)[2] == be64_of(y)[2]);
    assert(be64_of(x)[3] == be64_of(y)[3]);
    assert(be64_of(x)[4] == be64_of(y)[4]);
    assert(be64_of(x)[5] == be64_of(y)[5]);
    assert(be64_of(x)[6] == be64_of(y)[6]);
    assert(be64_of(x)[7] == be64_of(y)[7]);
    assert(((x >> 56u64) as u8 == (y >> 56u64) as u8 && (x >> 48u64) as u8 == (y >> 48u64) as u8
        && (x >> 40u64) as u8 == (y >> 40u64) as u8 && (x >> 32u64) as u8 == (y >> 32u64) as u8
        && (x >> 24u64) as u8 == (y >> 24u64) as u8 && (x >> 16u64) as u8 == (y >> 16u64) as u8
        && (x >> 8u64) as u8 == (y >> 8u64) as u8 && x as u8 == y as u8) ==> x == y)
        by (bit_vector);
}

proof fn lemma_limbs_injective(a: i128, b: i128)
    requires
        amount_hi(a) == amount_hi(b),
        amount_lo(a) == amount_lo(b),
    ensures
        a == b,
{
    assert(((a >> 64u32) as u64 == (b >> 64u32) as u64 && a as u64 == b as u64) ==> a == b)
        by (bit_vector);
}

/// The leaf encoding is injective: two receivers with the same encoded leaf
/// have the same index, address and amount.
pub proof fn lemma_encoding_injective(
    index1: u32,
    is_contract1: bool,
    key1: Seq<u8>,
    amount1: i128,
    index2: u32,
    is_contract2: bool,
    key2: Seq<u8>,
    amount2: i128,
)
    requires
        key1.len() == 32,
        key2.len() == 32,
        leaf_encoding(index1, is_contract1, key1, amount1) == leaf_encoding(
            index2,
            is_contract2,
            key2,
            amount2,
        ),
    ensures
        index1 == index2,
        is_contract1 == is_contract2,
        key1 == key2,
        amount1 == amount2,
{
    let e1 = leaf_encoding(index1, is_contract1, key1, amount1);
    let e2 = leaf_encoding(index2, is_contract2, key2, amount2);
    assert(is_contract1 == is_contract2) by {
        assert(e1.len() == if is_contract1 { 128int } else { 132int });
        assert(e2.len() == if is_contract2 { 128int } else { 132int });
    }
    let off: int = if is_contract1 { 36 } else { 40 };
    assert(e1.subrange(off, off + 32) =~= key1);
    assert(e2.subrange(off, off + 32) =~= key2);
    assert(e1.subrange(off + 52, off + 60) =~= be64_of(amount_hi(amount1)));
    assert(e2.subrange(off + 52, off + 60) =~= be64_of(amount_hi(amount2)));
    assert(e1.subrange(off + 60, off + 68) =~= be64_of(amount_lo(amount1)));
    assert(e2.subrange(off + 60, off + 68) =~= be64_of(amount_lo(amount2)));
    assert(e1.subrange(off + 88, off + 92) =~= be32_of(index1));
    assert(e2.subrange(off + 88, off + 92) =~= be32_of(index2));
    lemma_be64_injective(amount_hi(amount1), amount_hi(amount2));
    lemma_be64_injective(amount_lo(amount1), amount_lo(amount2));
    lemma_limbs_injective(amount1, amount2);
    lemma_be32_injective(index1, index2);
}

/// Appends every byte of `src` to `buf`.
fn append(buf: &mut Vec<u8>, src: &[u8])
    ensures
        final(buf)@ == old(buf)@ + src@,
{
    let mut i: usize = 0;
    while i < src.len()
        invariant
            i <= src.len(),
            buf@ == old(buf)@ + src@.take(i as int),
        decreases src.len() - i,
    {
        buf.push(src[i]);
        i += 1;
        assert(src@.take(i as int) =~= src@.take(i - 1).push(src@[i - 1]));
    }
    assert(src@.take(src@.len() as int) =~= src@);
}

/// Encodes a receiver as a tree leaf.
pub fn encode_receiver(index: u32, address: &Address, amount: i128) -> (r: Vec<u8>)
    ensures
        r@ == leaf_encoding(index, address.is_contract, address.key@, amount),
{
    let mut buf: Vec<u8> = Vec::new();
    let head: [u8; 32] = [
        0, 0, 0, 17, 0, 0, 0, 1, 0, 0, 0, 3,
        0, 0, 0, 15, 0, 0, 0, 7, 97, 100, 100, 114, 101, 115, 115, 0,
        0, 0, 0, 18,
    ];
    append(&mut buf, &head);
    assert(head@ =~= address_entry_head());
    if address.is_contract {
        let tag: [u8; 4] = [0, 0, 0, 1];
        append(&mut buf, &tag);
        assert(tag@ =~= seq![0u8, 0, 0, 1]);
    } else {
        let tag: [u8; 8] = [0, 0, 0, 0, 0, 0, 0, 0];
        append(&mut buf, &tag);
        assert(tag@ =~= seq![0u8, 0, 0, 0, 0, 0, 0, 0]);
    }
    append(&mut buf, &address.key);
    let amount_head: [u8; 20] = [
        0, 0, 0, 15, 0, 0, 0, 6, 97, 109, 111, 117, 110, 116, 0, 0, 0, 0, 0, 10,
    ];
    append(&mut buf, &amount_head);
    assert(amount_head@ =~= amount_entry_head());
    let hi: u64 = (amount >> 64u32) as u64;
    let lo: u64 = amount as u64;
    let hi_bytes: [u8; 8] = [
        (hi >> 56u64) as u8,
        (hi >> 48u64) as u8,
        (hi >> 40u64) as u8,
        (hi >> 32u64) as u8,
        (hi >> 24u64) as u8,
        (hi >> 16u64) as u8,
        (hi >> 8u64) as u8,
        hi as u8,
    ];
    append(&mut buf, &hi_bytes);
    assert(hi_bytes@ =~= be64_of(amount_hi(amount)));
    let lo_bytes: [u8; 8] = [
        (lo >> 56u64) as u8,
        (lo >> 48u64) as u8,
        (lo >> 40u64) as u8,
        (lo >> 32u64) as u8,
        (lo >> 24u64) as u8,
        (lo >> 16u64) as u8,
        (lo >> 8u64) as u8,
        lo as u8,
    ];
    append(&mut buf, &lo_bytes);
    assert(lo_bytes@ =~= be64_of(amount_lo(amount)));
    let index_head: [u8; 20] = [
        0, 0, 0, 15, 0, 0, 0, 5, 105, 110, 100, 101, 120, 0, 0, 0, 0, 0, 0, 3,
    ];
    append(&mut buf, &index_head);
    assert(index_head@ =~= index_entry_head());
    let index_bytes: [u8; 4] = [
        (index >> 24u32) as u8,
        (index >> 16u32) as u8,
        (index >> 8u32) as u8,
        index as u8,
    ];
    append(&mut buf, &index_bytes);
    assert(index_bytes@ =~= be32_of(index));
    buf
}

} // verus!
