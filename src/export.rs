//! The offline side of a distribution: numbering the recipients, encoding
//! them, building the tree, and producing the root and one proof per
//! recipient. Reading and writing files is left to the caller.
use vstd::prelude::*;
use crate::address::{Address, strkey_address};
use crate::codec::{encode_receiver, leaf_encoding};
use crate::merkle::{MerkleTree, hashes_view, leaf_hashes, merkle_root, proof_of, lemma_round_trip};
use crate::token::receiver_verifies;

verus! {

/// The lowercase hex digit of `d` (below 16).
pub open spec fn hex_digit(d: int) -> char {
    seq!['0', '1', '2', '3', '4', '5', '6', '7', '8', '9', 'a', 'b', 'c', 'd', 'e', 'f'][d]
}

/// Lowercase hex of a byte string: two digits per byte, high nibble first.
pub open spec fn hex_of(b: Seq<u8>) -> Seq<char>
    decreases b.len(),
{
    if b.len() == 0 {
        seq![]
    } else {
        seq![hex_digit(b[0] as int / 16), hex_digit(b[0] as int % 16)] + hex_of(b.drop_first())
    }
}

/// Relies on `hex::encode`: each byte becomes two lowercase hex digits,
/// high nibble first.
#[verifier::external_body]
fn hex_encode(h: &[u8; 32]) -> (r: String)
    ensures
        r@ == hex_of(h@),
{
    hex::encode(h)
}

/// One recipient of the list: an address in strkey form and an amount.
#[derive(Clone, Debug)]
pub struct Recipient {
    pub address: String,
    pub amount: i128,
}

/// The proof handed to the recipient at `index`.
#[derive(Clone, Debug)]
pub struct ProofRecord {
    /// The recipient's position in the list.
    pub index: usize,
    /// The sibling hashes in hex, bottom first.
    pub proofs: Vec<String>,
}

/// The result of an export: the root and one proof record per recipient.
pub struct Export {
    pub root: [u8; 32],
    pub root_hex: String,
    pub records: Vec<ProofRecord>,
}

/// Why an export failed.
#[derive(Debug, Clone, Copy, PartialEq, Eq, Structural)]
pub enum ExportError {
    /// The recipient list is empty.
    EmptyInput,
    /// The address of the recipient at this position is not a valid account
    /// or contract strkey.
    Encoding(usize),
}

/// Whether the address of recipient `i` decodes.
pub open spec fn address_decodes(rs: Seq<Recipient>, i: int) -> bool {
    strkey_address(rs[i].address@) is Some
}

/// The encoded leaf of recipient `i`, numbered by its position.
pub open spec fn recipient_leaf(rs: Seq<Recipient>, i: int) -> Seq<u8> {
    let a = strkey_address(rs[i].address@).unwrap();
    leaf_encoding(i as u32, a.0, a.1, rs[i].amount)
}

/// The encoded leaves of a recipient list, in list order.
pub open spec fn recipient_leaves(rs: Seq<Recipient>) -> Seq<Seq<u8>> {
    Seq::new(rs.len(), |i: int| recipient_leaf(rs, i))
}

/// The characters of each string.
pub open spec fn strings_view(v: Seq<String>) -> Seq<Seq<char>> {
    v.map_values(|s: String| s@)
}

/// The hex proof of recipient `i`.
pub open spec fn hex_proof(rs: Seq<Recipient>, i: nat) -> Seq<Seq<char>> {
    proof_of(leaf_hashes(recipient_leaves(rs)), i).map_values(|h: Seq<u8>| hex_of(h))
}

/// Hex of each hash of a proof.
fn proof_to_hex(p: &Vec<[u8; 32]>) -> (r: Vec<String>)
    ensures
        strings_view(r@) == hashes_view(p@).map_values(|h: Seq<u8>| hex_of(h)),
{
    let mut r: Vec<String> = Vec::new();
    let mut i: usize = 0;
    while i < p.len()
        invariant
            i <= p.len(),
            strings_view(r@) == hashes_view(p@).map_values(|h: Seq<u8>| hex_of(h)).take(
                i as int,
            ),
        decreases p.len() - i,
    {
        let s = hex_encode(&p[i]);
        assert(hashes_view(p@)[i as int] == p@[i as int]@);
        let ghost prev = r@;
        r.push(s);
        assert(r@ == prev.push(s));
        assert(strings_view(r@) =~= strings_view(prev).push(s@));
        assert(strings_view(r@) =~= hashes_view(p@).map_values(|h: Seq<u8>| hex_of(h)).take(
            i + 1,
        ));
        i += 1;
    }
    assert(hashes_view(p@).map_values(|h: Seq<u8>| hex_of(h)).take(p@.len() as int)
        =~= hashes_view(p@).map_values(|h: Seq<u8>| hex_of(h)));
    r
}

/// Numbers the recipients by position, builds the tree over their leaves and
/// returns its root with every recipient's proof. Fails on an empty list, or
/// at the first recipient whose address does not decode; nothing is returned
/// then.
pub fn export(recipients: &Vec<Recipient>) -> (r: Result<Export, ExportError>)
    requires
        recipients@.len() <= 0x1_0000_0000,
    ensures
        recipients@.len() == 0 <==> r == Err::<Export, ExportError>(ExportError::EmptyInput),
        r is Ok <==> recipients@.len() > 0 && forall|i: int|
            0 <= i < recipients@.len() ==> address_decodes(recipients@, i),
        r matches Err(ExportError::Encoding(k)) ==> k < recipients@.len() && !address_decodes(
            recipients@,
            k as int,
        ) && forall|i: int| 0 <= i < k ==> address_decodes(recipients@, i),
        r matches Ok(e) ==> e.root@ == merkle_root(recipient_leaves(recipients@)),
        r matches Ok(e) ==> e.root_hex@ == hex_of(e.root@),
        r matches Ok(e) ==> e.records@.len() == recipients@.len(),
        r matches Ok(e) ==> forall|i: int|
            0 <= i < recipients@.len() ==> #[trigger] e.records@[i].index == i,
        r matches Ok(e) ==> forall|i: int|
            0 <= i < recipients@.len() ==> strings_view(#[trigger] e.records@[i].proofs@) == hex_proof(
                recipients@,
                i as nat,
            ),
{
    if recipients.len() == 0 {
        return Err(ExportError::EmptyInput);
    }
    let ghost rs = recipients@;
    let mut leaves: Vec<Vec<u8>> = Vec::new();
    let mut i: usize = 0;
    while i < recipients.len()
        invariant
            rs == recipients@,
            rs.len() <= 0x1_0000_0000,
            i <= rs.len(),
            leaves@.len() == i,
            forall|j: int| 0 <= j < i ==> address_decodes(rs, j),
            forall|j: int| 0 <= j < i ==> #[trigger] leaves@[j]@ == recipient_leaf(rs, j),
        decreases rs.len() - i,
    {
        let rec = &recipients[i];
        match Address::from_strkey(rec.address.as_str()) {
            None => {
                assert(!address_decodes(rs, i as int));
                return Err(ExportError::Encoding(i));
            },
            Some(a) => {
                let leaf = encode_receiver(i as u32, &a, rec.amount);
                leaves.push(leaf);
            },
        }
        i += 1;
    }
    assert(leaves@.map_values(|l: Vec<u8>| l@) =~= recipient_leaves(rs));
    let tree = match MerkleTree::new(&leaves) {
        Ok(t) => t,
        // not reached: there is one leaf per recipient
        Err(_) => {
            return Err(ExportError::EmptyInput);
        },
    };
    let root = tree.root();
    let root_hex = hex_encode(&root);
    let mut records: Vec<ProofRecord> = Vec::new();
    let mut k: usize = 0;
    while k < recipients.len()
        invariant
            rs == recipients@,
            tree.wf(),
            tree@ == leaf_hashes(recipient_leaves(rs)),
            k <= rs.len(),
            records@.len() == k,
            forall|j: int|
                0 <= j < k ==> {
                    &&& (#[trigger] records@[j]).index == j
                    &&& strings_view(records@[j].proofs@) == hex_proof(rs, j as nat)
                },
        decreases rs.len() - k,
    {
        let p = match tree.get_proof(k) {
            Ok(p) => p,
            // not reached: `k` is below the leaf count
            Err(_) => {
                return Err(ExportError::EmptyInput);
            },
        };
        let proofs = proof_to_hex(&p);
        records.push(ProofRecord { index: k, proofs });
        k += 1;
    }
    Ok(Export { root, root_hex, records })
}

/// Every recipient of an exported list verifies against the exported root
/// with its own fields and its own proof.
pub proof fn lemma_export_round_trip(rs: Seq<Recipient>, i: nat, address: Address)
    requires
        rs.len() <= 0x1_0000_0000,
        i < rs.len(),
        strkey_address(rs[i as int].address@) == Some((address.is_contract, address.key@)),
    ensures
        receiver_verifies(
            merkle_root(recipient_leaves(rs)),
            i as u32,
            address,
            rs[i as int].amount,
            proof_of(leaf_hashes(recipient_leaves(rs)), i),
        ),
{
    lemma_round_trip(recipient_leaves(rs), i);
}

} // verus!
