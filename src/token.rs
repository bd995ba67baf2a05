//! The claim side of a distribution: the committed root, the set of claimed
//! indices, and claims that are honoured at most once per index.
use vstd::prelude::*;
use std::collections::HashSet;
use crate::address::Address;
use crate::codec::{encode_receiver, leaf_encoding};
use crate::hash::leaf_hash_of;
use crate::merkle::{fold_proof, hashes_view, verify_leaf};

verus! {

broadcast use vstd::std_specs::hash::group_hash_axioms;

/// Why a claim was refused.
#[derive(Debug, Clone, Copy, PartialEq, Eq, Structural)]
pub enum ClaimError {
    /// The index has been claimed before.
    AlreadyClaimed,
    /// The proof does not carry the receiver's leaf to the committed root.
    InvalidProof,
}

/// Whether `proof` shows that `(index, address, amount)` is the leaf at
/// position `index` of the tree whose root is `root`.
pub open spec fn receiver_verifies(
    root: Seq<u8>,
    index: u32,
    address: Address,
    amount: i128,
    proof: Seq<Seq<u8>>,
) -> bool {
    fold_proof(
        leaf_hash_of(leaf_encoding(index, address.is_contract, address.key@, amount)),
        index as nat,
        proof,
    ) == root
}

/// Checks a receiver's proof against a committed root, from the receiver's
/// fields and the proof alone.
pub fn verify(index: u32, address: &Address, amount: i128, proof: &Vec<[u8; 32]>, root: &[u8; 32]) -> (r:
    bool)
    ensures
        r == receiver_verifies(root@, index, *address, amount, hashes_view(proof@)),
{
    let leaf = encode_receiver(index, address, amount);
    verify_leaf(&leaf, index, proof, root)
}

/// The claimed set after a claim from `claimed`, and the claim's result: an
/// index already claimed is refused first, then an invalid proof; otherwise
/// the index joins the set.
pub open spec fn claim_outcome(
    claimed: Set<u32>,
    root: Seq<u8>,
    index: u32,
    address: Address,
    amount: i128,
    proof: Seq<Seq<u8>>,
) -> (Set<u32>, Result<(), ClaimError>) {
    if claimed.contains(index) {
        (claimed, Err(ClaimError::AlreadyClaimed))
    } else if !receiver_verifies(root, index, address, amount, proof) {
        (claimed, Err(ClaimError::InvalidProof))
    } else {
        (claimed.insert(index), Ok(()))
    }
}

/// The mint that a successful claim asks for.
#[derive(Debug, Clone, Copy, PartialEq, Eq)]
pub struct Mint {
    /// The receiver.
    pub to: Address,
    /// The number of token units.
    pub amount: i128,
}

/// An airdrop: a committed Merkle root and the indices claimed so far.
pub struct AirdropToken {
    merkle_root: [u8; 32],
    claimed: HashSet<u32>,
}

impl AirdropToken {
    /// The committed root.
    pub closed spec fn root_view(&self) -> Seq<u8> {
        self.merkle_root@
    }

    /// The indices claimed so far.
    pub closed spec fn claimed_view(&self) -> Set<u32> {
        self.claimed@
    }

    /// A distribution committed to `merkle_root`, with nothing claimed.
    pub fn new(merkle_root: [u8; 32]) -> (r: AirdropToken)
        ensures
            r.root_view() == merkle_root@,
            r.claimed_view() == Set::<u32>::empty(),
    {
        AirdropToken { merkle_root, claimed: HashSet::new() }
    }

    /// The committed root.
    pub fn merkle_root(&self) -> (r: [u8; 32])
        ensures
            r@ == self.root_view(),
    {
        self.merkle_root
    }

    /// Whether `index` has been claimed.
    pub fn is_claimed(&self, index: u32) -> (r: bool)
        ensures
            r == self.claimed_view().contains(index),
    {
        self.claimed.contains(&index)
    }

    /// Marks `index` claimed if it was not and the proof verifies; the claimed
    /// set is checked and updated in this one call.
    pub fn verify_and_set_claimed(
        &mut self,
        index: u32,
        address: &Address,
        amount: i128,
        proof: &Vec<[u8; 32]>,
    ) -> (r: Result<(), ClaimError>)
        ensures
            final(self).root_view() == old(self).root_view(),
            (final(self).claimed_view(), r) == claim_outcome(
                old(self).claimed_view(),
                old(self).root_view(),
                index,
                *address,
                amount,
                hashes_view(proof@),
            ),
    {
        if self.claimed.contains(&index) {
            return Err(ClaimError::AlreadyClaimed);
        }
        if !verify(index, address, amount, proof, &self.merkle_root) {
            return Err(ClaimError::InvalidProof);
        }
        self.claimed.insert(index);
        Ok(())
    }

    /// Claims the allocation at `index` for `receiver`; on success returns
    /// the mint of `amount` units to `receiver` that the claim unlocks.
    pub fn claim(&mut self, index: u32, receiver: &Address, amount: i128, proof: &Vec<[u8; 32]>) -> (r:
        Result<Mint, ClaimError>)
        ensures
            final(self).root_view() == old(self).root_view(),
            final(self).claimed_view() == claim_outcome(
                old(self).claimed_view(),
                old(self).root_view(),
                index,
                *receiver,
                amount,
                hashes_view(proof@),
            ).0,
            match (r, claim_outcome(
                old(self).claimed_view(),
                old(self).root_view(),
                index,
                *receiver,
                amount,
                hashes_view(proof@),
            ).1) {
                (Ok(m), Ok(())) => m == (Mint { to: *receiver, amount }),
                (Err(e), Err(f)) => e == f,
                _ => false,
            },
    {
        match self.verify_and_set_claimed(index, receiver, amount, proof) {
            Ok(()) => Ok(Mint { to: *receiver, amount }),
            Err(e) => Err(e),
        }
    }
}

/// Claiming the same receiver twice succeeds at most once: the second claim
/// is refused as already claimed, and if the index started unclaimed with a
/// valid proof the first claim succeeds.
pub proof fn lemma_at_most_once(
    claimed: Set<u32>,
    root: Seq<u8>,
    index: u32,
    address: Address,
    amount: i128,
    proof: Seq<Seq<u8>>,
)
    ensures
        ({
            let (after_first, first) = claim_outcome(claimed, root, index, address, amount, proof);
            let (after_second, second) = claim_outcome(
                after_first,
                root,
                index,
                address,
                amount,
                proof,
            );
            &&& !(first is Ok && second is Ok)
            &&& (first is Ok ==> second == Err::<(), ClaimError>(ClaimError::AlreadyClaimed))
            &&& (!claimed.contains(index) && receiver_verifies(root, index, address, amount, proof)
                ==> first is Ok)
            &&& after_second.contains(index) == (claimed.contains(index) || first is Ok)
        }),
{
}

/// A claim for `index` changes no other index's claimed status.
pub proof fn lemma_claims_independent(
    claimed: Set<u32>,
    root: Seq<u8>,
    index: u32,
    address: Address,
    amount: i128,
    proof: Seq<Seq<u8>>,
    other: u32,
)
    requires
        other != index,
    ensures
        claim_outcome(claimed, root, index, address, amount, proof).0.contains(other)
            == claimed.contains(other),
{
}

} // verus!
