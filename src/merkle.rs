//! A binary Merkle tree over encoded leaves, its inclusion proofs, and the
//! fold that recomputes a root from a leaf and a proof.
//!
//! Leaves are hashed with the leaf tag and pairs with the node tag (see
//! `hash`). At each level adjacent nodes are paired left to right; a last node
//! without a partner is paired with itself. The sibling of a node is on the
//! right when its position is even and on the left when it is odd, so a proof
//! carries no side flags: the leaf's index fixes every side.
use vstd::prelude::*;
use crate::hash::{leaf_hash_of, node_hash_of, leaf_hash, node_hash};

verus! {

/// The byte strings held by a sequence of 32-byte hashes.
pub open spec fn hashes_view(s: Seq<[u8; 32]>) -> Seq<Seq<u8>> {
    s.map_values(|h: [u8; 32]| h@)
}

/// The leaf hashes of a sequence of encoded leaves.
pub open spec fn leaf_hashes(leaves: Seq<Seq<u8>>) -> Seq<Seq<u8>> {
    leaves.map_values(|l: Seq<u8>| leaf_hash_of(l))
}

/// The partner of the node at position `2 * j`: the next node, or the node
/// itself when it is the last of an odd-sized level.
pub open spec fn partner_of(nodes: Seq<Seq<u8>>, j: int) -> Seq<u8> {
    if 2 * j + 1 < nodes.len() {
        nodes[2 * j + 1]
    } else {
        nodes[2 * j]
    }
}

/// The level above `nodes`: one parent for each pair.
pub open spec fn level_up(nodes: Seq<Seq<u8>>) -> Seq<Seq<u8>> {
    Seq::new(
        ((nodes.len() + 1) / 2) as nat,
        |j: int| node_hash_of(nodes[2 * j], partner_of(nodes, j)),
    )
}

/// Every level of the tree whose bottom level is `nodes`, bottom first.
pub open spec fn tree_levels(nodes: Seq<Seq<u8>>) -> Seq<Seq<Seq<u8>>>
    decreases nodes.len(),
{
    if nodes.len() <= 1 {
        seq![nodes]
    } else {
        seq![nodes] + tree_levels(level_up(nodes))
    }
}

/// The root of the tree whose bottom level is `nodes` (one node at least).
pub open spec fn root_of(nodes: Seq<Seq<u8>>) -> Seq<u8>
    decreases nodes.len(),
{
    if nodes.len() <= 1 {
        nodes[0]
    } else {
        root_of(level_up(nodes))
    }
}

/// The root committed to by a sequence of encoded leaves.
pub open spec fn merkle_root(leaves: Seq<Seq<u8>>) -> Seq<u8> {
    root_of(leaf_hashes(leaves))
}

/// The node paired with the node at position `i` of a level.
pub open spec fn sibling_of(nodes: Seq<Seq<u8>>, i: int) -> Seq<u8> {
    if i % 2 == 0 {
        partner_of(nodes, i / 2)
    } else {
        nodes[i - 1]
    }
}

/// The siblings met on the way from position `i` of `nodes` to the root,
/// bottom first.
pub open spec fn proof_of(nodes: Seq<Seq<u8>>, i: nat) -> Seq<Seq<u8>>
    decreases nodes.len(),
{
    if nodes.len() <= 1 {
        seq![]
    } else {
        seq![sibling_of(nodes, i as int)] + proof_of(level_up(nodes), i / 2)
    }
}

/// Hashes `cur` up through `proof`: at each step the bit of `index` on that
/// level says whether `cur` is the left (0) or the right (1) child.
pub open spec fn fold_proof(cur: Seq<u8>, index: nat, proof: Seq<Seq<u8>>) -> Seq<u8>
    decreases proof.len(),
{
    if proof.len() == 0 {
        cur
    } else {
        let parent = if index % 2 == 0 {
            node_hash_of(cur, proof[0])
        } else {
            node_hash_of(proof[0], cur)
        };
        fold_proof(parent, index / 2, proof.drop_first())
    }
}

/// Errors of tree construction and proof lookup.
#[derive(Debug, Clone, Copy, PartialEq, Eq, Structural)]
pub enum MerkleError {
    /// A tree needs at least one leaf.
    EmptyInput,
    /// The leaf index is not below the leaf count.
    IndexOutOfRange,
}

/// A Merkle tree, kept as all of its levels from the leaf hashes up to the root.
pub struct MerkleTree {
    levels: Vec<Vec<[u8; 32]>>,
}

impl View for MerkleTree {
    /// The leaf hashes, in order.
    type V = Seq<Seq<u8>>;

    closed spec fn view(&self) -> Seq<Seq<u8>> {
        if self.levels@.len() == 0 {
            seq![]
        } else {
            hashes_view(self.levels@[0]@)
        }
    }
}

/// The levels held by a vector of levels.
pub open spec fn levels_view(levels: Seq<Vec<[u8; 32]>>) -> Seq<Seq<Seq<u8>>> {
    levels.map_values(|l: Vec<[u8; 32]>| hashes_view(l@))
}

impl MerkleTree {
    /// The stored levels are exactly the levels above a non-empty leaf level.
    pub closed spec fn wf(&self) -> bool {
        &&& self.levels@.len() >= 1
        &&& self@.len() >= 1
        &&& levels_view(self.levels@) == tree_levels(self@)
    }

    /// Builds the tree over `leaves`, in their order.
    pub fn new(leaves: &Vec<Vec<u8>>) -> (r: Result<MerkleTree, MerkleError>)
        ensures
            leaves@.len() == 0 <==> r == Err::<MerkleTree, MerkleError>(MerkleError::EmptyInput),
            leaves@.len() > 0 <==> r is Ok,
            r matches Ok(t) ==> t.wf() && t@ == leaf_hashes(leaves@.map_values(|l: Vec<u8>| l@)),
    {
        if leaves.len() == 0 {
            return Err(MerkleError::EmptyInput);
        }
        let ghost encoded = leaves@.map_values(|l: Vec<u8>| l@);
        let mut level: Vec<[u8; 32]> = Vec::new();
        let mut i: usize = 0;
        while i < leaves.len()
            invariant
                i <= leaves.len(),
                encoded == leaves@.map_values(|l: Vec<u8>| l@),
                hashes_view(level@) == leaf_hashes(encoded).take(i as int),
            decreases leaves.len() - i,
        {
            let h = leaf_hash(&leaves[i]);
            let ghost prev = level@;
            assert(leaf_hashes(encoded)[i as int] == h@);
            level.push(h);
            assert(level@ == prev.push(h));
            assert(hashes_view(level@) =~= hashes_view(prev).push(h@));
            i += 1;
            assert(hashes_view(level@) =~= leaf_hashes(encoded).take(i as int));
        }
        assert(leaf_hashes(encoded).take(leaves@.len() as int) =~= leaf_hashes(encoded));
        let ghost base = hashes_view(level@);
        let mut levels: Vec<Vec<[u8; 32]>> = Vec::new();
        while level.len() > 1
            invariant
                level.len() >= 1,
                base.len() >= 1,
                levels_view(levels@) + tree_levels(hashes_view(level@)) == tree_levels(base),
            decreases level.len(),
        {
            let next = parent_level(&level);
            let ghost cur = hashes_view(level@);
            assert(tree_levels(cur) == seq![cur] + tree_levels(level_up(cur)));
            levels.push(level);
            assert(levels_view(levels@) + tree_levels(hashes_view(next@)) =~= tree_levels(base));
            level = next;
        }
        levels.push(level);
        assert(levels_view(levels@) =~= tree_levels(base));
        let t = MerkleTree { levels };
        proof {
            lemma_first_level(base);
            assert(levels_view(t.levels@)[0] == hashes_view(t.levels@[0]@));
        }
        Ok(t)
    }

    /// The root of the tree.
    pub fn root(&self) -> (r: [u8; 32])
        requires
            self.wf(),
        ensures
            r@ == root_of(self@),
    {
        let k = self.levels.len() - 1;
        proof {
            lemma_levels_shape(self@, k as int);
            assert(levels_view(self.levels@)[k as int] == hashes_view(self.levels@[k as int]@));
        }
        self.levels[k][0]
    }

    /// The number of leaves.
    pub fn leaf_count(&self) -> (r: usize)
        requires
            self.wf(),
        ensures
            r == self@.len(),
    {
        self.levels[0].len()
    }

    /// The proof for the leaf at position `leaf_index`.
    pub fn get_proof(&self, leaf_index: usize) -> (r: Result<Vec<[u8; 32]>, MerkleError>)
        requires
            self.wf(),
        ensures
            leaf_index >= self@.len() <==> r == Err::<Vec<[u8; 32]>, MerkleError>(
                MerkleError::IndexOutOfRange,
            ),
            leaf_index < self@.len() <==> r is Ok,
            r matches Ok(p) ==> hashes_view(p@) == proof_of(self@, leaf_index as nat),
    {
        proof {
            assert(levels_view(self.levels@)[0] == hashes_view(self.levels@[0]@));
        }
        if leaf_index >= self.levels[0].len() {
            return Err(MerkleError::IndexOutOfRange);
        }
        let mut proof: Vec<[u8; 32]> = Vec::new();
        let mut pos: usize = leaf_index;
        let mut k: usize = 0;
        let last = self.levels.len() - 1;
        while k < last
            invariant
                self.wf(),
                k < self.levels@.len(),
                last == self.levels@.len() - 1,
                pos < self.levels@[k as int]@.len(),
                tree_levels(hashes_view(self.levels@[k as int]@)) == levels_view(self.levels@).skip(
                    k as int,
                ),
                hashes_view(proof@) + proof_of(hashes_view(self.levels@[k as int]@), pos as nat)
                    == proof_of(self@, leaf_index as nat),
            decreases self.levels@.len() - k,
        {
            let ghost nodes = hashes_view(self.levels@[k as int]@);
            let ghost lv = levels_view(self.levels@);
            assert(lv[k as int] == nodes);
            assert(lv[k + 1] == hashes_view(self.levels@[k + 1]@));
            assert(tree_levels(nodes)[1] == lv[k + 1]);
            proof {
                if nodes.len() <= 1 {
                    assert(tree_levels(nodes).len() == 1);
                    assert(lv.skip(k as int).len() == 1);
                    assert(false);
                }
            }
            assert(tree_levels(nodes) == seq![nodes] + tree_levels(level_up(nodes)));
            assert(tree_levels(level_up(nodes)) =~= tree_levels(nodes).skip(1));
            assert(lv.skip(k as int).skip(1) =~= lv.skip(k + 1));
            assert(level_up(nodes) == tree_levels(level_up(nodes))[0]);
            let level = &self.levels[k];
            let sib = if pos % 2 == 0 {
                if pos + 1 < level.len() {
                    level[pos + 1]
                } else {
                    level[pos]
                }
            } else {
                level[pos - 1]
            };
            proof.push(sib);
            assert(hashes_view(proof@) + proof_of(level_up(nodes), (pos / 2) as nat)
                =~= proof_of(self@, leaf_index as nat));
            pos = pos / 2;
            k = k + 1;
        }
        proof {
            let nodes = hashes_view(self.levels@[k as int]@);
            let lv = levels_view(self.levels@);
            assert(lv.skip(k as int).len() == 1);
            if nodes.len() > 1 {
                assert(tree_levels(nodes) == seq![nodes] + tree_levels(level_up(nodes)));
                lemma_levels_nonempty(level_up(nodes));
            }
            assert(hashes_view(proof@) =~= proof_of(self@, leaf_index as nat));
        }
        Ok(proof)
    }
}

/// Whether two hashes are equal.
pub fn hashes_equal(a: &[u8; 32], b: &[u8; 32]) -> (r: bool)
    ensures
        r == (a@ == b@),
{
    let mut i: usize = 0;
    while i < 32
        invariant
            i <= 32,
            a@.len() == 32,
            b@.len() == 32,
            a@.take(i as int) == b@.take(i as int),
        decreases 32 - i,
    {
        if a[i] != b[i] {
            assert(a@[i as int] != b@[i as int]);
            return false;
        }
        i += 1;
        assert(a@.take(i as int) =~= a@.take(i - 1).push(a@[i - 1]));
        assert(b@.take(i as int) =~= b@.take(i - 1).push(b@[i - 1]));
    }
    assert(a@.take(32) =~= a@);
    assert(b@.take(32) =~= b@);
    true
}

/// Hashes `leaf_digest` up through `proof` from position `index` and returns
/// the root so reached.
pub fn fold_to_root(leaf_digest: &[u8; 32], index: u32, proof: &Vec<[u8; 32]>) -> (r: [u8; 32])
    ensures
        r@ == fold_proof(leaf_digest@, index as nat, hashes_view(proof@)),
{
    let ghost whole = hashes_view(proof@);
    let mut cur: [u8; 32] = *leaf_digest;
    let mut idx: u32 = index;
    let mut k: usize = 0;
    assert(whole.skip(0) =~= whole);
    assert(cur@ == leaf_digest@);
    while k < proof.len()
        invariant
            k <= proof.len(),
            whole == hashes_view(proof@),
            fold_proof(cur@, idx as nat, whole.skip(k as int)) == fold_proof(
                leaf_digest@,
                index as nat,
                whole,
            ),
        decreases proof.len() - k,
    {
        let ghost rest = whole.skip(k as int);
        assert(rest[0] == proof@[k as int]@);
        assert(rest.drop_first() =~= whole.skip(k + 1));
        if idx % 2 == 0 {
            cur = node_hash(&cur, &proof[k]);
        } else {
            cur = node_hash(&proof[k], &cur);
        }
        idx = idx / 2;
        k += 1;
    }
    assert(whole.skip(proof@.len() as int) =~= seq![]);
    cur
}

/// Whether `proof` carries the leaf `leaf` at position `index` up to `root`.
pub fn verify_leaf(leaf: &Vec<u8>, index: u32, proof: &Vec<[u8; 32]>, root: &[u8; 32]) -> (r:
    bool)
    ensures
        r == (fold_proof(leaf_hash_of(leaf@), index as nat, hashes_view(proof@)) == root@),
{
    let digest = leaf_hash(leaf);
    let top = fold_to_root(&digest, index, proof);
    hashes_equal(&top, root)
}

/// Folding the node at position `i` of a level up through its proof yields
/// the root of that level's tree.
pub proof fn lemma_proof_reaches_root(nodes: Seq<Seq<u8>>, i: nat)
    requires
        i < nodes.len(),
    ensures
        fold_proof(nodes[i as int], i, proof_of(nodes, i)) == root_of(nodes),
    decreases nodes.len(),
{
    if nodes.len() > 1 {
        let up = level_up(nodes);
        let p = proof_of(nodes, i);
        let parent = if i % 2 == 0 {
            node_hash_of(nodes[i as int], p[0])
        } else {
            node_hash_of(p[0], nodes[i as int])
        };
        assert(up[(i / 2) as int] == parent);
        assert(p.drop_first() =~= proof_of(up, i / 2));
        lemma_proof_reaches_root(up, i / 2);
    }
}

/// Every leaf of a tree is carried to the tree's root by its own proof.
pub proof fn lemma_round_trip(leaves: Seq<Seq<u8>>, i: nat)
    requires
        i < leaves.len(),
    ensures
        fold_proof(leaf_hash_of(leaves[i as int]), i, proof_of(leaf_hashes(leaves), i))
            == merkle_root(leaves),
{
    lemma_proof_reaches_root(leaf_hashes(leaves), i);
}

/// Two trees built from the same leaf sequence have the same root and give
/// the same proof for every index.
pub proof fn lemma_build_deterministic(t1: MerkleTree, t2: MerkleTree, leaves: Seq<Seq<u8>>)
    requires
        t1@ == leaf_hashes(leaves),
        t2@ == leaf_hashes(leaves),
    ensures
        root_of(t1@) == root_of(t2@),
        forall|i: nat| proof_of(t1@, i) == proof_of(t2@, i),
{
}

/// The level above `nodes`, computed.
fn parent_level(nodes: &Vec<[u8; 32]>) -> (r: Vec<[u8; 32]>)
    ensures
        hashes_view(r@) == level_up(hashes_view(nodes@)),
{
    let ghost hv = hashes_view(nodes@);
    let n = nodes.len();
    let half = n / 2 + n % 2;
    let mut r: Vec<[u8; 32]> = Vec::new();
    let mut j: usize = 0;
    while j < half
        invariant
            n == nodes.len(),
            hv == hashes_view(nodes@),
            half == (n + 1) / 2,
            j <= half,
            hashes_view(r@) == level_up(hv).take(j as int),
        decreases half - j,
    {
        let left = &nodes[2 * j];
        let right = if 2 * j + 1 < n {
            &nodes[2 * j + 1]
        } else {
            &nodes[2 * j]
        };
        let h = node_hash(left, right);
        let ghost prev = r@;
        assert(hv[2 * j as int] == left@);
        assert(partner_of(hv, j as int) == right@);
        r.push(h);
        assert(r@ == prev.push(h));
        assert(hashes_view(r@) =~= hashes_view(prev).push(h@));
        j += 1;
        assert(hashes_view(r@) =~= level_up(hv).take(j as int));
    }
    assert(level_up(hv).take(half as int) =~= level_up(hv));
    r
}

proof fn lemma_levels_nonempty(nodes: Seq<Seq<u8>>)
    ensures
        tree_levels(nodes).len() >= 1,
        tree_levels(nodes)[0] == nodes,
    decreases nodes.len(),
{
    if nodes.len() > 1 {
        lemma_levels_nonempty(level_up(nodes));
    }
}

proof fn lemma_first_level(nodes: Seq<Seq<u8>>)
    ensures
        tree_levels(nodes)[0] == nodes,
{
    lemma_levels_nonempty(nodes);
}

/// The last level holds one node, the root.
proof fn lemma_levels_shape(nodes: Seq<Seq<u8>>, k: int)
    requires
        nodes.len() >= 1,
        k == tree_levels(nodes).len() - 1,
    ensures
        tree_levels(nodes)[k].len() == 1,
        tree_levels(nodes)[k][0] == root_of(nodes),
    decreases nodes.len(),
{
    if nodes.len() > 1 {
        lemma_levels_nonempty(level_up(nodes));
        lemma_levels_shape(level_up(nodes), k - 1);
    }
}

} // verus!
