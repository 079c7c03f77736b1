//! The Merkle tree: packed-array construction and positional verification.
//!
//! A tree over `n >= 2` values owns one flat array of digests of length
//! `next_pow2_spec(n) + n`: the first `next_pow2_spec(n)` slots hold the
//! internal levels, written right-aligned in shrinking windows, the trailing
//! `n` slots hold the leaf digests in input order, and slot 0 holds the root
//! once construction completes.

use vstd::prelude::*;
use vstd::slice::slice_subrange;

use crate::hashing::hash_leaf;
use crate::hashing::leaf_digest;
use crate::levels::build_upper_level;
use crate::levels::digests_of;
use crate::levels::root_of_level;
use crate::shape::levels_sum;
use crate::shape::lemma_levels_sum_bound;
use crate::shape::lemma_next_pow2_bound;
use crate::shape::lemma_upper_len_decreases;
use crate::shape::next_pow2_spec;
use crate::shape::next_power_of_2;
use crate::shape::upper_len;

verus! {

/// The leaf digests of an ordered sequence of value byte strings.
pub open spec fn leaf_digests(values: Seq<Seq<u8>>) -> Seq<Seq<u8>> {
    values.map_values(|b: Seq<u8>| leaf_digest(b))
}

/// The root digest of the tree built over an ordered sequence of value byte
/// strings.
pub open spec fn root_spec(values: Seq<Seq<u8>>) -> Seq<u8>
    recommends
        values.len() >= 2,
{
    root_of_level(leaf_digests(values))
}

/// An input-contract violation; the tree reports it instead of doing partial
/// work.
#[derive(Clone, Copy, Debug, PartialEq, Eq, Structural)]
pub enum MerkleError {
    /// Fewer than two values were supplied to a build.
    DegenerateInput,
    /// A verification position does not address any leaf.
    PositionOutOfRange,
}

/// Clones one digest vector.
fn clone_digest(d: &Vec<u8>) -> (r: Vec<u8>)
    ensures
        r@ == d@,
{
    let r = d.clone();
    proof {
        assert(r@ =~= d@);
    }
    r
}

/// Compares two byte strings for exact equality.
fn bytes_equal(a: &[u8], b: &[u8]) -> (r: bool)
    ensures
        r == (a@ == b@),
{
    if a.len() != b.len() {
        return false;
    }
    let mut i: usize = 0;
    while i < a.len()
        invariant
            i <= a@.len(),
            a@.len() == b@.len(),
            forall|j: int| 0 <= j < i ==> a@[j] == b@[j],
        decreases a@.len() - i,
    {
        if a[i] != b[i] {
            return false;
        }
        i = i + 1;
    }
    proof {
        assert(a@ =~= b@);
    }
    true
}

/// Copies one built level into its window of the node array.
fn copy_level(nodes: &mut Vec<Vec<u8>>, start: usize, level: &Vec<Vec<u8>>)
    requires
        start + level@.len() <= old(nodes)@.len(),
    ensures
        final(nodes)@.len() == old(nodes)@.len(),
        forall|i: int|
            0 <= i < old(nodes)@.len() && !(start <= i < start + level@.len())
                ==> final(nodes)@[i] == old(nodes)@[i],
        forall|i: int|
            0 <= i < level@.len() ==> (#[trigger] final(nodes)@[start + i])@ == level@[i]@,
{
    proof {
        assert(nodes.len() == nodes@.len());
    }
    let mut k: usize = 0;
    while k < level.len()
        invariant
            start + level@.len() <= nodes@.len(),
            nodes@.len() <= usize::MAX,
            k <= level@.len(),
            nodes@.len() == old(nodes)@.len(),
            forall|i: int|
                0 <= i < old(nodes)@.len() && !(start <= i < start + k)
                    ==> nodes@[i] == old(nodes)@[i],
            forall|i: int| 0 <= i < k ==> (#[trigger] nodes@[start + i])@ == level@[i]@,
        decreases level@.len() - k,
    {
        let d = clone_digest(&level[k]);
        nodes[start + k] = d;
        k = k + 1;
    }
}

/// Assembles all internal levels of the node array in place, bottom-up, until
/// the root digest lands in slot 0. The trailing slots, the leaf digests, are
/// left untouched.
pub fn build_internal_nodes(nodes: &mut Vec<Vec<u8>>, count_internal_nodes: usize)
    requires
        old(nodes)@.len() >= count_internal_nodes + 2,
        count_internal_nodes == next_pow2_spec(
            (old(nodes)@.len() - count_internal_nodes) as nat,
        ),
    ensures
        final(nodes)@.len() == old(nodes)@.len(),
        forall|i: int|
            count_internal_nodes <= i < old(nodes)@.len()
                ==> final(nodes)@[i] == old(nodes)@[i],
        final(nodes)@[0]@ == root_of_level(
            digests_of(
                old(nodes)@.subrange(count_internal_nodes as int, old(nodes)@.len() as int),
            ),
        ),
        final(nodes)@[0]@.len() == 32,
{
    let ghost orig = nodes@;
    let ghost leaves_seq = digests_of(
        orig.subrange(count_internal_nodes as int, orig.len() as int),
    );
    let count_leaves = nodes.len() - count_internal_nodes;
    proof {
        lemma_levels_sum_bound(count_leaves as nat);
    }
    let leaf_slice = slice_subrange(nodes.as_slice(), count_internal_nodes, nodes.len());
    let mut parents = build_upper_level(leaf_slice);
    proof {
        assert(digests_of(leaf_slice@) == leaves_seq);
        assert(root_of_level(digests_of(parents@)) == root_of_level(leaves_seq));
        assert(levels_sum(count_leaves as nat) == upper_len(count_leaves as nat) + levels_sum(
            upper_len(count_leaves as nat),
        ));
    }
    let mut upper_level_start = count_internal_nodes - parents.len();
    copy_level(nodes, upper_level_start, &parents);
    while parents.len() > 1
        invariant
            nodes@.len() == orig.len(),
            count_internal_nodes < orig.len(),
            1 <= parents@.len(),
            upper_level_start + parents@.len() <= count_internal_nodes,
            levels_sum(parents@.len() as nat) <= upper_level_start,
            root_of_level(digests_of(parents@)) == root_of_level(leaves_seq),
            forall|j: int| 0 <= j < parents@.len() ==> (#[trigger] parents@[j])@.len() == 32,
            forall|i: int|
                count_internal_nodes <= i < orig.len() ==> nodes@[i] == orig[i],
        decreases parents@.len(),
    {
        let ghost m = parents@.len();
        let next = build_upper_level(parents.as_slice());
        proof {
            assert(digests_of(parents@).len() == m);
            lemma_upper_len_decreases(m as nat);
            assert(root_of_level(digests_of(next@)) == root_of_level(digests_of(parents@)));
            assert(levels_sum(m as nat) == upper_len(m as nat) + levels_sum(
                upper_len(m as nat),
            ));
        }
        parents = next;
        upper_level_start = upper_level_start - parents.len();
        copy_level(nodes, upper_level_start, &parents);
    }
    proof {
        assert(root_of_level(digests_of(parents@)) == digests_of(parents@)[0]);
        assert(digests_of(parents@)[0] == parents@[0]@);
    }
    let root = parents.remove(0);
    nodes[0] = root;
}

/// A hash tree over an ordered sequence of values, built once and then used
/// read-only to verify that a value still occupies a position.
pub struct MerkleTree {
    pub nodes: Vec<Vec<u8>>,
    pub count_internal_nodes: usize,
    pub count_leaves: usize,
}

impl MerkleTree {
    /// The number of leaves the tree was built over.
    pub open spec fn leaf_count(self) -> nat {
        self.count_leaves as nat
    }

    /// The leaf digests, in input order.
    pub open spec fn leaves(self) -> Seq<Seq<u8>> {
        digests_of(
            self.nodes@.subrange(self.count_internal_nodes as int, self.nodes@.len() as int),
        )
    }

    /// The root digest stored at slot 0.
    pub open spec fn spec_root(self) -> Seq<u8> {
        self.nodes@[0]@
    }

    /// A tree the way construction leaves it: the counts agree with the array,
    /// and slot 0 holds the root built over the stored leaf digests.
    pub open spec fn wf(self) -> bool {
        &&& self.count_leaves >= 2
        &&& self.count_internal_nodes == next_pow2_spec(self.count_leaves as nat)
        &&& self.nodes@.len() == self.count_internal_nodes + self.count_leaves
        &&& self.spec_root() == root_of_level(self.leaves())
        &&& self.spec_root().len() == 32
    }

    /// Whether `value` is accepted at `position`: its leaf digest equals the
    /// stored one.
    pub open spec fn verifies(self, position: int, value: Seq<u8>) -> bool {
        self.leaves()[position] == leaf_digest(value)
    }

    /// Builds the tree over the given values with the one-shot SHA-256 hasher:
    /// hashes each value into a leaf digest, lays the digests out at the tail
    /// of the node array, and assembles the internal levels down to the root.
    /// Fewer than two values are rejected. The length bound only keeps the
    /// node array's size within `usize`.
    pub fn build_with_hasher(values: &[Vec<u8>]) -> (r: Result<MerkleTree, MerkleError>)
        requires
            values@.len() <= usize::MAX / 3,
        ensures
            r is Ok <==> values@.len() >= 2,
            values@.len() < 2 ==> r == Err::<MerkleTree, MerkleError>(
                MerkleError::DegenerateInput,
            ),
            r is Ok ==> (r->Ok_0).wf(),
            r is Ok ==> (r->Ok_0).leaf_count() == values@.len(),
            r is Ok ==> (r->Ok_0).leaves() == leaf_digests(digests_of(values@)),
            r is Ok ==> (r->Ok_0).spec_root() == root_spec(digests_of(values@)),
    {
        let count_leaves = values.len();
        if count_leaves <= 1 {
            return Err(MerkleError::DegenerateInput);
        }
        proof {
            lemma_next_pow2_bound(count_leaves as nat);
        }
        let count_internal_nodes = next_power_of_2(count_leaves);
        let mut nodes: Vec<Vec<u8>> = Vec::new();
        let mut i: usize = 0;
        while i < count_internal_nodes
            invariant
                i <= count_internal_nodes,
                nodes@.len() == i,
            decreases count_internal_nodes - i,
        {
            nodes.push(Vec::new());
            i = i + 1;
        }
        let mut j: usize = 0;
        while j < count_leaves
            invariant
                count_leaves == values@.len(),
                j <= count_leaves,
                nodes@.len() == count_internal_nodes + j,
                forall|k: int|
                    0 <= k < j ==> (#[trigger] nodes@[count_internal_nodes + k])@
                        == leaf_digest(values@[k]@),
            decreases count_leaves - j,
        {
            let leaf = hash_leaf(values[j].as_slice());
            nodes.push(leaf);
            j = j + 1;
        }
        let ghost laid_out = nodes@;
        build_internal_nodes(&mut nodes, count_internal_nodes);
        let tree = MerkleTree {
            nodes: nodes,
            count_internal_nodes: count_internal_nodes,
            count_leaves: count_leaves,
        };
        proof {
            assert forall|k: int| 0 <= k < count_leaves implies (#[trigger] tree.leaves()[k])
                == leaf_digest(values@[k]@) by {
                assert(tree.nodes@[count_internal_nodes + k] == laid_out[count_internal_nodes
                    + k]);
                assert(tree.leaves()[k] == tree.nodes@[count_internal_nodes + k]@);
            }
            assert(tree.leaves() =~= leaf_digests(digests_of(values@)));
            assert(digests_of(
                laid_out.subrange(count_internal_nodes as int, laid_out.len() as int),
            ) =~= tree.leaves());
        }
        Ok(tree)
    }

    /// Recomputes the leaf digest of `value` and compares it byte-for-byte
    /// against the stored leaf digest at `position`. A position that addresses
    /// no leaf is rejected.
    pub fn verify(&self, position: usize, value: &[u8]) -> (r: Result<bool, MerkleError>)
        requires
            self.wf(),
        ensures
            r is Ok <==> position < self.leaf_count(),
            position >= self.leaf_count() ==> r == Err::<bool, MerkleError>(
                MerkleError::PositionOutOfRange,
            ),
            position < self.leaf_count() ==> r == Ok::<bool, MerkleError>(
                self.verifies(position as int, value@),
            ),
    {
        if position >= self.count_leaves {
            return Err(MerkleError::PositionOutOfRange);
        }
        proof {
            assert(self.nodes.len() == self.nodes@.len());
        }
        let expected = hash_leaf(value);
        let stored = &self.nodes[self.count_internal_nodes + position];
        Ok(bytes_equal(stored.as_slice(), expected.as_slice()))
    }

    /// The root digest summarizing all leaves.
    pub fn root_hash(&self) -> (r: &Vec<u8>)
        requires
            self.wf(),
        ensures
            r@ == self.spec_root(),
            r@ == root_of_level(self.leaves()),
            r@.len() == 32,
    {
        &self.nodes[0]
    }
}

/// Law: the root digest has the hash algorithm's output length, whatever the
/// leaf count.
pub proof fn lemma_root_length(t: MerkleTree)
    requires
        t.wf(),
    ensures
        t.spec_root().len() == 32,
{
}

/// Law: building is deterministic. Any two trees built over the same ordered
/// value sequence carry the same root digest.
pub proof fn lemma_build_deterministic(t1: MerkleTree, t2: MerkleTree, values: Seq<Seq<u8>>)
    requires
        t1.wf(),
        t2.wf(),
        t1.leaves() == leaf_digests(values),
        t2.leaves() == leaf_digests(values),
    ensures
        t1.spec_root() == t2.spec_root(),
{
}

/// Law: right after a build, every original value verifies at its own
/// position.
pub proof fn lemma_build_then_verify(t: MerkleTree, values: Seq<Seq<u8>>, i: int)
    requires
        t.wf(),
        t.leaves() == leaf_digests(values),
        0 <= i < values.len(),
    ensures
        t.verifies(i, values[i]),
{
}

/// Law: a tampered value never verifies at a position, as long as its leaf
/// digest does not collide with the original value's.
pub proof fn lemma_tamper_detected(t: MerkleTree, values: Seq<Seq<u8>>, i: int, tampered: Seq<u8>)
    requires
        t.wf(),
        t.leaves() == leaf_digests(values),
        0 <= i < values.len(),
        leaf_digest(tampered) != leaf_digest(values[i]),
    ensures
        !t.verifies(i, tampered),
{
}

} // verus!
