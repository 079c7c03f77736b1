//! Building one tree level from the level below it.
//!
//! A level is an ordered sequence of digests. One pass combines the digests in
//! steps of two — a final unmatched digest is combined with a copy of itself —
//! and then the resize padding rule duplicates the last digest by value when
//! the new level has more than one digest and an odd count, so that every
//! level fed back into the builder has an even length or exactly one digest.

use vstd::prelude::*;

use crate::hashing::internal_digest;
use crate::shape::combined_len;
use crate::shape::lemma_upper_len_decreases;
use crate::shape::upper_len;
use crate::hashing::hash_internal_node;

verus! {

/// The views of a sequence of digest vectors.
pub open spec fn digests_of(s: Seq<Vec<u8>>) -> Seq<Seq<u8>> {
    s.map_values(|d: Vec<u8>| d@)
}

/// One combining pass over a level: each pair of digests gives one parent, a
/// final unmatched digest is paired with a copy of itself.
pub open spec fn combine_pairs(level: Seq<Seq<u8>>) -> Seq<Seq<u8>> {
    Seq::new(
        combined_len(level.len()),
        |j: int|
            if 2 * j + 1 < level.len() {
                internal_digest(level[2 * j], level[2 * j + 1])
            } else {
                internal_digest(level[2 * j], level[2 * j])
            },
    )
}

/// The resize padding rule: a combined level with more than one digest and an
/// odd count gets its last digest appended once more, by value.
pub open spec fn pad_level(level: Seq<Seq<u8>>) -> Seq<Seq<u8>> {
    if level.len() > 1 && level.len() % 2 == 1 {
        level.push(level.last())
    } else {
        level
    }
}

/// The level built on top of `level`: combine in pairs, then pad.
pub open spec fn upper_level(level: Seq<Seq<u8>>) -> Seq<Seq<u8>> {
    pad_level(combine_pairs(level))
}

pub proof fn lemma_upper_level_len(level: Seq<Seq<u8>>)
    ensures
        upper_level(level).len() == upper_len(level.len()),
{
}

/// The root digest reached by building levels upward until one digest is
/// left; a level that is already a single digest is its own root.
pub open spec fn root_of_level(level: Seq<Seq<u8>>) -> Seq<u8>
    decreases level.len(),
    when level.len() >= 1
    via root_of_level_decreases
{
    if level.len() == 1 {
        level[0]
    } else {
        root_of_level(upper_level(level))
    }
}

#[via_fn]
proof fn root_of_level_decreases(level: Seq<Seq<u8>>) {
    if level.len() >= 2 {
        lemma_upper_level_len(level);
        lemma_upper_len_decreases(level.len());
    }
}

/// Builds the next level up from one level of digests.
pub fn build_upper_level(nodes: &[Vec<u8>]) -> (r: Vec<Vec<u8>>)
    requires
        nodes@.len() >= 1,
    ensures
        digests_of(r@) == upper_level(digests_of(nodes@)),
        r@.len() == upper_len(nodes@.len()),
        forall|j: int| 0 <= j < r@.len() ==> (#[trigger] r@[j])@.len() == 32,
{
    let ghost whole = combine_pairs(digests_of(nodes@));
    let mut result: Vec<Vec<u8>> = Vec::new();
    let mut i: usize = 0;
    while i < nodes.len()
        invariant
            nodes@.len() >= 1,
            i <= nodes@.len(),
            i % 2 == 0 || i == nodes@.len(),
            whole == combine_pairs(digests_of(nodes@)),
            result@.len() == combined_len(i as nat),
            digests_of(result@) == whole.take(combined_len(i as nat) as int),
            forall|j: int| 0 <= j < result@.len() ==> (#[trigger] result@[j])@.len() == 32,
        decreases nodes@.len() - i,
    {
        let ghost prev = result@;
        if i + 1 < nodes.len() {
            result.push(hash_internal_node(&nodes[i], Some(&nodes[i + 1])));
            i = i + 2;
        } else {
            result.push(hash_internal_node(&nodes[i], None));
            i = i + 1;
        }
        proof {
            assert(digests_of(result@) =~= digests_of(prev).push(result@.last()@));
            assert(combined_len(i as nat) == prev.len() + 1);
            assert(whole.take(combined_len(i as nat) as int) =~= whole.take(
                prev.len() as int,
            ).push(whole[prev.len() as int]));
        }
    }
    proof {
        assert(whole.take(combined_len(nodes@.len()) as int) =~= whole);
    }
    if result.len() > 1 && result.len() % 2 != 0 {
        let ghost prev = result@;
        let last = result[result.len() - 1].clone();
        proof {
            assert(last@ =~= prev.last()@);
        }
        result.push(last);
        proof {
            assert(digests_of(result@) =~= digests_of(prev).push(last@));
            assert(digests_of(prev).last() == prev.last()@);
            assert(digests_of(result@) =~= pad_level(whole));
        }
    }
    result
}

} // verus!
