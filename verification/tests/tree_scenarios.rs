use blockchain_tree::block::Block;
use blockchain_tree::chain::Joint;
use blockchain_tree::history::CanonicalHistory;
use blockchain_tree::tree::{BlockchainTree, TreeError};
use blockchain_tree::validation::{ValidationError, Validator};

fn blk(number: u64, hash: u64, parent_hash: u64) -> Block {
    Block { number, hash, parent_hash }
}

/// Canonical history holding blocks 0..=top, block `n` hashed as `100 + n`.
fn history_to(top: u64) -> CanonicalHistory {
    let mut h = CanonicalHistory::new(blk(0, 100, 99));
    let mut rest = Vec::new();
    for n in 1..=top {
        rest.push(blk(n, 100 + n, 100 + n - 1));
    }
    h.append(rest);
    h
}

fn tree_to(top: u64) -> BlockchainTree {
    BlockchainTree::new(history_to(top), Validator::new())
}

/// The fork index and the chain forest agree in both directions.
fn assert_index_consistent(t: &BlockchainTree) {
    for slot in 0..t.chains.len() {
        if let Some(c) = t.get_chain(slot as u64) {
            for b in &c.blocks {
                assert_eq!(t.lookup_index(b.hash), Some(slot as u64));
            }
        }
    }
}

#[test]
fn linear_extension_builds_one_chain() {
    // inserting N blocks, each the sole child of the previous, in order
    let mut t = tree_to(0);
    for n in 1..=5u64 {
        let parent_hash = if n == 1 { 100 } else { 200 + n - 1 };
        assert_eq!(t.insert_block(blk(n, 200 + n, parent_hash)), Ok(()));
    }
    // exactly one chain of length 5, and no id minted after the first
    assert_eq!(t.chain_id_generator, 1);
    assert_eq!(t.chains.len(), 1);
    let c = t.get_chain(0).unwrap();
    assert_eq!(c.blocks.len(), 5);
    assert_eq!(c.tip().number, 5);
    assert_eq!(c.joint, Joint::AttachedToHistoryTip);
    assert_index_consistent(&t);
}

#[test]
fn fork_creation_yields_equal_joint_heights() {
    // two blocks sharing a parent, distinct identities, one order...
    let mut t = tree_to(3);
    assert_eq!(t.insert_block(blk(4, 41, 103)), Ok(()));
    assert_eq!(t.insert_block(blk(4, 42, 103)), Ok(()));
    assert_eq!(t.chains.len(), 2);
    let a = t.get_chain(0).unwrap();
    let b = t.get_chain(1).unwrap();
    assert_eq!(a.joint_height(), b.joint_height());
    assert_eq!(a.joint_height(), 3);

    // ... and in the other order
    let mut t = tree_to(3);
    assert_eq!(t.insert_block(blk(4, 42, 103)), Ok(()));
    assert_eq!(t.insert_block(blk(4, 41, 103)), Ok(()));
    let a = t.get_chain(0).unwrap();
    let b = t.get_chain(1).unwrap();
    assert_eq!(a.joint_height(), b.joint_height());
    assert_index_consistent(&t);
}

#[test]
fn promotion_moves_tip_and_clears_chain() {
    // canonical tip at height 5; insert block 6 on the tip and promote it
    let mut t = tree_to(5);
    let b6 = blk(6, 206, 105);
    assert_eq!(t.insert_block(b6), Ok(()));
    assert_eq!(t.make_canonical(206), Ok(()));
    assert_eq!(t.canonical_chain_tip, (6, 206));
    assert!(t.get_chain(0).is_none());
    assert_eq!(t.lookup_index(206), None);
    assert_eq!(t.db.tip(), (6, 206));
    assert_index_consistent(&t);
}

#[test]
fn sibling_survives_promotion() {
    // competing children 7a and 7b of the tip; promoting 7a keeps 7b
    let mut t = tree_to(6);
    let b7a = blk(7, 71, 106);
    let b7b = blk(7, 72, 106);
    assert_eq!(t.insert_block(b7a), Ok(()));
    assert_eq!(t.insert_block(b7b), Ok(()));
    assert_eq!(t.make_canonical(71), Ok(()));
    assert_eq!(t.canonical_chain_tip, (7, 71));
    // 7b's chain is still present, indexed and reachable
    assert_eq!(t.lookup_index(72), Some(1));
    let c = t.get_chain(1).unwrap();
    assert_eq!(c.blocks.len(), 1);
    assert_eq!(c.blocks[0], b7b);
    assert_index_consistent(&t);
}

#[test]
fn deep_reorg_recovers_reverted_blocks() {
    // canonical history 0..5; a side chain forking at height 2, ending at 6
    let mut t = tree_to(5);
    let s3 = blk(3, 53, 102);
    let s4 = blk(4, 54, 53);
    let s5 = blk(5, 55, 54);
    let s6 = blk(6, 56, 55);
    for b in [s3, s4, s5, s6] {
        assert_eq!(t.insert_block(b), Ok(()));
    }
    assert_eq!(t.chains.len(), 1);
    assert_eq!(t.make_canonical(56), Ok(()));
    assert_eq!(t.canonical_chain_tip, (6, 56));
    assert_eq!(t.db.tip(), (6, 56));
    assert_eq!(t.db.blocks.len(), 7);
    assert_eq!(t.db.blocks[3], s3);
    assert_eq!(t.db.blocks[6], s6);
    // the reverted canonical blocks 3..5 are retrievable through the index
    let rc_id = t.lookup_index(103).expect("reverted block still indexed");
    let rc = t.get_chain(rc_id).unwrap();
    assert_eq!(rc.blocks.len(), 3);
    assert_eq!(rc.blocks[0], blk(3, 103, 102));
    assert_eq!(rc.blocks[2], blk(5, 105, 104));
    assert_eq!(rc.joint, Joint::AttachedToHistoryAt(2));
    assert_index_consistent(&t);
}

#[test]
fn promotion_splits_ancestor_and_keeps_remainder() {
    // a long side chain, then a fork of that fork; promoting the short fork
    // splits the ancestor chain and keeps its upper part under its old id
    let mut t = tree_to(2);
    let a3 = blk(3, 33, 102);
    let a4 = blk(4, 34, 33);
    let a5 = blk(5, 35, 34);
    for b in [a3, a4, a5] {
        assert_eq!(t.insert_block(b), Ok(()));
    }
    let f4 = blk(4, 44, 33);
    assert_eq!(t.insert_block(f4), Ok(()));
    assert_eq!(t.lookup_index(44), Some(1));
    assert_eq!(t.make_canonical(44), Ok(()));
    assert_eq!(t.canonical_chain_tip, (4, 44));
    // the remainder of the ancestor chain kept its id and was re-rooted
    let rest = t.get_chain(0).expect("remainder survives under its id");
    assert_eq!(rest.blocks.len(), 2);
    assert_eq!(rest.blocks[0], a4);
    assert_eq!(rest.blocks[1], a5);
    assert_eq!(rest.joint, Joint::AttachedToHistoryAt(3));
    assert_eq!(t.lookup_index(34), Some(0));
    // the promoted path is out of the forest and in history
    assert_eq!(t.lookup_index(44), None);
    assert_eq!(t.lookup_index(33), None);
    assert_eq!(t.db.blocks.len(), 5);
    assert_eq!(t.db.blocks[3], a3);
    assert_eq!(t.db.blocks[4], f4);
    assert_index_consistent(&t);
}

#[test]
fn promotion_walks_forks_of_forks() {
    // a fork hanging off a fork hanging off a long side chain: promoting its
    // tip walks two joints, splits both ancestors, and keeps both remainders
    let mut t = tree_to(1);
    let a2 = blk(2, 22, 101);
    let a3 = blk(3, 23, 22);
    let a4 = blk(4, 24, 23);
    for b in [a2, a3, a4] {
        assert_eq!(t.insert_block(b), Ok(()));
    }
    let b3 = blk(3, 33, 22);
    let b4 = blk(4, 34, 33);
    assert_eq!(t.insert_block(b3), Ok(()));
    assert_eq!(t.insert_block(b4), Ok(()));
    let c4 = blk(4, 44, 33);
    assert_eq!(t.insert_block(c4), Ok(()));
    assert_eq!(t.lookup_index(44), Some(2));
    assert_eq!(t.make_canonical(44), Ok(()));
    // promoted path: a2, b3, c4
    assert_eq!(t.canonical_chain_tip, (4, 44));
    assert_eq!(t.db.blocks.len(), 5);
    assert_eq!(t.db.blocks[2], a2);
    assert_eq!(t.db.blocks[3], b3);
    assert_eq!(t.db.blocks[4], c4);
    // both remainders survive under their ids, re-rooted onto history
    let rest_a = t.get_chain(0).unwrap();
    assert_eq!(rest_a.blocks, vec![a3, a4]);
    assert_eq!(rest_a.joint, Joint::AttachedToHistoryAt(2));
    let rest_b = t.get_chain(1).unwrap();
    assert_eq!(rest_b.blocks, vec![b4]);
    assert_eq!(rest_b.joint, Joint::AttachedToHistoryAt(3));
    // the promoted chain is gone
    assert!(t.get_chain(2).is_none());
    assert_eq!(t.lookup_index(44), None);
    assert_eq!(t.lookup_index(22), None);
    assert_eq!(t.lookup_index(33), None);
    assert_index_consistent(&t);
}

#[test]
fn unknown_target_changes_nothing() {
    let mut t = tree_to(4);
    assert_eq!(t.insert_block(blk(5, 55, 104)), Ok(()));
    let tip_before = t.canonical_chain_tip;
    let gen_before = t.chain_id_generator;
    let db_before = t.db.blocks.clone();
    let r = t.make_canonical(9999);
    assert_eq!(r, Err(TreeError::UnknownBlock));
    assert_eq!(t.canonical_chain_tip, tip_before);
    assert_eq!(t.chain_id_generator, gen_before);
    assert_eq!(t.db.blocks, db_before);
    assert_eq!(t.lookup_index(55), Some(0));
    assert_eq!(t.get_chain(0).unwrap().blocks.len(), 1);
    assert_index_consistent(&t);
}

#[test]
fn rejected_block_joins_nothing() {
    // a block failing validation is never added and never indexed
    let mut t = tree_to(3);
    let wrong_height = blk(7, 77, 103);
    assert_eq!(
        t.insert_block(wrong_height),
        Err(TreeError::ValidationFailed(ValidationError::HeightMismatch))
    );
    assert_eq!(t.lookup_index(77), None);
    assert_eq!(t.chains.len(), 0);
    assert_eq!(t.chain_id_generator, 0);
    // the same on a chain tip
    assert_eq!(t.insert_block(blk(4, 41, 103)), Ok(()));
    let bad_child = blk(9, 91, 41);
    assert_eq!(
        t.insert_block(bad_child),
        Err(TreeError::ValidationFailed(ValidationError::HeightMismatch))
    );
    assert_eq!(t.lookup_index(91), None);
    assert_eq!(t.get_chain(0).unwrap().blocks.len(), 1);
    assert_index_consistent(&t);
}

#[test]
fn unknown_ancestor_is_reported_and_dropped() {
    let mut t = tree_to(2);
    let orphan = blk(9, 90, 888);
    assert_eq!(t.insert_block(orphan), Err(TreeError::UnknownAncestor));
    assert_eq!(t.lookup_index(90), None);
    assert_eq!(t.chains.len(), 0);
    // once the ancestor arrives, resubmission succeeds
    assert_eq!(t.insert_block(blk(3, 888, 102)), Ok(()));
    let orphan_fixed = blk(4, 90, 888);
    assert_eq!(t.insert_block(orphan_fixed), Ok(()));
    assert_eq!(t.lookup_index(90), Some(0));
}

#[test]
fn stale_chain_id_is_an_invariant_violation() {
    let mut t = tree_to(1);
    let b = blk(2, 22, 101);
    assert_eq!(t.insert_block_in_chain(b, 5), Err(TreeError::InvariantViolation));
    assert_eq!(t.chains.len(), 0);
    assert_eq!(t.lookup_index(22), None);
}

#[test]
fn duplicate_identity_is_dropped_with_success() {
    let mut t = tree_to(1);
    let b = blk(2, 22, 101);
    assert_eq!(t.insert_block(b), Ok(()));
    assert_eq!(t.insert_block(b), Ok(()));
    assert_eq!(t.chains.len(), 1);
    assert_eq!(t.get_chain(0).unwrap().blocks.len(), 1);
    assert_eq!(t.chain_id_generator, 1);
}

#[test]
fn remove_chain_purges_its_index_entries() {
    let mut t = tree_to(0);
    assert_eq!(t.insert_block(blk(1, 11, 100)), Ok(()));
    assert_eq!(t.insert_block(blk(2, 21, 11)), Ok(()));
    assert_eq!(t.insert_block(blk(1, 12, 100)), Ok(()));
    let removed = t.remove_chain(0).expect("chain 0 is live");
    assert_eq!(removed.blocks.len(), 2);
    assert_eq!(t.lookup_index(11), None);
    assert_eq!(t.lookup_index(21), None);
    // the other chain keeps its entry; the removed id stays dead
    assert_eq!(t.lookup_index(12), Some(1));
    assert!(t.get_chain(0).is_none());
    assert!(t.remove_chain(0).is_none());
    assert!(t.remove_chain(42).is_none());
    assert_index_consistent(&t);
}

#[test]
fn fork_points_are_found_below_the_tip_only() {
    let mut t = tree_to(0);
    assert_eq!(t.insert_block(blk(1, 11, 100)), Ok(()));
    assert_eq!(t.insert_block(blk(2, 21, 11)), Ok(()));
    let c = t.get_chain(0).unwrap();
    assert!(c.contains_hash_below_tip(11));
    assert!(!c.contains_hash_below_tip(21));
    assert!(!c.contains_hash_below_tip(777));
}

#[test]
fn ids_are_minted_strictly_increasing() {
    let mut t = tree_to(0);
    assert_eq!(t.insert_block(blk(1, 11, 100)), Ok(()));
    assert_eq!(t.insert_block(blk(1, 12, 100)), Ok(()));
    assert_eq!(t.insert_block(blk(1, 13, 100)), Ok(()));
    assert_eq!(t.chain_id_generator, 3);
    assert_eq!(t.lookup_index(11), Some(0));
    assert_eq!(t.lookup_index(12), Some(1));
    assert_eq!(t.lookup_index(13), Some(2));
    // promoting chain 0 never re-issues its id: the next chain gets a new one
    assert_eq!(t.make_canonical(11), Ok(()));
    assert!(t.get_chain(0).is_none());
    assert_eq!(t.insert_block(blk(2, 21, 11)), Ok(()));
    assert_eq!(t.lookup_index(21), Some(3));
    assert_eq!(t.chain_id_generator, 4);
}
