use blockchain_tree::block::Block;
use blockchain_tree::chain::{Chain, Joint};
use blockchain_tree::dns::DnsDiscoveryConfig;
use blockchain_tree::history::CanonicalHistory;
use blockchain_tree::list::List;
use blockchain_tree::validation::{ValidationError, Validator};

fn blk(number: u64, hash: u64, parent_hash: u64) -> Block {
    Block { number, hash, parent_hash }
}

fn chain_3_to_5() -> Chain {
    Chain {
        blocks: vec![blk(3, 13, 12), blk(4, 14, 13), blk(5, 15, 14)],
        joint: Joint::AttachedToHistoryAt(2),
    }
}

#[test]
fn validator_checks_parent_and_height() {
    let v = Validator::new();
    assert_eq!(v.validate(4, 14, &blk(5, 15, 14)), Ok(()));
    assert_eq!(v.validate(4, 14, &blk(5, 15, 99)), Err(ValidationError::ParentMismatch));
    assert_eq!(v.validate(4, 14, &blk(6, 15, 14)), Err(ValidationError::HeightMismatch));
    // the largest height has no valid child
    assert_eq!(
        v.validate(u64::MAX, 14, &blk(0, 15, 14)),
        Err(ValidationError::HeightMismatch)
    );
}

#[test]
fn chain_append_and_joint_height() {
    let v = Validator::new();
    let mut c = chain_3_to_5();
    assert_eq!(c.joint_height(), 2);
    assert_eq!(c.append(blk(6, 16, 15), &v), Ok(()));
    assert_eq!(c.blocks.len(), 4);
    assert_eq!(c.tip().hash, 16);
    assert_eq!(c.joint, Joint::AttachedToHistoryAt(2));
    // a validation failure leaves the chain untouched
    assert_eq!(c.append(blk(9, 17, 16), &v), Err(ValidationError::HeightMismatch));
    assert_eq!(c.blocks.len(), 4);
}

#[test]
fn chain_fork_at_makes_a_one_block_chain() {
    let v = Validator::new();
    let c = chain_3_to_5();
    let f = c.fork_at(blk(5, 25, 14), 7, &v).unwrap();
    assert_eq!(f.blocks.len(), 1);
    assert_eq!(f.blocks[0].hash, 25);
    assert_eq!(f.joint, Joint::AttachedToChain(7, 4));
    assert_eq!(f.joint_height(), 4);
    // a fork whose height does not follow its parent is refused
    assert!(matches!(
        c.fork_at(blk(9, 26, 14), 7, &v),
        Err(ValidationError::HeightMismatch)
    ));
}

#[test]
fn chain_attach_to_history_picks_the_joint() {
    let v = Validator::new();
    let parent_tip = blk(5, 15, 14);
    let at_tip = Chain::attach_to_history(blk(6, 16, 15), &parent_tip, (5, 15), &v).unwrap();
    assert_eq!(at_tip.joint, Joint::AttachedToHistoryTip);
    let behind = blk(3, 13, 12);
    let behind_tip = Chain::attach_to_history(blk(4, 24, 13), &behind, (5, 15), &v).unwrap();
    assert_eq!(behind_tip.joint, Joint::AttachedToHistoryAt(3));
    assert!(matches!(
        Chain::attach_to_history(blk(9, 24, 13), &behind, (5, 15), &v),
        Err(ValidationError::HeightMismatch)
    ));
}

#[test]
fn chain_split_at_partitions_and_rebases() {
    let c = chain_3_to_5();
    let (prefix, suffix) = c.split_at(2, 4);
    let prefix = prefix.unwrap();
    let suffix = suffix.unwrap();
    assert_eq!(prefix.blocks, vec![blk(3, 13, 12), blk(4, 14, 13)]);
    assert_eq!(prefix.joint, Joint::AttachedToHistoryAt(2));
    assert_eq!(suffix.blocks, vec![blk(5, 15, 14)]);
    assert_eq!(suffix.joint, Joint::AttachedToChain(2, 4));
}

#[test]
fn chain_split_out_of_range_is_a_no_op() {
    let c = chain_3_to_5();
    assert!(matches!(c.split_at(2, 2), (None, None)));
    let c = chain_3_to_5();
    assert!(matches!(c.split_at(2, 5), (None, None)));
    let c = chain_3_to_5();
    assert!(matches!(c.split_at(2, 9), (None, None)));
}

#[test]
fn history_lookup_revert_append() {
    let mut h = CanonicalHistory::new(blk(0, 100, 99));
    h.append(vec![blk(1, 101, 100), blk(2, 102, 101), blk(3, 103, 102)]);
    assert_eq!(h.tip(), (3, 103));
    assert_eq!(h.header_by_identity(102), Some(blk(2, 102, 101)));
    assert_eq!(h.header_by_identity(777), None);
    let reverted = h.revert_to(1);
    assert_eq!(reverted, vec![blk(2, 102, 101), blk(3, 103, 102)]);
    assert_eq!(h.tip(), (1, 101));
    // a revert at or above the tip removes nothing
    let mut h2 = CanonicalHistory::new(blk(0, 100, 99));
    assert_eq!(h2.revert_to(5), vec![]);
    assert_eq!(h2.tip(), (0, 100));
}

#[test]
fn dns_config_default_values() {
    let c = DnsDiscoveryConfig::default();
    assert_eq!(c.lookup_timeout, 5);
    assert_eq!(c.max_requests_per_sec, 3);
    assert_eq!(c.recheck_interval, 60 * 30);
    assert_eq!(c.dns_record_cache_limit, 1_000);
    assert_eq!(c.bootstrap_dns_networks, Some(vec![]));
}

#[test]
fn list_stepping_with_no_selection_picks_the_first_slot() {
    // an empty list with no selection steps to index 0 without panicking
    let mut l: List<&str> = List::new("peers", vec![]);
    l.unselect();
    l.next();
    assert_eq!(l.state.selected, Some(0));
    let mut l: List<&str> = List::new("peers", vec![]);
    l.unselect();
    l.previous();
    assert_eq!(l.state.selected, Some(0));
    // a selection above zero steps back even on a shrunken view of one item
    let mut l = List::new("peers", vec!["a", "b"]);
    l.select(1);
    l.previous();
    assert_eq!(l.state.selected, Some(0));
}

#[test]
fn list_selection_wraps_both_ways() {
    let mut l = List::new("peers", vec!["a", "b", "c"]);
    assert_eq!(l.state.selected, Some(0));
    l.next();
    assert_eq!(l.state.selected, Some(1));
    l.next();
    l.next();
    assert_eq!(l.state.selected, Some(0));
    l.previous();
    assert_eq!(l.state.selected, Some(2));
    l.previous();
    assert_eq!(l.state.selected, Some(1));
    l.select(2);
    assert_eq!(l.state.selected, Some(2));
    l.unselect();
    assert_eq!(l.state.selected, None);
    l.next();
    assert_eq!(l.state.selected, Some(0));
    assert_eq!(l.title, "peers");
    assert_eq!(l.items, vec!["a", "b", "c"]);
}
