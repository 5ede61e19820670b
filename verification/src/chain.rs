//! In-memory side chains and the joints that attach them.

use vstd::prelude::*;

use crate::block::{contiguous, lemma_contiguous_heights, Block};
use crate::validation::{valid_extension, ValidationError, Validator};

verus! {

/// Identifier of a chain inside the forest. Minted strictly increasing by the
/// tree and never reused, so a stale index entry can never resolve to an
/// unrelated, newer chain.
pub type ChainId = u64;

/// Where a side chain attaches to its ancestor.
#[derive(Clone, Copy, PartialEq, Eq, Structural, Debug)]
pub enum Joint {
    /// The chain's first block's parent is the current tip of the persisted
    /// canonical history; promoting the chain needs no revert.
    AttachedToHistoryTip,
    /// The chain's first block's parent is the persisted block at this
    /// height, behind the current tip; promoting the chain reverts persisted
    /// blocks down to that height.
    AttachedToHistoryAt(u64),
    /// The chain's first block's parent is the block at this height inside
    /// another in-memory chain; promoting the chain first resolves that
    /// ancestor.
    AttachedToChain(ChainId, u64),
}

/// An ordered, contiguous, non-empty run of blocks: one candidate extension
/// of history, together with the joint describing where it attaches.
#[derive(Clone, Debug)]
pub struct Chain {
    /// The blocks, height-ascending and parent-linked.
    pub blocks: Vec<Block>,
    /// Where the chain attaches.
    pub joint: Joint,
}

impl Chain {
    /// The chain's first (lowest) block.
    pub open spec fn first(self) -> Block {
        self.blocks@[0]
    }

    /// The chain's last block: its tip.
    pub open spec fn last(self) -> Block {
        self.blocks@[self.blocks@.len() - 1]
    }

    /// Height of the attachment point: the height of the block immediately
    /// preceding the chain's first block.
    pub open spec fn joint_height_spec(self) -> u64 {
        (self.first().number - 1) as u64
    }

    /// Well-formedness: non-empty, contiguous, attached below its first
    /// block, and the height stored in the joint names the attachment point.
    pub open spec fn wf(self) -> bool {
        &&& self.blocks@.len() > 0
        &&& self.first().number >= 1
        &&& contiguous(self.blocks@)
        &&& match self.joint {
            Joint::AttachedToHistoryTip => true,
            Joint::AttachedToHistoryAt(h) => h == self.first().number - 1,
            Joint::AttachedToChain(_, h) => h == self.first().number - 1,
        }
    }

    /// Whether the chain holds a block at height `h`.
    pub open spec fn has_height(self, h: u64) -> bool {
        self.first().number <= h <= self.last().number
    }

    /// The block at height `h` (meaningful when `has_height(h)`).
    pub open spec fn block_at_spec(self, h: u64) -> Block {
        self.blocks@[h - self.first().number]
    }

    /// Whether some block of the chain has identity `h`.
    pub open spec fn has_hash(self, h: u64) -> bool {
        exists|i: int| 0 <= i < self.blocks@.len() && (#[trigger] self.blocks@[i]).hash == h
    }

    /// In a well-formed chain the block at offset `i` sits at height
    /// `first.number + i`; so heights index the blocks directly.
    pub proof fn lemma_heights(self)
        requires
            self.wf(),
        ensures
            forall|i: int|
                0 <= i < self.blocks@.len() ==> (#[trigger] self.blocks@[i]).number
                    == self.first().number + i,
            self.last().number == self.first().number + self.blocks@.len() - 1,
            forall|h: u64|
                self.has_height(h) ==> 0 <= h - self.first().number < self.blocks@.len()
                    && self.block_at_spec(h).number == h,
    {
        lemma_contiguous_heights(self.blocks@);
    }

    /// Number of blocks in the chain.
    pub fn len(&self) -> (n: usize)
        ensures
            n == self.blocks@.len(),
    {
        self.blocks.len()
    }

    /// The chain's tip block.
    pub fn tip(&self) -> (b: &Block)
        requires
            self.blocks@.len() > 0,
        ensures
            *b == self.last(),
    {
        &self.blocks[self.blocks.len() - 1]
    }

    /// The chain's first block.
    pub fn first_block(&self) -> (b: &Block)
        requires
            self.blocks@.len() > 0,
        ensures
            *b == self.first(),
    {
        &self.blocks[0]
    }

    /// Height of the attachment point, derived from the stored blocks.
    pub fn joint_height(&self) -> (h: u64)
        requires
            self.wf(),
        ensures
            h == self.joint_height_spec(),
    {
        self.blocks[0].number - 1
    }

    /// Whether some block strictly below the tip has identity `h`: the
    /// condition under which a fork can attach inside this chain.
    pub fn contains_hash_below_tip(&self, h: u64) -> (r: bool)
        ensures
            r == exists|i: int|
                0 <= i < self.blocks@.len() - 1 && (#[trigger] self.blocks@[i]).hash == h,
    {
        let n = self.blocks.len();
        let mut i: usize = 0;
        while n >= 1 && i < n - 1
            invariant
                n == self.blocks@.len(),
                n >= 1 ==> i <= n - 1,
                forall|j: int| 0 <= j < i ==> (#[trigger] self.blocks@[j]).hash != h,
            decreases n - i,
        {
            if self.blocks[i].hash == h {
                return true;
            }
            i = i + 1;
        }
        false
    }

    /// Append `block` at the tip, in place: same identity, same joint. The
    /// block must name the current tip as its parent; it is checked by the
    /// validity checker and refused without any change on failure.
    pub fn append(&mut self, block: Block, consensus: &Validator) -> (r: Result<
        (),
        ValidationError,
    >)
        requires
            old(self).wf(),
            block.parent_hash == old(self).last().hash,
        ensures
            final(self).joint == old(self).joint,
            match r {
                Ok(()) => {
                    &&& valid_extension(old(self).last().number, old(self).last().hash, block)
                    &&& final(self).blocks@ == old(self).blocks@.push(block)
                    &&& final(self).wf()
                },
                Err(e) => {
                    &&& !valid_extension(old(self).last().number, old(self).last().hash, block)
                    &&& final(self).blocks@ == old(self).blocks@
                },
            },
    {
        let tip = self.blocks[self.blocks.len() - 1];
        match consensus.validate(tip.number, tip.hash, &block) {
            Ok(()) => {
                self.blocks.push(block);
                Ok(())
            },
            Err(e) => Err(e),
        }
    }

    /// Fork off a new single-block chain whose first block's parent is a
    /// block strictly inside `self` (below the tip). `self_id` is the
    /// identity under which `self` is registered; the new chain attaches to
    /// it there. Does not mutate `self`. The block is checked by the validity
    /// checker; `Ok` exactly when some in-chain block below the tip carries
    /// the named parent identity at the height directly below `block`.
    pub fn fork_at(&self, block: Block, self_id: ChainId, consensus: &Validator) -> (r: Result<
        Chain,
        ValidationError,
    >)
        requires
            self.wf(),
            exists|i: int|
                0 <= i < self.blocks@.len() - 1 && (#[trigger] self.blocks@[i]).hash
                    == block.parent_hash,
        ensures
            match r {
                Ok(c) => {
                    &&& exists|i: int|
                        0 <= i < self.blocks@.len() - 1 && (#[trigger] self.blocks@[i]).hash
                            == block.parent_hash && block.number == self.blocks@[i].number + 1
                    &&& c.wf()
                    &&& c.blocks@ =~= seq![block]
                    &&& c.joint == Joint::AttachedToChain(self_id, (block.number - 1) as u64)
                },
                Err(e) => forall|i: int|
                    0 <= i < self.blocks@.len() - 1 && (#[trigger] self.blocks@[i]).hash
                        == block.parent_hash ==> block.number != self.blocks@[i].number + 1,
            },
    {
        let n = self.blocks.len();
        let mut i: usize = 0;
        while i < n - 1
            invariant
                n == self.blocks@.len(),
                n >= 1,
                i <= n - 1,
                self.wf(),
                forall|j: int|
                    0 <= j < i && (#[trigger] self.blocks@[j]).hash == block.parent_hash
                        ==> block.number != self.blocks@[j].number + 1,
            decreases n - i,
        {
            let parent = self.blocks[i];
            if parent.hash == block.parent_hash {
                match consensus.validate(parent.number, parent.hash, &block) {
                    Ok(()) => {
                        let mut blocks: Vec<Block> = Vec::new();
                        blocks.push(block);
                        let c = Chain {
                            blocks,
                            joint: Joint::AttachedToChain(self_id, block.number - 1),
                        };
                        return Ok(c);
                    },
                    Err(_) => {},
                }
            }
            i = i + 1;
        }
        Err(ValidationError::HeightMismatch)
    }

    /// Build a new single-block chain attached to the persisted history.
    /// `parent` is the persisted header the block extends and
    /// `canonical_tip` the history's `(height, identity)` tip. The joint
    /// records whether the parent is the tip itself or a block behind it.
    /// `Ok` exactly when the block validates against the parent.
    pub fn attach_to_history(
        block: Block,
        parent: &Block,
        canonical_tip: (u64, u64),
        consensus: &Validator,
    ) -> (r: Result<Chain, ValidationError>)
        requires
            block.parent_hash == parent.hash,
        ensures
            match r {
                Ok(c) => {
                    &&& valid_extension(parent.number, parent.hash, block)
                    &&& c.wf()
                    &&& c.blocks@ =~= seq![block]
                    &&& c.joint == if parent.hash == canonical_tip.1 {
                        Joint::AttachedToHistoryTip
                    } else {
                        Joint::AttachedToHistoryAt(parent.number)
                    }
                },
                Err(e) => !valid_extension(parent.number, parent.hash, block),
            },
    {
        match consensus.validate(parent.number, parent.hash, &block) {
            Ok(()) => {
                let mut blocks: Vec<Block> = Vec::new();
                blocks.push(block);
                let joint = if parent.hash == canonical_tip.1 {
                    Joint::AttachedToHistoryTip
                } else {
                    Joint::AttachedToHistoryAt(parent.number)
                };
                Ok(Chain { blocks, joint })
            },
            Err(e) => Err(e),
        }
    }

    /// Partition the chain at `height`: the prefix keeps every block with
    /// height at most `height` together with the original joint; the suffix
    /// keeps the remainder, re-based onto the prefix's owner with
    /// `Joint::AttachedToChain(self_id, height)`. When `height` lies outside
    /// the open split range — below the first block or at or above the tip —
    /// nothing can be split off and `(None, None)` is returned.
    #[verifier::rlimit(30)]
    pub fn split_at(self, self_id: ChainId, height: u64) -> (r: (Option<Chain>, Option<Chain>))
        requires
            self.wf(),
        ensures
            if self.first().number <= height < self.last().number {
                &&& r.0 matches Some(p) && p.blocks@ == self.blocks@.subrange(
                    0,
                    height - self.first().number + 1,
                ) && p.joint == self.joint && p.wf() && p.last() == self.block_at_spec(height)
                &&& r.1 matches Some(s) && s.blocks@ == self.blocks@.subrange(
                    height - self.first().number + 1,
                    self.blocks@.len() as int,
                ) && s.joint == Joint::AttachedToChain(self_id, height) && s.wf() && s.last()
                    == self.last()
            } else {
                r == (None::<Chain>, None::<Chain>)
            },
    {
        proof {
            self.lemma_heights();
        }
        let first_number = self.blocks[0].number;
        let n = self.blocks.len();
        if height < first_number || height >= self.blocks[n - 1].number {
            return (None, None);
        }
        let cut = (height - first_number + 1) as usize;
        let mut prefix_blocks = self.blocks;
        let suffix_blocks = prefix_blocks.split_off(cut);
        let prefix = Chain { blocks: prefix_blocks, joint: self.joint };
        let suffix = Chain { blocks: suffix_blocks, joint: Joint::AttachedToChain(self_id, height) };
        proof {
            let s = self.blocks@;
            let c = height - self.first().number + 1;
            assert(prefix.blocks@ =~= s.subrange(0, c));
            assert(suffix.blocks@ =~= s.subrange(c, s.len() as int));
            crate::block::lemma_contiguous_subrange(s, 0, c);
            crate::block::lemma_contiguous_subrange(s, c, s.len() as int);
            assert(prefix.first() == self.first());
            assert(prefix.last() == s[c - 1]);
            assert(s[c - 1].number == height && self.block_at_spec(height) == s[c - 1]);
            assert(suffix.first() == s[c]);
            assert(s[c].number == height + 1);
            assert(suffix.last() == self.last());
            assert(prefix.wf());
            assert(suffix.wf());
        }
        (Some(prefix), Some(suffix))
    }
}

} // verus!
