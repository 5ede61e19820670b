//! The persisted canonical chain, seen through the operations the tree needs.
//!
//! The tree requires of its history store only a header lookup, the tip, an
//! atomic revert and an atomic append. This in-memory store provides exactly
//! those, with their contracts; a durable backend would sit behind the same
//! boundary.

use vstd::prelude::*;

use crate::block::{contiguous, lemma_contiguous_heights, lemma_contiguous_subrange, Block};

verus! {

/// The persisted canonical history: a non-empty, contiguous, height-ascending
/// run of blocks, authoritative for everything outside the tree's forest.
#[derive(Clone, Debug)]
pub struct CanonicalHistory {
    /// The persisted blocks, oldest first.
    pub blocks: Vec<Block>,
}

impl CanonicalHistory {
    /// Well-formedness: at least one block, contiguous and height-ascending.
    pub open spec fn wf(self) -> bool {
        &&& self.blocks@.len() > 0
        &&& contiguous(self.blocks@)
    }

    /// Height of the oldest retained block.
    pub open spec fn base_number(self) -> u64 {
        self.blocks@[0].number
    }

    /// The tip block: the newest persisted block.
    pub open spec fn tip_spec(self) -> Block {
        self.blocks@[self.blocks@.len() - 1]
    }

    /// Whether the history holds a block at height `h`.
    pub open spec fn has_height(self, h: u64) -> bool {
        self.base_number() <= h <= self.tip_spec().number
    }

    /// The persisted block at height `h` (meaningful when `has_height(h)`).
    pub open spec fn block_at_spec(self, h: u64) -> Block {
        self.blocks@[h - self.base_number()]
    }

    /// Whether some persisted block has identity `h`.
    pub open spec fn has_hash(self, h: u64) -> bool {
        exists|i: int| 0 <= i < self.blocks@.len() && (#[trigger] self.blocks@[i]).hash == h
    }

    /// In a well-formed history the block at offset `i` sits at height
    /// `base_number + i`, so heights index the blocks directly.
    pub proof fn lemma_heights(self)
        requires
            self.wf(),
        ensures
            forall|i: int|
                0 <= i < self.blocks@.len() ==> (#[trigger] self.blocks@[i]).number
                    == self.base_number() + i,
            self.tip_spec().number == self.base_number() + self.blocks@.len() - 1,
            forall|h: u64|
                self.has_height(h) ==> 0 <= h - self.base_number() < self.blocks@.len()
                    && self.block_at_spec(h).number == h,
    {
        lemma_contiguous_heights(self.blocks@);
    }

    /// Start a history from a single already-agreed block.
    pub fn new(genesis: Block) -> (h: CanonicalHistory)
        ensures
            h.wf(),
            h.blocks@ =~= seq![genesis],
    {
        let mut blocks: Vec<Block> = Vec::new();
        blocks.push(genesis);
        CanonicalHistory { blocks }
    }

    /// The `(height, identity)` of the tip.
    pub fn tip(&self) -> (t: (u64, u64))
        requires
            self.wf(),
        ensures
            t == (self.tip_spec().number, self.tip_spec().hash),
    {
        let b = &self.blocks[self.blocks.len() - 1];
        (b.number, b.hash)
    }

    /// Look a persisted header up by identity. Returns the block exactly when
    /// one with that identity is persisted.
    pub fn header_by_identity(&self, hash: u64) -> (r: Option<Block>)
        ensures
            match r {
                Some(b) => b.hash == hash && exists|i: int|
                    0 <= i < self.blocks@.len() && self.blocks@[i] == b,
                None => !self.has_hash(hash),
            },
    {
        let n = self.blocks.len();
        let mut i: usize = 0;
        while i < n
            invariant
                n == self.blocks@.len(),
                i <= n,
                forall|j: int| 0 <= j < i ==> (#[trigger] self.blocks@[j]).hash != hash,
            decreases n - i,
        {
            if self.blocks[i].hash == hash {
                return Some(self.blocks[i]);
            }
            i = i + 1;
        }
        None
    }

    /// Remove every persisted block with height above `height` from the
    /// store, returning them in ascending order. `height` must not undercut
    /// the oldest retained block; a `height` at or above the tip reverts
    /// nothing.
    pub fn revert_to(&mut self, height: u64) -> (reverted: Vec<Block>)
        requires
            old(self).wf(),
            height >= old(self).base_number(),
        ensures
            final(self).wf(),
            final(self).base_number() == old(self).base_number(),
            if height < old(self).tip_spec().number {
                &&& final(self).blocks@ == old(self).blocks@.subrange(
                    0,
                    height - old(self).base_number() + 1,
                )
                &&& reverted@ == old(self).blocks@.subrange(
                    height - old(self).base_number() + 1,
                    old(self).blocks@.len() as int,
                )
                &&& final(self).tip_spec() == old(self).block_at_spec(height)
            } else {
                final(self).blocks@ == old(self).blocks@ && reverted@ =~= Seq::<Block>::empty()
            },
    {
        proof {
            self.lemma_heights();
        }
        let n = self.blocks.len();
        if height >= self.blocks[n - 1].number {
            return Vec::new();
        }
        let base = self.blocks[0].number;
        let cut = (height - base + 1) as usize;
        let reverted = self.blocks.split_off(cut);
        proof {
            let s = old(self).blocks@;
            let c = height - old(self).base_number() + 1;
            assert(self.blocks@ =~= s.subrange(0, c));
            assert(reverted@ =~= s.subrange(c, s.len() as int));
            lemma_contiguous_subrange(s, 0, c);
            assert(self.blocks@[0] == s[0]);
            assert(self.blocks@[c - 1] == s[c - 1]);
        }
        reverted
    }

    /// Atomically append `new_blocks`, oldest first, to the persisted chain.
    /// The run must be contiguous and extend the current tip.
    pub fn append(&mut self, new_blocks: Vec<Block>)
        requires
            old(self).wf(),
            contiguous(new_blocks@),
            new_blocks@.len() > 0 ==> new_blocks@[0].parent_hash == old(self).tip_spec().hash
                && new_blocks@[0].number == old(self).tip_spec().number + 1,
        ensures
            final(self).wf(),
            final(self).blocks@ == old(self).blocks@ + new_blocks@,
            final(self).base_number() == old(self).base_number(),
            final(self).tip_spec() == if new_blocks@.len() > 0 {
                new_blocks@[new_blocks@.len() - 1]
            } else {
                old(self).tip_spec()
            },
    {
        let mut incoming = new_blocks;
        self.blocks.append(&mut incoming);
        proof {
            let s = final(self).blocks@;
            assert(s =~= old(self).blocks@ + new_blocks@);
            assert forall|i: int|
                1 <= i < s.len() implies (#[trigger] s[i]).number == s[i - 1].number + 1
                && s[i].parent_hash == s[i - 1].hash by {
                let m = old(self).blocks@.len() as int;
                if i < m {
                    assert(s[i] == old(self).blocks@[i] && s[i - 1] == old(self).blocks@[i - 1]);
                } else if i == m {
                    assert(s[i] == new_blocks@[0] && s[i - 1] == old(self).tip_spec());
                } else {
                    assert(s[i] == new_blocks@[i - m] && s[i - 1] == new_blocks@[i - m - 1]);
                }
            }
        }
    }
}

} // verus!
