//! The tree of chains: fork index, chain forest, and the canonical tip.

use std::collections::HashMap;

use vstd::prelude::*;

use crate::block::{contiguous, lemma_contiguous_concat, Block};
use crate::chain::{Chain, ChainId, Joint};
use crate::history::CanonicalHistory;
use crate::validation::{valid_extension, ValidationError, Validator};

verus! {

broadcast use vstd::std_specs::hash::group_hash_axioms;

/// Why a tree operation refused to do its work.
#[derive(Clone, Copy, PartialEq, Eq, Structural, Debug)]
pub enum TreeError {
    /// A block's parent is neither in the fork index nor in persisted
    /// history; the block is dropped and may be resubmitted once the ancestor
    /// is known.
    UnknownAncestor,
    /// A promotion target is not present anywhere in the forest.
    UnknownBlock,
    /// A block failed the validity check; it joined nothing.
    ValidationFailed(ValidationError),
    /// The caller named a chain, or an attachment point, that the forest does
    /// not have. Under the tree's own bookkeeping this never arises; it is
    /// reported rather than masked so an index-consistency bug cannot hide
    /// behind a silent success.
    InvariantViolation,
}

/// The tree of all known forks: a persisted canonical chain plus a forest of
/// speculative side chains descending from it or from each other.
///
/// `chains` is the chain forest, a mapping from [`ChainId`] to chain: ids are
/// minted densely from `chain_id_generator`, and a removed chain leaves its
/// slot empty forever, so an id is never reused. `blocks` is the fork index,
/// mapping every block identity held by any chain of the forest to the owning
/// chain's id.
pub struct BlockchainTree {
    /// The chain forest: the chain with id `i` lives in slot `i`.
    pub chains: Vec<Option<Chain>>,
    /// The next unused [`ChainId`].
    pub chain_id_generator: u64,
    /// The fork index: block identity to owning chain.
    pub blocks: HashMap<u64, ChainId>,
    /// Cached `(height, identity)` of the persisted canonical tip.
    pub canonical_chain_tip: (u64, u64),
    /// The persisted canonical history.
    pub db: CanonicalHistory,
    /// The block-validity checker consulted before any block joins a chain.
    pub consensus: Validator,
}

impl BlockchainTree {
    /// Whether the forest holds a chain with id `id`.
    pub open spec fn has_chain(self, id: ChainId) -> bool {
        id < self.chains@.len() && self.chains@[id as int] is Some
    }

    /// The chain with id `id` (meaningful when `has_chain(id)`).
    pub open spec fn chain_at(self, id: ChainId) -> Chain {
        self.chains@[id as int]->Some_0
    }

    /// The id generator names the next forest slot, so every live id is
    /// below it and every id it ever mints is fresh.
    pub open spec fn ids_wf(self) -> bool {
        self.chain_id_generator == self.chains@.len()
    }

    /// Every chain of the forest is well-formed: non-empty, height-ascending
    /// and parent-linked.
    pub open spec fn chains_wf(self) -> bool {
        forall|id: ChainId| #[trigger] self.has_chain(id) ==> self.chain_at(id).wf()
    }

    /// Every fork-index entry resolves to a live chain holding a block with
    /// the indexed identity.
    pub open spec fn index_points_into_forest(self) -> bool {
        forall|h: u64| #[trigger]
            self.blocks@.contains_key(h) ==> self.has_chain(self.blocks@[h]) && self.chain_at(
                self.blocks@[h],
            ).has_hash(h)
    }

    /// Every block of every chain of the forest is indexed, to its owner.
    pub open spec fn forest_blocks_indexed(self) -> bool {
        forall|id: ChainId, i: int|
            self.has_chain(id) && 0 <= i < self.chain_at(id).blocks@.len() ==> {
                let h = (#[trigger] self.chain_at(id).blocks@[i]).hash;
                self.blocks@.contains_key(h) && self.blocks@[h] == id
            }
    }

    /// Index consistency: `blocks[h] == id` exactly when the chain with id
    /// `id` holds a block with identity `h`; no dangling entries either way.
    pub open spec fn index_consistent(self) -> bool {
        self.index_points_into_forest() && self.forest_blocks_indexed()
    }

    /// The cached canonical tip mirrors the persisted history's tip.
    pub open spec fn tip_mirrors_db(self) -> bool {
        self.canonical_chain_tip == (self.db.tip_spec().number, self.db.tip_spec().hash)
    }

    /// The forest-and-index part of the invariant: what the bookkeeping
    /// helpers maintain irrespective of the persisted history.
    pub open spec fn forest_wf(self) -> bool {
        &&& self.ids_wf()
        &&& self.chains_wf()
        &&& self.index_consistent()
    }

    /// The tree's invariant, established by the constructor and kept by every
    /// operation.
    pub open spec fn wf(self) -> bool {
        &&& self.db.wf()
        &&& self.tip_mirrors_db()
        &&& self.forest_wf()
    }

    /// Whether one chain's joint names a real attachment point in this tree:
    /// the named ancestor block exists — at the canonical tip, in persisted
    /// history behind the tip, or inside a live chain — and is the chain's
    /// first block's parent.
    pub open spec fn joint_ok(self, c: Chain) -> bool {
        match c.joint {
            Joint::AttachedToHistoryTip => c.first().number == self.canonical_chain_tip.0 + 1
                && c.first().parent_hash == self.canonical_chain_tip.1,
            Joint::AttachedToHistoryAt(h) => self.db.has_height(h) && h
                < self.db.tip_spec().number && self.db.block_at_spec(h).hash
                == c.first().parent_hash,
            Joint::AttachedToChain(pid, h) => self.has_chain(pid) && self.chain_at(pid).has_height(
                h,
            ) && self.chain_at(pid).block_at_spec(h).hash == c.first().parent_hash,
        }
    }

    /// Every chain of the forest attaches at a real point.
    pub open spec fn joints_ok(self) -> bool {
        forall|id: ChainId| #[trigger] self.has_chain(id) ==> self.joint_ok(self.chain_at(id))
    }

    /// The externally supplied collaborators and the canonical tip are
    /// untouched.
    pub open spec fn frame_eq(self, other: Self) -> bool {
        &&& self.canonical_chain_tip == other.canonical_chain_tip
        &&& self.db.blocks@ == other.db.blocks@
        &&& self.consensus == other.consensus
    }

    /// The whole in-memory state is untouched.
    pub open spec fn same_state(self, other: Self) -> bool {
        &&& self.chains@ == other.chains@
        &&& self.chain_id_generator == other.chain_id_generator
        &&& self.blocks@ == other.blocks@
        &&& self.frame_eq(other)
    }

    /// Build a tree over a persisted history and a validity checker: empty
    /// forest, empty index, the cached tip mirroring the history.
    pub fn new(db: CanonicalHistory, consensus: Validator) -> (t: BlockchainTree)
        requires
            db.wf(),
        ensures
            t.wf(),
            t.joints_ok(),
            t.chains@ =~= Seq::<Option<Chain>>::empty(),
            t.blocks@ =~= Map::<u64, ChainId>::empty(),
            t.chain_id_generator == 0,
            t.db == db,
            t.consensus == consensus,
    {
        let canonical_chain_tip = db.tip();
        BlockchainTree {
            chains: Vec::new(),
            chain_id_generator: 0,
            blocks: HashMap::new(),
            canonical_chain_tip,
            db,
            consensus,
        }
    }

    /// Look a block identity up in the fork index.
    pub fn lookup_index(&self, hash: u64) -> (r: Option<ChainId>)
        ensures
            match r {
                Some(id) => self.blocks@.contains_key(hash) && id == self.blocks@[hash],
                None => !self.blocks@.contains_key(hash),
            },
    {
        match self.blocks.get(&hash) {
            Some(id) => Some(*id),
            None => None,
        }
    }

    /// Borrow the chain with id `id`, when it is live.
    pub fn get_chain(&self, id: ChainId) -> (r: Option<&Chain>)
        ensures
            match r {
                Some(c) => self.has_chain(id) && *c == self.chain_at(id),
                None => !self.has_chain(id),
            },
    {
        if id >= self.chains.len() as u64 {
            return None;
        }
        match &self.chains[id as usize] {
            Some(c) => Some(c),
            None => None,
        }
    }

    /// Put a chain back into the empty forest slot `id`, re-recording a
    /// fork-index entry for each of its blocks. Used when a split leaves a
    /// remainder side chain, which keeps its original id.
    fn restore_chain(&mut self, id: ChainId, chain: Chain)
        requires
            old(self).forest_wf(),
            id < old(self).chains@.len(),
            old(self).chains@[id as int] is None,
            chain.wf(),
            forall|i: int|
                0 <= i < chain.blocks@.len() ==> !old(self).blocks@.contains_key(
                    (#[trigger] chain.blocks@[i]).hash,
                ),
        ensures
            final(self).forest_wf(),
            final(self).db == old(self).db,
            final(self).canonical_chain_tip == old(self).canonical_chain_tip,
            final(self).consensus == old(self).consensus,
            final(self).chain_id_generator == old(self).chain_id_generator,
            final(self).chains@ == old(self).chains@.update(id as int, Some(chain)),
            forall|h: u64| #[trigger]
                final(self).blocks@.contains_key(h) <==> old(self).blocks@.contains_key(h)
                    || chain.has_hash(h),
            forall|h: u64|
                old(self).blocks@.contains_key(h) ==> final(self).blocks@[h] == old(
                    self,
                ).blocks@[h],
            forall|h: u64| chain.has_hash(h) ==> final(self).blocks@[h] == id,
    {
        let n = chain.blocks.len();
        let mut i: usize = 0;
        while i < n
            invariant
                n == chain.blocks@.len(),
                i <= n,
                self.chains@ == old(self).chains@,
                self.chain_id_generator == old(self).chain_id_generator,
                self.db == old(self).db,
                self.canonical_chain_tip == old(self).canonical_chain_tip,
                self.consensus == old(self).consensus,
                forall|i2: int|
                    0 <= i2 < chain.blocks@.len() ==> !old(self).blocks@.contains_key(
                        (#[trigger] chain.blocks@[i2]).hash,
                    ),
                forall|h: u64| #[trigger]
                    self.blocks@.contains_key(h) <==> old(self).blocks@.contains_key(h) || exists|
                        j: int,
                    | 0 <= j < i && (#[trigger] chain.blocks@[j]).hash == h,
                forall|h: u64|
                    old(self).blocks@.contains_key(h) ==> self.blocks@.contains_key(h)
                        && self.blocks@[h] == old(self).blocks@[h],
                forall|j: int|
                    0 <= j < i ==> self.blocks@.contains_key((#[trigger] chain.blocks@[j]).hash)
                        && self.blocks@[chain.blocks@[j].hash] == id,
            decreases n - i,
        {
            let h = chain.blocks[i].hash;
            self.blocks.insert(h, id);
            i = i + 1;
        }
        let slots = self.chains.len();
        proof {
            assert(id < slots as u64);
        }
        let idx = id as usize;
        self.chains[idx] = Some(chain);
        proof {
            let pre = *old(self);
            let post = *self;
            assert(post.chains@ == pre.chains@.update(id as int, Some(chain)));
            assert(post.has_chain(id) && post.chain_at(id) == chain);
            assert forall|id2: ChainId| #[trigger] post.has_chain(id2) implies post.chain_at(
                id2,
            ).wf() by {
                if id2 != id {
                    assert(pre.has_chain(id2));
                    assert(post.chain_at(id2) == pre.chain_at(id2));
                }
            }
            assert forall|h: u64| #[trigger] post.blocks@.contains_key(h) implies post.has_chain(
                post.blocks@[h],
            ) && post.chain_at(post.blocks@[h]).has_hash(h) by {
                if pre.blocks@.contains_key(h) {
                    assert(pre.has_chain(pre.blocks@[h]));
                    assert(post.blocks@[h] == pre.blocks@[h]);
                    assert(post.blocks@[h] != id);
                    assert(post.chain_at(post.blocks@[h]) == pre.chain_at(pre.blocks@[h]));
                } else {
                    assert(chain.has_hash(h));
                    assert(post.blocks@[h] == id);
                }
            }
            assert forall|id2: ChainId, i2: int|
                post.has_chain(id2) && 0 <= i2 < post.chain_at(id2).blocks@.len() implies {
                let h = (#[trigger] post.chain_at(id2).blocks@[i2]).hash;
                post.blocks@.contains_key(h) && post.blocks@[h] == id2
            } by {
                let h = post.chain_at(id2).blocks@[i2].hash;
                if id2 == id {
                    assert(chain.has_hash(h));
                } else {
                    assert(pre.has_chain(id2));
                    assert(post.chain_at(id2) == pre.chain_at(id2));
                    assert(pre.blocks@.contains_key(h) && pre.blocks@[h] == id2);
                    assert(!chain.has_hash(h)) by {
                        if chain.has_hash(h) {
                            let j = choose|j: int|
                                0 <= j < chain.blocks@.len() && (#[trigger] chain.blocks@[j]).hash
                                    == h;
                            assert(!pre.blocks@.contains_key(chain.blocks@[j].hash));
                        }
                    }
                    assert(post.blocks@[h] == pre.blocks@[h]);
                }
            }
        }
    }

    /// Mint the next id, record a fork-index entry for every block of
    /// `chain`, and store the chain under the new id. No existing entry is
    /// touched, so the chain's block identities must be new to the index.
    pub fn insert_chain(&mut self, chain: Chain) -> (id: ChainId)
        requires
            old(self).forest_wf(),
            chain.wf(),
            forall|i: int|
                0 <= i < chain.blocks@.len() ==> !old(self).blocks@.contains_key(
                    (#[trigger] chain.blocks@[i]).hash,
                ),
        ensures
            final(self).forest_wf(),
            old(self).wf() ==> final(self).wf(),
            final(self).db == old(self).db,
            id == old(self).chain_id_generator,
            final(self).chain_id_generator == old(self).chain_id_generator + 1,
            final(self).chains@ == old(self).chains@.push(Some(chain)),
            final(self).has_chain(id) && final(self).chain_at(id) == chain,
            forall|h: u64| #[trigger]
                final(self).blocks@.contains_key(h) <==> old(self).blocks@.contains_key(h)
                    || chain.has_hash(h),
            forall|h: u64|
                old(self).blocks@.contains_key(h) ==> final(self).blocks@[h] == old(
                    self,
                ).blocks@[h],
            forall|h: u64| chain.has_hash(h) ==> final(self).blocks@[h] == id,
            final(self).frame_eq(*old(self)),
    {
        let id = self.chain_id_generator;
        let n = chain.blocks.len();
        let mut i: usize = 0;
        while i < n
            invariant
                n == chain.blocks@.len(),
                i <= n,
                self.chains@ == old(self).chains@,
                self.chain_id_generator == old(self).chain_id_generator,
                id == old(self).chain_id_generator,
                self.db == old(self).db,
                self.canonical_chain_tip == old(self).canonical_chain_tip,
                self.consensus == old(self).consensus,
                forall|i2: int|
                    0 <= i2 < chain.blocks@.len() ==> !old(self).blocks@.contains_key(
                        (#[trigger] chain.blocks@[i2]).hash,
                    ),
                forall|h: u64| #[trigger]
                    self.blocks@.contains_key(h) <==> old(self).blocks@.contains_key(h) || exists|
                        j: int,
                    | 0 <= j < i && (#[trigger] chain.blocks@[j]).hash == h,
                forall|h: u64|
                    old(self).blocks@.contains_key(h) ==> self.blocks@.contains_key(h)
                        && self.blocks@[h] == old(self).blocks@[h],
                forall|j: int|
                    0 <= j < i ==> self.blocks@.contains_key((#[trigger] chain.blocks@[j]).hash)
                        && self.blocks@[chain.blocks@[j].hash] == id,
            decreases n - i,
        {
            let h = chain.blocks[i].hash;
            self.blocks.insert(h, id);
            i = i + 1;
        }
        self.chains.push(Some(chain));
        let len = self.chains.len();
        self.chain_id_generator = len as u64;
        proof {
            let pre = *old(self);
            let post = *self;
            assert(post.chains@ == pre.chains@.push(Some(chain)));
            assert(post.has_chain(id) && post.chain_at(id) == chain);
            assert forall|h: u64| #[trigger]
                post.blocks@.contains_key(h) <==> pre.blocks@.contains_key(h) || chain.has_hash(
                    h,
                ) by {}
            assert forall|id2: ChainId| #[trigger] post.has_chain(id2) implies post.chain_at(
                id2,
            ).wf() by {
                if id2 != id {
                    assert(pre.has_chain(id2));
                }
            }
            assert forall|h: u64| #[trigger] post.blocks@.contains_key(h) implies post.has_chain(
                post.blocks@[h],
            ) && post.chain_at(post.blocks@[h]).has_hash(h) by {
                if pre.blocks@.contains_key(h) {
                    assert(pre.has_chain(pre.blocks@[h]));
                    assert(post.blocks@[h] == pre.blocks@[h]);
                    assert(post.chain_at(post.blocks@[h]) == pre.chain_at(pre.blocks@[h]));
                } else {
                    assert(chain.has_hash(h));
                    assert(post.blocks@[h] == id);
                }
            }
            assert forall|id2: ChainId, i2: int|
                post.has_chain(id2) && 0 <= i2 < post.chain_at(id2).blocks@.len() implies {
                let h = (#[trigger] post.chain_at(id2).blocks@[i2]).hash;
                post.blocks@.contains_key(h) && post.blocks@[h] == id2
            } by {
                let h = post.chain_at(id2).blocks@[i2].hash;
                if id2 == id {
                    assert(chain.has_hash(h));
                } else {
                    assert(pre.has_chain(id2));
                    assert(post.chain_at(id2) == pre.chain_at(id2));
                    assert(pre.blocks@.contains_key(h) && pre.blocks@[h] == id2);
                    assert(!chain.has_hash(h)) by {
                        if chain.has_hash(h) {
                            let j = choose|j: int|
                                0 <= j < chain.blocks@.len() && (#[trigger] chain.blocks@[j]).hash
                                    == h;
                            assert(!pre.blocks@.contains_key(chain.blocks@[j].hash));
                        }
                    }
                    assert(post.blocks@[h] == pre.blocks@[h]);
                }
            }
        }
        id
    }

    /// Append `block` at the tip of the chain `chain_id`, or fork a new chain
    /// off it when the block attaches strictly inside it.
    ///
    /// A block whose identity is already indexed is already known to the
    /// forest and is dropped with success. A `chain_id` that is not live, or
    /// a block whose parent is nowhere in the named chain, is reported as
    /// [`TreeError::InvariantViolation`] rather than masked: under the tree's
    /// own bookkeeping (`insert_block` resolves `chain_id` through the fork
    /// index) neither arises. A block refused by the validity checker changes
    /// nothing.
    pub fn insert_block_in_chain(&mut self, block: Block, chain_id: ChainId) -> (r: Result<
        (),
        TreeError,
    >)
        requires
            old(self).wf(),
        ensures
            final(self).wf(),
            inserted_in_chain(*old(self), *final(self), block, chain_id, r),
    {
        if self.blocks.contains_key(&block.hash) {
            return Ok(());
        }
        if chain_id >= self.chains.len() as u64 {
            return Err(TreeError::InvariantViolation);
        }
        let idx = chain_id as usize;
        if self.chains[idx].is_none() {
            return Err(TreeError::InvariantViolation);
        }
        let taken = self.chains[idx].take();
        let mut c = match taken {
            Some(c) => c,
            None => {
                proof {
                    assert(false);
                }
                return Err(TreeError::InvariantViolation);
            },
        };
        proof {
            assert(c == old(self).chain_at(chain_id));
            assert(old(self).has_chain(chain_id));
            assert(c.wf());
        }
        let tip = *c.tip();
        if block.parent_hash == tip.hash {
            match self.consensus.validate(tip.number, tip.hash, &block) {
                Ok(()) => {
                    let appended = c.append(block, &self.consensus);
                    proof {
                        assert(appended is Ok);
                    }
                    self.chains[idx] = Some(c);
                    self.blocks.insert(block.hash, chain_id);
                    proof {
                        lemma_wf_after_extend(*old(self), *self, block, chain_id);
                    }
                    Ok(())
                },
                Err(e) => {
                    self.chains[idx] = Some(c);
                    proof {
                        assert(self.chains@ =~= old(self).chains@);
                        lemma_wf_transfer(*old(self), *self);
                    }
                    Err(TreeError::ValidationFailed(e))
                },
            }
        } else {
            let has_parent = c.contains_hash_below_tip(block.parent_hash);
            if !has_parent {
                self.chains[idx] = Some(c);
                proof {
                    assert(self.chains@ =~= old(self).chains@);
                    lemma_wf_transfer(*old(self), *self);
                }
                return Err(TreeError::InvariantViolation);
            }
            let forked = c.fork_at(block, chain_id, &self.consensus);
            self.chains[idx] = Some(c);
            proof {
                assert(self.chains@ =~= old(self).chains@);
                lemma_wf_transfer(*old(self), *self);
            }
            match forked {
                Ok(new_chain) => {
                    let ghost mid = *self;
                    let new_id = self.insert_chain(new_chain);
                    proof {
                        assert(new_chain.blocks@[0] == block);
                        assert forall|h: u64| new_chain.has_hash(h) implies h == block.hash by {}
                        assert(new_chain.has_hash(block.hash));
                        assert(self.blocks@ =~= old(self).blocks@.insert(block.hash, new_id));
                    }
                    Ok(())
                },
                Err(e) => Err(TreeError::ValidationFailed(e)),
            }
        }
    }

    /// Insert a newly seen block into the tree.
    ///
    /// The block's parent is resolved through the fork index first; a parent
    /// found there delegates to [`Self::insert_block_in_chain`]. Otherwise
    /// the parent is looked up in the persisted history: found there, the
    /// block starts a new single-block chain attached to history — at the
    /// tip, or behind it. A block whose identity is already indexed is
    /// already known and is dropped with success; a block whose parent is
    /// known nowhere is dropped with [`TreeError::UnknownAncestor`], to be
    /// resubmitted by the caller once the ancestor arrives. A block refused
    /// by the validity checker changes nothing.
    pub fn insert_block(&mut self, block: Block) -> (r: Result<(), TreeError>)
        requires
            old(self).wf(),
        ensures
            final(self).wf(),
            ({
                let pre = *old(self);
                let post = *final(self);
                if pre.blocks@.contains_key(block.hash) {
                    r == Ok::<(), TreeError>(()) && post.same_state(pre)
                } else if pre.blocks@.contains_key(block.parent_hash) {
                    &&& inserted_in_chain(pre, post, block, pre.blocks@[block.parent_hash], r)
                    &&& r is Ok || r matches Err(TreeError::ValidationFailed(_))
                } else if pre.db.has_hash(block.parent_hash) {
                    match r {
                        Ok(()) => {
                            &&& exists|i: int|
                                0 <= i < pre.db.blocks@.len() && (#[trigger] pre.db.blocks@[i]).hash
                                    == block.parent_hash && valid_extension(
                                    pre.db.blocks@[i].number,
                                    block.parent_hash,
                                    block,
                                )
                            &&& post.chain_id_generator == pre.chain_id_generator + 1
                            &&& post.chains@.len() == pre.chains@.len() + 1
                            &&& forall|j: int|
                                0 <= j < pre.chains@.len() ==> post.chains@[j] == pre.chains@[j]
                            &&& post.has_chain(pre.chain_id_generator)
                            &&& post.chain_at(pre.chain_id_generator).blocks@ =~= seq![block]
                            &&& post.chain_at(pre.chain_id_generator).joint == attach_joint(
                                block,
                                pre.canonical_chain_tip,
                            )
                            &&& post.blocks@ == pre.blocks@.insert(
                                block.hash,
                                pre.chain_id_generator,
                            )
                            &&& post.frame_eq(pre)
                        },
                        Err(TreeError::ValidationFailed(e)) => {
                            &&& post.same_state(pre)
                            &&& exists|i: int|
                                0 <= i < pre.db.blocks@.len() && (#[trigger] pre.db.blocks@[i]).hash
                                    == block.parent_hash && !valid_extension(
                                    pre.db.blocks@[i].number,
                                    block.parent_hash,
                                    block,
                                )
                        },
                        _ => false,
                    }
                } else {
                    r == Err::<(), TreeError>(TreeError::UnknownAncestor) && post.same_state(pre)
                }
            }),
    {
        if self.blocks.contains_key(&block.hash) {
            return Ok(());
        }
        match self.lookup_index(block.parent_hash) {
            Some(parent_chain) => {
                let r = self.insert_block_in_chain(block, parent_chain);
                proof {
                    let pre = *old(self);
                    let c = pre.chain_at(parent_chain);
                    assert(pre.has_chain(parent_chain) && c.has_hash(block.parent_hash));
                    if block.parent_hash != c.last().hash {
                        let i = choose|i: int|
                            0 <= i < c.blocks@.len() && (#[trigger] c.blocks@[i]).hash
                                == block.parent_hash;
                        assert(i != c.blocks@.len() - 1);
                        assert(fork_parent_exists(c, block));
                    }
                }
                r
            },
            None => {
                match self.db.header_by_identity(block.parent_hash) {
                    Some(parent) => {
                        match Chain::attach_to_history(
                            block,
                            &parent,
                            self.canonical_chain_tip,
                            &self.consensus,
                        ) {
                            Ok(chain) => {
                                let new_id = self.insert_chain(chain);
                                proof {
                                    assert(chain.blocks@[0] == block);
                                    assert(chain.has_hash(block.hash));
                                    assert forall|h: u64| chain.has_hash(h) implies h
                                        == block.hash by {}
                                    assert(self.blocks@ =~= old(self).blocks@.insert(
                                        block.hash,
                                        new_id,
                                    ));
                                }
                                Ok(())
                            },
                            Err(e) => Err(TreeError::ValidationFailed(e)),
                        }
                    },
                    None => Err(TreeError::UnknownAncestor),
                }
            },
        }
    }

    /// Walk the joints from the chain `id` up to a history-rooted joint,
    /// without mutating anything, and return the promotion plan: the pairs
    /// `(ancestor chain id, attachment height)` in walking order. Every step
    /// is checked against the forest; a joint that names a missing chain or a
    /// missing attachment block, a cycle, or a to-be-reverted persisted block
    /// shadowed in the fork index yields `None`.
    /// One checked step of the promotion walk: verify that the joint
    /// `AttachedToChain(pid, h)` of the walk's current root names a live,
    /// unvisited chain holding the attachment block, record it, and hand back
    /// the next joint to follow together with its chain's first block.
    #[verifier::rlimit(100)]
    #[verifier::spinoff_prover]
    fn plan_step(
        &self,
        id: ChainId,
        plan: &mut Vec<(u64, u64)>,
        cur_first: Block,
        pid: u64,
        h: u64,
    ) -> (r: Option<(Joint, Block)>)
        requires
            self.chains_wf(),
            plan_links_ok(*self, id, old(plan)@),
            plan_root(*self, id, old(plan)@).joint == Joint::AttachedToChain(pid, h),
            cur_first == plan_root(*self, id, old(plan)@).first(),
        ensures
            match r {
                Some(next) => {
                    &&& final(plan)@ == old(plan)@.push((pid, h))
                    &&& plan_links_ok(*self, id, final(plan)@)
                    &&& next.0 == plan_root(*self, id, final(plan)@).joint
                    &&& next.1 == plan_root(*self, id, final(plan)@).first()
                },
                None => final(plan)@ == old(plan)@,
            },
    {
        if pid == id {
            return None;
        }
        let m = plan.len();
        let mut j: usize = 0;
        while j < m
            invariant
                m == plan@.len(),
                j <= m,
                plan@ == old(plan)@,
                forall|j2: int| 0 <= j2 < j ==> (#[trigger] plan@[j2]).0 != pid,
            decreases m - j,
        {
            if plan[j].0 == pid {
                return None;
            }
            j = j + 1;
        }
        let parent = match self.get_chain(pid) {
            Some(c) => c,
            None => {
                return None;
            },
        };
        proof {
            parent.lemma_heights();
        }
        let pf = *parent.first_block();
        let pl = *parent.tip();
        if !(pf.number <= h && h <= pl.number) {
            return None;
        }
        let parent_len = parent.blocks.len();
        proof {
            assert(parent.has_height(h));
            assert(0 <= h - pf.number < parent_len);
        }
        let off = (h - pf.number) as usize;
        let attach = parent.blocks[off];
        proof {
            assert(attach == parent.block_at_spec(h));
        }
        if attach.hash != cur_first.parent_hash {
            return None;
        }
        let ghost old_plan = plan@;
        plan.push((pid, h));
        let next = Some((parent.joint, *parent.first_block()));
        proof {
            lemma_plan_push(*self, id, old_plan, pid, h);
        }
        next
    }

    #[verifier::rlimit(80)]
    fn plan_promotion(&self, id: ChainId) -> (r: Option<Vec<(u64, u64)>>)
        requires
            self.wf(),
            self.has_chain(id),
        ensures
            match r {
                Some(plan) => plan_ok(*self, id, plan@),
                None => !plan_ok(*self, id, Seq::<(u64, u64)>::empty()),
            },
    {
        let mut plan: Vec<(u64, u64)> = Vec::new();
        let (mut cur_joint, mut cur_first): (Joint, Block) = match self.get_chain(id) {
            Some(c) => (c.joint, *c.first_block()),
            None => {
                proof {
                    assert(false);
                }
                return None;
            },
        };
        let mut fuel: usize = self.chains.len();
        let mut done = false;
        while !done
            invariant
                self.wf(),
                self.has_chain(id),
                plan_links_ok(*self, id, plan@),
                cur_joint == plan_root(*self, id, plan@).joint,
                cur_first == plan_root(*self, id, plan@).first(),
                done ==> !(cur_joint is AttachedToChain),
                plan@.len() > 0 ==> !plan_ok(*self, id, Seq::<(u64, u64)>::empty()),
            decreases fuel, (if done { 0int } else { 1int }),
        {
            match cur_joint {
                Joint::AttachedToChain(pid, h) => {
                    proof {
                        if plan@.len() == 0 {
                            assert(plan_root(*self, id, Seq::<(u64, u64)>::empty())
                                == self.chain_at(id));
                            assert(!plan_root_ok(*self, id, Seq::<(u64, u64)>::empty()));
                        }
                    }
                    if fuel == 0 {
                        return None;
                    }
                    match self.plan_step(id, &mut plan, cur_first, pid, h) {
                        Some(next) => {
                            cur_joint = next.0;
                            cur_first = next.1;
                            fuel = fuel - 1;
                        },
                        None => {
                            return None;
                        },
                    }
                },
                _ => {
                    done = true;
                },
            }
        }
        // the walk ended on a history-rooted joint: check its attachment
        match cur_joint {
            Joint::AttachedToChain(_, _) => {
                proof {
                    assert(false);
                }
                None
            },
            Joint::AttachedToHistoryTip => {
                if cur_first.number >= 1 && cur_first.number - 1 == self.canonical_chain_tip.0
                    && cur_first.parent_hash == self.canonical_chain_tip.1 {
                    Some(plan)
                } else {
                    proof {
                        if plan@.len() == 0 {
                            assert(plan_root(*self, id, plan@) == plan_root(
                                *self,
                                id,
                                Seq::<(u64, u64)>::empty(),
                            ));
                        }
                    }
                    None
                }
            },
            Joint::AttachedToHistoryAt(h) => {
                proof {
                    self.db.lemma_heights();
                }
                let base = self.db.blocks[0].number;
                let t = self.db.tip();
                if !(base <= h && h <= t.0) {
                    proof {
                        if plan@.len() == 0 {
                            assert(plan_root(*self, id, plan@) == plan_root(
                                *self,
                                id,
                                Seq::<(u64, u64)>::empty(),
                            ));
                        }
                    }
                    return None;
                }
                let db_len = self.db.blocks.len();
                proof {
                    assert(self.db.has_height(h));
                    assert(0 <= h - self.db.base_number());
                    assert(h - self.db.base_number() < db_len);
                }
                let off = (h - base) as usize;
                proof {
                    assert(off as int == h - self.db.base_number());
                }
                if self.db.blocks[off].hash != cur_first.parent_hash {
                    proof {
                        if plan@.len() == 0 {
                            assert(plan_root(*self, id, plan@) == plan_root(
                                *self,
                                id,
                                Seq::<(u64, u64)>::empty(),
                            ));
                            assert(self.db.block_at_spec(h).hash != cur_first.parent_hash);
                        }
                    }
                    return None;
                }
                // no to-be-reverted persisted block may be shadowed in the index
                let n = self.db.blocks.len();
                let mut i: usize = off + 1;
                while i < n
                    invariant
                        n == self.db.blocks@.len(),
                        off + 1 <= i <= n,
                        off as int == h - self.db.base_number(),
                        cur_joint == plan_root(*self, id, plan@).joint,
                        cur_first == plan_root(*self, id, plan@).first(),
                        cur_joint == Joint::AttachedToHistoryAt(h),
                        plan@.len() > 0 ==> !plan_ok(*self, id, Seq::<(u64, u64)>::empty()),
                        forall|i2: int|
                            off + 1 <= i2 < i ==> !self.blocks@.contains_key(
                                (#[trigger] self.db.blocks@[i2]).hash,
                            ),
                    decreases n - i,
                {
                    if self.blocks.contains_key(&self.db.blocks[i].hash) {
                        proof {
                            if plan@.len() == 0 {
                                assert(plan_root(*self, id, plan@) == plan_root(
                                    *self,
                                    id,
                                    Seq::<(u64, u64)>::empty(),
                                ));
                                assert(off as int == h - self.db.base_number());
                                assert(h - self.db.base_number() + 1 <= i as int);
                                assert((i as int) < self.db.blocks@.len());
                                assert(self.blocks@.contains_key(self.db.blocks@[i as int].hash));
                            }
                        }
                        return None;
                    }
                    i = i + 1;
                }
                Some(plan)
            },
        }
    }

    /// Remove the chain with id `id` from the forest and return it, removing
    /// with it every fork-index entry that pointed to `id`. Returns `None`,
    /// changing nothing, when no such chain is live.
    pub fn remove_chain(&mut self, id: ChainId) -> (r: Option<Chain>)
        requires
            old(self).forest_wf(),
        ensures
            final(self).forest_wf(),
            old(self).wf() ==> final(self).wf(),
            final(self).db == old(self).db,
            final(self).chain_id_generator == old(self).chain_id_generator,
            final(self).chains@.len() == old(self).chains@.len(),
            final(self).frame_eq(*old(self)),
            match r {
                Some(c) => {
                    &&& old(self).has_chain(id)
                    &&& c == old(self).chain_at(id)
                    &&& final(self).chains@ == old(self).chains@.update(id as int, None)
                    &&& forall|h: u64| #[trigger]
                        final(self).blocks@.contains_key(h) <==> (old(self).blocks@.contains_key(h)
                            && old(self).blocks@[h] != id)
                    &&& forall|h: u64|
                        final(self).blocks@.contains_key(h) ==> final(self).blocks@[h] == old(
                            self,
                        ).blocks@[h]
                },
                None => !old(self).has_chain(id) && final(self).same_state(*old(self)),
            },
    {
        if id >= self.chains.len() as u64 {
            return None;
        }
        let idx = id as usize;
        if self.chains[idx].is_none() {
            return None;
        }
        let taken = self.chains[idx].take();
        match taken {
            None => {
                proof {
                    assert(false);
                }
                None
            },
            Some(c) => {
                let n = c.blocks.len();
                let mut i: usize = 0;
                while i < n
                    invariant
                        n == c.blocks@.len(),
                        i <= n,
                        c == old(self).chain_at(id),
                        old(self).forest_wf(),
                        old(self).has_chain(id),
                        self.chains@ == old(self).chains@.update(id as int, None),
                        self.chain_id_generator == old(self).chain_id_generator,
                        self.db == old(self).db,
                        self.canonical_chain_tip == old(self).canonical_chain_tip,
                        self.consensus == old(self).consensus,
                        forall|h: u64| #[trigger]
                            self.blocks@.contains_key(h) <==> (old(self).blocks@.contains_key(h)
                                && !(exists|j: int|
                                0 <= j < i && (#[trigger] c.blocks@[j]).hash == h)),
                        forall|h: u64|
                            self.blocks@.contains_key(h) ==> self.blocks@[h] == old(
                                self,
                            ).blocks@[h],
                    decreases n - i,
                {
                    let h = c.blocks[i].hash;
                    self.blocks.remove(&h);
                    i = i + 1;
                }
                proof {
                    let pre = *old(self);
                    let post = *self;
                    assert forall|h: u64| #[trigger]
                        post.blocks@.contains_key(h) <==> (pre.blocks@.contains_key(h)
                            && pre.blocks@[h] != id) by {
                        if pre.blocks@.contains_key(h) && pre.blocks@[h] == id {
                            assert(pre.chain_at(id).has_hash(h));
                        }
                        if pre.blocks@.contains_key(h) && c.has_hash(h) {
                            let j = choose|j: int|
                                0 <= j < c.blocks@.len() && (#[trigger] c.blocks@[j]).hash == h;
                            assert(pre.blocks@[c.blocks@[j].hash] == id);
                        }
                    }
                    assert forall|h: u64| #[trigger] post.blocks@.contains_key(h) implies
                    post.has_chain(post.blocks@[h]) && post.chain_at(post.blocks@[h]).has_hash(
                        h,
                    ) by {
                        assert(pre.blocks@.contains_key(h) && pre.blocks@[h] != id);
                        assert(pre.has_chain(pre.blocks@[h]));
                        assert(post.chain_at(post.blocks@[h]) == pre.chain_at(pre.blocks@[h]));
                    }
                    assert forall|id2: ChainId, i2: int|
                        post.has_chain(id2) && 0 <= i2 < post.chain_at(id2).blocks@.len() implies {
                        let h = (#[trigger] post.chain_at(id2).blocks@[i2]).hash;
                        post.blocks@.contains_key(h) && post.blocks@[h] == id2
                    } by {
                        assert(id2 != id);
                        assert(pre.has_chain(id2));
                        assert(post.chain_at(id2) == pre.chain_at(id2));
                        let h = post.chain_at(id2).blocks@[i2].hash;
                        assert(pre.blocks@.contains_key(h) && pre.blocks@[h] == id2);
                    }
                    assert forall|id2: ChainId| #[trigger] post.has_chain(id2) implies
                    post.chain_at(id2).wf() by {
                        assert(id2 != id && pre.has_chain(id2));
                        assert(post.chain_at(id2) == pre.chain_at(id2));
                    }
                }
                Some(c)
            },
        }
    }

    /// One applied step of a promotion: remove the ancestor chain
    /// `plan[k]`, split it at the recorded attachment height, add the lower
    /// part to `promoted`, and keep a non-empty remainder in the forest under
    /// its original id, re-attached to the history the promotion is about to
    /// write.
    #[verifier::rlimit(100)]
    fn promote_step(
        &mut self,
        Ghost(pre): Ghost<BlockchainTree>,
        Ghost(id): Ghost<ChainId>,
        plan: &Vec<(u64, u64)>,
        k: usize,
        promoted: &mut Vec<Block>,
    )
        requires
            pre.wf(),
            pre.has_chain(id),
            k < plan@.len(),
            plan_link(pre, id, plan@, k as int),
            k + 1 < plan@.len() ==> plan_link(pre, id, plan@, k as int + 1),
            forall|j: int|
                0 <= j < k ==> (#[trigger] plan@[j]).0 != plan@[k as int].0 && pre.has_chain(
                    plan@[j].0,
                ),
            k + 1 == plan@.len() ==> plan_root(pre, id, plan@) == pre.chain_at(plan@[k as int].0),
            old(self).forest_wf(),
            old(self).db == pre.db,
            old(self).canonical_chain_tip == pre.canonical_chain_tip,
            old(self).consensus == pre.consensus,
            old(self).chain_id_generator == pre.chain_id_generator,
            old(self).chains@.len() == pre.chains@.len(),
            forall|j: int|
                0 <= j <= k ==> old(self).chains@[(#[trigger] plan@[j]).0 as int] == pre.chains@[
                    plan@[j].0 as int
                ],
            old(self).chains@[id as int] == pre.chains@[id as int],
            forall|h2: u64| #[trigger]
                old(self).blocks@.contains_key(h2) ==> pre.blocks@.contains_key(h2)
                    && old(self).blocks@[h2] == pre.blocks@[h2],
            contiguous(old(promoted)@),
            old(promoted)@.len() > 0 <==> k + 1 < plan@.len(),
            k + 1 < plan@.len() ==> old(promoted)@[old(promoted)@.len() - 1] == pre.chain_at(
                plan@[k as int + 1].0,
            ).block_at_spec(plan@[k as int + 1].1),
            k + 1 < plan@.len() ==> old(promoted)@[0] == plan_root(pre, id, plan@).first(),
        ensures
            final(self).forest_wf(),
            final(self).db == pre.db,
            final(self).canonical_chain_tip == pre.canonical_chain_tip,
            final(self).consensus == pre.consensus,
            final(self).chain_id_generator == pre.chain_id_generator,
            final(self).chains@.len() == pre.chains@.len(),
            forall|j: int|
                0 <= j < k ==> final(self).chains@[(#[trigger] plan@[j]).0 as int] == pre.chains@[
                    plan@[j].0 as int
                ],
            final(self).chains@[id as int] == pre.chains@[id as int],
            forall|h2: u64| #[trigger]
                final(self).blocks@.contains_key(h2) ==> pre.blocks@.contains_key(h2)
                    && final(self).blocks@[h2] == pre.blocks@[h2],
            forall|id2: ChainId|
                id2 < old(self).chains@.len() && id2 != plan@[k as int].0
                    ==> final(self).chains@[id2 as int] == old(self).chains@[id2 as int],
            forall|h2: u64|
                old(self).blocks@.contains_key(h2) && old(self).blocks@[h2] != plan@[k as int].0
                    ==> #[trigger] final(self).blocks@.contains_key(h2) && final(self).blocks@[h2]
                    == old(self).blocks@[h2],
            contiguous(final(promoted)@),
            final(promoted)@.len() > 0,
            final(promoted)@[final(promoted)@.len() - 1] == pre.chain_at(
                plan@[k as int].0,
            ).block_at_spec(plan@[k as int].1),
            final(promoted)@[0] == plan_root(pre, id, plan@).first(),
    {
        proof {
            reveal(plan_link);
            assert(pre.has_chain(plan@[k as int].0));
            assert(plan@[k as int].0 != id);
            assert(pre.chain_at(plan@[k as int].0).has_height(plan@[k as int].1));
            assert(pre.chain_at(plan@[k as int].0).block_at_spec(plan@[k as int].1).hash
                == plan_child(pre, id, plan@, k as int).first().parent_hash);
            if k + 1 < plan@.len() {
                assert(plan_child(pre, id, plan@, k as int + 1) == pre.chain_at(
                    plan@[k as int].0,
                ));
                assert(pre.chain_at(plan@[k as int].0).joint == Joint::AttachedToChain(
                    plan@[k as int + 1].0,
                    plan@[k as int + 1].1,
                ));
                assert(pre.has_chain(plan@[k as int + 1].0));
                pre.chain_at(plan@[k as int + 1].0).lemma_heights();
            }
        }
        let pid: u64 = plan[k].0;
        let h: u64 = plan[k].1;
        let chain = match self.remove_chain(pid) {
            Some(c) => c,
            None => {
                proof {
                    assert(false);
                }
                return ;
            },
        };
        proof {
            assert(chain == pre.chain_at(pid));
            chain.lemma_heights();
            assert(chain.wf());
        }
        let chain_tip = *chain.tip();
        let ghost promoted_old = promoted@;
        if h == chain_tip.number {
            let piece = chain;
            let ghost piece_blocks = piece.blocks@;
            let mut pb = piece.blocks;
            promoted.append(&mut pb);
            proof {
                lemma_contiguous_concat(promoted_old, piece_blocks);
                assert(promoted@ == promoted_old + piece_blocks);
                assert(promoted@[promoted@.len() - 1] == pre.chain_at(pid).block_at_spec(h));
            }
        } else {
            proof {
                assert(pre.chain_at(pid).has_height(h));
            }
            let parts = chain.split_at(pid, h);
            let prefix = match parts.0 {
                Some(p) => p,
                None => {
                    proof {
                        assert(false);
                    }
                    return ;
                },
            };
            let suffix = match parts.1 {
                Some(sfx) => sfx,
                None => {
                    proof {
                        assert(false);
                    }
                    return ;
                },
            };
            let ghost prefix_blocks = prefix.blocks@;
            let mut pb = prefix.blocks;
            promoted.append(&mut pb);
            let restored = Chain { blocks: suffix.blocks, joint: Joint::AttachedToHistoryAt(h) };
            proof {
                lemma_contiguous_concat(promoted_old, prefix_blocks);
                assert(promoted@ == promoted_old + prefix_blocks);
                assert(restored.wf());
                assert(restored.blocks@ == pre.chain_at(pid).blocks@.subrange(
                    h - pre.chain_at(pid).first().number + 1,
                    pre.chain_at(pid).blocks@.len() as int,
                ));
                assert forall|i2: int|
                    0 <= i2 < restored.blocks@.len() implies !self.blocks@.contains_key(
                    (#[trigger] restored.blocks@[i2]).hash,
                ) by {
                    let c0 = pre.chain_at(pid);
                    let orig = i2 + h - c0.first().number + 1;
                    assert(restored.blocks@[i2] == c0.blocks@[orig]);
                    assert(pre.blocks@.contains_key(c0.blocks@[orig].hash) && pre.blocks@[c0.blocks@[
                        orig
                    ].hash] == pid);
                }
            }
            self.restore_chain(pid, restored);
            proof {
                assert forall|h2: u64| #[trigger]
                    self.blocks@.contains_key(h2) implies pre.blocks@.contains_key(h2)
                    && self.blocks@[h2] == pre.blocks@[h2] by {
                    if restored.has_hash(h2) {
                        let i2 = choose|i2: int|
                            0 <= i2 < restored.blocks@.len() && (#[trigger] restored.blocks@[
                                i2
                            ]).hash == h2;
                        let c0 = pre.chain_at(pid);
                        let orig = i2 + h - c0.first().number + 1;
                        assert(restored.blocks@[i2] == c0.blocks@[orig]);
                        assert(pre.blocks@.contains_key(h2) && pre.blocks@[h2] == pid);
                    }
                }
                assert(promoted@[promoted@.len() - 1] == pre.chain_at(pid).block_at_spec(h));
            }
        }
        proof {
            assert forall|j: int|
                0 <= j < k implies self.chains@[(#[trigger] plan@[j]).0 as int] == pre.chains@[
                plan@[j].0 as int
            ] by {
                assert(plan@[j].0 != plan@[k as int].0);
                assert(pre.has_chain(plan@[j].0));
                assert(old(self).chains@[plan@[j].0 as int] == pre.chains@[plan@[j].0 as int]);
            }
            assert(pre.has_chain(id));
            assert(self.chains@[id as int] == pre.chains@[id as int]);
        }
    }

    /// Write the promoted blocks out: revert persisted history down to the
    /// promoted path's departure point when it lies behind the tip, keep the
    /// reverted blocks as a recovered side chain under a fresh id, append the
    /// promoted blocks, and move the cached canonical tip to the promoted
    /// tip.
    #[verifier::rlimit(100)]
    fn commit_promoted(
        &mut self,
        Ghost(pre): Ghost<BlockchainTree>,
        Ghost(id): Ghost<ChainId>,
        Ghost(block_hash): Ghost<u64>,
        root_joint: Joint,
        promoted: Vec<Block>,
        target_last: Block,
    )
        requires
            pre.wf(),
            pre.has_chain(id),
            pre.blocks@.contains_key(block_hash),
            old(self).forest_wf(),
            old(self).db == pre.db,
            old(self).canonical_chain_tip == pre.canonical_chain_tip,
            old(self).consensus == pre.consensus,
            old(self).chain_id_generator == pre.chain_id_generator,
            old(self).chains@.len() == pre.chains@.len(),
            old(self).chains@[id as int] is None,
            !old(self).blocks@.contains_key(block_hash),
            forall|h2: u64| #[trigger]
                old(self).blocks@.contains_key(h2) ==> pre.blocks@.contains_key(h2)
                    && old(self).blocks@[h2] == pre.blocks@[h2],
            contiguous(promoted@),
            promoted@.len() > 0,
            promoted@[promoted@.len() - 1] == target_last,
            exists|i: int| 0 <= i < promoted@.len() && (#[trigger] promoted@[i]).hash == block_hash,
            match root_joint {
                Joint::AttachedToHistoryTip => promoted@[0].parent_hash
                    == pre.canonical_chain_tip.1 && promoted@[0].number == pre.canonical_chain_tip.0
                    + 1,
                Joint::AttachedToHistoryAt(h) => {
                    &&& pre.db.has_height(h)
                    &&& pre.db.block_at_spec(h).hash == promoted@[0].parent_hash
                    &&& promoted@[0].number == h + 1
                    &&& forall|i: int|
                        h - pre.db.base_number() + 1 <= i < pre.db.blocks@.len()
                            ==> !pre.blocks@.contains_key((#[trigger] pre.db.blocks@[i]).hash)
                },
                Joint::AttachedToChain(_, _) => false,
            },
        ensures
            final(self).wf(),
            final(self).canonical_chain_tip == (target_last.number, target_last.hash),
            final(self).db.tip_spec() == target_last,
            !final(self).has_chain(id),
            !final(self).blocks@.contains_key(block_hash),
            final(self).db.has_hash(block_hash),
            forall|h2: u64| #[trigger]
                final(self).blocks@.contains_key(h2) && pre.blocks@.contains_key(h2)
                    ==> final(self).blocks@[h2] == pre.blocks@[h2],
            final(self).chains@.len() >= old(self).chains@.len(),
            forall|id2: ChainId|
                id2 < old(self).chains@.len() ==> final(self).chains@[id2 as int] == old(
                    self,
                ).chains@[id2 as int],
            forall|h2: u64|
                old(self).blocks@.contains_key(h2) ==> #[trigger] final(self).blocks@.contains_key(
                    h2,
                ) && final(self).blocks@[h2] == old(self).blocks@[h2],
            final(self).chain_id_generator >= pre.chain_id_generator,
            final(self).consensus == pre.consensus,
            match root_joint {
                Joint::AttachedToHistoryTip => pre.db.blocks@ == final(self).db.blocks@.subrange(
                    0,
                    pre.db.blocks@.len() as int,
                ),
                Joint::AttachedToHistoryAt(h) => {
                    &&& final(self).db.blocks@.subrange(0, h - pre.db.base_number() + 1)
                        == pre.db.blocks@.subrange(0, h - pre.db.base_number() + 1)
                    &&& (h < pre.db.tip_spec().number ==> exists|rid: ChainId|
                        #[trigger] reverted_kept(pre.db, *final(self), h, rid))
                },
                Joint::AttachedToChain(_, _) => false,
            },
    {
        let ghost mid = *old(self);
        match root_joint {
            Joint::AttachedToChain(_, _) => {
                proof {
                    assert(false);
                }
            },
            Joint::AttachedToHistoryTip => {
                let ghost promoted_view = promoted@;
                self.db.append(promoted);
                self.canonical_chain_tip = (target_last.number, target_last.hash);
                proof {
                    lemma_forest_wf_transfer(mid, *self);
                    assert(self.db.has_hash(block_hash)) by {
                        let i = choose|i: int|
                            0 <= i < promoted_view.len() && (#[trigger] promoted_view[i]).hash
                                == block_hash;
                        assert(self.db.blocks@[mid.db.blocks@.len() + i].hash == block_hash);
                    }
                    assert(!self.has_chain(id));
                    assert(pre.db.blocks@ =~= self.db.blocks@.subrange(
                        0,
                        pre.db.blocks@.len() as int,
                    ));
                }
            },
            Joint::AttachedToHistoryAt(h_root) => {
                proof {
                    pre.db.lemma_heights();
                }
                let reverted = self.db.revert_to(h_root);
                let ghost mid2 = *self;
                let ghost had_revert: bool = reverted@.len() > 0;
                let ghost mut kept_rid: ChainId = 0;
                if reverted.len() > 0 {
                    let rc = Chain { blocks: reverted, joint: Joint::AttachedToHistoryAt(h_root) };
                    proof {
                        lemma_forest_wf_transfer(mid, mid2);
                        crate::block::lemma_contiguous_subrange(
                            pre.db.blocks@,
                            h_root - pre.db.base_number() + 1,
                            pre.db.blocks@.len() as int,
                        );
                        assert(rc.wf());
                        assert forall|i2: int|
                            0 <= i2 < rc.blocks@.len() implies !mid2.blocks@.contains_key(
                            (#[trigger] rc.blocks@[i2]).hash,
                        ) by {
                            let orig = i2 + h_root - pre.db.base_number() + 1;
                            assert(rc.blocks@[i2] == pre.db.blocks@[orig]);
                            assert(!pre.blocks@.contains_key(pre.db.blocks@[orig].hash));
                        }
                    }
                    let ghost rc_snapshot = rc;
                    let _rc_id = self.insert_chain(rc);
                    proof {
                        kept_rid = _rc_id;
                        assert(self.has_chain(kept_rid) && self.chain_at(kept_rid)
                            == rc_snapshot);
                        assert forall|h2: u64| #[trigger]
                            self.blocks@.contains_key(h2) && pre.blocks@.contains_key(h2) implies
                        self.blocks@[h2] == pre.blocks@[h2] by {
                            if !mid2.blocks@.contains_key(h2) {
                                assert(rc_snapshot.has_hash(h2));
                                let i2 = choose|i2: int|
                                    0 <= i2 < rc_snapshot.blocks@.len() && (
                                    #[trigger] rc_snapshot.blocks@[i2]).hash == h2;
                                let orig = i2 + h_root - pre.db.base_number() + 1;
                                assert(rc_snapshot.blocks@[i2] == pre.db.blocks@[orig]);
                                assert(!pre.blocks@.contains_key(pre.db.blocks@[orig].hash));
                            }
                        }
                        assert(!self.blocks@.contains_key(block_hash)) by {
                            if rc_snapshot.has_hash(block_hash) {
                                let i2 = choose|i2: int|
                                    0 <= i2 < rc_snapshot.blocks@.len() && (
                                    #[trigger] rc_snapshot.blocks@[i2]).hash == block_hash;
                                let orig = i2 + h_root - pre.db.base_number() + 1;
                                assert(rc_snapshot.blocks@[i2] == pre.db.blocks@[orig]);
                                assert(!pre.blocks@.contains_key(pre.db.blocks@[orig].hash));
                            }
                        }
                        assert(!self.has_chain(id));
                    }
                }
                let ghost mid3 = *self;
                proof {
                    if !had_revert {
                        lemma_forest_wf_transfer(mid, mid3);
                    }
                }
                let ghost promoted_view = promoted@;
                self.db.append(promoted);
                self.canonical_chain_tip = (target_last.number, target_last.hash);
                proof {
                    lemma_forest_wf_transfer(mid3, *self);
                    assert(self.db.has_hash(block_hash)) by {
                        let i = choose|i: int|
                            0 <= i < promoted_view.len() && (#[trigger] promoted_view[i]).hash
                                == block_hash;
                        assert(self.db.blocks@[mid3.db.blocks@.len() + i].hash == block_hash);
                    }
                    assert(!self.has_chain(id));
                    pre.db.lemma_heights();
                    assert(self.db.blocks@.subrange(0, h_root - pre.db.base_number() + 1)
                        =~= pre.db.blocks@.subrange(0, h_root - pre.db.base_number() + 1));
                    if h_root < pre.db.tip_spec().number {
                        assert(had_revert);
                        assert(self.chains@ == mid3.chains@);
                        assert(reverted_kept(pre.db, *self, h_root, kept_rid));
                    }
                }
            },
        }
    }

    /// Promote the chain holding `block_hash` — and every chain it hangs off
    /// — to canonical status, reorganising persisted history when the
    /// promoted path departs behind the current tip.
    ///
    /// The joints are first walked without mutating anything, so a target
    /// unknown to the fork index ([`TreeError::UnknownBlock`]) or a forest
    /// whose joints do not line up ([`TreeError::InvariantViolation`], never
    /// the case under the tree's own bookkeeping) leaves the tree untouched.
    /// Then, oldest attachment first, each ancestor chain is removed and
    /// split at the height the promoted path attaches to: the part below
    /// joins the promoted path, the remainder stays in the forest under its
    /// original id, re-attached to the history that the promotion writes.
    /// Persisted blocks above the promoted path's departure point are
    /// reverted and kept as a recovered side chain under a fresh id, so no
    /// history is lost. The promoted blocks are appended to persisted
    /// history, their fork-index entries are dropped, and the cached
    /// canonical tip becomes the target chain's tip.
    ///
    /// A surviving side chain whose joint named the old tip, or a chain that
    /// was promoted away, keeps that joint: the policy here is that such a
    /// stale attachment is detected by the pre-walk of the next promotion
    /// that reaches it and refused as [`TreeError::InvariantViolation`],
    /// rather than silently re-derived.
    ///
    /// Success is owed — and proved — whenever the target's own chain
    /// attaches directly to history at a resolving point (`plan_ok` with the
    /// empty walk); a promotion that must first walk other chains also
    /// succeeds when their joints resolve, but only its outcome, not its
    /// success, is stated.
    #[verifier::rlimit(100)]
    pub fn make_canonical(&mut self, block_hash: u64) -> (r: Result<(), TreeError>)
        requires
            old(self).wf(),
        ensures
            final(self).wf(),
            made_canonical(*old(self), *final(self), block_hash, r),
            old(self).blocks@.contains_key(block_hash) && plan_ok(
                *old(self),
                old(self).blocks@[block_hash],
                Seq::<(u64, u64)>::empty(),
            ) ==> r is Ok,
            r is Ok ==> exists|p: Seq<(u64, u64)>| #[trigger] promotion_spares_rest(
                *old(self),
                *final(self),
                old(self).blocks@[block_hash],
                p,
            ),
    {
        let id = match self.lookup_index(block_hash) {
            None => {
                return Err(TreeError::UnknownBlock);
            },
            Some(i) => i,
        };
        proof {
            assert(old(self).has_chain(id));
        }
        let plan = match self.plan_promotion(id) {
            None => {
                return Err(TreeError::InvariantViolation);
            },
            Some(p) => p,
        };
        let ghost pre = *old(self);
        let root_joint: Joint = if plan.len() == 0 {
            match self.get_chain(id) {
                Some(c) => c.joint,
                None => {
                    proof {
                        assert(false);
                    }
                    return Err(TreeError::InvariantViolation);
                },
            }
        } else {
            let rpid: u64 = plan[plan.len() - 1].0;
            proof {
                reveal(plan_link);
                assert(plan_link(pre, id, plan@, plan@.len() - 1));
            }
            match self.get_chain(rpid) {
                Some(c) => c.joint,
                None => {
                    proof {
                        assert(false);
                    }
                    return Err(TreeError::InvariantViolation);
                },
            }
        };
        proof {
            assert(root_joint == plan_root(pre, id, plan@).joint);
        }
        let mut promoted: Vec<Block> = Vec::new();
        let mut k: usize = plan.len();
        while k > 0
            invariant
                pre.wf(),
                pre.has_chain(id),
                pre.blocks@.contains_key(block_hash) && pre.blocks@[block_hash] == id,
                plan_ok(pre, id, plan@),
                k <= plan@.len(),
                self.forest_wf(),
                self.db == pre.db,
                self.canonical_chain_tip == pre.canonical_chain_tip,
                self.consensus == pre.consensus,
                self.chain_id_generator == pre.chain_id_generator,
                self.chains@.len() == pre.chains@.len(),
                forall|j: int|
                    0 <= j < k ==> self.chains@[(#[trigger] plan@[j]).0 as int] == pre.chains@[
                        plan@[j].0 as int
                    ],
                self.chains@[id as int] == pre.chains@[id as int],
                forall|h2: u64| #[trigger]
                    self.blocks@.contains_key(h2) ==> pre.blocks@.contains_key(h2)
                        && self.blocks@[h2] == pre.blocks@[h2],
                forall|id2: ChainId|
                    id2 < pre.chains@.len() && id2 != id && !on_walk(plan@, k as int, id2)
                        ==> self.chains@[id2 as int] == pre.chains@[id2 as int],
                forall|h2: u64|
                    (#[trigger] pre.blocks@.contains_key(h2)) && pre.blocks@[h2] != id && !on_walk(
                        plan@,
                        k as int,
                        pre.blocks@[h2],
                    ) ==> self.blocks@.contains_key(h2) && self.blocks@[h2] == pre.blocks@[h2],
                contiguous(promoted@),
                promoted@.len() > 0 <==> k < plan@.len(),
                k < plan@.len() ==> promoted@[promoted@.len() - 1] == pre.chain_at(
                    plan@[k as int].0,
                ).block_at_spec(plan@[k as int].1),
                k < plan@.len() ==> promoted@[0] == plan_root(pre, id, plan@).first(),
            decreases k,
        {
            k = k - 1;
            proof {
                assert(plan_link(pre, id, plan@, k as int));
                if k + 1 < plan@.len() {
                    assert(plan_link(pre, id, plan@, k as int + 1));
                }
                assert forall|j: int|
                    0 <= j < k implies (#[trigger] plan@[j]).0 != plan@[k as int].0
                    && pre.has_chain(plan@[j].0) by {
                    assert(plan@[j].0 != plan@[k as int].0);
                    assert(plan_link(pre, id, plan@, j));
                    reveal(plan_link);
                }
            }
            let ghost before_step = *self;
            self.promote_step(Ghost(pre), Ghost(id), &plan, k, &mut promoted);
            proof {
                assert forall|id2: ChainId|
                    id2 < pre.chains@.len() && id2 != id && !on_walk(plan@, k as int, id2) implies
                self.chains@[id2 as int] == pre.chains@[id2 as int] by {
                    assert(!on_walk(plan@, k as int + 1, id2)) by {
                        if on_walk(plan@, k as int + 1, id2) {
                            let j = choose|j: int|
                                k as int + 1 <= j < plan@.len() && (#[trigger] plan@[j]).0 == id2;
                            assert(k as int <= j);
                        }
                    }
                    assert(id2 != plan@[k as int].0) by {
                        if id2 == plan@[k as int].0 {
                            assert((#[trigger] plan@[k as int]).0 == id2);
                        }
                    }
                }
                assert forall|h2: u64|
                    (#[trigger] pre.blocks@.contains_key(h2)) && pre.blocks@[h2] != id && !on_walk(
                        plan@,
                        k as int,
                        pre.blocks@[h2],
                    ) implies self.blocks@.contains_key(h2) && self.blocks@[h2]
                    == pre.blocks@[h2] by {
                    let owner = pre.blocks@[h2];
                    assert(!on_walk(plan@, k as int + 1, owner)) by {
                        if on_walk(plan@, k as int + 1, owner) {
                            let j = choose|j: int|
                                k as int + 1 <= j < plan@.len() && (#[trigger] plan@[j]).0
                                    == owner;
                            assert(k as int <= j);
                        }
                    }
                    assert(owner != plan@[k as int].0) by {
                        if owner == plan@[k as int].0 {
                            assert((#[trigger] plan@[k as int]).0 == owner);
                        }
                    }
                    assert(before_step.blocks@.contains_key(h2) && before_step.blocks@[h2]
                        == owner);
                    assert(self.blocks@.contains_key(h2));
                    assert(self.blocks@[h2] == pre.blocks@[h2]);
                }
            }
        }
        let target = match self.remove_chain(id) {
            Some(c) => c,
            None => {
                proof {
                    assert(false);
                }
                return Err(TreeError::InvariantViolation);
            },
        };
        proof {
            assert(target == pre.chain_at(id));
            target.lemma_heights();
            reveal(plan_link);
            if plan@.len() > 0 {
                assert(plan_link(pre, id, plan@, 0));
                pre.chain_at(plan@[0].0).lemma_heights();
            }
        }
        let target_last = *target.tip();
        let ghost promoted_root = promoted@;
        let ghost target_blocks = target.blocks@;
        let mut tb = target.blocks;
        promoted.append(&mut tb);
        proof {
            lemma_contiguous_concat(promoted_root, target_blocks);
            assert(promoted@ == promoted_root + target_blocks);
            assert(promoted@[promoted@.len() - 1] == target_last);
            assert(promoted@[0] == plan_root(pre, id, plan@).first());
            assert(plan_root(pre, id, plan@).wf());
            assert(!self.blocks@.contains_key(block_hash)) by {
                if self.blocks@.contains_key(block_hash) {
                    assert(self.blocks@[block_hash] == id);
                    assert(self.has_chain(id));
                }
            }
            assert(exists|i: int|
                0 <= i < promoted@.len() && (#[trigger] promoted@[i]).hash == block_hash) by {
                assert(pre.chain_at(id).has_hash(block_hash));
                let i = choose|i: int|
                    0 <= i < target_blocks.len() && (#[trigger] target_blocks[i]).hash
                        == block_hash;
                assert(promoted@[promoted_root.len() + i].hash == block_hash);
            }
            match root_joint {
                Joint::AttachedToHistoryTip => {
                    assert(promoted@[0].number == pre.canonical_chain_tip.0 + 1);
                },
                Joint::AttachedToHistoryAt(h) => {
                    assert(promoted@[0].number == h + 1);
                },
                Joint::AttachedToChain(_, _) => {
                    assert(false);
                },
            }
        }
        let ghost before_commit = *self;
        self.commit_promoted(
            Ghost(pre),
            Ghost(id),
            Ghost(block_hash),
            root_joint,
            promoted,
            target_last,
        );
        proof {
            let post = *self;
            assert(plan_ok(pre, id, plan@));
            assert forall|id2: ChainId|
                id2 < pre.chains@.len() && id2 != id && !on_walk(plan@, 0, id2) implies #[trigger]
            post.chains@[id2 as int] == pre.chains@[id2 as int] by {
                assert(before_commit.chains@[id2 as int] == pre.chains@[id2 as int]);
            }
            assert forall|h2: u64|
                (#[trigger] pre.blocks@.contains_key(h2)) && pre.blocks@[h2] != id && !on_walk(
                    plan@,
                    0,
                    pre.blocks@[h2],
                ) implies post.blocks@.contains_key(h2) && post.blocks@[h2] == pre.blocks@[h2] by {
                assert(before_commit.blocks@.contains_key(h2) && before_commit.blocks@[h2]
                    == pre.blocks@[h2]);
            }
            assert(promotion_spares_rest(pre, post, id, plan@));
        }
        Ok(())
    }
}

/// The joint a chain freshly attached to persisted history receives: at the
/// tip when the block's parent is the cached canonical tip, else behind it at
/// the parent's height.
pub open spec fn attach_joint(block: Block, canonical_tip: (u64, u64)) -> Joint {
    if block.parent_hash == canonical_tip.1 {
        Joint::AttachedToHistoryTip
    } else {
        Joint::AttachedToHistoryAt((block.number - 1) as u64)
    }
}

/// Whether `block`'s parent identity occurs strictly inside `c`, below its
/// tip: the condition for forking off `c`.
pub open spec fn fork_parent_exists(c: Chain, block: Block) -> bool {
    exists|i: int|
        0 <= i < c.blocks@.len() - 1 && (#[trigger] c.blocks@[i]).hash == block.parent_hash
}

/// Whether some block strictly inside `c` both carries `block`'s parent
/// identity and sits at the height directly below `block`: the condition for
/// a fork to validate.
pub open spec fn fork_parent_valid(c: Chain, block: Block) -> bool {
    exists|i: int|
        0 <= i < c.blocks@.len() - 1 && (#[trigger] c.blocks@[i]).hash == block.parent_hash
            && block.number == c.blocks@[i].number + 1
}

/// What `insert_block_in_chain(block, chain_id)` does, as a relation between
/// the tree before (`pre`) and after (`post`) and the result `r`.
pub open spec fn inserted_in_chain(
    pre: BlockchainTree,
    post: BlockchainTree,
    block: Block,
    chain_id: ChainId,
    r: Result<(), TreeError>,
) -> bool {
    if pre.blocks@.contains_key(block.hash) {
        r == Ok::<(), TreeError>(()) && post.same_state(pre)
    } else if !pre.has_chain(chain_id) {
        r == Err::<(), TreeError>(TreeError::InvariantViolation) && post.same_state(pre)
    } else {
        let c = pre.chain_at(chain_id);
        if block.parent_hash == c.last().hash {
            match r {
                Ok(()) => {
                    &&& valid_extension(c.last().number, c.last().hash, block)
                    &&& post.chains@.len() == pre.chains@.len()
                    &&& post.has_chain(chain_id)
                    &&& post.chain_at(chain_id).blocks@ == c.blocks@.push(block)
                    &&& post.chain_at(chain_id).joint == c.joint
                    &&& forall|j: int|
                        0 <= j < pre.chains@.len() && j != chain_id ==> post.chains@[j]
                            == pre.chains@[j]
                    &&& post.blocks@ == pre.blocks@.insert(block.hash, chain_id)
                    &&& post.chain_id_generator == pre.chain_id_generator
                    &&& post.frame_eq(pre)
                },
                Err(TreeError::ValidationFailed(e)) => !valid_extension(
                    c.last().number,
                    c.last().hash,
                    block,
                ) && post.same_state(pre),
                _ => false,
            }
        } else if !fork_parent_exists(c, block) {
            r == Err::<(), TreeError>(TreeError::InvariantViolation) && post.same_state(pre)
        } else {
            match r {
                Ok(()) => {
                    &&& fork_parent_valid(c, block)
                    &&& post.chain_id_generator == pre.chain_id_generator + 1
                    &&& post.chains@.len() == pre.chains@.len() + 1
                    &&& forall|j: int|
                        0 <= j < pre.chains@.len() ==> post.chains@[j] == pre.chains@[j]
                    &&& post.has_chain(pre.chain_id_generator)
                    &&& post.chain_at(pre.chain_id_generator).blocks@ =~= seq![block]
                    &&& post.chain_at(pre.chain_id_generator).joint == Joint::AttachedToChain(
                        chain_id,
                        (block.number - 1) as u64,
                    )
                    &&& post.blocks@ == pre.blocks@.insert(block.hash, pre.chain_id_generator)
                    &&& post.frame_eq(pre)
                },
                Err(TreeError::ValidationFailed(e)) => !fork_parent_valid(c, block)
                    && post.same_state(pre),
                _ => false,
            }
        }
    }
}

/// The chain a promotion walk stands on after following `plan`: the target
/// chain itself while the plan is empty, else the owner of the last joint
/// followed.
pub open spec fn plan_root(t: BlockchainTree, id: ChainId, plan: Seq<(u64, u64)>) -> Chain {
    if plan.len() == 0 {
        t.chain_at(id)
    } else {
        t.chain_at(plan[plan.len() - 1].0)
    }
}

/// The chain that attaches at `plan[j]`: the target chain for the first
/// entry, else the owner of the previous entry.
pub open spec fn plan_child(t: BlockchainTree, id: ChainId, plan: Seq<(u64, u64)>, j: int) -> Chain {
    if j == 0 {
        t.chain_at(id)
    } else {
        t.chain_at(plan[j - 1].0)
    }
}

/// One sound step of a promotion walk: `plan[j]` names a live chain, other
/// than the target, holding the named attachment block, and that block is the
/// follower's first block's parent.
#[verifier::opaque]
pub open spec fn plan_link(t: BlockchainTree, id: ChainId, plan: Seq<(u64, u64)>, j: int) -> bool {
    let parent = t.chain_at(plan[j].0);
    let child = plan_child(t, id, plan, j);
    &&& t.has_chain(plan[j].0)
    &&& plan[j].0 != id
    &&& child.joint == Joint::AttachedToChain(plan[j].0, plan[j].1)
    &&& parent.has_height(plan[j].1)
    &&& parent.block_at_spec(plan[j].1).hash == child.first().parent_hash
}

/// A sound promotion walk from the chain `id`: every step is sound and no
/// chain is visited twice.
pub open spec fn plan_links_ok(t: BlockchainTree, id: ChainId, plan: Seq<(u64, u64)>) -> bool {
    &&& forall|j: int| 0 <= j < plan.len() ==> #[trigger] plan_link(t, id, plan, j)
    &&& forall|j1: int, j2: int|
        #![trigger plan[j1], plan[j2]]
        0 <= j1 < j2 < plan.len() ==> plan[j1].0 != plan[j2].0
}

/// A walk that ended on a history-rooted joint whose attachment point is
/// real, and — when a revert will be needed — whose to-be-reverted persisted
/// blocks are not shadowed in the fork index.
pub open spec fn plan_root_ok(t: BlockchainTree, id: ChainId, plan: Seq<(u64, u64)>) -> bool {
    let root = plan_root(t, id, plan);
    match root.joint {
        Joint::AttachedToHistoryTip => root.first().parent_hash == t.canonical_chain_tip.1
            && root.first().number == t.canonical_chain_tip.0 + 1,
        Joint::AttachedToHistoryAt(h) => {
            &&& t.db.has_height(h)
            &&& t.db.block_at_spec(h).hash == root.first().parent_hash
            &&& forall|i: int|
                h - t.db.base_number() + 1 <= i < t.db.blocks@.len()
                    ==> !t.blocks@.contains_key((#[trigger] t.db.blocks@[i]).hash)
        },
        Joint::AttachedToChain(_, _) => false,
    }
}

/// A complete, applicable promotion plan.
pub open spec fn plan_ok(t: BlockchainTree, id: ChainId, plan: Seq<(u64, u64)>) -> bool {
    plan_links_ok(t, id, plan) && plan_root_ok(t, id, plan)
}

/// Whether the chain `id2` is named by one of the walk entries `plan[k..]`:
/// the chains a promotion removes or splits. Everything else in the forest is
/// off the promoted path.
pub open spec fn on_walk(plan: Seq<(u64, u64)>, k: int, id2: ChainId) -> bool {
    exists|j: int| k <= j < plan.len() && (#[trigger] plan[j]).0 == id2
}

/// The reverted persisted blocks — those above height `h` — live on in the
/// forest: a chain registered under `rid` holds exactly them, attached to the
/// history they were reverted from.
pub open spec fn reverted_kept(
    pre_db: CanonicalHistory,
    post: BlockchainTree,
    h: u64,
    rid: ChainId,
) -> bool {
    &&& post.has_chain(rid)
    &&& post.chain_at(rid).blocks@ == pre_db.blocks@.subrange(
        h - pre_db.base_number() + 1,
        pre_db.blocks@.len() as int,
    )
    &&& post.chain_at(rid).joint == Joint::AttachedToHistoryAt(h)
}

/// What a promotion along the walk `p` leaves alone: every chain off the walk
/// survives unchanged under its id, and every fork-index entry owned by a
/// chain off the walk survives with its owner.
pub open spec fn promotion_spares_rest(
    pre: BlockchainTree,
    post: BlockchainTree,
    id: ChainId,
    p: Seq<(u64, u64)>,
) -> bool {
    &&& plan_ok(pre, id, p)
    &&& post.chains@.len() >= pre.chains@.len()
    &&& forall|id2: ChainId|
        id2 < pre.chains@.len() && id2 != id && !on_walk(p, 0, id2)
            ==> #[trigger] post.chains@[id2 as int] == pre.chains@[id2 as int]
    &&& forall|h2: u64|
        (#[trigger] pre.blocks@.contains_key(h2)) && pre.blocks@[h2] != id && !on_walk(
            p,
            0,
            pre.blocks@[h2],
        ) ==> post.blocks@.contains_key(h2) && post.blocks@[h2] == pre.blocks@[h2]
    &&& match plan_root(pre, id, p).joint {
        Joint::AttachedToHistoryTip => pre.db.blocks@ == post.db.blocks@.subrange(
            0,
            pre.db.blocks@.len() as int,
        ),
        Joint::AttachedToHistoryAt(h) => {
            &&& post.db.blocks@.subrange(0, h - pre.db.base_number() + 1)
                == pre.db.blocks@.subrange(0, h - pre.db.base_number() + 1)
            &&& (h < pre.db.tip_spec().number ==> exists|rid: ChainId| #[trigger] reverted_kept(
                pre.db,
                post,
                h,
                rid,
            ))
        },
        Joint::AttachedToChain(_, _) => false,
    }
}

/// What a successful or refused promotion did, as a relation between the
/// tree before (`pre`) and after (`post`) and the result `r`.
pub open spec fn made_canonical(
    pre: BlockchainTree,
    post: BlockchainTree,
    block_hash: u64,
    r: Result<(), TreeError>,
) -> bool {
    match r {
        Err(TreeError::UnknownBlock) => !pre.blocks@.contains_key(block_hash) && post.same_state(
            pre,
        ),
        Err(TreeError::InvariantViolation) => pre.blocks@.contains_key(block_hash)
            && post.same_state(pre),
        Ok(()) => pre.blocks@.contains_key(block_hash) && {
            let id = pre.blocks@[block_hash];
            let target = pre.chain_at(id);
            &&& post.canonical_chain_tip == (target.last().number, target.last().hash)
            &&& post.db.tip_spec() == target.last()
            &&& !post.has_chain(id)
            &&& !post.blocks@.contains_key(block_hash)
            &&& post.db.has_hash(block_hash)
            &&& forall|h2: u64| #[trigger]
                post.blocks@.contains_key(h2) && pre.blocks@.contains_key(h2)
                    ==> post.blocks@[h2] == pre.blocks@[h2]
            &&& post.chain_id_generator >= pre.chain_id_generator
            &&& post.consensus == pre.consensus
        },
        _ => false,
    }
}

/// Following one more sound joint extends a sound promotion walk.
proof fn lemma_plan_push(
    t: BlockchainTree,
    id: ChainId,
    old_plan: Seq<(u64, u64)>,
    pid: u64,
    h: u64,
)
    requires
        plan_links_ok(t, id, old_plan),
        t.has_chain(pid),
        pid != id,
        forall|j: int| 0 <= j < old_plan.len() ==> (#[trigger] old_plan[j]).0 != pid,
        plan_root(t, id, old_plan).joint == Joint::AttachedToChain(pid, h),
        t.chain_at(pid).has_height(h),
        t.chain_at(pid).block_at_spec(h).hash == plan_root(t, id, old_plan).first().parent_hash,
    ensures
        plan_links_ok(t, id, old_plan.push((pid, h))),
        plan_root(t, id, old_plan.push((pid, h))) == t.chain_at(pid),
{
    reveal(plan_link);
    let plan = old_plan.push((pid, h));
    assert forall|j2: int| 0 <= j2 < plan.len() implies #[trigger] plan_link(t, id, plan, j2) by {
        if j2 < old_plan.len() {
            assert(plan_link(t, id, old_plan, j2));
            assert(old_plan[j2] == plan[j2]);
            if j2 > 0 {
                assert(old_plan[j2 - 1] == plan[j2 - 1]);
            }
        } else {
            assert(plan[j2] == (pid, h));
            assert(plan_child(t, id, plan, j2) == plan_root(t, id, old_plan));
        }
    }
    assert forall|j1: int, j2: int|
        #![trigger plan[j1], plan[j2]]
        0 <= j1 < j2 < plan.len() implies plan[j1].0 != plan[j2].0 by {
        if j2 < old_plan.len() {
            assert(old_plan[j1] == plan[j1] && old_plan[j2] == plan[j2]);
        } else {
            assert(old_plan[j1] == plan[j1] && plan[j2] == (pid, h));
        }
    }
}

/// Index consistency: in a well-formed tree, the fork index maps `h` to `id`
/// exactly when the chain registered under `id` holds a block with identity
/// `h` — no dangling entries in either direction. Every operation of the tree
/// requires and re-establishes `wf()`, so this holds of all reachable states.
pub proof fn lemma_index_consistency(t: BlockchainTree, h: u64, id: ChainId)
    requires
        t.wf(),
    ensures
        (t.blocks@.contains_key(h) && t.blocks@[h] == id) <==> (t.has_chain(id) && t.chain_at(
            id,
        ).has_hash(h)),
{
    if t.has_chain(id) && t.chain_at(id).has_hash(h) {
        let i = choose|i: int|
            0 <= i < t.chain_at(id).blocks@.len() && (#[trigger] t.chain_at(id).blocks@[i]).hash
                == h;
        assert(t.blocks@.contains_key(t.chain_at(id).blocks@[i].hash));
    }
}

/// Contiguity: in a well-formed tree every chain of the forest is non-empty,
/// parent-linked, and strictly height-ascending. Every operation of the tree
/// requires and re-establishes `wf()`, so no reachable state violates it.
pub proof fn lemma_chain_contiguity(t: BlockchainTree, id: ChainId)
    requires
        t.wf(),
        t.has_chain(id),
    ensures
        t.chain_at(id).blocks@.len() > 0,
        contiguous(t.chain_at(id).blocks@),
        forall|i: int, j: int|
            #![trigger t.chain_at(id).blocks@[i], t.chain_at(id).blocks@[j]]
            0 <= i < j < t.chain_at(id).blocks@.len() ==> t.chain_at(id).blocks@[i].number
                < t.chain_at(id).blocks@[j].number,
{
    t.chain_at(id).lemma_heights();
}

/// Id uniqueness: every id the forest holds lies below the generator, and —
/// as `insert_chain` states — a minted id equals the generator, which then
/// strictly increases; so ids issued over a tree's lifetime are strictly
/// increasing and a removed chain's id, whose slot stays empty, is never
/// issued again.
pub proof fn lemma_id_below_generator(t: BlockchainTree, id: ChainId)
    requires
        t.wf(),
        t.has_chain(id),
    ensures
        id < t.chain_id_generator,
{
}

/// The forest-and-index invariant carries over to a tree with the same
/// forest, index and generator, whatever happened to its history or tip.
proof fn lemma_forest_wf_transfer(pre: BlockchainTree, post: BlockchainTree)
    requires
        pre.forest_wf(),
        post.chains@ == pre.chains@,
        post.chain_id_generator == pre.chain_id_generator,
        post.blocks@ == pre.blocks@,
    ensures
        post.forest_wf(),
{
    assert forall|id: ChainId| #[trigger] post.has_chain(id) implies post.chain_at(id).wf() by {
        assert(pre.has_chain(id));
    }
    assert forall|h: u64| #[trigger] post.blocks@.contains_key(h) implies post.has_chain(
        post.blocks@[h],
    ) && post.chain_at(post.blocks@[h]).has_hash(h) by {
        assert(pre.blocks@.contains_key(h));
        assert(pre.has_chain(pre.blocks@[h]));
    }
    assert forall|id: ChainId, i: int|
        post.has_chain(id) && 0 <= i < post.chain_at(id).blocks@.len() implies {
        let h = (#[trigger] post.chain_at(id).blocks@[i]).hash;
        post.blocks@.contains_key(h) && post.blocks@[h] == id
    } by {
        assert(pre.has_chain(id));
        assert(post.chain_at(id) == pre.chain_at(id));
        assert(pre.blocks@.contains_key(pre.chain_at(id).blocks@[i].hash));
    }
}

/// A tree whose parts equal, view for view, those of a well-formed tree is
/// itself well-formed.
proof fn lemma_wf_transfer(pre: BlockchainTree, post: BlockchainTree)
    requires
        pre.wf(),
        post.chains@ == pre.chains@,
        post.chain_id_generator == pre.chain_id_generator,
        post.blocks@ == pre.blocks@,
        post.db.blocks@ == pre.db.blocks@,
        post.canonical_chain_tip == pre.canonical_chain_tip,
    ensures
        post.wf(),
{
    assert(post.db.wf());
    assert(post.db.tip_spec() == pre.db.tip_spec());
    assert forall|id: ChainId| #[trigger] post.has_chain(id) implies post.chain_at(id).wf() by {
        assert(pre.has_chain(id));
    }
    assert forall|h: u64| #[trigger] post.blocks@.contains_key(h) implies post.has_chain(
        post.blocks@[h],
    ) && post.chain_at(post.blocks@[h]).has_hash(h) by {
        assert(pre.blocks@.contains_key(h));
        assert(pre.has_chain(pre.blocks@[h]));
    }
    assert forall|id: ChainId, i: int|
        post.has_chain(id) && 0 <= i < post.chain_at(id).blocks@.len() implies {
        let h = (#[trigger] post.chain_at(id).blocks@[i]).hash;
        post.blocks@.contains_key(h) && post.blocks@[h] == id
    } by {
        assert(pre.has_chain(id));
        assert(post.chain_at(id) == pre.chain_at(id));
        assert(pre.blocks@.contains_key(pre.chain_at(id).blocks@[i].hash));
    }
}

/// Extending the chain `chain_id` in place by one block whose identity was
/// not yet indexed, and indexing that identity to `chain_id`, keeps the tree
/// well-formed.
proof fn lemma_wf_after_extend(
    pre: BlockchainTree,
    post: BlockchainTree,
    block: Block,
    chain_id: ChainId,
)
    requires
        pre.wf(),
        !pre.blocks@.contains_key(block.hash),
        pre.has_chain(chain_id),
        post.chains@.len() == pre.chains@.len(),
        post.has_chain(chain_id),
        post.chain_at(chain_id).blocks@ == pre.chain_at(chain_id).blocks@.push(block),
        post.chain_at(chain_id).wf(),
        forall|j: int|
            0 <= j < pre.chains@.len() && j != chain_id ==> post.chains@[j] == pre.chains@[j],
        post.blocks@ == pre.blocks@.insert(block.hash, chain_id),
        post.chain_id_generator == pre.chain_id_generator,
        post.db.blocks@ == pre.db.blocks@,
        post.canonical_chain_tip == pre.canonical_chain_tip,
    ensures
        post.wf(),
{
    let c = pre.chain_at(chain_id);
    let c2 = post.chain_at(chain_id);
    assert(post.db.wf() && post.db.tip_spec() == pre.db.tip_spec());
    assert forall|id: ChainId| #[trigger] post.has_chain(id) implies post.chain_at(id).wf() by {
        if id != chain_id {
            assert(pre.has_chain(id));
            assert(post.chain_at(id) == pre.chain_at(id));
        }
    }
    assert forall|h: u64| #[trigger] post.blocks@.contains_key(h) implies post.has_chain(
        post.blocks@[h],
    ) && post.chain_at(post.blocks@[h]).has_hash(h) by {
        if h == block.hash {
            assert(post.blocks@[h] == chain_id);
            assert(c2.blocks@[c.blocks@.len() as int] == block);
            assert(c2.has_hash(h));
        } else {
            assert(pre.blocks@.contains_key(h));
            assert(post.blocks@[h] == pre.blocks@[h]);
            let id = pre.blocks@[h];
            assert(pre.has_chain(id) && pre.chain_at(id).has_hash(h));
            if id == chain_id {
                let i = choose|i: int|
                    0 <= i < c.blocks@.len() && (#[trigger] c.blocks@[i]).hash == h;
                assert(c2.blocks@[i] == c.blocks@[i]);
                assert(c2.has_hash(h));
            } else {
                assert(post.chain_at(id) == pre.chain_at(id));
            }
        }
    }
    assert forall|id: ChainId, i: int|
        post.has_chain(id) && 0 <= i < post.chain_at(id).blocks@.len() implies {
        let h = (#[trigger] post.chain_at(id).blocks@[i]).hash;
        post.blocks@.contains_key(h) && post.blocks@[h] == id
    } by {
        let h = post.chain_at(id).blocks@[i].hash;
        if id == chain_id {
            if i < c.blocks@.len() {
                assert(c2.blocks@[i] == c.blocks@[i]);
                assert(pre.blocks@.contains_key(h) && pre.blocks@[h] == chain_id);
                assert(h != block.hash);
                assert(post.blocks@[h] == chain_id);
            } else {
                assert(c2.blocks@[i] == block);
                assert(post.blocks@[block.hash] == chain_id);
            }
        } else {
            assert(pre.has_chain(id));
            assert(post.chain_at(id) == pre.chain_at(id));
            assert(pre.blocks@.contains_key(h) && pre.blocks@[h] == id);
            assert(h != block.hash);
        }
    }
}

} // verus!
