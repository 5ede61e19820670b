//! The immutable unit of chain data that the tree manages.

use vstd::prelude::*;

verus! {

/// An immutable, content-addressed unit of chain data.
///
/// A block is supplied fully formed by an external collaborator; the tree
/// never constructs one. Its identity is its hash, and `parent_hash` is the
/// identity of the block it extends. `number` is the block's height.
#[derive(Clone, Copy, PartialEq, Eq, Structural, Debug, Hash)]
pub struct Block {
    /// Height of the block.
    pub number: u64,
    /// The block's identity: its content-derived hash.
    pub hash: u64,
    /// Identity of the parent block.
    pub parent_hash: u64,
}

/// A run of blocks is contiguous when each block's height is one above its
/// predecessor's and each block names its predecessor as parent.
pub open spec fn contiguous(s: Seq<Block>) -> bool {
    forall|i: int|
        1 <= i < s.len() ==> (#[trigger] s[i]).number == s[i - 1].number + 1 && s[i].parent_hash
            == s[i - 1].hash
}

/// In a contiguous run, the block at offset `i` sits at height
/// `first.number + i`.
pub proof fn lemma_contiguous_number_at(s: Seq<Block>, i: int)
    requires
        contiguous(s),
        0 <= i < s.len(),
    ensures
        s[i].number == s[0].number + i,
    decreases i,
{
    if i > 0 {
        lemma_contiguous_number_at(s, i - 1);
    }
}

/// A contiguous run holds a block at every height between its first and its
/// last block, and at no other height; the block at height `h` stands at
/// offset `h - first.number`.
pub proof fn lemma_contiguous_heights(s: Seq<Block>)
    requires
        contiguous(s),
    ensures
        forall|i: int| 0 <= i < s.len() ==> (#[trigger] s[i]).number == s[0].number + i,
{
    assert forall|i: int| 0 <= i < s.len() implies (#[trigger] s[i]).number == s[0].number + i by {
        lemma_contiguous_number_at(s, i);
    }
}

/// Two contiguous runs whose boundary blocks link form one contiguous run.
pub proof fn lemma_contiguous_concat(a: Seq<Block>, b: Seq<Block>)
    requires
        contiguous(a),
        contiguous(b),
        a.len() > 0 && b.len() > 0 ==> {
            &&& b[0].parent_hash == a[a.len() - 1].hash
            &&& b[0].number == a[a.len() - 1].number + 1
        },
    ensures
        contiguous(a + b),
{
    let s = a + b;
    assert forall|i: int|
        1 <= i < s.len() implies (#[trigger] s[i]).number == s[i - 1].number + 1 && s[i].parent_hash
        == s[i - 1].hash by {
        let m = a.len() as int;
        if i < m {
            assert(s[i] == a[i] && s[i - 1] == a[i - 1]);
        } else if i == m {
            assert(s[i] == b[0] && s[i - 1] == a[m - 1]);
        } else {
            assert(s[i] == b[i - m] && s[i - 1] == b[i - m - 1]);
        }
    }
}

/// Contiguity is preserved by taking a sub-run.
pub proof fn lemma_contiguous_subrange(s: Seq<Block>, a: int, b: int)
    requires
        contiguous(s),
        0 <= a <= b <= s.len(),
    ensures
        contiguous(s.subrange(a, b)),
{
}

} // verus!
