//! The block-validity checker consulted before any block joins a chain.

use vstd::prelude::*;

use crate::block::Block;

verus! {

/// Why a block was refused as the child of a given parent.
#[derive(Clone, Copy, PartialEq, Eq, Structural, Debug)]
pub enum ValidationError {
    /// The block does not name the offered parent as its parent.
    ParentMismatch,
    /// The block's height is not one above the parent's height.
    HeightMismatch,
}

/// A block may legally extend a parent exactly when it names the parent as
/// its parent and sits one height above it.
pub open spec fn valid_extension(parent_number: u64, parent_hash: u64, block: Block) -> bool {
    block.parent_hash == parent_hash && block.number == parent_number + 1
}

/// The block-validity checker.
///
/// It decides whether a block may legally extend the state reached at a given
/// parent. This implementation checks the structural rules the tree itself
/// depends on — parent linkage and consecutive heights; richer consensus
/// rules (signatures, gas accounting, ...) belong to the collaborator that
/// supplies the blocks and are outside this library.
#[derive(Clone, Copy, PartialEq, Eq, Structural, Debug)]
pub struct Validator {}

impl Validator {
    /// Create a checker.
    pub fn new() -> (v: Validator) {
        Validator {  }
    }

    /// Check whether `block` may extend the parent state `(parent_number,
    /// parent_hash)`. Returns `Ok` exactly on valid extensions, and otherwise
    /// names what was wrong.
    pub fn validate(&self, parent_number: u64, parent_hash: u64, block: &Block) -> (r: Result<
        (),
        ValidationError,
    >)
        ensures
            match r {
                Ok(()) => valid_extension(parent_number, parent_hash, *block),
                Err(ValidationError::ParentMismatch) => block.parent_hash != parent_hash,
                Err(ValidationError::HeightMismatch) => block.parent_hash == parent_hash
                    && block.number != parent_number + 1,
            },
    {
        if block.parent_hash != parent_hash {
            Err(ValidationError::ParentMismatch)
        } else if parent_number == u64::MAX || block.number != parent_number + 1 {
            Err(ValidationError::HeightMismatch)
        } else {
            Ok(())
        }
    }
}

} // verus!
