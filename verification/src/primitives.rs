//! Value types shared by the wire codec and the chain-state mirror.

use vstd::prelude::*;

verus! {

/// A block hash: 32 bytes, big-endian as hex-encoded on the wire.
#[derive(Clone, Copy, Debug, PartialEq, Eq, Hash)]
pub struct BlockHash(pub [u8; 32]);

/// A transaction id: 32 bytes, big-endian as hex-encoded on the wire.
#[derive(Clone, Copy, Debug, PartialEq, Eq, Hash)]
pub struct TransactionHash(pub [u8; 32]);

/// A block height as the backend reports it: a non-negative integer.
#[derive(Clone, Copy, Debug, PartialEq, Eq, Hash)]
pub struct ChainHeight(pub u32);

/// Raw block bytes as fetched from the backend.
#[derive(Clone, Debug, PartialEq, Eq)]
pub struct SerializedBlock(pub Vec<u8>);

/// Raw transaction bytes as fetched from the backend.
#[derive(Clone, Debug, PartialEq, Eq)]
pub struct SerializedTransaction(pub Vec<u8>);

/// A transparent address, base58check encoded.
#[derive(Clone, Debug, PartialEq, Eq)]
pub struct TransparentAddress(pub String);

/// A transparent output script.
#[derive(Clone, Debug, PartialEq, Eq)]
pub struct ZcashScript(pub Vec<u8>);

/// Hex-encoded serialized state of one note commitment tree.
#[derive(Clone, Debug, PartialEq, Eq)]
pub struct CommitmentTreestate {
    /// Hex-encoded final state bytes.
    pub final_state: String,
}

/// Treestate of the Sapling note commitment tree.
#[derive(Clone, Debug, PartialEq, Eq)]
pub struct SaplingTreestate {
    /// The tree's serialized commitments.
    pub commitments: CommitmentTreestate,
}

/// Treestate of the Orchard note commitment tree.
#[derive(Clone, Debug, PartialEq, Eq)]
pub struct OrchardTreestate {
    /// The tree's serialized commitments.
    pub commitments: CommitmentTreestate,
}

/// Sizes of the note commitment trees as of a block.
#[derive(Clone, Copy, Debug, PartialEq, Eq)]
pub struct BlockCommitmentTreeSize {
    /// Number of leaves in the Sapling tree.
    pub sapling: u32,
    /// Number of leaves in the Orchard tree.
    pub orchard: u32,
}

/// Index of a note commitment subtree.
#[derive(Clone, Copy, Debug, PartialEq, Eq, Hash)]
pub struct NoteCommitmentSubtreeIndex(pub u16);

/// A complete subtree's root and end height.
#[derive(Clone, Debug, PartialEq, Eq)]
pub struct SubtreeRpcData {
    /// Hex-encoded subtree root.
    pub root: String,
    /// Height of the block completing the subtree.
    pub end_height: u32,
}

/// A consensus branch id, hex-encoded.
#[derive(Clone, Debug, PartialEq, Eq, Hash)]
pub struct ConsensusBranchIdHex(pub String);

/// Status of one network upgrade at the current tip.
#[derive(Clone, Debug, PartialEq, Eq)]
pub struct NetworkUpgradeInfo {
    /// Name of the upgrade.
    pub name: String,
    /// Height the upgrade activates at.
    pub activation_height: ChainHeight,
    /// Activation status as the backend reports it.
    pub status: String,
}

/// Branch ids of the current and next consensus rules.
#[derive(Clone, Debug, PartialEq, Eq)]
pub struct TipConsensusBranch {
    /// Branch id of the chain tip.
    pub chain_tip: ConsensusBranchIdHex,
    /// Branch id of the next block.
    pub next_block: ConsensusBranchIdHex,
}

/// Compares two block hashes by value.
pub fn block_hash_eq(a: &BlockHash, b: &BlockHash) -> (r: bool)
    ensures
        r == (a == b),
{
    let mut i: usize = 0;
    while i < 32
        invariant
            i <= 32,
            forall|k: int| 0 <= k < i ==> a.0@[k] == b.0@[k],
        decreases 32 - i,
    {
        if a.0[i] != b.0[i] {
            return false;
        }
        i = i + 1;
    }
    proof {
        assert(a.0 =~= b.0);
    }
    true
}

/// Compares two transaction ids by value.
pub fn txid_eq(a: &TransactionHash, b: &TransactionHash) -> (r: bool)
    ensures
        r == (a == b),
{
    let mut i: usize = 0;
    while i < 32
        invariant
            i <= 32,
            forall|k: int| 0 <= k < i ==> a.0@[k] == b.0@[k],
        decreases 32 - i,
    {
        if a.0[i] != b.0[i] {
            return false;
        }
        i = i + 1;
    }
    proof {
        assert(a.0 =~= b.0);
    }
    true
}

} // verus!
