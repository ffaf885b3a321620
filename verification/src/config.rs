//! Configuration and block-selection types.
//!
//! `BlockSelection` is the compact `[batch, seq_len, κ]` result of routing;
//! `ReverseBlockIndex` is its CSC view, grouped by routing block.
use vstd::prelude::*;

verus! {

/// Block id that marks an empty selection slot.
pub const INVALID_BLOCK: u32 = 0xffff_ffffu32;

/// Compact block-selection result: `selected_blocks` per query.
///
/// Shape: `[batch, seq_len, selected_blocks]`, row-major.
/// Invalid/empty slots hold the sentinel `INVALID_BLOCK` (`u32::MAX`).
#[derive(Debug, Clone)]
pub struct BlockSelection {
    /// Flat buffer of `u32` block IDs, shape `[B, S, κ]`.
    pub block_ids: Vec<u32>,
    /// Row-major strides: `[S*κ, κ, 1]`.
    pub strides: [u32; 3],
    /// Batch size.
    pub batch: u32,
    /// Sequence length.
    pub seq_len: u32,
}

impl BlockSelection {
    /// Number of selected blocks per query, as the selection's strides record it.
    pub open spec fn spec_kappa(&self) -> nat {
        self.strides@[1] as nat
    }

    /// Number of queries, `batch * seq_len`.
    pub open spec fn num_queries(&self) -> nat {
        (self.batch * self.seq_len) as nat
    }

    /// Build a selection from pre-computed block IDs.
    ///
    /// The `block_ids` buffer is `[B, S, κ]` row-major, so its length must be
    /// `batch * seq_len * kappa`.  Invalid slots use `u32::MAX` as sentinel.
    pub fn new(block_ids: Vec<u32>, batch: u32, seq_len: u32, kappa: u32) -> (r: Self)
        requires
            batch * seq_len <= u32::MAX,
            seq_len * kappa <= u32::MAX,
            batch * seq_len * kappa <= u32::MAX,
            block_ids.len() == batch * seq_len * kappa,
        ensures
            r.block_ids@ == block_ids@,
            r.batch == batch,
            r.seq_len == seq_len,
            r.strides@ == seq![(seq_len * kappa) as u32, kappa, 1u32],
            r.spec_kappa() == kappa,
    {
        let strides: [u32; 3] = [seq_len * kappa, kappa, 1];
        let r = Self { strides, block_ids, batch, seq_len };
        assert(r.strides@ =~= seq![(seq_len * kappa) as u32, kappa, 1u32]);
        r
    }

    /// Return the number of selected blocks per query (κ).
    pub fn kappa(&self) -> (r: u32)
        ensures
            r == self.spec_kappa(),
    {
        self.strides[1]
    }
}

/// Reverse view: for each routing block, which queries selected it.
///
/// CSC-equivalent structure for KV-outer execution and backward.
#[derive(Debug, Clone)]
pub struct ReverseBlockIndex {
    /// Exclusive scan: `block_offsets[r]` is the start index in `query_handles`
    /// for routing block `r`.  Length `R + 1`.
    pub block_offsets: Vec<u32>,
    /// Packed `(query_id, slot_index)` handles.  Length = total edges.
    pub query_handles: Vec<u32>,
    /// Number of queries that selected each block.  Length `R`.
    pub block_degrees: Vec<u32>,
    /// Number of routing blocks with at least one selector.
    pub block_count: u32,
}

/// Backward backend selection policy.
#[derive(Debug, Clone, Copy, PartialEq, Eq, Structural)]
pub enum BackwardBackend {
    /// KV-major with atomic `dQ` (FlashMoBA-style baseline).
    KvMajorAtomicDq,
    /// FSA-style buffered partial `dQ` and reduction.
    BufferedPartialDq,
    /// CSR/CSC dual-pass atomic-free (default deterministic).
    DualPassAtomicFree,
}

/// Runtime execution policy.
#[derive(Debug, Clone)]
pub struct ExecutionPolicy {
    /// Which backward backend to use.
    pub backward: BackwardBackend,
    /// Require bitwise-deterministic outputs.
    pub deterministic: bool,
    /// Maximum workspace to allocate (bytes); 0 = use heuristics.
    pub workspace_limit_bytes: u64,
    /// Number of query positions per slab (0 = auto).
    pub query_slab: u32,
    /// Number of heads processed together (0 = auto).
    pub head_group: u32,
}

impl Default for ExecutionPolicy {
    /// Deterministic dual-pass backward with automatic sizing.
    fn default() -> (r: Self)
        ensures
            r.backward == BackwardBackend::DualPassAtomicFree,
            r.deterministic,
            r.workspace_limit_bytes == 0,
            r.query_slab == 0,
            r.head_group == 0,
    {
        Self {
            backward: BackwardBackend::DualPassAtomicFree,
            deterministic: true,
            workspace_limit_bytes: 0,
            query_slab: 0,
            head_group: 0,
        }
    }
}

} // verus!
