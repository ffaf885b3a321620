//! Scenario tests for the verified library: concrete values for each law,
//! the edge cases, and every error variant.

use ferriox::config::INVALID_BLOCK;
use ferriox::indexer::{effective_k, legal_domain_size};
use ferriox::routing::{
    block_to_entry_start, build_reverse_view, entry_to_block, EntryComparator, ScoreOrder,
};
use ferriox::scheduler::{slab_dc_reduction_count, TaskKind, TaskQueue};
use ferriox::sink::SINK_VALUES_PER_HEAD;
use ferriox::tensor::compute_strides;
use ferriox::workspace::Workspace;
use ferriox::build_reverse_index;
use ferriox::{BackwardBackend, BlockSelection, ExecutionPolicy, FerrioxError, Tensor};

fn handle(q: u32, slot: u32) -> u32 {
    (q << 16) | slot
}

#[test]
fn block_selection_new_records_shape() {
    let sel = BlockSelection::new(vec![0, 1, 2, 3, 4, 5], 1, 2, 3);
    assert_eq!(sel.kappa(), 3);
    assert_eq!(sel.strides, [6, 3, 1]);
    assert_eq!(sel.batch, 1);
    assert_eq!(sel.seq_len, 2);
    assert_eq!(sel.block_ids, vec![0, 1, 2, 3, 4, 5]);
}

#[test]
fn reverse_view_groups_by_block_in_query_slot_order() {
    // batch 1, seq 3, kappa 2: rows [1, 0], [MAX, 1], [0, MAX].
    let ids = vec![1, 0, INVALID_BLOCK, 1, 0, INVALID_BLOCK];
    let sel = BlockSelection::new(ids, 1, 3, 2);
    let rev = build_reverse_view(&sel, 3).unwrap();
    assert_eq!(rev.block_degrees, vec![2, 2, 0]);
    assert_eq!(rev.block_offsets, vec![0, 2, 4, 4]);
    assert_eq!(
        rev.query_handles,
        vec![handle(0, 1), handle(2, 0), handle(0, 0), handle(1, 1)]
    );
    // Blocks 0 and 1 have selectors; block 2 has none.
    assert_eq!(rev.block_count, 2);
}

#[test]
fn reverse_view_of_empty_selection() {
    let sel = BlockSelection::new(vec![INVALID_BLOCK; 4], 2, 1, 2);
    let rev = build_reverse_view(&sel, 2).unwrap();
    assert_eq!(rev.block_degrees, vec![0, 0]);
    assert_eq!(rev.block_offsets, vec![0, 0, 0]);
    assert!(rev.query_handles.is_empty());
    assert_eq!(rev.block_count, 0);
}

#[test]
fn reverse_view_with_no_blocks_and_no_slots() {
    let sel = BlockSelection::new(Vec::new(), 4, 4, 0);
    let rev = build_reverse_view(&sel, 0).unwrap();
    assert!(rev.block_degrees.is_empty());
    assert_eq!(rev.block_offsets, vec![0]);
    assert!(rev.query_handles.is_empty());
    assert_eq!(rev.block_count, 0);
}

#[test]
fn reverse_view_handles_decode_to_query_and_slot() {
    let kappa = 4u32;
    let queries = 300u32;
    let mut ids = vec![INVALID_BLOCK; (queries * kappa) as usize];
    for q in 0..queries {
        ids[(q * kappa + (q % kappa)) as usize] = q % 5;
    }
    let sel = BlockSelection::new(ids, 3, 100, kappa);
    let rev = build_reverse_index(&sel, 5).unwrap();
    assert_eq!(rev.query_handles.len(), queries as usize);
    for r in 0..5usize {
        let lo = rev.block_offsets[r] as usize;
        let hi = rev.block_offsets[r + 1] as usize;
        assert_eq!(hi - lo, rev.block_degrees[r] as usize);
        let mut last_q = None;
        for &h in &rev.query_handles[lo..hi] {
            let q = h >> 16;
            let slot = h & 0xffff;
            assert_eq!(q % 5, r as u32);
            assert_eq!(slot, q % kappa);
            if let Some(prev) = last_q {
                assert!(prev < q);
            }
            last_q = Some(q);
        }
    }
}

#[test]
fn tie_break_is_strict() {
    // Higher score wins regardless of index.
    assert!(EntryComparator::outranks(ScoreOrder::Greater, 9, 1));
    assert!(!EntryComparator::outranks(ScoreOrder::Less, 1, 9));
    // Equal scores: smaller index wins, never both, never itself.
    assert!(EntryComparator::outranks(ScoreOrder::Equal, 2, 4));
    assert!(!EntryComparator::outranks(ScoreOrder::Equal, 4, 2));
    assert!(!EntryComparator::outranks(ScoreOrder::Equal, 4, 4));
}

#[test]
fn entry_block_arithmetic() {
    assert_eq!(entry_to_block(0, 32), 0);
    assert_eq!(entry_to_block(31, 32), 0);
    assert_eq!(entry_to_block(32, 32), 1);
    assert_eq!(entry_to_block(100, 32), 3);
    assert_eq!(block_to_entry_start(3, 32), 96);
    assert_eq!(entry_to_block(block_to_entry_start(7, 32), 32), 7);
    let e = 77;
    let start = block_to_entry_start(entry_to_block(e, 32), 32);
    assert!(start <= e && e < start + 32);
}

#[test]
fn legal_domain_laws_on_values() {
    // One compressed entry per four positions; never shrinking.
    let mut prev = legal_domain_size(0, 4);
    for t in 1..64u32 {
        let cur = legal_domain_size(t, 4);
        assert!(prev <= cur && cur <= prev + 1);
        assert!(cur * 4 <= t + 1);
        prev = cur;
    }
    assert_eq!(legal_domain_size(u32::MAX - 1, 1), u32::MAX);
    assert_eq!(legal_domain_size(10, 11), 1);
    assert_eq!(legal_domain_size(9, 11), 0);
}

#[test]
fn effective_k_caps_budget() {
    assert_eq!(effective_k(2, 4, 512), 0);
    assert_eq!(effective_k(7, 4, 512), 2);
    assert_eq!(effective_k(4095, 4, 512), 512);
    assert_eq!(effective_k(100_000, 4, 512), 512);
    assert_eq!(effective_k(100, 4, 0), 0);
}

#[test]
fn task_queue_hands_out_each_task_once() {
    let q = TaskQueue::new(3, ExecutionPolicy::default());
    assert_eq!(q.total(), 3);
    assert_eq!(q.next(), Some(0));
    assert_eq!(q.next(), Some(1));
    assert_eq!(q.next(), Some(2));
    assert_eq!(q.next(), None);
    assert_eq!(q.next(), None);
    q.reset();
    assert_eq!(q.next(), Some(0));
    assert_eq!(q.total(), 3);
    assert_eq!(q.policy().backward, BackwardBackend::DualPassAtomicFree);
}

#[test]
fn task_for_ticket_is_exact() {
    assert_eq!(TaskQueue::task_for_ticket(0, 1), Some(0));
    assert_eq!(TaskQueue::task_for_ticket(1, 1), None);
    assert_eq!(TaskQueue::task_for_ticket(5, 0), None);
    assert_eq!(TaskQueue::task_for_ticket(u32::MAX - 1, u32::MAX), Some(u32::MAX - 1));
}

#[test]
fn empty_task_queue() {
    let q = TaskQueue::new(0, ExecutionPolicy::default());
    assert_eq!(q.next(), None);
}

#[test]
fn slab_reduction_count_is_product() {
    assert_eq!(slab_dc_reduction_count(4, 1024), 4096);
    assert_eq!(slab_dc_reduction_count(0, 7), 0);
}

#[test]
fn default_policy() {
    let p = ExecutionPolicy::default();
    assert_eq!(p.backward, BackwardBackend::DualPassAtomicFree);
    assert!(p.deterministic);
    assert_eq!(p.workspace_limit_bytes, 0);
    assert_eq!(p.query_slab, 0);
    assert_eq!(p.head_group, 0);
}

#[test]
fn task_kinds_compare() {
    assert_eq!(TaskKind::QueryDQ, TaskKind::QueryDQ);
    assert_ne!(TaskKind::HotDCChunk, TaskKind::HotDCReduce);
    assert_eq!(SINK_VALUES_PER_HEAD, 1);
}

#[test]
fn cuda_error_keeps_message() {
    match FerrioxError::cuda("device lost") {
        FerrioxError::Cuda(s) => assert_eq!(s, "device lost"),
        other => panic!("unexpected {:?}", other),
    }
}

#[test]
fn workspace_fills_to_capacity() {
    let mut ws = Workspace::new(64);
    assert_eq!(ws.capacity(), 64);
    assert_eq!(ws.allocate(10, 1).unwrap(), 0);
    assert_eq!(ws.allocate(48, 16).unwrap(), 16);
    assert_eq!(ws.high_water(), 64);
}

#[test]
fn workspace_largest_alignment() {
    // (1 + (2^64 - 1) - 1) & !(2^64 - 2) == 1
    let mut ws = Workspace::new(8);
    assert_eq!(ws.allocate(1, 1).unwrap(), 0);
    assert_eq!(ws.allocate(0, u64::MAX).unwrap(), 1);
}

#[test]
fn workspace_ranges_do_not_overlap() {
    let mut ws = Workspace::new(4096);
    let a = ws.allocate(3, 8).unwrap();
    let b = ws.allocate(5, 8).unwrap();
    let c = ws.allocate(1, 256).unwrap();
    assert_eq!((a, b, c), (0, 8, 256));
    assert!(a + 3 <= b && b + 5 <= c);
    assert_eq!(ws.high_water(), 257);
    ws.reset();
    assert_eq!(ws.allocate(1, 1).unwrap(), 0);
    // Reset keeps the high-water mark.
    assert_eq!(ws.high_water(), 257);
}

#[test]
fn workspace_non_power_of_two_alignment_uses_mask() {
    let mut ws = Workspace::new(100);
    assert_eq!(ws.allocate(1, 1).unwrap(), 0);
    // (1 + 3 - 1) & !(3 - 1) = 3 & !2 = 1
    assert_eq!(ws.allocate(2, 3).unwrap(), 1);
}

#[test]
fn zero_capacity_workspace() {
    let mut ws = Workspace::new(0);
    assert_eq!(ws.allocate(0, 1).unwrap(), 0);
    assert_eq!(ws.high_water(), 0);
}

#[test]
fn strides_are_suffix_products() {
    assert_eq!(compute_strides(&[2, 3, 4, 5]), vec![60, 20, 5, 1]);
    assert_eq!(compute_strides(&[7]), vec![1]);
    assert_eq!(compute_strides(&[3, 0, 4]), vec![0, 4, 1]);
}

#[test]
fn tensor_layout() {
    let t = Tensor::new(vec![0.0f32; 24], vec![2, 3, 4]);
    assert_eq!(t.strides, vec![12, 4, 1]);
    assert_eq!(t.num_elems(), 24);
    assert_eq!(t.num_elems(), t.shape[0] * t.strides[0]);
    assert_eq!(t.buf.len(), 24);
    let s = Tensor::new((), vec![5, 0, 9]);
    assert_eq!(s.num_elems(), 0);
}

#[test]
fn error_text_per_variant() {
    assert_eq!(FerrioxError::cuda("oom").to_string(), "CUDA error: oom");
    assert_eq!(
        FerrioxError::InvalidParam("bad".to_string()).to_string(),
        "invalid parameter: bad"
    );
    assert_eq!(
        FerrioxError::Unsupported("fp8".to_string()).to_string(),
        "unsupported configuration: fp8"
    );
    assert_eq!(
        FerrioxError::KernelLaunch("grid".to_string()).to_string(),
        "kernel launch failed: grid"
    );
}

#[test]
fn workspace_fits_and_cursor() {
    let mut ws = Workspace::new(64);
    assert_eq!(ws.cursor(), 0);
    assert!(ws.fits(64, 1));
    assert!(!ws.fits(65, 1));
    ws.allocate(10, 1).unwrap();
    assert_eq!(ws.cursor(), 10);
    // The next 16-aligned range starts at 16: 48 bytes fit, 49 do not.
    assert!(ws.fits(48, 16));
    assert!(!ws.fits(49, 16));
    assert!(!ws.fits(u64::MAX, 1));
    ws.allocate(48, 16).unwrap();
    assert_eq!(ws.cursor(), 64);
    ws.reset();
    assert_eq!(ws.cursor(), 0);
    assert!(ws.fits(64, 1));
    assert_eq!(ws.high_water(), 64);
}

#[test]
fn workspace_ranges_do_not_overlap_across_allocations() {
    let mut ws = Workspace::new(1 << 12);
    let first = ws.allocate(7, 4).unwrap();
    let _ = ws.allocate(100, 32).unwrap();
    let _ = ws.allocate(1, 1).unwrap();
    let last = ws.allocate(9, 64).unwrap();
    assert!(first + 7 <= last);
    assert!(last + 9 <= ws.capacity());
}
