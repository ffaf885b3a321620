//! Integration tests for the host-side pipeline logic.

use ferriox::build_reverse_index;
use ferriox::routing::{EntryComparator, ScoreOrder};
use ferriox::indexer::legal_domain_size;
use ferriox::workspace::Workspace;
use ferriox::BlockSelection;

/// Verify that the legal domain function matches the documented contract.
#[test]
fn legal_domain_contract() {
    let m = 4;
    assert_eq!(legal_domain_size(0, m), 0);
    assert_eq!(legal_domain_size(1, m), 0);
    assert_eq!(legal_domain_size(2, m), 0);
    assert_eq!(legal_domain_size(3, m), 1);
    assert_eq!(legal_domain_size(4, m), 1);
    assert_eq!(legal_domain_size(7, m), 2);
}

/// Verify the reverse view builder produces correct edge counts.
#[test]
fn reverse_view_edge_count() {
    // Selected blocks per query of the V4-Flash profile.
    let selected_blocks = 16u32;
    let batch = 2u32;
    let seq_len = 8u32;
    let kappa = selected_blocks as usize;

    let total_queries = (batch * seq_len) as usize;
    let mut block_ids = vec![u32::MAX; total_queries * kappa];
    for q in 0..total_queries {
        block_ids[q * kappa] = 0;
        block_ids[q * kappa + 1] = 1;
    }

    let selection = BlockSelection::new(block_ids, batch, seq_len, kappa as u32);

    let reverse = build_reverse_index(&selection, 2).expect("reverse view build should succeed");
    assert_eq!(reverse.block_degrees[0], total_queries as u32);
    assert_eq!(reverse.block_degrees[1], total_queries as u32);
    assert_eq!(reverse.query_handles.len(), (total_queries * 2) as usize);
}

/// How two scores compare, with a NaN score taken as `-infinity`.
fn score_order(a: f32, b: f32) -> ScoreOrder {
    let a = if a.is_nan() { f32::NEG_INFINITY } else { a };
    let b = if b.is_nan() { f32::NEG_INFINITY } else { b };
    if a > b {
        ScoreOrder::Greater
    } else if a == b {
        ScoreOrder::Equal
    } else {
        ScoreOrder::Less
    }
}

/// Verify the entry comparator tie-break rule.
#[test]
fn entry_comparator_tie_break() {
    assert!(EntryComparator::outranks(score_order(1.0, 0.5), 5, 0));
    assert!(EntryComparator::outranks(score_order(1.0, 1.0), 3, 7));
    assert!(!EntryComparator::outranks(score_order(1.0, 1.0), 7, 3));
}

/// Verify the workspace allocator.
#[test]
fn workspace_alloc_alignment() {
    let mut ws = Workspace::new(1024);
    let off = ws.allocate(100, 16).unwrap();
    assert_eq!(off % 16, 0);
    let off2 = ws.allocate(200, 64).unwrap();
    assert_eq!(off2 % 64, 0);
    assert!(ws.high_water() <= 1024);
    ws.reset();
    let off3 = ws.allocate(500, 1).unwrap();
    assert_eq!(off3, 0);
}
