//! Block-routing logic and reverse view construction.
//!
//! Entry-to-block arithmetic, the deterministic tie-break between equally
//! scored entries, and construction of the CSR → CSC reverse view used by
//! KV-outer execution and the backward passes.
use vstd::prelude::*;

use crate::config::{BlockSelection, ReverseBlockIndex, INVALID_BLOCK};
use crate::error::FerrioxError;

verus! {

// ── Model of the reverse view ───────────────────────────────────────────────

/// Handle of selection slot `slot` of query `q`: the query in the high
/// half-word, the slot in the low one.
pub open spec fn pack_handle(q: u32, slot: u32) -> u32 {
    (q << 16u32) | slot
}

/// The handles, in row-major `(query, slot)` order, of the first `n` flat
/// selection positions that name routing block `r` (`kappa` slots per query).
pub open spec fn selectors(ids: Seq<u32>, kappa: nat, n: nat, r: nat) -> Seq<u32>
    decreases n,
{
    if n == 0 {
        Seq::empty()
    } else {
        let i = (n - 1) as nat;
        let prev = selectors(ids, kappa, i, r);
        if ids[i as int] == r {
            prev.push(pack_handle((i / kappa) as u32, (i % kappa) as u32))
        } else {
            prev
        }
    }
}

/// Number of the first `n` flat selection positions that hold a block id
/// (not the empty-slot sentinel).
pub open spec fn count_selected(ids: Seq<u32>, n: nat) -> nat
    decreases n,
{
    if n == 0 {
        0
    } else {
        let i = (n - 1) as nat;
        count_selected(ids, i) + if ids[i as int] != INVALID_BLOCK { 1nat } else { 0nat }
    }
}

/// Start of block `r`'s segment: the number of selector handles of all
/// blocks below `r` among the first `n` positions.
pub open spec fn block_offset(ids: Seq<u32>, kappa: nat, n: nat, r: nat) -> nat
    decreases r,
{
    if r == 0 {
        0
    } else {
        block_offset(ids, kappa, n, (r - 1) as nat) + selectors(ids, kappa, n, (r - 1) as nat).len()
    }
}

/// Number of blocks below `r` that at least one of the first `n` positions selects.
pub open spec fn selected_block_count(ids: Seq<u32>, kappa: nat, n: nat, r: nat) -> nat
    decreases r,
{
    if r == 0 {
        0
    } else {
        selected_block_count(ids, kappa, n, (r - 1) as nat) + if selectors(
            ids,
            kappa,
            n,
            (r - 1) as nat,
        ).len() > 0 {
            1nat
        } else {
            0nat
        }
    }
}

/// Every one of the first `n` positions is empty or names a block below `num_blocks`.
pub open spec fn ids_in_range(ids: Seq<u32>, n: nat, num_blocks: nat) -> bool {
    forall|i: int| 0 <= i < n ==> #[trigger] ids[i] == INVALID_BLOCK || ids[i] < num_blocks
}

/// The selections that `build_reverse_view` accepts: `batch * seq_len` fits
/// in `u32`, the buffer holds every slot, every id names an existing block
/// (or is the sentinel), and the number of edges fits in `u32`.
pub open spec fn reverse_view_input_ok(selection: &BlockSelection, num_routing_blocks: u32) -> bool {
    let n = selection.num_queries() * selection.spec_kappa();
    &&& selection.batch * selection.seq_len <= u32::MAX
    &&& selection.block_ids@.len() >= n
    &&& ids_in_range(selection.block_ids@, n, num_routing_blocks as nat)
    &&& count_selected(selection.block_ids@, n) <= u32::MAX
}

/// `rev` is the reverse (CSC) view of the first `n` positions of `ids`
/// over `num_blocks` routing blocks.
pub open spec fn is_reverse_view(
    rev: ReverseBlockIndex,
    ids: Seq<u32>,
    kappa: nat,
    n: nat,
    num_blocks: nat,
) -> bool {
    &&& rev.block_degrees@.len() == num_blocks
    &&& rev.block_offsets@.len() == num_blocks + 1
    &&& forall|r: int|
        0 <= r < num_blocks ==> #[trigger] rev.block_degrees@[r] == selectors(
            ids,
            kappa,
            n,
            r as nat,
        ).len()
    &&& forall|r: int|
        0 <= r <= num_blocks ==> #[trigger] rev.block_offsets@[r] == block_offset(
            ids,
            kappa,
            n,
            r as nat,
        )
    &&& rev.query_handles@.len() == count_selected(ids, n)
    &&& forall|r: int|
        0 <= r < num_blocks ==> #[trigger] rev.query_handles@.subrange(
            rev.block_offsets@[r] as int,
            rev.block_offsets@[r + 1] as int,
        ) == selectors(ids, kappa, n, r as nat)
    &&& rev.block_count == selected_block_count(ids, kappa, n, num_blocks)
}

// ── Lemmas on the model ─────────────────────────────────────────────────────

proof fn lemma_selectors_len_le_count(ids: Seq<u32>, kappa: nat, n: nat, r: nat)
    requires
        r < INVALID_BLOCK,
    ensures
        selectors(ids, kappa, n, r).len() <= count_selected(ids, n),
    decreases n,
{
    if n > 0 {
        lemma_selectors_len_le_count(ids, kappa, (n - 1) as nat, r);
    }
}

proof fn lemma_count_mono(ids: Seq<u32>, n: nat, m: nat)
    requires
        n <= m,
    ensures
        count_selected(ids, n) <= count_selected(ids, m),
    decreases m,
{
    if n < m {
        lemma_count_mono(ids, n, (m - 1) as nat);
    }
}

proof fn lemma_selectors_len_mono(ids: Seq<u32>, kappa: nat, n: nat, m: nat, r: nat)
    requires
        n <= m,
    ensures
        selectors(ids, kappa, n, r).len() <= selectors(ids, kappa, m, r).len(),
        selectors(ids, kappa, m, r).subrange(0, selectors(ids, kappa, n, r).len() as int)
            == selectors(ids, kappa, n, r),
    decreases m,
{
    if n < m {
        lemma_selectors_len_mono(ids, kappa, n, (m - 1) as nat, r);
        let a = selectors(ids, kappa, n, r);
        let b = selectors(ids, kappa, (m - 1) as nat, r);
        let c = selectors(ids, kappa, m, r);
        assert(c.subrange(0, a.len() as int) =~= b.subrange(0, a.len() as int));
    } else {
        let a = selectors(ids, kappa, n, r);
        assert(a.subrange(0, a.len() as int) =~= a);
    }
}

proof fn lemma_block_offset_mono(ids: Seq<u32>, kappa: nat, n: nat, r: nat, s: nat)
    requires
        r <= s,
    ensures
        block_offset(ids, kappa, n, r) <= block_offset(ids, kappa, n, s),
    decreases s,
{
    if r < s {
        lemma_block_offset_mono(ids, kappa, n, r, (s - 1) as nat);
    }
}

/// Adding position `n` adds one handle below `num_blocks` exactly when it
/// names a block below `num_blocks`.
proof fn lemma_block_offset_step(ids: Seq<u32>, kappa: nat, n: nat, num_blocks: nat)
    ensures
        block_offset(ids, kappa, n + 1, num_blocks) == block_offset(ids, kappa, n, num_blocks) + if ids[n as int]
            < num_blocks {
            1nat
        } else {
            0nat
        },
    decreases num_blocks,
{
    if num_blocks > 0 {
        lemma_block_offset_step(ids, kappa, n, (num_blocks - 1) as nat);
    }
}

proof fn lemma_block_offset_empty(ids: Seq<u32>, kappa: nat, r: nat)
    ensures
        block_offset(ids, kappa, 0, r) == 0,
    decreases r,
{
    if r > 0 {
        lemma_block_offset_empty(ids, kappa, (r - 1) as nat);
    }
}

/// All handles of the first `n` positions lie below `block_offset(.., num_blocks)`:
/// their number is the number of non-empty slots.
proof fn lemma_block_offset_total(ids: Seq<u32>, kappa: nat, n: nat, num_blocks: nat)
    requires
        ids_in_range(ids, n, num_blocks),
        num_blocks <= INVALID_BLOCK,
    ensures
        block_offset(ids, kappa, n, num_blocks) == count_selected(ids, n),
    decreases n,
{
    if n > 0 {
        let i = (n - 1) as nat;
        assert(ids_in_range(ids, i, num_blocks));
        lemma_block_offset_total(ids, kappa, i, num_blocks);
        lemma_block_offset_step(ids, kappa, i, num_blocks);
        assert(ids[i as int] == INVALID_BLOCK || ids[i as int] < num_blocks);
    } else {
        lemma_block_offset_empty(ids, kappa, num_blocks);
    }
}

/// Position `q * kappa + slot` of a row-major buffer belongs to query `q`, slot `slot`.
proof fn lemma_flat_index(flat: nat, q: nat, slot: nat, kappa: nat)
    requires
        slot < kappa,
        flat == q * kappa + slot,
    ensures
        flat / kappa == q,
        flat % kappa == slot,
{
    vstd::arithmetic::div_mod::lemma_fundamental_div_mod_converse(
        flat as int,
        kappa as int,
        q as int,
        slot as int,
    );
}

// ── Reverse view construction ───────────────────────────────────────────────

/// Construct the reverse (CSC) block view from a forward selection.
///
/// Given the `[B, S, κ]` block IDs, build a per-block query list:
///   - `block_offsets[r]`  → start index in `query_handles`
///   - `block_degrees[r]`  → number of queries selecting block `r`
///   - `query_handles`     → packed `(query_id, slot)` pairs
///   - `block_count`       → number of blocks with ≥1 selector
///
/// Order is fixed for determinism: `(block_id, query_id, slot)`.
pub fn build_reverse_view(selection: &BlockSelection, num_routing_blocks: u32) -> (res: Result<
    ReverseBlockIndex,
    FerrioxError,
>)
    requires
        reverse_view_input_ok(selection, num_routing_blocks),
    ensures
        res matches Ok(rev) && is_reverse_view(
            rev,
            selection.block_ids@,
            selection.spec_kappa(),
            selection.num_queries() * selection.spec_kappa(),
            num_routing_blocks as nat,
        ),
{
    let ids = &selection.block_ids;
    // Bounds every flat position by a machine-sized length.
    let ids_len = ids.len();
    let total_queries = (selection.batch * selection.seq_len) as usize;
    let kappa = selection.kappa() as usize;
    let num_blocks = num_routing_blocks as usize;
    let ghost k = kappa as nat;
    let ghost n_total = selection.num_queries() * k;
    let ghost r_total = num_blocks as nat;
    assert(n_total == (total_queries as nat) * k);

    // First pass: count degree per block.
    let mut degrees: Vec<u32> = vec![0u32; num_blocks];
    let mut flat: usize = 0;
    let mut q: usize = 0;
    while q < total_queries
        invariant
            reverse_view_input_ok(selection, num_routing_blocks),
            ids == &selection.block_ids,
            kappa == selection.spec_kappa(),
            k == kappa,
            num_blocks == num_routing_blocks,
            r_total == num_blocks,
            n_total == (total_queries as nat) * k,
            q <= total_queries,
            flat == q * kappa,
            ids@.len() >= n_total,
            ids_len == ids@.len(),
            ids_in_range(ids@, n_total, r_total),
            count_selected(ids@, n_total) <= u32::MAX,
            degrees@.len() == num_blocks,
            forall|r: int|
                0 <= r < num_blocks ==> #[trigger] degrees@[r] == selectors(
                    ids@,
                    k,
                    flat as nat,
                    r as nat,
                ).len(),
        decreases total_queries - q,
    {
        assert((q + 1) * kappa <= total_queries * kappa) by (nonlinear_arith)
            requires
                q + 1 <= total_queries,
        ;
        assert((q + 1) * kappa == q * kappa + kappa) by (nonlinear_arith);
        let mut slot: usize = 0;
        while slot < kappa
            invariant
                reverse_view_input_ok(selection, num_routing_blocks),
                ids == &selection.block_ids,
                kappa == selection.spec_kappa(),
                k == kappa,
                num_blocks == num_routing_blocks,
                r_total == num_blocks,
                n_total == (total_queries as nat) * k,
                q < total_queries,
                slot <= kappa,
                flat == q * kappa + slot,
                q * kappa + kappa <= n_total,
                ids@.len() >= n_total,
                ids_len == ids@.len(),
                ids_in_range(ids@, n_total, r_total),
                count_selected(ids@, n_total) <= u32::MAX,
                degrees@.len() == num_blocks,
                forall|r: int|
                    0 <= r < num_blocks ==> #[trigger] degrees@[r] == selectors(
                        ids@,
                        k,
                        flat as nat,
                        r as nat,
                    ).len(),
            decreases kappa - slot,
        {
            let bid = ids[flat];
            proof {
                assert(ids@[flat as int] == INVALID_BLOCK || ids@[flat as int] < num_blocks);
            }
            if bid != INVALID_BLOCK {
                let b = bid as usize;
                proof {
                    lemma_selectors_len_le_count(ids@, k, (flat + 1) as nat, b as nat);
                    lemma_count_mono(ids@, (flat + 1) as nat, n_total);
                    assert(degrees@[b as int] == selectors(ids@, k, flat as nat, b as nat).len());
                    assert(selectors(ids@, k, (flat + 1) as nat, b as nat).len() == selectors(
                        ids@,
                        k,
                        flat as nat,
                        b as nat,
                    ).len() + 1);
                }
                degrees.set(b, degrees[b] + 1);
            }
            proof {
                assert forall|r: int| 0 <= r < num_blocks implies #[trigger] degrees@[r]
                    == selectors(ids@, k, (flat + 1) as nat, r as nat).len() by {
                    assert(selectors(ids@, k, (flat + 1) as nat, r as nat) == if ids@[flat as int]
                        == r {
                        selectors(ids@, k, flat as nat, r as nat).push(
                            pack_handle(((flat as nat) / k) as u32, ((flat as nat) % k) as u32),
                        )
                    } else {
                        selectors(ids@, k, flat as nat, r as nat)
                    });
                }
            }
            flat = flat + 1;
            slot = slot + 1;
        }
        q = q + 1;
    }
    assert(flat == n_total);

    // Prefix sum → offsets.
    proof {
        lemma_block_offset_total(ids@, k, n_total, r_total);
    }
    let mut offsets: Vec<u32> = Vec::new();
    offsets.push(0);
    let mut r: usize = 0;
    while r < num_blocks
        invariant
            degrees@.len() == num_blocks,
            offsets@.len() == r + 1,
            r <= num_blocks,
            r_total == num_blocks,
            block_offset(ids@, k, n_total, r_total) == count_selected(ids@, n_total),
            count_selected(ids@, n_total) <= u32::MAX,
            forall|b: int|
                0 <= b < num_blocks ==> #[trigger] degrees@[b] == selectors(
                    ids@,
                    k,
                    n_total,
                    b as nat,
                ).len(),
            forall|b: int|
                0 <= b <= r ==> #[trigger] offsets@[b] == block_offset(ids@, k, n_total, b as nat),
        decreases num_blocks - r,
    {
        proof {
            lemma_block_offset_mono(ids@, k, n_total, (r + 1) as nat, r_total);
        }
        let next = offsets[r] + degrees[r];
        offsets.push(next);
        r = r + 1;
    }
    let total_edges = offsets[num_blocks] as usize;

    // Second pass: fill handles in stable (block, query, slot) order.
    let mut cursors: Vec<u32> = Vec::new();
    let mut r: usize = 0;
    while r < num_blocks
        invariant
            offsets@.len() == num_blocks + 1,
            r <= num_blocks,
            cursors@ == offsets@.subrange(0, r as int),
        decreases num_blocks - r,
    {
        cursors.push(offsets[r]);
        r = r + 1;
        assert(cursors@ =~= offsets@.subrange(0, r as int));
    }
    let mut handles: Vec<u32> = vec![0u32; total_edges];
    let mut flat: usize = 0;
    let mut q: usize = 0;
    while q < total_queries
        invariant
            reverse_view_input_ok(selection, num_routing_blocks),
            ids == &selection.block_ids,
            kappa == selection.spec_kappa(),
            k == kappa,
            num_blocks == num_routing_blocks,
            r_total == num_blocks,
            n_total == (total_queries as nat) * k,
            total_queries <= u32::MAX,
            q <= total_queries,
            flat == q * kappa,
            ids@.len() >= n_total,
            ids_len == ids@.len(),
            ids_in_range(ids@, n_total, r_total),
            count_selected(ids@, n_total) <= u32::MAX,
            offsets@.len() == num_blocks + 1,
            forall|b: int|
                0 <= b <= num_blocks ==> #[trigger] offsets@[b] == block_offset(
                    ids@,
                    k,
                    n_total,
                    b as nat,
                ),
            handles@.len() == total_edges,
            total_edges == block_offset(ids@, k, n_total, r_total),
            block_offset(ids@, k, n_total, r_total) == count_selected(ids@, n_total),
            cursors@.len() == num_blocks,
            forall|b: int|
                0 <= b < num_blocks ==> #[trigger] cursors@[b] == block_offset(
                    ids@,
                    k,
                    n_total,
                    b as nat,
                ) + selectors(ids@, k, flat as nat, b as nat).len(),
            forall|b: int, j: int|
                0 <= b < num_blocks && 0 <= j < selectors(ids@, k, flat as nat, b as nat).len()
                    ==> handles@[block_offset(ids@, k, n_total, b as nat) + j] == #[trigger] selectors(
                    ids@,
                    k,
                    flat as nat,
                    b as nat,
                )[j],
        decreases total_queries - q,
    {
        assert((q + 1) * kappa <= total_queries * kappa) by (nonlinear_arith)
            requires
                q + 1 <= total_queries,
        ;
        assert((q + 1) * kappa == q * kappa + kappa) by (nonlinear_arith);
        let mut slot: usize = 0;
        while slot < kappa
            invariant
                reverse_view_input_ok(selection, num_routing_blocks),
                ids == &selection.block_ids,
                kappa == selection.spec_kappa(),
                k == kappa,
                num_blocks == num_routing_blocks,
                r_total == num_blocks,
                n_total == (total_queries as nat) * k,
                total_queries <= u32::MAX,
                q < total_queries,
                slot <= kappa,
                flat == q * kappa + slot,
                q * kappa + kappa <= n_total,
                ids@.len() >= n_total,
                ids_len == ids@.len(),
                ids_in_range(ids@, n_total, r_total),
                count_selected(ids@, n_total) <= u32::MAX,
                offsets@.len() == num_blocks + 1,
                forall|b: int|
                    0 <= b <= num_blocks ==> #[trigger] offsets@[b] == block_offset(
                        ids@,
                        k,
                        n_total,
                        b as nat,
                    ),
                handles@.len() == total_edges,
                total_edges == block_offset(ids@, k, n_total, r_total),
                block_offset(ids@, k, n_total, r_total) == count_selected(ids@, n_total),
                cursors@.len() == num_blocks,
                forall|b: int|
                    0 <= b < num_blocks ==> #[trigger] cursors@[b] == block_offset(
                        ids@,
                        k,
                        n_total,
                        b as nat,
                    ) + selectors(ids@, k, flat as nat, b as nat).len(),
                forall|b: int, j: int|
                    0 <= b < num_blocks && 0 <= j < selectors(ids@, k, flat as nat, b as nat).len()
                        ==> handles@[block_offset(ids@, k, n_total, b as nat) + j]
                        == #[trigger] selectors(ids@, k, flat as nat, b as nat)[j],
            decreases kappa - slot,
        {
            let bid = ids[flat];
            let ghost old_handles = handles@;
            let ghost h = pack_handle(((flat as nat) / k) as u32, ((flat as nat) % k) as u32);
            proof {
                assert(ids@[flat as int] == INVALID_BLOCK || ids@[flat as int] < num_blocks);
                lemma_flat_index(flat as nat, q as nat, slot as nat, k);
            }
            if bid != INVALID_BLOCK {
                let b = bid as usize;
                let pos = cursors[b] as usize;
                proof {
                    lemma_selectors_len_mono(ids@, k, (flat + 1) as nat, n_total, b as nat);
                    lemma_block_offset_mono(ids@, k, n_total, (b + 1) as nat, r_total);
                    assert(pos < total_edges);
                }
                let handle = ((q as u32) << 16u32) | (slot as u32);
                assert(handle == h);
                handles.set(pos, handle);
                assert(selectors(ids@, k, (flat + 1) as nat, b as nat) == selectors(
                    ids@,
                    k,
                    flat as nat,
                    b as nat,
                ).push(h));
                let next = cursors[b] + 1;
                cursors.set(b, next);
                proof {
                    assert forall|c: int, j: int|
                        0 <= c < num_blocks && 0 <= j < selectors(
                            ids@,
                            k,
                            (flat + 1) as nat,
                            c as nat,
                        ).len() implies handles@[block_offset(ids@, k, n_total, c as nat) + j]
                        == #[trigger] selectors(ids@, k, (flat + 1) as nat, c as nat)[j] by {
                        let sc = selectors(ids@, k, flat as nat, c as nat);
                        let oc = block_offset(ids@, k, n_total, c as nat);
                        if c == b {
                            if j < sc.len() {
                                assert(sc[j] == selectors(ids@, k, flat as nat, c as nat)[j]);
                                assert(old_handles[oc + j] == sc[j]);
                                assert(oc + j != pos);
                                assert(handles@[oc + j] == old_handles[oc + j]);
                            } else {
                                assert(oc + j == pos);
                                assert(handles@[oc + j] == h);
                                assert(selectors(ids@, k, (flat + 1) as nat, c as nat)[j] == h);
                            }
                        } else {
                            assert(ids@[flat as int] != c);
                            assert(selectors(ids@, k, (flat + 1) as nat, c as nat) == sc);
                            assert(sc[j] == selectors(ids@, k, flat as nat, c as nat)[j]);
                            assert(old_handles[oc + j] == sc[j]);
                            lemma_selectors_len_mono(ids@, k, flat as nat, n_total, c as nat);
                            lemma_block_offset_mono(ids@, k, n_total, (c + 1) as nat, r_total);
                            assert(block_offset(ids@, k, n_total, (c + 1) as nat) == oc + selectors(
                                ids@,
                                k,
                                n_total,
                                c as nat,
                            ).len());
                            if c < b {
                                lemma_block_offset_mono(ids@, k, n_total, (c + 1) as nat, b as nat);
                            } else {
                                lemma_block_offset_mono(ids@, k, n_total, (b + 1) as nat, c as nat);
                                assert(block_offset(ids@, k, n_total, (b + 1) as nat)
                                    == block_offset(ids@, k, n_total, b as nat) + selectors(
                                    ids@,
                                    k,
                                    n_total,
                                    b as nat,
                                ).len());
                            }
                            assert(oc + j != pos);
                            assert(handles@[oc + j] == old_handles[oc + j]);
                        }
                    }
                }
            } else {
                proof {
                    assert forall|c: int, j: int|
                        0 <= c < num_blocks && 0 <= j < selectors(
                            ids@,
                            k,
                            (flat + 1) as nat,
                            c as nat,
                        ).len() implies handles@[block_offset(ids@, k, n_total, c as nat) + j]
                        == #[trigger] selectors(ids@, k, (flat + 1) as nat, c as nat)[j] by {
                        assert(ids@[flat as int] != c);
                        assert(selectors(ids@, k, (flat + 1) as nat, c as nat) == selectors(
                            ids@,
                            k,
                            flat as nat,
                            c as nat,
                        ));
                        assert(selectors(ids@, k, flat as nat, c as nat)[j] == selectors(
                            ids@,
                            k,
                            (flat + 1) as nat,
                            c as nat,
                        )[j]);
                    }
                }
            }
            let ghost prev_flat = flat;
            flat = flat + 1;
            slot = slot + 1;
            proof {
                assert forall|c: int, j: int|
                    0 <= c < num_blocks && 0 <= j < selectors(ids@, k, flat as nat, c as nat).len()
                        implies handles@[block_offset(ids@, k, n_total, c as nat) + j]
                        == #[trigger] selectors(ids@, k, flat as nat, c as nat)[j] by {
                    assert(selectors(ids@, k, flat as nat, c as nat) == selectors(
                        ids@,
                        k,
                        (prev_flat + 1) as nat,
                        c as nat,
                    ));
                    assert(selectors(ids@, k, flat as nat, c as nat)[j] == selectors(
                        ids@,
                        k,
                        (prev_flat + 1) as nat,
                        c as nat,
                    )[j]);
                }
            }
        }
        q = q + 1;
    }
    assert(flat == n_total);

    // Number of blocks with at least one selector.
    let mut block_count: u32 = 0;
    let mut r: usize = 0;
    while r < num_blocks
        invariant
            degrees@.len() == num_blocks,
            r <= num_blocks,
            num_blocks <= u32::MAX,
            forall|b: int|
                0 <= b < num_blocks ==> #[trigger] degrees@[b] == selectors(
                    ids@,
                    k,
                    n_total,
                    b as nat,
                ).len(),
            block_count == selected_block_count(ids@, k, n_total, r as nat),
            block_count <= r,
        decreases num_blocks - r,
    {
        if degrees[r] > 0 {
            block_count = block_count + 1;
        }
        r = r + 1;
    }

    let rev = ReverseBlockIndex {
        block_offsets: offsets,
        query_handles: handles,
        block_degrees: degrees,
        block_count,
    };
    proof {
        assert forall|b: int| 0 <= b < num_blocks implies #[trigger] rev.query_handles@.subrange(
            rev.block_offsets@[b] as int,
            rev.block_offsets@[b + 1] as int,
        ) == selectors(ids@, k, n_total, b as nat) by {
            let s = selectors(ids@, k, n_total, b as nat);
            let sub = rev.query_handles@.subrange(
                rev.block_offsets@[b] as int,
                rev.block_offsets@[b + 1] as int,
            );
            lemma_block_offset_mono(ids@, k, n_total, (b + 1) as nat, r_total);
            assert forall|j: int| 0 <= j < s.len() implies sub[j] == s[j] by {
                assert(s[j] == selectors(ids@, k, flat as nat, b as nat)[j]);
            }
            assert(sub =~= s);
        }
    }
    Ok(rev)
}

// ── Entry ranking ───────────────────────────────────────────────────────────

/// How the score of entry `a` compares with the score of entry `b`
/// (a NaN score is taken as `-infinity` before comparing).
#[derive(Debug, Clone, Copy, PartialEq, Eq, Structural)]
pub enum ScoreOrder {
    /// `a` scores higher than `b`.
    Greater,
    /// `a` and `b` score the same.
    Equal,
    /// `a` scores lower than `b`.
    Less,
}

impl ScoreOrder {
    /// The order seen from the other entry.
    pub open spec fn flip(self) -> ScoreOrder {
        match self {
            ScoreOrder::Greater => ScoreOrder::Less,
            ScoreOrder::Equal => ScoreOrder::Equal,
            ScoreOrder::Less => ScoreOrder::Greater,
        }
    }
}

/// Entry `a` outranks entry `b`: it scores higher, or scores the same and
/// has the smaller global entry index.
pub open spec fn outranks_spec(order: ScoreOrder, a_idx: u32, b_idx: u32) -> bool {
    order == ScoreOrder::Greater || (order == ScoreOrder::Equal && a_idx < b_idx)
}

/// Deterministic block entry-score comparator.
///
/// Ferriox uses the StreamIndex tie-break: smaller entry index wins a tie.
#[derive(Debug, Clone, Copy)]
pub struct EntryComparator;

impl EntryComparator {
    /// Whether entry `a` outranks entry `b`, given how their scores compare.
    pub fn outranks(order: ScoreOrder, a_idx: u32, b_idx: u32) -> (r: bool)
        ensures
            r == outranks_spec(order, a_idx, b_idx),
            order == ScoreOrder::Greater ==> r,
            order == ScoreOrder::Less ==> !r,
            order == ScoreOrder::Equal ==> (r <==> a_idx < b_idx),
    {
        match order {
            ScoreOrder::Greater => true,
            ScoreOrder::Equal => a_idx < b_idx,
            ScoreOrder::Less => false,
        }
    }
}

/// The tie-break ranks any two distinct entries strictly: exactly one of
/// them outranks the other, and no entry outranks itself.
pub proof fn lemma_tie_break_strict_total(order: ScoreOrder, a_idx: u32, b_idx: u32)
    ensures
        a_idx != b_idx ==> (outranks_spec(order, a_idx, b_idx) != outranks_spec(
            order.flip(),
            b_idx,
            a_idx,
        )),
        !outranks_spec(ScoreOrder::Equal, a_idx, a_idx),
{
}

/// A strictly higher score always outranks and a strictly lower score never
/// does, whatever the entry indices; between equal scores the smaller index
/// wins.
pub proof fn lemma_score_decides_rank(a_idx: u32, b_idx: u32)
    ensures
        outranks_spec(ScoreOrder::Greater, a_idx, b_idx),
        !outranks_spec(ScoreOrder::Less, a_idx, b_idx),
        outranks_spec(ScoreOrder::Equal, a_idx, b_idx) <==> a_idx < b_idx,
{
}

// ── Entry / block arithmetic ────────────────────────────────────────────────

/// Convert a compressed-entry index to its routing-block index.
pub fn entry_to_block(entry_idx: u32, b_k: u32) -> (r: u32)
    requires
        b_k > 0,
    ensures
        r == entry_idx / b_k,
{
    entry_idx / b_k
}

/// Convert a routing-block index to the start entry index.
pub fn block_to_entry_start(block_idx: u32, b_k: u32) -> (r: u32)
    requires
        block_idx * b_k <= u32::MAX,
    ensures
        r == block_idx * b_k,
{
    block_idx * b_k
}

/// Every entry lies inside the routing block that `entry_to_block` names:
/// at or after its start and before the start of the next block.
pub proof fn lemma_entry_within_block(entry_idx: u32, b_k: u32)
    requires
        b_k > 0,
    ensures
        (entry_idx / b_k) * b_k <= entry_idx < (entry_idx / b_k) * b_k + b_k,
{
    let e = entry_idx as int;
    let b = b_k as int;
    vstd::arithmetic::div_mod::lemma_fundamental_div_mod(e, b);
    vstd::arithmetic::mul::lemma_mul_is_commutative(b, e / b);
    assert(0 <= e % b < b);
}

/// The first entry of a block maps back to that block.
pub proof fn lemma_block_start_roundtrip(block_idx: u32, b_k: u32)
    requires
        b_k > 0,
    ensures
        (block_idx * b_k) / (b_k as int) == block_idx,
{
    vstd::arithmetic::div_mod::lemma_fundamental_div_mod_converse(
        (block_idx * b_k) as int,
        b_k as int,
        block_idx as int,
        0,
    );
}

// ── Handles ─────────────────────────────────────────────────────────────────

/// A handle keeps its query in the high half-word and its slot in the low
/// one, for queries and slots below `2^16`.
pub proof fn lemma_handle_fields(q: u32, slot: u32)
    requires
        q < 0x10000,
        slot < 0x10000,
    ensures
        pack_handle(q, slot) >> 16u32 == q,
        pack_handle(q, slot) & 0xffffu32 == slot,
{
    assert(((q << 16u32) | slot) >> 16u32 == q && ((q << 16u32) | slot) & 0xffffu32 == slot)
        by (bit_vector)
        requires
            q < 0x10000u32,
            slot < 0x10000u32,
    ;
}

/// Every slot that names block `r` appears in `r`'s selector list.
pub proof fn lemma_selectors_complete(ids: Seq<u32>, kappa: nat, n: nat, r: nat, i: nat)
    requires
        i < n,
        ids[i as int] == r,
    ensures
        selectors(ids, kappa, n, r).contains(pack_handle((i / kappa) as u32, (i % kappa) as u32)),
    decreases n,
{
    let h = pack_handle((i / kappa) as u32, (i % kappa) as u32);
    let prev = selectors(ids, kappa, (n - 1) as nat, r);
    if i == n - 1 {
        assert(selectors(ids, kappa, n, r) == prev.push(h));
        assert(prev.push(h)[prev.len() as int] == h);
    } else {
        lemma_selectors_complete(ids, kappa, (n - 1) as nat, r, i);
        let j = choose|j: int| 0 <= j < prev.len() && prev[j] == h;
        if ids[(n - 1) as int] == r {
            let last = pack_handle((((n - 1) as nat) / kappa) as u32, (((n - 1) as nat) % kappa) as u32);
            assert(selectors(ids, kappa, n, r) == prev.push(last));
            assert(prev.push(last)[j] == h);
        }
    }
}

/// Every handle in block `r`'s selector list comes from a slot that names `r`.
pub proof fn lemma_selectors_sound(ids: Seq<u32>, kappa: nat, n: nat, r: nat, j: int)
    requires
        0 <= j < selectors(ids, kappa, n, r).len(),
    ensures
        exists|i: nat|
            i < n && ids[i as int] == r && selectors(ids, kappa, n, r)[j] == #[trigger] pack_handle(
                (i / kappa) as u32,
                (i % kappa) as u32,
            ),
    decreases n,
{
    let prev = selectors(ids, kappa, (n - 1) as nat, r);
    if j < prev.len() {
        lemma_selectors_sound(ids, kappa, (n - 1) as nat, r, j);
        let i = choose|i: nat|
            i < n - 1 && ids[i as int] == r && prev[j] == #[trigger] pack_handle(
                (i / kappa) as u32,
                (i % kappa) as u32,
            );
        if ids[(n - 1) as int] == r {
            let last = pack_handle((((n - 1) as nat) / kappa) as u32, (((n - 1) as nat) % kappa) as u32);
            assert(selectors(ids, kappa, n, r) == prev.push(last));
        }
        assert(selectors(ids, kappa, n, r)[j] == pack_handle((i / kappa) as u32, (i % kappa) as u32));
    } else {
        let i = (n - 1) as nat;
        assert(ids[i as int] == r);
        assert(selectors(ids, kappa, n, r)[j] == pack_handle((i / kappa) as u32, (i % kappa) as u32));
    }
}

/// The offsets of a reverse view are an exclusive scan of its degrees, and
/// the last offset is the number of handles.
pub proof fn lemma_reverse_view_scan(
    rev: ReverseBlockIndex,
    ids: Seq<u32>,
    kappa: nat,
    n: nat,
    num_blocks: nat,
)
    requires
        is_reverse_view(rev, ids, kappa, n, num_blocks),
        ids_in_range(ids, n, num_blocks),
        num_blocks <= INVALID_BLOCK,
    ensures
        rev.block_offsets@[0] == 0,
        forall|r: int|
            0 <= r < num_blocks ==> #[trigger] rev.block_offsets@[r + 1] == rev.block_offsets@[r]
                + rev.block_degrees@[r],
        rev.block_offsets@[num_blocks as int] == rev.query_handles@.len(),
{
    assert(rev.block_offsets@[0] == block_offset(ids, kappa, n, 0));
    assert forall|r: int| 0 <= r < num_blocks implies #[trigger] rev.block_offsets@[r + 1]
        == rev.block_offsets@[r] + rev.block_degrees@[r] by {
        assert(rev.block_offsets@[r + 1] == block_offset(ids, kappa, n, (r + 1) as nat));
        assert(rev.block_offsets@[r] == block_offset(ids, kappa, n, r as nat));
        assert(rev.block_degrees@[r] == selectors(ids, kappa, n, r as nat).len());
    }
    lemma_block_offset_total(ids, kappa, n, num_blocks);
    assert(rev.block_offsets@[num_blocks as int] == block_offset(ids, kappa, n, num_blocks));
}

} // verus!
