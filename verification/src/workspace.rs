//! Workspace / arena allocator for fixed-size intermediate buffers.
//!
//! Operations need scratch space for block scores, partial softmax states,
//! hot-block `dC` partials and slab-crossing reduction buffers.  The arena
//! hands out aligned byte ranges from a fixed capacity with a bump cursor
//! and records the high-water mark.
use vstd::prelude::*;

use crate::error::FerrioxError;

verus! {

/// The observable state of a workspace.
pub struct WorkspaceState {
    /// Total capacity in bytes.
    pub capacity: u64,
    /// Current allocation cursor.
    pub cursor: u64,
    /// Highest end of any allocation so far.
    pub high_water: u64,
}

/// `cursor` rounded up by the mask of `align`: `(cursor + align - 1) & !(align - 1)`.
pub open spec fn aligned_offset(cursor: u64, align: u64) -> u64 {
    ((cursor + align - 1) as u64) & !((align - 1) as u64)
}

/// `o` is a multiple of `align`.
pub open spec fn is_multiple_of(o: int, align: int) -> bool {
    o % align == 0
}

/// `align` is a power of two.
pub open spec fn is_pow2(align: u64) -> bool {
    exists|k: nat| k < 64 && align == #[trigger] vstd::arithmetic::power2::pow2(k)
}

/// An allocation of `size` bytes aligned to `align` fits in the capacity left.
pub open spec fn alloc_fits(s: WorkspaceState, size: u64, align: u64) -> bool {
    aligned_offset(s.cursor, align) + size <= s.capacity
}

/// The state after a successful allocation of `size` bytes aligned to `align`.
pub open spec fn state_after_alloc(s: WorkspaceState, size: u64, align: u64) -> WorkspaceState {
    let end = (aligned_offset(s.cursor, align) + size) as u64;
    WorkspaceState {
        capacity: s.capacity,
        cursor: end,
        high_water: if s.high_water >= end {
            s.high_water
        } else {
            end
        },
    }
}

/// A pre-allocated workspace arena.
pub struct Workspace {
    /// Raw allocation.
    _buf: Vec<u8>,
    /// Total capacity in bytes.
    capacity: u64,
    /// Current allocation cursor.
    cursor: u64,
    /// High-water mark for debugging / profiling.
    high_water: u64,
}

impl View for Workspace {
    type V = WorkspaceState;

    closed spec fn view(&self) -> WorkspaceState {
        WorkspaceState { capacity: self.capacity, cursor: self.cursor, high_water: self.high_water }
    }
}

impl Workspace {
    /// The buffer spans the capacity, and the cursor never passes the
    /// high-water mark, which never passes the capacity.
    #[verifier::type_invariant]
    spec fn well_formed(&self) -> bool {
        &&& self._buf@.len() == self.capacity
        &&& self.cursor <= self.high_water <= self.capacity
    }

    /// Allocate a new workspace of the given capacity (bytes).
    pub fn new(capacity: u64) -> (r: Self)
        requires
            capacity <= usize::MAX,
        ensures
            r@ == (WorkspaceState { capacity, cursor: 0, high_water: 0 }),
    {
        Self { _buf: vec![0u8; capacity as usize], capacity, cursor: 0, high_water: 0 }
    }

    /// Reserve a contiguous range of `size` bytes, aligned to `align`.
    ///
    /// Returns the byte offset into the workspace.  The range must fit in
    /// the capacity left.
    pub fn allocate(&mut self, size: u64, align: u64) -> (r: Result<u64, FerrioxError>)
        requires
            align > 0,
            old(self)@.cursor + align - 1 <= u64::MAX,
            alloc_fits(old(self)@, size, align),
        ensures
            r == Ok::<u64, FerrioxError>(aligned_offset(old(self)@.cursor, align)),
            final(self)@ == state_after_alloc(old(self)@, size, align),
            old(self)@.cursor <= aligned_offset(old(self)@.cursor, align),
            is_pow2(align) ==> aligned_offset(old(self)@.cursor, align) % align == 0,
            final(self)@.cursor <= final(self)@.high_water <= final(self)@.capacity,
    {
        proof {
            use_type_invariant(&*self);
            lemma_aligned_offset_bounds(self.cursor, align);
        }
        let offset = (self.cursor + (align - 1)) & !(align - 1);
        let end = offset + size;
        self.high_water = self.high_water.max(end);
        self.cursor = end;
        Ok(offset)
    }

    /// Reset the allocation cursor (but retain the allocation).
    pub fn reset(&mut self)
        ensures
            final(self)@ == (WorkspaceState { cursor: 0, ..old(self)@ }),
            final(self)@.cursor <= final(self)@.high_water <= final(self)@.capacity,
    {
        proof {
            use_type_invariant(&*self);
        }
        self.cursor = 0;
    }

    /// Return the current allocation cursor: where the next range may start.
    pub fn cursor(&self) -> (r: u64)
        ensures
            r == self@.cursor,
            r <= self@.capacity,
    {
        proof {
            use_type_invariant(self);
        }
        self.cursor
    }

    /// Whether `size` bytes aligned to `align` fit in the capacity left,
    /// that is, whether `allocate(size, align)` may be called.
    pub fn fits(&self, size: u64, align: u64) -> (r: bool)
        requires
            align > 0,
            self@.cursor + align - 1 <= u64::MAX,
        ensures
            r == alloc_fits(self@, size, align),
            r <==> aligned_offset(self@.cursor, align) + size <= self@.capacity,
            is_pow2(align) ==> forall|o: int|
                #[trigger] is_multiple_of(o, align as int) && self@.cursor <= o < self@.cursor + align ==> (r <==> o
                    + size <= self@.capacity),
    {
        proof {
            use_type_invariant(self);
            lemma_fits_at_aligned_start(self@, size, align);
        }
        let offset = (self.cursor + (align - 1)) & !(align - 1);
        offset <= self.capacity && size <= self.capacity - offset
    }

    /// Return the current high-water mark in bytes.
    pub fn high_water(&self) -> (r: u64)
        ensures
            r == self@.high_water,
            self@.cursor <= r <= self@.capacity,
    {
        proof {
            use_type_invariant(self);
        }
        self.high_water
    }

    /// Return the total capacity in bytes.
    pub fn capacity(&self) -> (r: u64)
        ensures
            r == self@.capacity,
    {
        self.capacity
    }
}

/// The aligned offset lies in `[cursor, cursor + align)`, and it is a
/// multiple of `align` when `align` is a power of two.
pub proof fn lemma_aligned_offset_bounds(cursor: u64, align: u64)
    requires
        align > 0,
        cursor + align - 1 <= u64::MAX,
    ensures
        cursor <= aligned_offset(cursor, align) < cursor + align,
        is_pow2(align) ==> aligned_offset(cursor, align) % align == 0,
{
    let x = (cursor + align - 1) as u64;
    let m = (align - 1) as u64;
    assert((x & !m) <= x && x - (x & !m) == (x & m) && (x & m) <= m) by (bit_vector);
    if is_pow2(align) {
        let k = choose|k: nat| k < 64 && align == vstd::arithmetic::power2::pow2(k);
        let y = x & !m;
        assert((y & m) == 0) by (bit_vector)
            requires
                y == x & !m,
        ;
        vstd::bits::lemma_u64_low_bits_mask_is_mod(y, k);
        vstd::bits::lemma_u64_pow2_no_overflow(k);
        assert(vstd::bits::low_bits_mask(k) as u64 == m);
        assert(vstd::arithmetic::power2::pow2(k) as u64 == align);
    }
}

/// Successive allocations never overlap: the second range starts at or
/// after the end of the first, and both lie within the capacity.
pub proof fn lemma_allocations_disjoint(
    s: WorkspaceState,
    size1: u64,
    align1: u64,
    size2: u64,
    align2: u64,
)
    requires
        align1 > 0,
        align2 > 0,
        s.cursor + align1 - 1 <= u64::MAX,
        alloc_fits(s, size1, align1),
        state_after_alloc(s, size1, align1).cursor + align2 - 1 <= u64::MAX,
        alloc_fits(state_after_alloc(s, size1, align1), size2, align2),
    ensures
        aligned_offset(s.cursor, align1) + size1 <= aligned_offset(
            state_after_alloc(s, size1, align1).cursor,
            align2,
        ),
        aligned_offset(state_after_alloc(s, size1, align1).cursor, align2) + size2 <= s.capacity,
{
    lemma_aligned_offset_bounds(s.cursor, align1);
    lemma_aligned_offset_bounds(state_after_alloc(s, size1, align1).cursor, align2);
}

/// A run of allocation requests `(size, align)` that can each be made in turn from `s`.
pub open spec fn allocs_valid(s: WorkspaceState, reqs: Seq<(u64, u64)>) -> bool
    decreases reqs.len(),
{
    if reqs.len() == 0 {
        true
    } else {
        let (size, align) = reqs[0];
        &&& align > 0
        &&& s.cursor + align - 1 <= u64::MAX
        &&& alloc_fits(s, size, align)
        &&& allocs_valid(state_after_alloc(s, size, align), reqs.drop_first())
    }
}

/// The state after making the allocation requests `reqs` in turn from `s`.
pub open spec fn state_after_allocs(s: WorkspaceState, reqs: Seq<(u64, u64)>) -> WorkspaceState
    decreases reqs.len(),
{
    if reqs.len() == 0 {
        s
    } else {
        let (size, align) = reqs[0];
        state_after_allocs(state_after_alloc(s, size, align), reqs.drop_first())
    }
}

/// Allocations never move the cursor back.
proof fn lemma_cursor_monotone(s: WorkspaceState, reqs: Seq<(u64, u64)>)
    requires
        allocs_valid(s, reqs),
    ensures
        s.cursor <= state_after_allocs(s, reqs).cursor,
        state_after_allocs(s, reqs).capacity == s.capacity,
    decreases reqs.len(),
{
    if reqs.len() > 0 {
        let (size, align) = reqs[0];
        lemma_aligned_offset_bounds(s.cursor, align);
        lemma_cursor_monotone(state_after_alloc(s, size, align), reqs.drop_first());
    }
}

/// Allocations made without a reset in between never overlap, whatever
/// allocations come between them: a later range starts at or after the end
/// of an earlier one, and lies within the capacity.
pub proof fn lemma_allocations_disjoint_across(
    s: WorkspaceState,
    size1: u64,
    align1: u64,
    between: Seq<(u64, u64)>,
    size2: u64,
    align2: u64,
)
    requires
        allocs_valid(s, seq![(size1, align1)] + between + seq![(size2, align2)]),
    ensures
        ({
            let s1 = state_after_alloc(s, size1, align1);
            let s2 = state_after_allocs(s1, between);
            &&& aligned_offset(s.cursor, align1) + size1 <= aligned_offset(s2.cursor, align2)
            &&& aligned_offset(s2.cursor, align2) + size2 <= s.capacity
        }),
{
    let all = seq![(size1, align1)] + between + seq![(size2, align2)];
    let s1 = state_after_alloc(s, size1, align1);
    assert(all.drop_first() =~= between + seq![(size2, align2)]);
    lemma_allocs_valid_split(s1, between, seq![(size2, align2)]);
    let s2 = state_after_allocs(s1, between);
    lemma_cursor_monotone(s1, between);
    assert(allocs_valid(s2, seq![(size2, align2)]));
    lemma_aligned_offset_bounds(s.cursor, align1);
    lemma_aligned_offset_bounds(s2.cursor, align2);
}

/// A valid run of requests stays valid when cut in two: its first part is
/// valid, and its second part is valid from the state the first part leaves.
proof fn lemma_allocs_valid_split(s: WorkspaceState, a: Seq<(u64, u64)>, b: Seq<(u64, u64)>)
    requires
        allocs_valid(s, a + b),
    ensures
        allocs_valid(s, a),
        allocs_valid(state_after_allocs(s, a), b),
    decreases a.len(),
{
    if a.len() > 0 {
        let (size, align) = a[0];
        assert((a + b)[0] == a[0]);
        assert((a + b).drop_first() =~= a.drop_first() + b);
        lemma_allocs_valid_split(state_after_alloc(s, size, align), a.drop_first(), b);
    } else {
        assert(a + b =~= b);
    }
}

/// Two multiples of `align` within `align` of each other are equal.
proof fn lemma_multiples_close_equal(o1: int, o2: int, align: int)
    requires
        align > 0,
        o1 % align == 0,
        o2 % align == 0,
        o1 <= o2 < o1 + align,
    ensures
        o1 == o2,
{
    vstd::arithmetic::div_mod::lemma_fundamental_div_mod(o1, align);
    vstd::arithmetic::div_mod::lemma_fundamental_div_mod(o2, align);
    let q1 = o1 / align;
    let q2 = o2 / align;
    if q1 < q2 {
        assert(align * q2 - align * q1 >= align) by (nonlinear_arith)
            requires
                q2 >= q1 + 1,
                align > 0,
        ;
    } else if q1 > q2 {
        assert(align * q1 - align * q2 >= align) by (nonlinear_arith)
            requires
                q1 >= q2 + 1,
                align > 0,
        ;
    }
}

/// A request fits exactly when its range, started at the first multiple of
/// `align` at or after the cursor, ends within the capacity.  For a
/// power-of-two `align` that start is the one multiple of `align` in
/// `[cursor, cursor + align)`.
pub proof fn lemma_fits_at_aligned_start(s: WorkspaceState, size: u64, align: u64)
    requires
        align > 0,
        s.cursor + align - 1 <= u64::MAX,
    ensures
        alloc_fits(s, size, align) <==> aligned_offset(s.cursor, align) + size <= s.capacity,
        is_pow2(align) ==> forall|o: int|
            #[trigger] is_multiple_of(o, align as int) && s.cursor <= o < s.cursor + align ==> (alloc_fits(
                s,
                size,
                align,
            ) <==> o + size <= s.capacity),
{
    lemma_aligned_offset_bounds(s.cursor, align);
    if is_pow2(align) {
        assert forall|o: int|
            #[trigger] is_multiple_of(o, align as int) && s.cursor <= o < s.cursor + align implies (alloc_fits(
                s,
                size,
                align,
            ) <==> o + size <= s.capacity) by {
            let a = aligned_offset(s.cursor, align) as int;
            if a <= o {
                lemma_multiples_close_equal(a, o, align as int);
            } else {
                lemma_multiples_close_equal(o, a, align as int);
            }
        }
    }
}

} // verus!
