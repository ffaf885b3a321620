//! Tensor handles: a buffer together with its row-major shape and strides.
use vstd::prelude::*;

verus! {

/// Product of `shape[i..]`: the row-major stride of dimension `i - 1`.
pub open spec fn suffix_product(shape: Seq<u32>, i: int) -> nat
    decreases shape.len() - i,
{
    if i >= shape.len() || i < 0 {
        1
    } else {
        shape[i] as nat * suffix_product(shape, i + 1)
    }
}

/// Product of `shape[..k]`.
pub open spec fn prefix_product(shape: Seq<u32>, k: int) -> nat
    decreases k,
{
    if k <= 0 || k > shape.len() {
        1
    } else {
        prefix_product(shape, k - 1) * shape[k - 1] as nat
    }
}

/// Every stride of `shape` fits in `u32`.
pub open spec fn strides_fit(shape: Seq<u32>) -> bool {
    forall|i: int| 1 <= i < shape.len() ==> #[trigger] suffix_product(shape, i) <= u32::MAX
}

/// Every running product of `shape`, from the first dimension on, fits in `u32`.
pub open spec fn element_count_fits(shape: Seq<u32>) -> bool {
    forall|k: int| 0 <= k <= shape.len() ==> #[trigger] prefix_product(shape, k) <= u32::MAX
}

/// Row-major strides of `shape`, in elements: `strides[i]` is the product
/// of the dimensions after `i`.
pub fn compute_strides(shape: &[u32]) -> (strides: Vec<u32>)
    requires
        shape@.len() >= 1,
        strides_fit(shape@),
    ensures
        strides@.len() == shape@.len(),
        forall|i: int| 0 <= i < shape@.len() ==> #[trigger] strides@[i] == suffix_product(shape@, i + 1),
        strides@[shape@.len() - 1] == 1,
        forall|i: int|
            0 <= i < shape@.len() - 1 ==> #[trigger] strides@[i] == strides@[i + 1] * shape@[i + 1],
{
    proof {
        lemma_product_recurrences(shape@);
    }
    let ndim = shape.len();
    let mut strides: Vec<u32> = vec![1u32; ndim];
    let mut i = ndim - 1;
    assert(suffix_product(shape@, ndim as int) == 1);
    while i > 0
        invariant
            ndim == shape@.len(),
            strides_fit(shape@),
            i < ndim,
            strides@.len() == ndim,
            forall|j: int| 0 <= j < i ==> #[trigger] strides@[j] == 1u32,
            forall|j: int| i <= j < ndim ==> #[trigger] strides@[j] == suffix_product(shape@, j + 1),
        decreases i,
    {
        let prev = strides[i];
        let dim = shape[i];
        let ghost tail = suffix_product(shape@, i + 1);
        assert(prev == tail);
        assert(suffix_product(shape@, i as int) == dim as nat * tail);
        assert(suffix_product(shape@, i as int) <= u32::MAX);
        assert(prev * dim == dim as nat * tail) by (nonlinear_arith)
            requires
                prev == tail,
        ;
        let next = prev * dim;
        strides.set(i - 1, next);
        i = i - 1;
        assert(strides@[i as int] == suffix_product(shape@, i + 1));
    }
    proof {
        assert forall|j: int| 0 <= j < shape@.len() - 1 implies #[trigger] strides@[j] == strides@[j
            + 1] * shape@[j + 1] by {
            assert(suffix_product(shape@, j + 1) == shape@[j + 1] as nat * suffix_product(shape@, j + 2));
            vstd::arithmetic::mul::lemma_mul_is_commutative(
                shape@[j + 1] as int,
                suffix_product(shape@, j + 2) as int,
            );
        }
    }
    strides
}

/// A handle to a tensor with known shape and strides.
///
/// Holds the buffer (on the device, in the full pipeline) with metadata so
/// that kernels can index into the flat buffer correctly.
pub struct Tensor<B> {
    /// The data buffer.
    pub buf: B,
    /// Row-major shape, e.g. `[batch, heads, seq_len, head_dim]`.
    pub shape: Vec<u32>,
    /// Row-major strides in elements (not bytes).
    pub strides: Vec<u32>,
}

impl<B> Tensor<B> {
    /// Wrap `buf` with the row-major strides of `shape`.
    pub fn new(buf: B, shape: Vec<u32>) -> (r: Self)
        requires
            shape@.len() >= 1,
            strides_fit(shape@),
        ensures
            r.buf == buf,
            r.shape@ == shape@,
            r.strides@.len() == shape@.len(),
            forall|i: int|
                0 <= i < shape@.len() ==> #[trigger] r.strides@[i] == suffix_product(shape@, i + 1),
            r.strides@[shape@.len() - 1] == 1,
            forall|i: int|
                0 <= i < shape@.len() - 1 ==> #[trigger] r.strides@[i] == r.strides@[i + 1]
                    * shape@[i + 1],
    {
        let strides = compute_strides(shape.as_slice());
        Self { buf, shape, strides }
    }

    /// Number of elements: the product of the shape.
    pub fn num_elems(&self) -> (r: u32)
        requires
            element_count_fits(self.shape@),
        ensures
            r == prefix_product(self.shape@, self.shape@.len() as int),
    {
        let n = self.shape.len();
        let mut acc: u32 = 1;
        let mut k: usize = 0;
        while k < n
            invariant
                n == self.shape@.len(),
                k <= n,
                element_count_fits(self.shape@),
                acc == prefix_product(self.shape@, k as int),
            decreases n - k,
        {
            assert(prefix_product(self.shape@, k + 1) <= u32::MAX);
            acc = acc * self.shape[k];
            k = k + 1;
        }
        acc
    }
}

/// Splitting the shape anywhere, the product of the dimensions before the
/// split times the product after it is the product of all dimensions.
proof fn lemma_product_split(shape: Seq<u32>, k: int)
    requires
        0 <= k <= shape.len(),
    ensures
        prefix_product(shape, k) * suffix_product(shape, k) == suffix_product(shape, 0),
    decreases k,
{
    if k > 0 {
        lemma_product_split(shape, k - 1);
        let a = prefix_product(shape, k - 1);
        let d = shape[k - 1] as nat;
        let b = suffix_product(shape, k);
        assert(prefix_product(shape, k) == a * d);
        assert(suffix_product(shape, k - 1) == d * b);
        assert((a * d) * b == a * (d * b)) by (nonlinear_arith);
        assert(prefix_product(shape, k) * suffix_product(shape, k) == (a * d) * b);
        assert(a * suffix_product(shape, k - 1) == a * (d * b));
    } else {
        assert(prefix_product(shape, 0) == 1);
        assert(1 * suffix_product(shape, 0) == suffix_product(shape, 0));
    }
}

/// Row-major layout: the element count is the first dimension times the
/// first stride.
pub proof fn lemma_count_is_outer_extent(shape: Seq<u32>)
    requires
        shape.len() >= 1,
    ensures
        prefix_product(shape, shape.len() as int) == shape[0] as nat * suffix_product(shape, 1),
{
    lemma_product_split(shape, shape.len() as int);
    assert(suffix_product(shape, shape.len() as int) == 1);
    assert(suffix_product(shape, 0) == shape[0] as nat * suffix_product(shape, 1));
    assert(prefix_product(shape, shape.len() as int) * 1 == prefix_product(shape, shape.len() as int));
}

/// The stride after dimension `i - 1` is dimension `i` times the stride
/// after it, ending in 1 past the last dimension; the running element count
/// starts at 1 and takes in one more dimension at each step.  Every
/// dimension, at every rank, enters the products.
pub proof fn lemma_product_recurrences(shape: Seq<u32>)
    ensures
        suffix_product(shape, shape.len() as int) == 1,
        forall|i: int|
            0 <= i < shape.len() ==> #[trigger] suffix_product(shape, i) == shape[i] as nat
                * suffix_product(shape, i + 1),
        prefix_product(shape, 0) == 1,
        forall|k: int|
            1 <= k <= shape.len() ==> #[trigger] prefix_product(shape, k) == prefix_product(
                shape,
                k - 1,
            ) * shape[k - 1] as nat,
{
}

} // verus!
