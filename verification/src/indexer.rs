//! Lightning indexer arithmetic: the causal legal domain of each query and
//! the effective selection budget inside it.
use vstd::prelude::*;

verus! {

/// Number of compressed entries that query position `t` (zero-based) may
/// attend to, with compression stride `m`: `floor((t + 1) / m)`.
pub open spec fn legal_domain(t: nat, m: nat) -> nat {
    (t + 1) / m
}

/// Return the legal number of compressed entries for query position `t`.
///
/// This implements the zero-based convention: `T_legal(t) = floor((t + 1) / m)`.
/// For `t < m-1`, returns 0 (empty legal domain).
pub fn legal_domain_size(t: u32, compression_stride: u32) -> (r: u32)
    requires
        t < u32::MAX,
        compression_stride > 0,
    ensures
        r == legal_domain(t as nat, compression_stride as nat),
{
    (t + 1) / compression_stride
}

/// Return the effective V4 `k` budget at position `t`: the budget, capped by
/// the size of the legal domain.
pub fn effective_k(t: u32, compression_stride: u32, k_v4: u32) -> (r: u32)
    requires
        t < u32::MAX,
        compression_stride > 0,
    ensures
        r == vstd::math::min(k_v4 as int, legal_domain(t as nat, compression_stride as nat) as int),
{
    k_v4.min(legal_domain_size(t, compression_stride))
}

/// The legal domain is empty exactly for the first `m - 1` positions.
pub proof fn lemma_legal_domain_empty(t: nat, m: nat)
    requires
        m > 0,
    ensures
        (legal_domain(t, m) == 0) <==> (t + 1 < m),
{
    if t + 1 < m {
        vstd::arithmetic::div_mod::lemma_basic_div((t + 1) as int, m as int);
    } else {
        vstd::arithmetic::div_mod::lemma_div_is_ordered(m as int, (t + 1) as int, m as int);
        vstd::arithmetic::div_mod::lemma_div_by_self(m as int);
    }
}

/// One compressed entry per `m` new positions: moving to the next position
/// never shrinks the legal domain and grows it by at most one entry.
pub proof fn lemma_legal_domain_step(t: nat, m: nat)
    requires
        m > 0,
    ensures
        legal_domain(t, m) <= legal_domain(t + 1, m) <= legal_domain(t, m) + 1,
{
    let x = (t + 1) as int;
    let d = m as int;
    vstd::arithmetic::div_mod::lemma_div_is_ordered(x, x + 1, d);
    vstd::arithmetic::div_mod::lemma_fundamental_div_mod(x, d);
    let q = x / d;
    assert(x + 1 <= d * (q + 1)) by (nonlinear_arith)
        requires
            x == d * q + x % d,
            x % d < d,
    ;
    vstd::arithmetic::div_mod::lemma_div_is_ordered(x + 1, d * (q + 1), d);
    vstd::arithmetic::mul::lemma_mul_is_commutative(d, q + 1);
    vstd::arithmetic::div_mod::lemma_div_by_multiple(q + 1, d);
}

/// Causality: the legal entries cover no more than the `t + 1` positions
/// seen so far, since each compressed entry stands for `m` positions.
pub proof fn lemma_legal_domain_causal(t: nat, m: nat)
    requires
        m > 0,
    ensures
        legal_domain(t, m) * m <= t + 1,
{
    let x = (t + 1) as int;
    let d = m as int;
    vstd::arithmetic::div_mod::lemma_fundamental_div_mod(x, d);
    vstd::arithmetic::mul::lemma_mul_is_commutative(d, x / d);
}

} // verus!
