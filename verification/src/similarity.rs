//! Similarity of two embeddings.
//!
//! An embedding is a fixed-point vector: each component is an `i32`. The
//! similarity of two embeddings is their inner product, an exact integer that
//! always fits an `i128`.

use vstd::prelude::*;

verus! {

/// Inner product of the first `n` components of `a` and `b`.
pub open spec fn inner_product_upto(a: Seq<i32>, b: Seq<i32>, n: int) -> int
    decreases n,
{
    if n <= 0 {
        0
    } else {
        inner_product_upto(a, b, n - 1) + a[n - 1] * b[n - 1]
    }
}

/// Number of components that both `a` and `b` have.
pub open spec fn common_len(a: Seq<i32>, b: Seq<i32>) -> int {
    if a.len() <= b.len() {
        a.len() as int
    } else {
        b.len() as int
    }
}

/// Similarity of `a` and `b`: their inner product. For vectors of different
/// lengths it is taken over the components that both have.
pub open spec fn similarity_of(a: Seq<i32>, b: Seq<i32>) -> int {
    inner_product_upto(a, b, common_len(a, b))
}

/// Largest magnitude that the product of two components can have.
pub open spec fn component_product_bound() -> int {
    0x4000_0000_0000_0000
}

/// One product of two components stays within `component_product_bound()`.
pub proof fn lemma_component_product_bounded(x: i32, y: i32)
    ensures
        -component_product_bound() <= x * y <= component_product_bound(),
{
    assert(-0x4000_0000_0000_0000 <= x * y <= 0x4000_0000_0000_0000) by (nonlinear_arith)
        requires
            -0x8000_0000 <= x <= 0x7fff_ffff,
            -0x8000_0000 <= y <= 0x7fff_ffff,
    ;
}

/// The inner product of `n` components is at most `n` times the bound on one
/// product, in either direction.
pub proof fn lemma_inner_product_bounded(a: Seq<i32>, b: Seq<i32>, n: int)
    requires
        0 <= n,
    ensures
        -n * component_product_bound() <= inner_product_upto(a, b, n) <= n
            * component_product_bound(),
    decreases n,
{
    if n > 0 {
        lemma_inner_product_bounded(a, b, n - 1);
        lemma_component_product_bounded(a[n - 1], b[n - 1]);
        assert((n - 1) * component_product_bound() + component_product_bound() == n
            * component_product_bound()) by (nonlinear_arith);
        assert(-(n - 1) * component_product_bound() - component_product_bound() == -n
            * component_product_bound()) by (nonlinear_arith);
    }
}

/// The similarity of two vectors does not depend on their order.
pub proof fn lemma_similarity_symmetric(a: Seq<i32>, b: Seq<i32>)
    ensures
        similarity_of(a, b) == similarity_of(b, a),
{
    lemma_inner_product_symmetric(a, b, common_len(a, b));
}

proof fn lemma_inner_product_symmetric(a: Seq<i32>, b: Seq<i32>, n: int)
    ensures
        inner_product_upto(a, b, n) == inner_product_upto(b, a, n),
    decreases n,
{
    if n > 0 {
        lemma_inner_product_symmetric(a, b, n - 1);
        assert(a[n - 1] * b[n - 1] == b[n - 1] * a[n - 1]) by (nonlinear_arith);
    }
}

/// The similarity of two vectors fits 128 bits when one of them has no more
/// components than a `usize` counts.
pub proof fn lemma_similarity_fits(a: Seq<i32>, b: Seq<i32>)
    requires
        a.len() <= usize::MAX || b.len() <= usize::MAX,
    ensures
        i128::MIN <= similarity_of(a, b) <= i128::MAX,
{
    let n = common_len(a, b);
    lemma_inner_product_bounded(a, b, n);
    assert(n * component_product_bound() <= 0xffff_ffff_ffff_ffff * component_product_bound())
        by (nonlinear_arith)
        requires
            0 <= n <= 0xffff_ffff_ffff_ffff,
    ;
}

/// Computes the similarity of two embeddings.
pub fn similarity(a: &Vec<i32>, b: &Vec<i32>) -> (score: i128)
    ensures
        score == similarity_of(a@, b@),
{
    let n: usize = if a.len() <= b.len() {
        a.len()
    } else {
        b.len()
    };
    let mut acc: i128 = 0;
    let mut i: usize = 0;
    while i < n
        invariant
            n == common_len(a@, b@),
            i <= n,
            acc == inner_product_upto(a@, b@, i as int),
        decreases n - i,
    {
        let x: i128 = a[i] as i128;
        let y: i128 = b[i] as i128;
        proof {
            lemma_component_product_bounded(a[i as int], b[i as int]);
            lemma_inner_product_bounded(a@, b@, i as int);
            lemma_inner_product_bounded(a@, b@, i + 1);
            assert(i * component_product_bound() <= 0xffff_ffff_ffff_ffff
                * component_product_bound()) by (nonlinear_arith)
                requires
                    0 <= i <= 0xffff_ffff_ffff_ffff,
            ;
            assert((i + 1) * component_product_bound() <= 0xffff_ffff_ffff_ffff
                * component_product_bound()) by (nonlinear_arith)
                requires
                    0 <= i + 1 <= 0xffff_ffff_ffff_ffff,
            ;
        }
        acc = acc + x * y;
        i = i + 1;
    }
    acc
}

} // verus!
