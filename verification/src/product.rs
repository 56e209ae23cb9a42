//! The element count of a matrix: the mathematical product of its declared
//! extents, and an executable computation of it that detects when the product
//! leaves the machine range instead of wrapping.

use vstd::prelude::*;
use vstd::arithmetic::mul::{lemma_mul_inequality, lemma_mul_strictly_positive};

verus! {

/// The product of a sequence of extents; 1 for the empty sequence.
pub open spec fn seq_product(s: Seq<i32>) -> int
    decreases s.len(),
{
    if s.len() == 0 {
        1
    } else {
        seq_product(s.drop_last()) * s.last()
    }
}

/// The magnitude of an integer.
pub open spec fn spec_abs(x: int) -> int {
    if x >= 0 {
        x
    } else {
        -x
    }
}

/// A zero extent makes the whole product zero.
pub proof fn lemma_seq_product_zero(s: Seq<i32>, i: int)
    requires
        0 <= i < s.len(),
        s[i] == 0,
    ensures
        seq_product(s) == 0,
    decreases s.len(),
{
    if i == s.len() - 1 {
        assert(seq_product(s) == seq_product(s.drop_last()) * 0);
    } else {
        lemma_seq_product_zero(s.drop_last(), i);
    }
}

/// With only nonzero extents from `j` on, the magnitude of the whole product
/// is at least that of the product of the first `j`, and the whole product is
/// nonzero whenever that prefix product is.
pub proof fn lemma_seq_product_grows(s: Seq<i32>, j: int)
    requires
        0 <= j <= s.len(),
        forall|k: int| j <= k < s.len() ==> s[k] != 0,
    ensures
        spec_abs(seq_product(s)) >= spec_abs(seq_product(s.take(j))),
    decreases s.len() - j,
{
    if j == s.len() {
        assert(s.take(j) =~= s);
    } else {
        let t = s.drop_last();
        lemma_seq_product_grows(t, j);
        assert(t.take(j) =~= s.take(j));
        let a = seq_product(t);
        let b = s.last() as int;
        assert(b != 0);
        assert(spec_abs(a * b) >= spec_abs(a)) by {
            assert(spec_abs(a * b) == spec_abs(a) * spec_abs(b)) by (nonlinear_arith);
            lemma_mul_inequality(1, spec_abs(b), spec_abs(a));
            assert(spec_abs(a) * spec_abs(b) == spec_abs(b) * spec_abs(a)) by (nonlinear_arith);
        }
    }
}

/// Extending the prefix by one extent multiplies its product by that extent.
pub proof fn lemma_seq_product_take_step(s: Seq<i32>, j: int)
    requires
        0 <= j < s.len(),
    ensures
        seq_product(s.take(j + 1)) == seq_product(s.take(j)) * s[j],
{
    let t = s.take(j + 1);
    assert(t.drop_last() =~= s.take(j));
    assert(t.last() == s[j]);
}

/// Computes the product of the extents, or `None` when it is negative or
/// exceeds the machine range, in which case it can equal no collection
/// length.
pub fn dims_product(dims: &Vec<i32>) -> (r: Option<usize>)
    ensures
        match r {
            Some(v) => v as int == seq_product(dims@),
            None => seq_product(dims@) < 0 || seq_product(dims@) > usize::MAX,
        },
{
    let n = dims.len();
    let mut i: usize = 0;
    while i < n
        invariant
            i <= n,
            n == dims@.len(),
            forall|k: int| 0 <= k < i ==> dims@[k] != 0,
        decreases n - i,
    {
        if dims[i] == 0 {
            proof {
                lemma_seq_product_zero(dims@, i as int);
            }
            return Some(0);
        }
        i += 1;
    }
    let mut acc: u128 = 1;
    let mut neg: bool = false;
    let mut j: usize = 0;
    while j < n
        invariant
            j <= n,
            n == dims@.len(),
            forall|k: int| 0 <= k < n ==> dims@[k] != 0,
            1 <= acc <= u128::MAX,
            acc as int == spec_abs(seq_product(dims@.take(j as int))),
            neg == (seq_product(dims@.take(j as int)) < 0),
        decreases n - j,
    {
        if acc > usize::MAX as u128 {
            proof {
                lemma_seq_product_grows(dims@, j as int);
            }
            return None;
        }
        let d = dims[j];
        let m: u64 = if d < 0 {
            (-(d as i64)) as u64
        } else {
            d as u64
        };
        proof {
            lemma_seq_product_take_step(dims@, j as int);
            let p = seq_product(dims@.take(j as int));
            assert(spec_abs(p * d) == spec_abs(p) * spec_abs(d as int)) by (nonlinear_arith);
            assert((p * d < 0) == ((p < 0) != (d < 0))) by (nonlinear_arith)
                requires
                    p != 0,
                    d != 0,
            ;
            lemma_mul_strictly_positive(spec_abs(p), spec_abs(d as int));
            assert(acc * (m as u128) <= u128::MAX) by (nonlinear_arith)
                requires
                    acc <= usize::MAX as u128,
                    m <= 0x8000_0000u64,
                    usize::MAX as u128 <= 0xffff_ffff_ffff_ffffu128,
            ;
        }
        acc = acc * (m as u128);
        if d < 0 {
            neg = !neg;
        }
        j += 1;
    }
    proof {
        assert(dims@.take(n as int) =~= dims@);
    }
    if neg {
        return None;
    }
    if acc > usize::MAX as u128 {
        return None;
    }
    Some(acc as usize)
}

} // verus!
