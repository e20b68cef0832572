//! DER length fields: the arithmetic shared by the certificate scanner and
//! the signature decoder.
use vstd::prelude::*;

verus! {

/// Value of the `n` big-endian bytes `b[p..p+n)`.
pub open spec fn be_value(b: Seq<u8>, p: int, n: int) -> nat
    decreases n,
{
    if n <= 0 { 0 } else { be_value(b, p, n - 1) * 256 + b[p + n - 1] as nat }
}

/// 256 to the power `n`.
pub open spec fn pow256(n: int) -> nat
    decreases n,
{
    if n <= 0 { 1 } else { pow256(n - 1) * 256 }
}

/// `n` bytes hold a value below 256^n.
pub proof fn lemma_be_value_bound(b: Seq<u8>, p: int, n: int)
    ensures be_value(b, p, n) < pow256(n),
    decreases n,
{
    if n > 0 {
        lemma_be_value_bound(b, p, n - 1);
        let x = be_value(b, p, n - 1);
        let q = pow256(n - 1);
        let y = b[p + n - 1] as nat;
        assert(x * 256 + y < q * 256) by (nonlinear_arith)
            requires x < q, y < 256;
    }
}

/// Read `n <= 4` big-endian bytes of `b` starting at `p`.
pub fn read_be_bytes(b: &[u8], p: usize, n: usize) -> (r: usize)
    requires n <= 4, p + n <= b@.len(),
    ensures r == be_value(b@, p as int, n as int),
{
    let _len_b = b.len();
    let mut len: usize = 0;
    let mut i: usize = 0;
    while i < n
        invariant
            n <= 4, p + n <= b@.len(), i <= n, b@.len() == _len_b,
            len == be_value(b@, p as int, i as int),
        decreases n - i,
    {
        proof {
            lemma_be_value_bound(b@, p as int, i as int + 1);
            reveal_with_fuel(pow256, 5);
            assert(pow256(1) == 256);
            assert(pow256(2) == 65536);
            assert(pow256(3) == 16777216);
            assert(pow256(4) == 4294967296);
        }
        let byte = b[p + i] as usize;
        assert(len * 256 + byte == be_value(b@, p as int, i as int + 1));
        assert(len * 256 + byte < 4294967296);
        len = len * 256 + byte;
        i += 1;
    }
    len
}

} // verus!
