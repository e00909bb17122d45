//! Construction of zero-filled buffers of a fixed length.

use vstd::prelude::*;

verus! {

/// A vector of `n` zero bytes.
pub fn zero_bytes(n: usize) -> (r: Vec<u8>)
    ensures
        r@ == Seq::new(n as nat, |k: int| 0u8),
{
    let mut r: Vec<u8> = Vec::new();
    let mut k: usize = 0;
    while k < n
        invariant
            k <= n,
            r@ == Seq::new(k as nat, |j: int| 0u8),
        decreases n - k,
    {
        r.push(0);
        proof {
            assert(r@ =~= Seq::new((k + 1) as nat, |j: int| 0u8));
        }
        k = k + 1;
    }
    r
}

/// A vector of `n` zero 16-bit words.
pub fn zero_words(n: usize) -> (r: Vec<u16>)
    ensures
        r@ == Seq::new(n as nat, |k: int| 0u16),
{
    let mut r: Vec<u16> = Vec::new();
    let mut k: usize = 0;
    while k < n
        invariant
            k <= n,
            r@ == Seq::new(k as nat, |j: int| 0u16),
        decreases n - k,
    {
        r.push(0);
        proof {
            assert(r@ =~= Seq::new((k + 1) as nat, |j: int| 0u16));
        }
        k = k + 1;
    }
    r
}

} // verus!
