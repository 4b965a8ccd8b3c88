//! A small non-cryptographic digest over byte strings, used to exercise
//! string and byte parameters.

use vstd::prelude::*;

verus! {

/// The running digest after folding in a prefix of the input: each byte is
/// mixed in by an exclusive-or and a wrapping multiply by the fixed prime.
pub open spec fn spec_fnv64a(s: Seq<u8>, i: int, acc: u64) -> u64
    decreases s.len() - i,
{
    if 0 <= i < s.len() {
        spec_fnv64a(s, i + 1, (((acc ^ (s[i] as u64)) * 0x100000001b3) % 0x1_0000_0000_0000_0000) as u64)
    } else {
        acc
    }
}

/// The 64-bit digest of a byte string.
pub fn fnv64a(buf: &[u8]) -> (r: u64)
    ensures
        r == spec_fnv64a(buf@, 0, 0xcbf29ce484222325u64),
{
    let n = buf.len();
    let mut acc: u64 = 0xcbf29ce484222325;
    let mut i: usize = 0;
    while i < n
        invariant
            n == buf@.len(),
            i <= n,
            spec_fnv64a(buf@, 0, 0xcbf29ce484222325u64) == spec_fnv64a(buf@, i as int, acc),
        decreases n - i,
    {
        let b = *vstd::slice::slice_index_get(buf, i);
        acc = (acc ^ (b as u64)).wrapping_mul(0x100000001b3);
        i = i + 1;
    }
    acc
}

} // verus!
