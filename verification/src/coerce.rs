//! Host coercion rules on byte strings, and small byte-string helpers.
//!
//! The host language coerces scalars freely: a string-looking cell requested
//! as an integer is parsed numerically (optional leading whitespace, one
//! optional sign, then the longest decimal digit prefix; anything else reads
//! as zero).  The magnitude saturates at the bounds of the requested type
//! instead of wrapping.

use vstd::prelude::*;
use vstd::string::StrSliceExecFns;
use vstd::string::StringSliceAdditionalSpecFns;

verus! {

/// Decimal digit.
pub open spec fn spec_is_digit(b: u8) -> bool {
    0x30 <= b <= 0x39
}

/// Host whitespace: space, tab, line feed, vertical tab, form feed,
/// carriage return.
pub open spec fn spec_is_space(b: u8) -> bool {
    b == 0x20 || b == 0x09 || b == 0x0a || b == 0x0b || b == 0x0c || b == 0x0d
}

/// Index of the first non-whitespace byte at or after `i`.
pub open spec fn spec_skip_space(s: Seq<u8>, i: int) -> int
    decreases s.len() - i,
{
    if 0 <= i < s.len() && spec_is_space(s[i]) {
        spec_skip_space(s, i + 1)
    } else {
        i
    }
}

/// Magnitude of the decimal digit prefix starting at `i`, accumulated onto
/// `acc` and saturating at `u64::MAX`.
pub open spec fn spec_digits_sat(s: Seq<u8>, i: int, acc: u64) -> u64
    decreases s.len() - i,
{
    if 0 <= i < s.len() && spec_is_digit(s[i]) {
        let d = (s[i] - 0x30) as u64;
        let next: u64 = if acc as int * 10 + d <= u64::MAX as int {
            (acc * 10 + d) as u64
        } else {
            u64::MAX
        };
        spec_digits_sat(s, i + 1, next)
    } else {
        acc
    }
}

/// Whether the byte at `i` is a minus sign, and the index after an optional
/// single sign byte.
pub open spec fn spec_sign_at(s: Seq<u8>, i: int) -> (bool, int) {
    if 0 <= i < s.len() && s[i] == 0x2d {
        (true, i + 1)
    } else if 0 <= i < s.len() && s[i] == 0x2b {
        (false, i + 1)
    } else {
        (false, i)
    }
}

/// A byte string read as a signed integer under host coercion: optional
/// whitespace, optional sign, longest digit prefix, saturating at the
/// signed bounds.
pub open spec fn spec_coerce_i64(s: Seq<u8>) -> i64 {
    let start = spec_skip_space(s, 0);
    let (neg, at) = spec_sign_at(s, start);
    let mag = spec_digits_sat(s, at, 0);
    if neg {
        if mag >= 0x8000_0000_0000_0000u64 {
            i64::MIN
        } else {
            (-(mag as int)) as i64
        }
    } else {
        if mag >= 0x8000_0000_0000_0000u64 {
            i64::MAX
        } else {
            mag as i64
        }
    }
}

/// A byte string read as an unsigned integer under host coercion; a negative
/// reading saturates at zero.
pub open spec fn spec_coerce_u64(s: Seq<u8>) -> u64 {
    let start = spec_skip_space(s, 0);
    let (neg, at) = spec_sign_at(s, start);
    let mag = spec_digits_sat(s, at, 0);
    if neg && mag > 0 {
        0
    } else {
        mag
    }
}

/// Skip whitespace, read an optional sign and the saturated digit prefix.
fn scan_number(s: &[u8]) -> (r: (bool, u64))
    ensures
        ({
            let start = spec_skip_space(s@, 0);
            let (neg, at) = spec_sign_at(s@, start);
            r == (neg, spec_digits_sat(s@, at, 0))
        }),
{
    let n = s.len();
    let mut i: usize = 0;
    while i < n
        invariant
            n == s@.len(),
            i <= n,
            spec_skip_space(s@, 0) == spec_skip_space(s@, i as int),
        ensures
            i <= n,
            spec_skip_space(s@, 0) == i as int,
        decreases n - i,
    {
        let b = *vstd::slice::slice_index_get(s, i);
        if !(b == 0x20 || b == 0x09 || b == 0x0a || b == 0x0b || b == 0x0c || b == 0x0d) {
            proof {
                assert(spec_skip_space(s@, i as int) == i as int);
            }
            break;
        }
        i = i + 1;
    }
    let mut neg = false;
    if i < n {
        let b = *vstd::slice::slice_index_get(s, i);
        if b == 0x2d {
            neg = true;
            i = i + 1;
        } else if b == 0x2b {
            i = i + 1;
        }
    }
    let ghost at0 = i as int;
    let mut acc: u64 = 0;
    while i < n
        invariant
            n == s@.len(),
            i <= n,
            at0 <= i as int,
            spec_digits_sat(s@, at0, 0) == spec_digits_sat(s@, i as int, acc),
        ensures
            spec_digits_sat(s@, at0, 0) == acc,
        decreases n - i,
    {
        let b = *vstd::slice::slice_index_get(s, i);
        if !(0x30 <= b && b <= 0x39) {
            proof {
                assert(spec_digits_sat(s@, i as int, acc) == acc);
            }
            break;
        }
        let d = (b - 0x30) as u64;
        if acc <= (u64::MAX - d) / 10 {
            proof {
                assert(acc as int * 10 + d <= u64::MAX as int) by (nonlinear_arith)
                    requires
                        acc <= (u64::MAX - d) / 10,
                        d <= 9,
                ;
            }
            acc = acc * 10 + d;
        } else {
            proof {
                assert(acc as int * 10 + d > u64::MAX as int) by (nonlinear_arith)
                    requires
                        acc > (u64::MAX - d) / 10,
                        d <= 9,
                ;
            }
            acc = u64::MAX;
        }
        i = i + 1;
    }
    (neg, acc)
}

/// Read a byte string as a signed integer under host coercion.
pub fn coerce_i64(s: &[u8]) -> (r: i64)
    ensures
        r == spec_coerce_i64(s@),
{
    let (neg, mag) = scan_number(s);
    if neg {
        if mag >= 0x8000_0000_0000_0000u64 {
            i64::MIN
        } else {
            -(mag as i64)
        }
    } else {
        if mag >= 0x8000_0000_0000_0000u64 {
            i64::MAX
        } else {
            mag as i64
        }
    }
}

/// Read a byte string as an unsigned integer under host coercion.
pub fn coerce_u64(s: &[u8]) -> (r: u64)
    ensures
        r == spec_coerce_u64(s@),
{
    let (neg, mag) = scan_number(s);
    if neg && mag > 0 {
        0
    } else {
        mag
    }
}

/// Byte-string equality.
pub fn bytes_eq(a: &[u8], b: &[u8]) -> (r: bool)
    ensures
        r == (a@ == b@),
{
    let n = a.len();
    if n != b.len() {
        proof {
            assert(a@ != b@);
        }
        return false;
    }
    let mut i: usize = 0;
    while i < n
        invariant
            n == a@.len(),
            n == b@.len(),
            i <= n,
            forall|j: int| 0 <= j < i ==> a@[j] == b@[j],
        decreases n - i,
    {
        if *vstd::slice::slice_index_get(a, i) != *vstd::slice::slice_index_get(b, i) {
            return false;
        }
        i = i + 1;
    }
    proof {
        assert(a@ =~= b@);
    }
    true
}

/// Some byte has its high bit set, so the data is not plain seven-bit text.
pub open spec fn spec_has_high_byte(s: Seq<u8>) -> bool {
    exists|i: int| 0 <= i < s.len() && s[i] >= 0x80
}

/// Scan for a byte with the high bit set.
pub fn has_high_byte(s: &[u8]) -> (r: bool)
    ensures
        r == spec_has_high_byte(s@),
{
    let n = s.len();
    let mut i: usize = 0;
    while i < n
        invariant
            n == s@.len(),
            i <= n,
            forall|j: int| 0 <= j < i ==> s@[j] < 0x80,
        decreases n - i,
    {
        if *vstd::slice::slice_index_get(s, i) >= 0x80 {
            return true;
        }
        i = i + 1;
    }
    false
}

/// Copy a string's encoded bytes into an owned buffer.
pub fn str_bytes(s: &str) -> (out: Vec<u8>)
    ensures
        out@ == s.spec_bytes(),
{
    s.as_bytes_vec()
}


/// Decimal digits of a number, as bytes.
pub open spec fn spec_dec_bytes(n: nat) -> Seq<u8>
    decreases n,
{
    if n < 10 {
        seq![(0x30 + n) as u8]
    } else {
        spec_dec_bytes(n / 10) + seq![(0x30 + n % 10) as u8]
    }
}

/// A signed integer rendered in decimal, as bytes.
pub open spec fn spec_i64_dec_bytes(i: int) -> Seq<u8> {
    if i < 0 {
        seq![0x2du8] + spec_dec_bytes((-i) as nat)
    } else {
        spec_dec_bytes(i as nat)
    }
}

/// Render a number in decimal bytes.
pub fn dec_bytes(n: u64) -> (r: Vec<u8>)
    ensures
        r@ == spec_dec_bytes(n as nat),
    decreases n,
{
    if n < 10 {
        let mut v: Vec<u8> = Vec::new();
        v.push(0x30u8 + (n as u8));
        proof {
            assert(v@ =~= spec_dec_bytes(n as nat));
        }
        v
    } else {
        let mut v = dec_bytes(n / 10);
        v.push(0x30u8 + ((n % 10) as u8));
        proof {
            assert(v@ =~= spec_dec_bytes(n as nat));
        }
        v
    }
}

/// Render a signed integer in decimal bytes.
pub fn dec_bytes_i64(i: i64) -> (r: Vec<u8>)
    ensures
        r@ == spec_i64_dec_bytes(i as int),
{
    if i >= 0 {
        dec_bytes(i as u64)
    } else {
        let mag: u64 = if i == i64::MIN {
            0x8000_0000_0000_0000u64
        } else {
            (-i) as u64
        };
        proof {
            assert(mag as nat == (-(i as int)) as nat);
        }
        let mut v: Vec<u8> = Vec::new();
        v.push(0x2du8);
        let mut digits = dec_bytes(mag);
        v.append(&mut digits);
        proof {
            assert(v@ =~= spec_i64_dec_bytes(i as int));
        }
        v
    }
}

} // verus!
