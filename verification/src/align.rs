//! Padding and power-of-two arithmetic used to size and align allocations.

use vstd::prelude::*;

verus! {

/// Bytes needed to round `len` up to a multiple of `align`.
pub open spec fn spec_pad_len(len: int, align: int) -> int
    recommends
        align > 0,
{
    if len % align == 0 {
        0
    } else {
        align - len % align
    }
}

/// `n` is a positive power of two.
pub open spec fn is_pow2(n: int) -> bool
    decreases n,
{
    if n <= 0 {
        false
    } else if n == 1 {
        true
    } else {
        n % 2 == 0 && is_pow2(n / 2)
    }
}

/// The smallest power of two that is at least `n` (and at least 1).
pub open spec fn spec_npot(n: int) -> int
    decreases n,
{
    if n <= 1 {
        1
    } else {
        2 * spec_npot((n + 1) / 2)
    }
}

pub proof fn lemma_npot_bounds(n: int)
    ensures
        spec_npot(n) >= 1,
        spec_npot(n) >= n,
        is_pow2(spec_npot(n)),
        n >= 1 ==> spec_npot(n) < 2 * n,
    decreases n,
{
    if n <= 1 {
    } else {
        lemma_npot_bounds((n + 1) / 2);
        assert(is_pow2(2 * spec_npot((n + 1) / 2))) by {
            lemma_pow2_double(spec_npot((n + 1) / 2));
        }
    }
}

pub proof fn lemma_pow2_double(p: int)
    requires
        is_pow2(p),
    ensures
        is_pow2(2 * p),
{
    assert((2 * p) % 2 == 0);
    assert((2 * p) / 2 == p);
}

/// A power of two at or above `n` is at or above the next power of two of `n`.
pub proof fn lemma_npot_minimal(n: int, p: int)
    requires
        is_pow2(p),
        p >= n,
    ensures
        spec_npot(n) <= p,
    decreases n,
{
    if n <= 1 {
        assert(p >= 1);
    } else {
        assert(p >= 2);
        assert(p % 2 == 0 && is_pow2(p / 2));
        assert(p / 2 >= (n + 1) / 2);
        lemma_npot_minimal((n + 1) / 2, p / 2);
    }
}

/// Distinct powers of two are at least a factor of two apart.
pub proof fn lemma_pow2_gap(a: int, b: int)
    requires
        is_pow2(a),
        is_pow2(b),
        a < b,
    ensures
        2 * a <= b,
    decreases a,
{
    if a == 1 {
        assert(b >= 2);
    } else {
        assert(a % 2 == 0 && is_pow2(a / 2));
        assert(b % 2 == 0 && is_pow2(b / 2));
        lemma_pow2_gap(a / 2, b / 2);
    }
}

/// Padding never reaches a full alignment unit, and always completes one.
pub proof fn lemma_pad_len_aligns(len: int, align: int)
    requires
        align > 0,
        len >= 0,
    ensures
        0 <= spec_pad_len(len, align) < align,
        (len + spec_pad_len(len, align)) % align == 0,
{
    let q = len / align;
    let r0 = len % align;
    vstd::arithmetic::div_mod::lemma_fundamental_div_mod(len, align);
    assert(len == align * q + r0);
    if r0 != 0 {
        assert(len + spec_pad_len(len, align) == align * q + align);
        assert(align * q + align == (q + 1) * align) by (nonlinear_arith);
        vstd::arithmetic::div_mod::lemma_mod_multiples_basic(q + 1, align);
        assert(((q + 1) * align) % align == 0);
    }
}

/// Bytes of padding needed to bring a running offset of `len` up to a
/// multiple of `align`.
pub fn pad_len(len: usize, align: usize) -> (r: usize)
    requires
        align > 0,
    ensures
        r == spec_pad_len(len as int, align as int),
        r < align,
        (len + r) % (align as int) == 0,
{
    let out = len % align;
    proof {
        lemma_pad_len_aligns(len as int, align as int);
    }
    if out == 0 {
        0
    } else {
        align - out
    }
}

/// The smallest power of two at or above `n`.
///
/// A caller must know that this power of two is representable; asking for
/// one beyond the address space is a configuration error the arena treats
/// as fatal.
pub fn next_pow2(n: usize) -> (r: usize)
    requires
        spec_npot(n as int) <= usize::MAX,
    ensures
        r == spec_npot(n as int),
        r >= n,
        is_pow2(r as int),
{
    proof {
        lemma_npot_bounds(n as int);
    }
    let mut p: usize = 1;
    while p < n
        invariant
            1 <= p,
            is_pow2(p as int),
            p <= spec_npot(n as int),
            spec_npot(n as int) <= usize::MAX,
        decreases spec_npot(n as int) - p,
    {
        proof {
            lemma_npot_bounds(n as int);
            lemma_pow2_double(p as int);
            // p < n <= npot(n), and both are powers of two, so 2 * p fits.
            lemma_pow2_gap(p as int, spec_npot(n as int));
        }
        p = p * 2;
    }
    proof {
        lemma_npot_minimal(n as int, p as int);
    }
    p
}

} // verus!
