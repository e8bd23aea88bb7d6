//! Index arithmetic: powers of two, bit reversal and the two orders in which
//! the points of a circle domain are counted.

use vstd::prelude::*;
use vstd::arithmetic::div_mod::{lemma_div_denominator, lemma_fundamental_div_mod};
use vstd::arithmetic::power2::{lemma2_to64, lemma2_to64_rest, lemma_pow2_pos, lemma_pow2_unfold, pow2};
use vstd::layout::unsigned_int_max_values;

verus! {

/// The number whose low `bits` binary digits are those of `i` in reverse order.
pub open spec fn spec_bit_reverse(i: nat, bits: nat) -> nat
    decreases bits,
{
    if bits == 0 {
        0
    } else {
        2 * spec_bit_reverse(i, (bits - 1) as nat) + (i / pow2((bits - 1) as nat)) % 2
    }
}

/// Bit reversal as the storage order uses it: the identity on a domain of one point.
pub open spec fn spec_bit_reverse_index(i: nat, log_size: nat) -> nat {
    if log_size == 0 {
        i
    } else {
        spec_bit_reverse(i, log_size)
    }
}

/// A reversed index is below the size of its domain.
pub proof fn lemma_bit_reverse_bound(i: nat, bits: nat)
    ensures
        spec_bit_reverse(i, bits) < pow2(bits),
    decreases bits,
{
    if bits == 0 {
        lemma_pow2_pos(0);
    } else {
        lemma_bit_reverse_bound(i, (bits - 1) as nat);
        lemma_pow2_unfold(bits);
    }
}

/// `2^e` for an exponent below the width of `usize`.
pub fn pow2_usize(e: u32) -> (r: usize)
    requires
        e < usize::BITS,
    ensures
        r == pow2(e as nat),
{
    let mut r: usize = 1;
    let mut k: u32 = 0;
    proof {
        lemma2_to64();
        unsigned_int_max_values();
    }
    while k < e
        invariant
            k <= e,
            e < usize::BITS,
            r == pow2(k as nat),
            (usize::MAX as nat) == pow2(usize::BITS as nat) - 1,
        decreases e - k,
    {
        proof {
            lemma_pow2_unfold((k + 1) as nat);
            lemma_pow2_monotone((k + 1) as nat, (usize::BITS - 1) as nat);
            lemma_pow2_unfold(usize::BITS as nat);
        }
        r = r * 2;
        k = k + 1;
    }
    r
}

/// Powers of two grow with the exponent.
pub proof fn lemma_pow2_monotone(a: nat, b: nat)
    requires
        a <= b,
    ensures
        pow2(a) <= pow2(b),
    decreases b - a,
{
    if a < b {
        lemma_pow2_monotone(a, (b - 1) as nat);
        lemma_pow2_unfold(b);
    }
}

/// Reverses the low `log_size` bits of `i`.
pub fn bit_reverse_index(i: usize, log_size: u32) -> (r: usize)
    requires
        log_size <= usize::BITS,
    ensures
        r == spec_bit_reverse_index(i as nat, log_size as nat),
{
    if log_size == 0 {
        return i;
    }
    let mut r: usize = 0;
    let mut rest: usize = i;
    let mut k: u32 = 0;
    proof {
        lemma2_to64();
        unsigned_int_max_values();
    }
    while k < log_size
        invariant
            k <= log_size <= usize::BITS,
            rest == (i as nat) / pow2(k as nat),
            r == spec_bit_reverse(i as nat, k as nat),
            (usize::MAX as nat) == pow2(usize::BITS as nat) - 1,
        decreases log_size - k,
    {
        proof {
            lemma_bit_reverse_bound(i as nat, k as nat);
            lemma_bit_reverse_bound(i as nat, (k + 1) as nat);
            lemma_pow2_unfold((k + 1) as nat);
            lemma_pow2_monotone((k + 1) as nat, usize::BITS as nat);
            lemma_pow2_pos(k as nat);
            lemma_div_denominator(i as int, pow2(k as nat) as int, 2);
            assert(pow2(k as nat) * 2 == pow2((k + 1) as nat));
        }
        r = 2 * r + rest % 2;
        rest = rest / 2;
        k = k + 1;
    }
    r
}

/// The exponent of a power of two, if `n` is one.
pub fn exact_log2(n: usize) -> (r: Option<u32>)
    ensures
        match r {
            Some(e) => e < usize::BITS && n == pow2(e as nat),
            None => forall|e: nat| n != pow2(e),
        },
{
    let mut e: u32 = 0;
    let mut p: usize = 1;
    proof {
        lemma2_to64();
        unsigned_int_max_values();
    }
    while p < n
        invariant
            e < usize::BITS,
            p == pow2(e as nat),
            p >= 1,
            (usize::MAX as nat) == pow2(usize::BITS as nat) - 1,
            forall|d: nat| d < e ==> pow2(d) < n,
        decreases usize::BITS - e,
    {
        proof {
            lemma_pow2_unfold((e + 1) as nat);
            lemma_pow2_unfold(usize::BITS as nat);
            if e + 1 < usize::BITS {
                lemma_pow2_monotone((e + 1) as nat, (usize::BITS - 1) as nat);
            }
        }
        if e + 1 == usize::BITS {
            proof {
                assert forall|d: nat| n != pow2(d) by {
                    if d <= e {
                        if d < e {
                        }
                    } else {
                        lemma_pow2_monotone(usize::BITS as nat, d);
                    }
                }
            }
            return None;
        }
        p = p * 2;
        e = e + 1;
    }
    if p == n {
        Some(e)
    } else {
        proof {
            assert forall|d: nat| n != pow2(d) by {
                if d < e {
                } else {
                    lemma_pow2_monotone(e as nat, d);
                }
            }
        }
        None
    }
}

/// A copy of a vector of plain values.
pub fn copy_vec<T: Copy>(v: &Vec<T>) -> (r: Vec<T>)
    ensures
        r@ == v@,
{
    let mut out: Vec<T> = Vec::with_capacity(v.len());
    let mut i: usize = 0;
    while i < v.len()
        invariant
            i <= v.len(),
            out@ == v@.subrange(0, i as int),
        decreases v.len() - i,
    {
        out.push(v[i]);
        proof {
            assert(out@ =~= v@.subrange(0, i + 1));
        }
        i = i + 1;
    }
    proof {
        assert(v@.subrange(0, v.len() as int) =~= v@);
    }
    out
}

/// The values of `v` in bit-reversed order.
pub open spec fn spec_bit_reversed<T>(v: Seq<T>, log_size: nat) -> Seq<T> {
    Seq::new(v.len(), |i: int| v[spec_bit_reverse_index(i as nat, log_size) as int])
}

/// Reorders `v` so that the value at `i` moves to the bit reversal of `i`.
pub fn bit_reverse<T: Copy>(v: &mut Vec<T>, log_size: u32)
    requires
        log_size < usize::BITS,
        old(v).len() == pow2(log_size as nat),
    ensures
        final(v)@ == spec_bit_reversed(old(v)@, log_size as nat),
{
    let n = v.len();
    let mut out: Vec<T> = Vec::with_capacity(n);
    let mut i: usize = 0;
    while i < n
        invariant
            i <= n,
            n == v.len(),
            n == pow2(log_size as nat),
            log_size < usize::BITS,
            out.len() == i,
            *v == *old(v),
            forall|j: int|
                0 <= j < i ==> out[j] == v[spec_bit_reverse_index(j as nat, log_size as nat) as int],
        decreases n - i,
    {
        let j = bit_reverse_index(i, log_size);
        proof {
            lemma_bit_reverse_bound(i as nat, log_size as nat);
            lemma2_to64();
        }
        out.push(v[j]);
        i = i + 1;
    }
    assert(out@ =~= spec_bit_reversed(old(v)@, log_size as nat));
    *v = out;
}

/// Position, in the order of a circle domain, of the point that stands at
/// `coset_index` in the order of the canonic coset.
pub open spec fn spec_coset_index_to_circle_domain_index(coset_index: nat, log_size: nat) -> nat {
    if coset_index % 2 == 0 {
        coset_index / 2
    } else {
        ((2 * pow2(log_size) - coset_index) / 2) as nat
    }
}

/// Position, in the order of the canonic coset, of the point that stands at
/// `circle_index` in the order of a circle domain.
pub open spec fn spec_circle_domain_index_to_coset_index(circle_index: nat, log_size: nat) -> nat {
    let n = pow2(log_size);
    if circle_index < n / 2 {
        circle_index * 2
    } else {
        ((n - 1 - circle_index) * 2 + 1) as nat
    }
}

pub fn coset_index_to_circle_domain_index(coset_index: usize, log_size: u32) -> (r: usize)
    requires
        log_size + 1 < usize::BITS,
        coset_index < pow2(log_size as nat),
    ensures
        r == spec_coset_index_to_circle_domain_index(coset_index as nat, log_size as nat),
        r < pow2(log_size as nat),
{
    proof {
        lemma_pow2_unfold((log_size + 1) as nat);
    }
    if coset_index % 2 == 0 {
        coset_index / 2
    } else {
        (pow2_usize(log_size + 1) - coset_index) / 2
    }
}

pub fn circle_domain_index_to_coset_index(circle_index: usize, log_size: u32) -> (r: usize)
    requires
        log_size < usize::BITS,
        circle_index < pow2(log_size as nat),
    ensures
        r == spec_circle_domain_index_to_coset_index(circle_index as nat, log_size as nat),
        log_size > 0 ==> r < pow2(log_size as nat),
{
    let n = pow2_usize(log_size);
    if log_size == 0 {
        proof {
            lemma2_to64();
        }
        return 1;
    }
    proof {
        lemma_pow2_unfold(log_size as nat);
    }
    if circle_index < n / 2 {
        circle_index * 2
    } else {
        (n - 1 - circle_index) * 2 + 1
    }
}

/// The two orders are inverse to each other.
pub proof fn lemma_domain_orders_inverse(i: nat, log_size: nat)
    requires
        0 < log_size,
        i < pow2(log_size),
    ensures
        spec_coset_index_to_circle_domain_index(
            spec_circle_domain_index_to_coset_index(i, log_size),
            log_size,
        ) == i,
        spec_circle_domain_index_to_coset_index(
            spec_coset_index_to_circle_domain_index(i, log_size),
            log_size,
        ) == i,
{
    lemma_pow2_unfold(log_size);
}

} // verus!
