//! Math utilities: logarithms, alignment and bit decompositions of integers.

use vstd::prelude::*;
use vstd::arithmetic::power2::{pow2, lemma_pow2_pos, lemma_pow2_unfold};
use vstd::arithmetic::div_mod::lemma_div_denominator;

verus! {

/// Number of binary digits of `x` (zero has none).
pub open spec fn bit_len(x: nat) -> nat
    decreases x,
{
    if x == 0 {
        0
    } else {
        1 + bit_len(x / 2)
    }
}

/// Ceiling of log2: the least `k` with `value <= 2^k`, and `0` for `0`.
pub open spec fn clog2_spec(value: nat) -> nat {
    if value == 0 {
        0
    } else {
        bit_len((value - 1) as nat)
    }
}

/// Floor of log2 of a positive value.
pub open spec fn flog2_spec(value: nat) -> nat
    decreases value,
{
    if value <= 1 {
        0
    } else {
        1 + flog2_spec(value / 2)
    }
}

/// Bit `i` of `value`, counting from the least significant bit.
pub open spec fn bit_of(value: nat, i: nat) -> bool {
    (value / pow2(i)) % 2 == 1
}

/// The `n` least significant bits of `value`, least significant first.
pub open spec fn low_bits_spec(n: nat, value: nat) -> Seq<bool> {
    Seq::new(n, |i: int| bit_of(value, i as nat))
}

/// The number that a sequence of bits (least significant first) stands for.
pub open spec fn bits_value(bits: Seq<bool>) -> nat
    decreases bits.len(),
{
    if bits.len() == 0 {
        0
    } else {
        (if bits[0] { 1nat } else { 0nat }) + 2 * bits_value(bits.drop_first())
    }
}

/// `value` rounded up to the next multiple of `by`.
pub open spec fn align_spec(value: nat, by: nat) -> nat
    recommends
        by > 0,
{
    ((value + by - 1) as nat / by) * by
}

/// The number of digits is at most the number itself.
pub proof fn lemma_bit_len_le(x: nat)
    ensures
        bit_len(x) <= x,
    decreases x,
{
    if x > 0 {
        lemma_bit_len_le(x / 2);
    }
}

/// A positive number lies between the two powers of two that its digit count names.
pub proof fn lemma_bit_len_bounds(x: nat)
    requires
        x > 0,
    ensures
        bit_len(x) >= 1,
        pow2((bit_len(x) - 1) as nat) <= x,
        x < pow2(bit_len(x)),
    decreases x,
{
    if x == 1 {
        assert(bit_len(0) == 0);
        assert(pow2(0) == 1) by {
            vstd::arithmetic::power2::lemma2_to64();
        }
        assert(pow2(1) == 2) by {
            vstd::arithmetic::power2::lemma2_to64();
        }
    } else {
        lemma_bit_len_bounds(x / 2);
        let b = bit_len(x);
        assert(b == 1 + bit_len(x / 2));
        lemma_pow2_unfold(b);
        if b >= 2 {
            lemma_pow2_unfold((b - 1) as nat);
        } else {
            assert(pow2(0) == 1) by {
                vstd::arithmetic::power2::lemma2_to64();
            }
        }
    }
}

/// Ceiling log2 law: for `value >= 1`, `value <= 2^clog2`, and `2^(clog2 - 1) < value`
/// when `clog2` is positive, as it is from `2` on.
pub proof fn lemma_clog2_bounds(value: nat)
    requires
        value >= 1,
    ensures
        value >= 2 ==> clog2_spec(value) >= 1,
        clog2_spec(value) >= 1 ==> pow2((clog2_spec(value) - 1) as nat) < value,
        value <= pow2(clog2_spec(value)),
{
    if value == 1 {
        vstd::arithmetic::power2::lemma2_to64();
    } else {
        lemma_bit_len_bounds((value - 1) as nat);
    }
}

/// Floor log2 law: for `value >= 1`, `2^flog2 <= value < 2^(flog2 + 1)`.
pub proof fn lemma_flog2_bounds(value: nat)
    requires
        value >= 1,
    ensures
        pow2(flog2_spec(value)) <= value,
        value < pow2(flog2_spec(value) + 1),
    decreases value,
{
    if value == 1 {
        vstd::arithmetic::power2::lemma2_to64();
    } else {
        lemma_flog2_bounds(value / 2);
        let f = flog2_spec(value);
        lemma_pow2_unfold(f);
        lemma_pow2_unfold(f + 1);
    }
}

/// Bit `i + 1` of `value` is bit `i` of `value / 2`.
pub proof fn lemma_bit_of_succ(value: nat, i: nat)
    ensures
        bit_of(value, i + 1) == bit_of(value / 2, i),
{
    lemma_pow2_pos(i);
    lemma_pow2_unfold(i + 1);
    assert(pow2((i + 1 - 1) as nat) == pow2(i));
    lemma_div_denominator(value as int, 2, pow2(i) as int);
    assert(2 * pow2(i) == pow2(i + 1));
}

/// Bit `0` of `value` is its parity.
pub proof fn lemma_bit_of_zero(value: nat)
    ensures
        bit_of(value, 0) == (value % 2 == 1),
{
    vstd::arithmetic::power2::lemma2_to64();
}

/// Reading back the low bits of a value gives the value, when there are enough of them.
pub proof fn lemma_low_bits_value(n: nat, value: nat)
    requires
        n >= bit_len(value),
    ensures
        bits_value(low_bits_spec(n, value)) == value,
    decreases n,
{
    if n == 0 {
        assert(value == 0);
    } else {
        let s = low_bits_spec(n, value);
        let t = low_bits_spec((n - 1) as nat, value / 2);
        assert(s.drop_first() =~= t) by {
            assert forall|i: int| 0 <= i < n - 1 implies s.drop_first()[i] == t[i] by {
                lemma_bit_of_succ(value, i as nat);
            }
        }
        if value > 0 {
            assert(bit_len(value / 2) == bit_len(value) - 1);
        } else {
            assert(value / 2 == 0);
        }
        lemma_low_bits_value((n - 1) as nat, value / 2);
        lemma_bit_of_zero(value);
        assert(s[0] == bit_of(value, 0));
    }
}

/// Number of binary digits of `x`.
fn bit_length(x: usize) -> (r: usize)
    ensures
        r == bit_len(x as nat),
{
    let mut cur = x;
    let mut n: usize = 0;
    proof {
        lemma_bit_len_le(x as nat);
    }
    while cur > 0
        invariant
            bit_len(x as nat) == n + bit_len(cur as nat),
            bit_len(x as nat) <= x,
        decreases cur,
    {
        cur = cur / 2;
        n = n + 1;
    }
    n
}

/// Returns ceiling log2.
pub fn clog2(value: usize) -> (r: usize)
    ensures
        r == clog2_spec(value as nat),
{
    if value == 0 {
        0
    } else {
        bit_length(value - 1)
    }
}

/// Returns floor log2.
pub fn flog2(val: usize) -> (r: usize)
    requires
        val >= 1,
    ensures
        r == flog2_spec(val as nat),
    decreases val,
{
    if val == 1 {
        0
    } else {
        proof {
            lemma_flog2_le(val as nat);
        }
        1 + flog2(val / 2)
    }
}

/// The floor log2 of a value is below the value.
proof fn lemma_flog2_le(value: nat)
    requires
        value >= 1,
    ensures
        flog2_spec(value) < value,
    decreases value,
{
    if value > 1 {
        lemma_flog2_le(value / 2);
    }
}

/// Return aligned value of `value` by `by`.
pub fn align_usize(value: usize, by: usize) -> (r: usize)
    requires
        by > 0,
        value + by - 1 <= usize::MAX,
    ensures
        r == align_spec(value as nat, by as nat),
{
    let q = (value + (by - 1)) / by;
    proof {
        vstd::arithmetic::div_mod::lemma_fundamental_div_mod((value + by - 1) as int, by as int);
        vstd::arithmetic::mul::lemma_mul_is_commutative(q as int, by as int);
        assert(q * by <= value + by - 1) by {
            vstd::arithmetic::div_mod::lemma_mod_pos_bound((value + by - 1) as int, by as int);
        }
    }
    q * by
}

/// Alignment law: the aligned value is a multiple of `by`, not below `value`,
/// and less than `by` above it.
pub proof fn lemma_align_bounds(value: nat, by: nat)
    requires
        by > 0,
    ensures
        align_spec(value, by) % by == 0,
        value <= align_spec(value, by),
        align_spec(value, by) < value + by,
{
    let x = (value + by - 1) as nat;
    let q = x / by;
    vstd::arithmetic::div_mod::lemma_fundamental_div_mod(x as int, by as int);
    vstd::arithmetic::div_mod::lemma_mod_pos_bound(x as int, by as int);
    vstd::arithmetic::mul::lemma_mul_is_commutative(q as int, by as int);
    vstd::arithmetic::div_mod::lemma_mod_multiples_basic(q as int, by as int);
}

/// The `n` least significant bits of `value`, least significant first.
fn low_bits(n: usize, value: u64) -> (bits: Vec<bool>)
    ensures
        bits@ == low_bits_spec(n as nat, value as nat),
{
    let mut bits: Vec<bool> = Vec::new();
    let mut cur: u64 = value;
    let mut i: usize = 0;
    proof {
        vstd::arithmetic::power2::lemma2_to64();
    }
    while i < n
        invariant
            i <= n,
            bits@.len() == i,
            cur as nat == value as nat / pow2(i as nat),
            forall|j: int| 0 <= j < i ==> bits@[j] == bit_of(value as nat, j as nat),
        decreases n - i,
    {
        bits.push(cur % 2 == 1);
        proof {
            lemma_pow2_pos(i as nat);
            lemma_pow2_unfold(i as nat + 1);
            assert(pow2((i + 1 - 1) as nat) == pow2(i as nat));
            lemma_div_denominator(value as int, pow2(i as nat) as int, 2);
            vstd::arithmetic::mul::lemma_mul_is_commutative(pow2(i as nat) as int, 2);
        }
        cur = cur / 2;
        i = i + 1;
    }
    assert(bits@ =~= low_bits_spec(n as nat, value as nat));
    bits
}

/// Returns bit-represented value of an integer.
pub fn usize_to_bitvec(n: usize, value: usize) -> (bits: Vec<bool>)
    requires
        value < usize::MAX,
        n >= clog2_spec(value as nat + 1),
    ensures
        bits@ == low_bits_spec(n as nat, value as nat),
{
    low_bits(n, value as u64)
}

/// Copies `N` bits into an array.
fn bits_to_array<const N: usize>(bits: &Vec<bool>) -> (arr: [bool; N])
    requires
        bits@.len() == N,
    ensures
        arr@ == bits@,
{
    let mut arr: [bool; N] = [false; N];
    let mut i: usize = 0;
    while i < N
        invariant
            i <= N,
            bits@.len() == N,
            arr@.len() == N,
            forall|j: int| 0 <= j < i ==> arr@[j] == bits@[j],
        decreases N - i,
    {
        arr[i] = bits[i];
        i = i + 1;
    }
    assert(arr@ =~= bits@);
    arr
}

/// Returns bit-represented value of an integer.
pub fn usize_to_bits<const N: usize>(value: usize) -> (arr: [bool; N])
    requires
        value < usize::MAX,
        N >= clog2_spec(value as nat + 1),
    ensures
        arr@ == low_bits_spec(N as nat, value as nat),
{
    let bits = usize_to_bitvec(N, value);
    bits_to_array(&bits)
}

/// Returns bit-represented value of an integer.
pub fn u32_to_bits<const N: usize>(value: u32) -> (arr: [bool; N])
    ensures
        arr@ == low_bits_spec(N as nat, value as nat),
{
    let bits = low_bits(N, value as u64);
    bits_to_array(&bits)
}

/// Returns bit-represented value of an integer.
pub fn u64_to_bits<const N: usize>(value: u64) -> (arr: [bool; N])
    ensures
        arr@ == low_bits_spec(N as nat, value as nat),
{
    let bits = low_bits(N, value);
    bits_to_array(&bits)
}

} // verus!
