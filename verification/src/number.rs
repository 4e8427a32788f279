//! Numbers of JSON documents and their ordering.
//!
//! A JSON number is either a non-negative integer, a negative integer or a
//! finite double.  Queries and sorting compare numbers by their value as a
//! double: an integer is first rounded to the nearest double (ties to even),
//! exactly as an integer-to-double conversion does.  Doubles are carried as
//! their IEEE-754 bit patterns.
use vstd::prelude::*;
use vstd::arithmetic::power2::*;
use vstd::arithmetic::div_mod::*;
use vstd::arithmetic::mul::*;

verus! {

/// 2^52: the weight of the hidden leading bit of a double's significand.
pub open spec fn two52() -> nat {
    4503599627370496
}

/// 2^53: one past the largest significand of a double.
pub open spec fn two53() -> nat {
    9007199254740992
}

/// 2^63: the sign bit of a double's bit pattern.
pub open spec fn two63() -> nat {
    9223372036854775808
}

/// Number of binary digits of `n` (0 for 0).
pub open spec fn bit_length(n: nat) -> nat
    decreases n,
{
    if n == 0 {
        0
    } else {
        1 + bit_length(n / 2)
    }
}

/// Bit pattern of the double nearest to the natural number `n`, ties going to
/// the even significand.  With `len` binary digits, `n` lies in
/// `[2^(len-1), 2^len)`; the double's biased exponent is `1022 + len` and its
/// 53-bit significand is `n` scaled to 53 digits, rounded when `n` has more.
pub open spec fn double_bits_of_nat(n: nat) -> nat {
    if n == 0 {
        0
    } else {
        let len = bit_length(n);
        if len <= 53 {
            ((1022 + len) * two52() + (n * pow2((53 - len) as nat) - two52())) as nat
        } else {
            let s = (len - 53) as nat;
            let q = n / pow2(s);
            let r = n % pow2(s);
            let half = pow2((s - 1) as nat);
            let m = if r > half || (r == half && q % 2 == 1) {
                q + 1
            } else {
                q
            };
            if m == two53() {
                ((1023 + len) * two52()) as nat
            } else {
                ((1022 + len) * two52() + (m - two52())) as nat
            }
        }
    }
}

/// Whether a bit pattern encodes a finite double (its exponent field is not
/// all ones).
pub open spec fn is_finite_double(bits: u64) -> bool {
    (bits as nat % two63()) / two52() != 2047
}

/// Position of a finite double on the real line as an integer: doubles
/// compare as these keys compare, and `+0` and `-0` share the key 0.
pub open spec fn double_order_key(bits: nat) -> int {
    if bits >= two63() {
        -((bits - two63()) as int)
    } else {
        bits as int
    }
}

pub proof fn lemma_bit_length_bounds(n: nat)
    requires
        n > 0,
    ensures
        bit_length(n) >= 1,
        pow2((bit_length(n) - 1) as nat) <= n < pow2(bit_length(n)),
    decreases n,
{
    if n == 1 {
        lemma2_to64();
        assert(bit_length(0) == 0);
        assert(bit_length(1) == 1);
    } else {
        lemma_bit_length_bounds(n / 2);
        let l = bit_length(n / 2);
        lemma_pow2_unfold(l);
        lemma_pow2_unfold((l + 1) as nat);
        assert(bit_length(n) == l + 1);
        assert(n >= 2 * (n / 2) && n <= 2 * (n / 2) + 1);
    }
}

proof fn lemma_bit_length_u64(n: nat)
    requires
        0 < n < 0x1_0000_0000_0000_0000,
    ensures
        1 <= bit_length(n) <= 64,
{
    lemma_bit_length_bounds(n);
    lemma2_to64_rest();
    if bit_length(n) > 64 {
        lemma_pow2_strictly_increases(64, (bit_length(n) - 1) as nat);
    }
}

/// `2^k` for `k < 64`.
fn pow2_u64(k: u64) -> (r: u64)
    requires
        k < 64,
    ensures
        r == pow2(k as nat),
{
    let mut r: u64 = 1;
    let mut i: u64 = 0;
    proof {
        lemma2_to64();
    }
    while i < k
        invariant
            i <= k,
            k < 64,
            r == pow2(i as nat),
        decreases k - i,
    {
        proof {
            lemma_pow2_unfold((i + 1) as nat);
            lemma_pow2_strictly_increases((i + 1) as nat, 64);
            lemma2_to64_rest();
        }
        r = r * 2;
        i = i + 1;
    }
    r
}

/// Bit pattern of the double nearest to `n` (an integer-to-double
/// conversion).
pub fn double_bits_of_u64(n: u64) -> (bits: u64)
    ensures
        bits as nat == double_bits_of_nat(n as nat),
        bits < two63(),
{
    if n == 0 {
        return 0;
    }
    proof {
        lemma_bit_length_u64(n as nat);
        lemma_bit_length_bounds(n as nat);
    }
    let mut len: u64 = 0;
    let mut m: u64 = n;
    while m > 0
        invariant
            bit_length(n as nat) == len + bit_length(m as nat),
            bit_length(n as nat) <= 64,
        decreases m,
    {
        m = m / 2;
        len = len + 1;
    }
    assert(len == bit_length(n as nat));
    let ghost nn = n as nat;
    if len <= 53 {
        let p = pow2_u64(53 - len);
        proof {
            lemma_pow2_adds(len as nat, (53 - len) as nat);
            lemma_pow2_adds((len - 1) as nat, (53 - len) as nat);
            lemma2_to64();
            lemma2_to64_rest();
            lemma_pow2_pos((53 - len) as nat);
            assert(pow2(len as nat) * pow2((53 - len) as nat) == pow2(53));
            assert(pow2((len - 1) as nat) * pow2((53 - len) as nat) == pow2(52));
            lemma_mul_strict_inequality(nn as int, pow2(len as nat) as int, p as int);
            lemma_mul_inequality(pow2((len - 1) as nat) as int, nn as int, p as int);
        }
        let mant = n * p;
        (1022 + len) * 4503599627370496 + (mant - 4503599627370496)
    } else {
        let s = len - 53;
        let p = pow2_u64(s);
        let half = pow2_u64(s - 1);
        proof {
            lemma_pow2_adds(52, s as nat);
            lemma_pow2_adds(53, s as nat);
            lemma2_to64();
            lemma2_to64_rest();
            lemma_pow2_pos(s as nat);
            lemma_div_is_ordered((two52() * p) as int, nn as int, p as int);
            lemma_div_multiples_vanish(two52() as int, p as int);
            lemma_multiply_divide_lt(nn as int, p as int, two53() as int);
        }
        let q = n / p;
        let r = n % p;
        let m = if r > half || (r == half && q % 2 == 1) {
            q + 1
        } else {
            q
        };
        if m == 9007199254740992 {
            (1023 + len) * 4503599627370496
        } else {
            (1022 + len) * 4503599627370496 + (m - 4503599627370496)
        }
    }
}

/// A positive integer below 2^53 is a double exactly: its bit pattern lies
/// in the band of its binary length.
proof fn lemma_exact_band(n: nat)
    requires
        0 < n < two53(),
    ensures
        1 <= bit_length(n) <= 53,
        (1022 + bit_length(n)) * two52() <= double_bits_of_nat(n) < (1023 + bit_length(n)) * two52(),
{
    lemma_bit_length_bounds(n);
    let len = bit_length(n);
    lemma2_to64_rest();
    lemma2_to64();
    if len > 53 {
        lemma_pow2_strictly_increases(53, (len - 1) as nat);
        assert(false);
    }
    let k = (53 - len) as nat;
    lemma_pow2_adds((len - 1) as nat, k);
    lemma_pow2_adds(len, k);
    assert(((len - 1) as nat + k) as nat == 52);
    assert((len + k) as nat == 53);
    let p = pow2(k);
    lemma_pow2_pos(k);
    lemma_mul_inequality(pow2((len - 1) as nat) as int, n as int, p as int);
    lemma_mul_strict_inequality(n as int, pow2(len) as int, p as int);
    assert(pow2((len - 1) as nat) * p == two52());
    assert(pow2(len) * p == two53());
}

/// Integers up to 2^53 are exact doubles, so their bit patterns are
/// ordered as the integers are.
pub proof fn lemma_double_bits_strictly_increasing(u: nat, v: nat)
    requires
        u < v <= two53(),
    ensures
        double_bits_of_nat(u) < double_bits_of_nat(v),
{
    lemma2_to64_rest();
    lemma2_to64();
    if v == two53() {
        lemma_bit_length_bounds(v);
        let lv = bit_length(v);
        if lv < 54 {
            lemma_pow2_strictly_increases((lv) as nat, 53);
            assert(false);
        }
        if lv > 54 {
            lemma_pow2_strictly_increases(53, (lv - 1) as nat);
            assert(false);
        }
        assert(lv == 54);
        assert(pow2(1) == 2);
        assert(pow2(0) == 1);
        assert(v / pow2(1) == two52());
        assert(v % pow2(1) == 0);
        assert(double_bits_of_nat(v) == 1076 * two52());
        if u > 0 {
            lemma_exact_band(u);
        }
    } else if u == 0 {
        lemma_exact_band(v);
    } else {
        lemma_exact_band(u);
        lemma_exact_band(v);
        let lu = bit_length(u);
        let lv = bit_length(v);
        lemma_bit_length_bounds(u);
        lemma_bit_length_bounds(v);
        if lu > lv {
            if lv < (lu - 1) as nat {
                lemma_pow2_strictly_increases(lv, (lu - 1) as nat);
            }
            assert(false);
        }
        if lu == lv {
            let k = (53 - lu) as nat;
            lemma_pow2_pos(k);
            lemma_mul_strict_inequality(u as int, v as int, pow2(k) as int);
        }
    }
}

/// The magnitude of the double whose bit pattern without the sign bit is
/// `t`, in units of 2^-1074 (the smallest subnormal): with exponent field
/// `e` and fraction `f`, `f` when `e` is 0 (subnormal), and
/// `(2^52 + f) * 2^(e-1)` otherwise.
pub open spec fn double_magnitude(t: nat) -> nat {
    let e = t / two52();
    let f = t % two52();
    if e == 0 {
        f
    } else {
        (two52() + f) * pow2((e - 1) as nat)
    }
}

/// The value of the double with bit pattern `bits`, times 2^1074 (an
/// integer for every finite double).
pub open spec fn double_scaled_value(bits: nat) -> int {
    if bits >= two63() {
        -(double_magnitude((bits - two63()) as nat) as int)
    } else {
        double_magnitude(bits) as int
    }
}

/// A magnitude below `2^52 * 2^e`, where `e` is the exponent field.
proof fn lemma_magnitude_below(t: nat)
    ensures
        double_magnitude(t) < two52() * pow2(t / two52()),
        t / two52() > 0 ==> double_magnitude(t) >= two52() * pow2((t / two52() - 1) as nat),
{
    let e = t / two52();
    let f = t % two52();
    lemma2_to64();
    lemma_pow2_pos(e);
    if e == 0 {
        assert(pow2(0) == 1);
    } else {
        let p = pow2((e - 1) as nat);
        lemma_pow2_pos((e - 1) as nat);
        lemma_pow2_unfold(e);
        assert(pow2(e) == 2 * p);
        lemma_mul_strict_inequality((two52() + f) as int, (2 * two52()) as int, p as int);
        lemma_mul_inequality(two52() as int, (two52() + f) as int, p as int);
        lemma_mul_is_associative(two52() as int, 2, p as int);
    }
}

/// Larger bit patterns (without the sign bit) are larger magnitudes.
pub proof fn lemma_magnitude_strictly_increasing(a: nat, b: nat)
    requires
        a < b,
    ensures
        double_magnitude(a) < double_magnitude(b),
{
    let ea = a / two52();
    let eb = b / two52();
    lemma_div_is_ordered(a as int, b as int, two52() as int);
    lemma_fundamental_div_mod(a as int, two52() as int);
    lemma_fundamental_div_mod(b as int, two52() as int);
    if ea == eb {
        let fa = a % two52();
        let fb = b % two52();
        assert(fa < fb);
        if ea != 0 {
            let p = pow2((ea - 1) as nat);
            lemma_pow2_pos((ea - 1) as nat);
            lemma_mul_strict_inequality((two52() + fa) as int, (two52() + fb) as int, p as int);
        }
    } else {
        lemma_magnitude_below(a);
        lemma_magnitude_below(b);
        if ea < (eb - 1) as nat {
            lemma_pow2_strictly_increases(ea, (eb - 1) as nat);
        }
        lemma_mul_inequality(pow2(ea) as int, pow2((eb - 1) as nat) as int, two52() as int);
        lemma_mul_is_commutative(pow2(ea) as int, two52() as int);
        lemma_mul_is_commutative(pow2((eb - 1) as nat) as int, two52() as int);
    }
}

/// Only the pattern 0 has magnitude 0.
pub proof fn lemma_magnitude_zero(t: nat)
    ensures
        (double_magnitude(t) == 0) == (t == 0),
{
    if t > 0 {
        lemma_magnitude_strictly_increasing(0, t);
    }
}

} // verus!
