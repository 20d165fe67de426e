//! Rounding as IEEE 754 double precision performs it, carried out on
//! integers: a value keeps 53 significant binary digits, and what is cut off
//! rounds to the nearest neighbour, a tie going to the even one.
//!
//! Values here are never negative, and sizes and times stay far from the
//! ends of the exponent range, so a value is a mantissa of at most 53 binary
//! digits times a power of two.

use vstd::prelude::*;
use vstd::arithmetic::div_mod::*;
use vstd::arithmetic::power2::*;

verus! {

/// Two to the power 53: no mantissa exceeds it, and every natural number up
/// to it is held exactly.
pub const EXACT_LIMIT: u64 = 0x20_0000_0000_0000;

/// Two to the power 52: the least mantissa of a value that is not zero.
pub const NORMAL_LIMIT: u64 = 0x10_0000_0000_0000;

/// The integer nearest to `num / den`; of two equally near, the even one.
pub open spec fn round_half_even(num: nat, den: nat) -> nat
    recommends
        den > 0,
{
    let q = num / den;
    let r = num % den;
    if 2 * r < den || (2 * r == den && q % 2 == 0) {
        q
    } else {
        q + 1
    }
}

/// A double-precision value that is not negative: `mantissa` times two to
/// the power `exponent`.
pub ghost struct Binary {
    pub mantissa: nat,
    pub exponent: int,
}

impl Binary {
    /// The numerator of the value as a fraction.
    pub open spec fn num(self) -> nat {
        if self.exponent >= 0 {
            self.mantissa * pow2(self.exponent as nat)
        } else {
            self.mantissa
        }
    }

    /// The denominator of the value as a fraction: a power of two.
    pub open spec fn den(self) -> nat {
        if self.exponent >= 0 {
            1
        } else {
            pow2((-self.exponent) as nat)
        }
    }
}

/// How often `den` has to double until `num / den` lies below two to the 53.
pub open spec fn halvings(num: nat, den: nat) -> nat
    decreases
        (if num >= EXACT_LIMIT * den {
            num - EXACT_LIMIT * den + 1
        } else {
            0
        }),
{
    if den == 0 || num < EXACT_LIMIT * den {
        0
    } else {
        1 + halvings(num, 2 * den)
    }
}

/// How often `num` has to double until `num / den` reaches two to the 52.
pub open spec fn doublings(num: nat, den: nat) -> nat
    decreases
        (if num < NORMAL_LIMIT * den {
            NORMAL_LIMIT * den - num
        } else {
            0
        }),
{
    if num == 0 || num >= NORMAL_LIMIT * den {
        0
    } else {
        1 + doublings(2 * num, den)
    }
}

/// The double-precision value nearest to the fraction `num / den`, ties to
/// even: the fraction is scaled by the power of two that brings it between
/// two to the 52 and two to the 53, and rounded to an integer there. Zero
/// stays zero.
pub open spec fn round_to_binary64(num: nat, den: nat) -> Binary
    recommends
        den > 0,
{
    if num >= EXACT_LIMIT * den {
        let k = halvings(num, den);
        Binary { mantissa: round_half_even(num, den * pow2(k)), exponent: k as int }
    } else {
        let k = doublings(num, den);
        Binary { mantissa: round_half_even(num * pow2(k), den), exponent: -(k as int) }
    }
}

/// The double-precision value nearest to the natural number `n`. Below two
/// to the 53 that is `n` itself.
pub open spec fn binary64_of(n: nat) -> Binary {
    round_to_binary64(n, 1)
}

impl Binary {
    /// The quotient of two values, rounded to double precision.
    pub open spec fn divided_by(self, other: Binary) -> Binary
        recommends
            other.mantissa > 0,
    {
        round_to_binary64(self.num() * other.den(), self.den() * other.num())
    }

    /// The product of a value and a natural number that is held exactly,
    /// rounded to double precision.
    pub open spec fn times(self, factor: nat) -> Binary {
        round_to_binary64(factor * self.num(), self.den())
    }

    /// The sum of two values, rounded to double precision.
    pub open spec fn plus(self, other: Binary) -> Binary {
        round_to_binary64(
            self.num() * other.den() + other.num() * self.den(),
            self.den() * other.den(),
        )
    }

    /// The value in units of one `parts`-th, rounded to the nearest integer,
    /// ties to even: with `parts` ten, the value in tenths.
    pub open spec fn in_parts(self, parts: nat) -> nat {
        round_half_even(parts * self.num(), self.den())
    }
}

/// Whether `num / den`, divided by two to the power `e`, lies between two to
/// the 52 and two to the 53.
pub open spec fn in_binade(num: nat, den: nat, e: int) -> bool {
    if e >= 0 {
        NORMAL_LIMIT * (den * pow2(e as nat)) <= num < EXACT_LIMIT * (den * pow2(e as nat))
    } else {
        NORMAL_LIMIT * den <= num * pow2((-e) as nat) < EXACT_LIMIT * den
    }
}

/// `num / den` divided by two to the power `e` and rounded to an integer.
pub open spec fn mantissa_at(num: nat, den: nat, e: int) -> nat {
    if e >= 0 {
        round_half_even(num, den * pow2(e as nat))
    } else {
        round_half_even(num * pow2((-e) as nat), den)
    }
}

/// Scaling both parts of a fraction by the same factor does not change what
/// it rounds to.
pub proof fn lemma_round_scale(num: nat, den: nat, c: nat)
    requires
        den > 0,
        c > 0,
    ensures
        round_half_even(c * num, c * den) == round_half_even(num, den),
{
    lemma_div_multiples_vanish_quotient(c as int, num as int, den as int);
    lemma_truncate_middle(num as int, c as int, den as int);
    let r = num % den;
    assert(2 * (c * r) < c * den <==> 2 * r < den) by (nonlinear_arith)
        requires
            c > 0,
    ;
    assert(2 * (c * r) == c * den <==> 2 * r == den) by (nonlinear_arith)
        requires
            c > 0,
    ;
}

/// Two fractions of equal value round to the same integer.
pub proof fn lemma_round_same_value(a: nat, b: nat, c: nat, d: nat)
    requires
        b > 0,
        d > 0,
        a * d == c * b,
    ensures
        round_half_even(a, b) == round_half_even(c, d),
{
    lemma_round_scale(a, b, d);
    lemma_round_scale(c, d, b);
    assert(d * b == b * d) by (nonlinear_arith);
    assert(d * a == a * d && b * c == c * b) by (nonlinear_arith);
}

/// A fraction between two integers rounds to an integer between them.
pub proof fn lemma_round_bounds(num: nat, den: nat, low: nat, high: nat)
    requires
        den > 0,
        low * den <= num < high * den,
    ensures
        low <= round_half_even(num, den) <= high,
{
    lemma_fundamental_div_mod(num as int, den as int);
    let q = num / den;
    let r = num % den;
    assert(low <= q < high) by (nonlinear_arith)
        requires
            low * den <= num < high * den,
            num == den * q + r,
            0 <= r < den,
    ;
}

/// A whole number of `den`s rounds to that number.
pub proof fn lemma_round_whole(q: nat, den: nat)
    requires
        den > 0,
    ensures
        round_half_even(q * den, den) == q,
{
    lemma_fundamental_div_mod_converse((q * den) as int, den as int, q as int, 0);
}

/// Doubling `den` exactly `k` times brings `num / den` between two to the 52
/// and two to the 53.
pub proof fn lemma_halvings(num: nat, den: nat, k: nat)
    requires
        den > 0,
        NORMAL_LIMIT * (den * pow2(k)) <= num < EXACT_LIMIT * (den * pow2(k)),
    ensures
        halvings(num, den) == k,
        k > 0 ==> num >= EXACT_LIMIT * den,
    decreases k,
{
    lemma2_to64();
    if k == 0 {
        assert(den * pow2(0) == den) by (nonlinear_arith)
            requires
                pow2(0) == 1,
        ;
    } else {
        lemma_pow2_unfold(k);
        let rest = pow2((k - 1) as nat);
        assert(den * pow2(k) == (2 * den) * rest) by (nonlinear_arith)
            requires
                pow2(k) == 2 * rest,
        ;
        lemma_pow2_pos((k - 1) as nat);
        assert(den * pow2(k) >= 2 * den) by (nonlinear_arith)
            requires
                den * pow2(k) == (2 * den) * rest,
                rest >= 1,
        ;
        lemma_halvings(num, 2 * den, (k - 1) as nat);
    }
}

/// Doubling `num` exactly `k` times brings `num / den` between two to the 52
/// and two to the 53.
pub proof fn lemma_doublings(num: nat, den: nat, k: nat)
    requires
        den > 0,
        NORMAL_LIMIT * den <= num * pow2(k) < EXACT_LIMIT * den,
    ensures
        doublings(num, den) == k,
        num < EXACT_LIMIT * den,
    decreases k,
{
    lemma2_to64();
    if k == 0 {
        assert(num * pow2(0) == num) by (nonlinear_arith)
            requires
                pow2(0) == 1,
        ;
    } else {
        lemma_pow2_unfold(k);
        let rest = pow2((k - 1) as nat);
        assert(num * pow2(k) == (2 * num) * rest) by (nonlinear_arith)
            requires
                pow2(k) == 2 * rest,
        ;
        lemma_pow2_pos((k - 1) as nat);
        assert(num * pow2(k) >= 2 * num) by (nonlinear_arith)
            requires
                num * pow2(k) == (2 * num) * rest,
                rest >= 1,
        ;
        lemma_doublings(2 * num, den, (k - 1) as nat);
    }
}

/// The power of two that brings a fraction between two to the 52 and two to
/// the 53 is the exponent of the value it rounds to.
pub proof fn lemma_round_in_binade(num: nat, den: nat, e: int)
    requires
        den > 0,
        in_binade(num, den, e),
    ensures
        round_to_binary64(num, den) == (Binary { mantissa: mantissa_at(num, den, e), exponent: e }),
{
    lemma2_to64();
    if e > 0 {
        lemma_halvings(num, den, e as nat);
    } else if e == 0 {
        assert(den * pow2(0) == den && num * pow2(0) == num) by (nonlinear_arith)
            requires
                pow2(0) == 1,
        ;
        lemma_doublings(num, den, 0);
    } else {
        lemma_doublings(num, den, (-e) as nat);
    }
}

/// Scaling both parts of a fraction leaves the number of halvings alone.
pub proof fn lemma_halvings_scale(num: nat, den: nat, c: nat)
    requires
        c > 0,
    ensures
        halvings(c * num, c * den) == halvings(num, den),
    decreases
        (if num >= EXACT_LIMIT * den {
            num - EXACT_LIMIT * den + 1
        } else {
            0
        }),
{
    assert(c * num < EXACT_LIMIT * (c * den) <==> num < EXACT_LIMIT * den) by (nonlinear_arith)
        requires
            c > 0,
    ;
    assert(c * den == 0 <==> den == 0) by (nonlinear_arith)
        requires
            c > 0,
    ;
    if den == 0 || num < EXACT_LIMIT * den {
    } else {
        assert(2 * (c * den) == c * (2 * den)) by (nonlinear_arith);
        lemma_halvings_scale(num, 2 * den, c);
    }
}

/// Scaling both parts of a fraction leaves the number of doublings alone.
pub proof fn lemma_doublings_scale(num: nat, den: nat, c: nat)
    requires
        c > 0,
    ensures
        doublings(c * num, c * den) == doublings(num, den),
    decreases
        (if num < NORMAL_LIMIT * den {
            NORMAL_LIMIT * den - num
        } else {
            0
        }),
{
    assert(c * num >= NORMAL_LIMIT * (c * den) <==> num >= NORMAL_LIMIT * den) by (nonlinear_arith)
        requires
            c > 0,
    ;
    assert(c * num == 0 <==> num == 0) by (nonlinear_arith)
        requires
            c > 0,
    ;
    if num == 0 || num >= NORMAL_LIMIT * den {
    } else {
        assert(2 * (c * num) == c * (2 * num)) by (nonlinear_arith);
        lemma_doublings_scale(2 * num, den, c);
    }
}

/// The value that a fraction rounds to depends on the value of the fraction
/// alone, not on how it is written.
pub proof fn lemma_same_fraction(n1: nat, d1: nat, n2: nat, d2: nat)
    requires
        d1 > 0,
        d2 > 0,
        n1 * d2 == n2 * d1,
    ensures
        round_to_binary64(n1, d1) == round_to_binary64(n2, d2),
{
    lemma_scaled_fraction(n1, d1, d2);
    lemma_scaled_fraction(n2, d2, d1);
    assert(d2 * n1 == d1 * n2 && d2 * d1 == d1 * d2) by (nonlinear_arith)
        requires
            n1 * d2 == n2 * d1,
    ;
}

/// Scaling both parts of a fraction does not change the value it rounds to.
pub proof fn lemma_scaled_fraction(num: nat, den: nat, c: nat)
    requires
        den > 0,
        c > 0,
    ensures
        round_to_binary64(c * num, c * den) == round_to_binary64(num, den),
{
    assert(c * num >= EXACT_LIMIT * (c * den) <==> num >= EXACT_LIMIT * den) by (nonlinear_arith)
        requires
            c > 0,
    ;
    if num >= EXACT_LIMIT * den {
        lemma_halvings_scale(num, den, c);
        let k = halvings(num, den);
        lemma_pow2_pos(k);
        assert((c * den) * pow2(k) == c * (den * pow2(k))) by (nonlinear_arith);
        assert(den * pow2(k) > 0) by (nonlinear_arith)
            requires
                den > 0,
                pow2(k) > 0,
        ;
        lemma_round_scale(num, den * pow2(k), c);
    } else {
        lemma_doublings_scale(num, den, c);
        let k = doublings(num, den);
        assert((c * num) * pow2(k) == c * (num * pow2(k))) by (nonlinear_arith);
        lemma_round_scale(num * pow2(k), den, c);
    }
}

/// Multiplying or dividing by a power of two moves the exponent and keeps
/// the mantissa: where the integer `n` rounds to mantissa `m` and exponent
/// `k`, `n` times two to the `e` rounds to `m` and `k + e`.
pub proof fn lemma_rescaled(n: nat, k: nat, e: int)
    requires
        in_binade(n, 1, k as int),
    ensures
        e >= 0 ==> round_to_binary64(n * pow2(e as nat), 1) == (Binary {
            mantissa: mantissa_at(n, 1, k as int),
            exponent: k + e,
        }),
        e < 0 ==> round_to_binary64(n, pow2((-e) as nat)) == (Binary {
            mantissa: mantissa_at(n, 1, k as int),
            exponent: k + e,
        }),
{
    lemma2_to64();
    let pk = pow2(k);
    lemma_pow2_pos(k);
    assert(1 * pk == pk) by (nonlinear_arith);
    if e >= 0 {
        let pe = pow2(e as nat);
        lemma_pow2_pos(e as nat);
        lemma_pow2_adds(k, e as nat);
        let big = pow2((k + e) as nat);
        assert(1 * big == big) by (nonlinear_arith);
        assert(NORMAL_LIMIT * big <= n * pe < EXACT_LIMIT * big) by (nonlinear_arith)
            requires
                NORMAL_LIMIT * pk <= n < EXACT_LIMIT * pk,
                big == pk * pe,
                pe > 0,
        ;
        lemma_round_in_binade(n * pe, 1, k + e);
        assert(pe * n == n * pe && pe * pk == big) by (nonlinear_arith)
            requires
                big == pk * pe,
        ;
        lemma_round_scale(n, pk, pe);
    } else {
        let j = (-e) as nat;
        let pj = pow2(j);
        lemma_pow2_pos(j);
        if k >= j {
            let rest = pow2((k - j) as nat);
            lemma_pow2_adds(j, (k - j) as nat);
            assert(pj * rest == pk);
            lemma_round_in_binade(n, pj, k + e);
        } else {
            let c = pow2((j - k) as nat);
            lemma_pow2_pos((j - k) as nat);
            lemma_pow2_adds(k, (j - k) as nat);
            assert(pk * c == pj);
            assert(NORMAL_LIMIT * pj <= n * c < EXACT_LIMIT * pj) by (nonlinear_arith)
                requires
                    NORMAL_LIMIT * pk <= n < EXACT_LIMIT * pk,
                    pj == pk * c,
                    c > 0,
            ;
            lemma_round_in_binade(n, pj, k + e);
            assert(c * n == n * c && c * pk == pj) by (nonlinear_arith)
                requires
                    pk * c == pj,
            ;
            lemma_round_scale(n, pk, c);
        }
    }
}

/// Divides and rounds to the nearest integer, ties to even.
pub fn div_round_half_even(num: u128, den: u128) -> (q: u128)
    requires
        den > 0,
    ensures
        q == round_half_even(num as nat, den as nat),
{
    let q = num / den;
    let r = num % den;
    if r < den - r || (r == den - r && q % 2 == 0) {
        q
    } else {
        assert(den >= 2);
        assert(q <= num / 2) by {
            lemma_div_is_ordered_by_denominator(num as int, 2, den as int);
        }
        q + 1
    }
}

/// Two to the power `k`.
pub fn power_of_two(k: u32) -> (p: u128)
    requires
        k < 128,
    ensures
        p == pow2(k as nat),
{
    let mut p: u128 = 1;
    let mut i: u32 = 0;
    proof {
        lemma2_to64();
    }
    while i < k
        invariant
            i <= k < 128,
            p == pow2(i as nat),
        decreases k - i,
    {
        proof {
            lemma_pow2_unfold((i + 1) as nat);
            lemma_pow2_strictly_increases((i + 1) as nat, 128);
            lemma_pow2_adds(64, 64);
            lemma2_to64_rest();
        }
        p = p * 2;
        i = i + 1;
    }
    p
}

/// A double-precision value that is not negative, held as two integers.
#[derive(Clone, Copy, Debug)]
pub struct Rounded {
    pub mantissa: u64,
    pub exponent: i32,
}

impl View for Rounded {
    type V = Binary;

    open spec fn view(&self) -> Binary {
        Binary { mantissa: self.mantissa as nat, exponent: self.exponent as int }
    }
}

impl Rounded {
    /// What holds of every value that this module hands out: zero is written
    /// with exponent zero; every other mantissa has 53 binary digits, or is
    /// two to the 53 itself where rounding went up that far; and the
    /// exponent stays within what sizes, times and their ratios reach.
    pub open spec fn well_formed(&self) -> bool {
        &&& self.mantissa <= EXACT_LIMIT
        &&& self.mantissa == 0 ==> self.exponent == 0
        &&& self.mantissa > 0 ==> self.mantissa >= NORMAL_LIMIT
        &&& -117 < self.exponent <= 48
    }
}

/// The double-precision value nearest to `num / den`. Both are bounded so
/// that the scaling stays within 128 bits.
pub fn divide(num: u128, den: u128) -> (value: Rounded)
    requires
        1 <= den <= 0x1_0000_0000_0000_0000,
        num <= 0x100_0000_0000_0000_0000,
    ensures
        value@ == round_to_binary64(num as nat, den as nat),
        value.well_formed(),
        value.exponent <= 20,
        num == 0 <==> value.mantissa == 0,
        num > 0 ==> in_binade(num as nat, den as nat, value.exponent as int) && value.mantissa
            == mantissa_at(num as nat, den as nat, value.exponent as int),
{
    let exact: u128 = 0x20_0000_0000_0000;
    let normal: u128 = 0x10_0000_0000_0000;
    proof {
        lemma2_to64();
        lemma2_to64_rest();
    }
    if num == 0 {
        assert(doublings(0, den as nat) == 0);
        assert(0nat * pow2(0) == 0) by (nonlinear_arith);
        Rounded { mantissa: 0, exponent: 0 }
    } else if den <= num / exact {
        assert(num >= exact * den) by (nonlinear_arith)
            requires
                den <= num / exact,
                exact == 0x20_0000_0000_0000,
        ;
        let mut scaled: u128 = den;
        let mut k: u32 = 0;
        while scaled <= num / exact
            invariant
                exact == 0x20_0000_0000_0000,
                normal == 0x10_0000_0000_0000,
                num <= 0x100_0000_0000_0000_0000,
                den >= 1,
                k <= 20,
                scaled == den * pow2(k as nat),
                normal * scaled <= num,
                pow2(20) == 0x100000,
            decreases 20 - k,
        {
            proof {
                assert(num >= exact * scaled) by (nonlinear_arith)
                    requires
                        scaled <= num / exact,
                        exact == 0x20_0000_0000_0000,
                ;
                lemma_pow2_unfold((k + 1) as nat);
                assert(2 * scaled == den * pow2((k + 1) as nat)) by (nonlinear_arith)
                    requires
                        scaled == den * pow2(k as nat),
                        pow2((k + 1) as nat) == 2 * pow2(k as nat),
                ;
                assert(pow2((k + 1) as nat) <= 2 * scaled) by (nonlinear_arith)
                    requires
                        2 * scaled == den * pow2((k + 1) as nat),
                        den >= 1,
                ;
                if k + 1 > 20 {
                    lemma_pow2_strictly_increases(20, (k + 1) as nat);
                }
            }
            scaled = scaled * 2;
            k = k + 1;
        }
        proof {
            assert(num < exact * scaled) by (nonlinear_arith)
                requires
                    scaled > num / exact,
                    exact == 0x20_0000_0000_0000,
            ;
            lemma_round_in_binade(num as nat, den as nat, k as int);
            lemma_round_bounds(num as nat, scaled as nat, normal as nat, exact as nat);
        }
        let mantissa = div_round_half_even(num, scaled);
        Rounded { mantissa: mantissa as u64, exponent: k as i32 }
    } else {
        assert(num < exact * den) by (nonlinear_arith)
            requires
                den > num / exact,
                exact == 0x20_0000_0000_0000,
        ;
        let mut scaled: u128 = num;
        let mut k: u32 = 0;
        assert(scaled == num * pow2(0)) by (nonlinear_arith)
            requires
                scaled == num,
                pow2(0) == 1,
        ;
        while scaled < normal * den
            invariant
                exact == 0x20_0000_0000_0000,
                normal == 0x10_0000_0000_0000,
                1 <= den <= 0x1_0000_0000_0000_0000,
                num >= 1,
                k <= 117,
                scaled == num * pow2(k as nat),
                scaled < exact * den,
            decreases 117 - k,
        {
            proof {
                lemma_pow2_unfold((k + 1) as nat);
                assert(2 * scaled == num * pow2((k + 1) as nat)) by (nonlinear_arith)
                    requires
                        scaled == num * pow2(k as nat),
                        pow2((k + 1) as nat) == 2 * pow2(k as nat),
                ;
                assert(pow2((k + 1) as nat) <= 2 * scaled) by (nonlinear_arith)
                    requires
                        2 * scaled == num * pow2((k + 1) as nat),
                        num >= 1,
                ;
                if k + 1 > 117 {
                    lemma_pow2_strictly_increases(117, (k + 1) as nat);
                    lemma_pow2_adds(64, 53);
                    lemma2_to64();
                    lemma2_to64_rest();
                    assert(false);
                }
            }
            scaled = scaled * 2;
            k = k + 1;
        }
        proof {
            if k == 0 {
                assert(den * pow2(0) == den) by (nonlinear_arith)
                    requires
                        pow2(0) == 1,
                ;
            }
            lemma_round_in_binade(num as nat, den as nat, -(k as int));
            lemma_round_bounds(scaled as nat, den as nat, normal as nat, exact as nat);
            if k == 117 {
                lemma_pow2_adds(64, 53);
                assert(pow2(117) == 0x20_0000_0000_0000_0000_0000_0000_0000) by (nonlinear_arith)
                    requires
                        pow2(117) == pow2(64) * pow2(53),
                        pow2(64) == 0x1_0000_0000_0000_0000,
                        pow2(53) == 0x20_0000_0000_0000,
                ;
                assert(scaled >= pow2(117)) by (nonlinear_arith)
                    requires
                        scaled == num * pow2(117),
                        num >= 1,
                ;
                assert(false);
            }
        }
        let mantissa = div_round_half_even(scaled, den);
        Rounded { mantissa: mantissa as u64, exponent: -(k as i32) }
    }
}

/// The double-precision value nearest to the integer `n`, which is again an
/// integer. Nothing changes below two to the 53.
pub fn nearest_integer(n: u64) -> (held: u128)
    ensures
        binary64_of(n as nat).num() == held * binary64_of(n as nat).den(),
        held <= 0x1_0000_0000_0000_0000,
        n < EXACT_LIMIT ==> held == n,
        n > 0 ==> held > 0,
{
    let value = divide(n as u128, 1);
    proof {
        lemma2_to64();
        lemma2_to64_rest();
    }
    if value.exponent > 0 {
        let unit = power_of_two(value.exponent as u32);
        proof {
            assert(1 * unit == unit) by (nonlinear_arith);
            if value.exponent > 11 {
                lemma_pow2_strictly_increases(11, value.exponent as nat);
            }
            assert(value.mantissa * unit <= 0x1_0000_0000_0000_0000) by (nonlinear_arith)
                requires
                    value.mantissa <= 0x20_0000_0000_0000,
                    unit <= 0x800,
            ;
            assert(value.mantissa * unit > 0) by (nonlinear_arith)
                requires
                    value.mantissa >= 0x10_0000_0000_0000,
                    unit >= 1,
            ;
        }
        (value.mantissa as u128) * unit
    } else {
        proof {
            let k = (-value.exponent) as nat;
            if n > 0 {
                lemma_pow2_pos(k);
                assert(n * pow2(k) == (n * pow2(k)) * 1) by (nonlinear_arith);
                lemma_round_whole(n as nat * pow2(k), 1);
                if k == 0 {
                    assert(1 * pow2(0) == 1 && n * pow2(0) == n && n * pow2(0) * pow2(0) == n)
                        by (nonlinear_arith)
                        requires
                            pow2(0) == 1,
                    ;
                }
            } else {
                assert(0 * pow2(0) == 0) by (nonlinear_arith);
            }
        }
        n as u128
    }
}

/// Rounds `whole + rest / den` to the nearest integer, ties to even.
fn round_sum(whole: u128, rest: u128, den: u128) -> (q: u128)
    requires
        den > 0,
        whole <= 0x20_0000_0000_0000,
        rest <= 0x1_0000_0000_0000_0000_0000_0000_0000,
    ensures
        q == round_half_even((whole * den + rest) as nat, den as nat),
{
    let carried = rest / den;
    let left = rest % den;
    let low = whole + carried;
    proof {
        lemma_fundamental_div_mod(rest as int, den as int);
        assert(whole * den + rest == low * den + left) by (nonlinear_arith)
            requires
                rest == den * carried + left,
                low == whole + carried,
        ;
        lemma_fundamental_div_mod_converse(
            whole * den + rest,
            den as int,
            low as int,
            left as int,
        );
    }
    if left < den - left || (left == den - left && low % 2 == 0) {
        low
    } else {
        assert(den >= 2);
        assert(carried <= rest / 2) by {
            lemma_div_is_ordered_by_denominator(rest as int, 2, den as int);
        }
        low + 1
    }
}

/// The double-precision value nearest to the sum of a natural number and a
/// value below one.
pub fn add_fraction(whole: u128, fraction: Rounded) -> (sum: Rounded)
    requires
        whole <= 0x1_0000_0000_0000_0000,
        fraction.well_formed(),
        fraction@.num() < fraction@.den(),
    ensures
        sum@ == round_to_binary64(
            whole as nat * fraction@.den() + fraction@.num(),
            fraction@.den(),
        ),
        sum.well_formed(),
        sum.exponent <= 20,
{
    proof {
        lemma2_to64();
        lemma2_to64_rest();
        if fraction.mantissa > 0 && fraction.exponent >= 0 {
            lemma_pow2_pos(fraction.exponent as nat);
            assert(fraction.mantissa * pow2(fraction.exponent as nat) >= fraction.mantissa)
                by (nonlinear_arith)
                requires
                    pow2(fraction.exponent as nat) >= 1,
            ;
            assert(false);
        }
    }
    if fraction.mantissa == 0 {
        proof {
            assert(whole * 1 + 0 * pow2(0) == whole) by (nonlinear_arith);
        }
        return divide(whole, 1);
    }
    let shift = (-fraction.exponent) as u32;
    let ghost den = pow2(shift as nat);
    let ghost total = whole as nat * den + fraction.mantissa as nat;
    if whole == 0 {
        let part = divide(fraction.mantissa as u128, 1);
        proof {
            let n = fraction.mantissa as nat;
            if part.exponent < 0 {
                lemma_pow2_pos((-part.exponent) as nat);
                assert(n * pow2((-part.exponent) as nat) >= n) by (nonlinear_arith)
                    requires
                        pow2((-part.exponent) as nat) >= 1,
                ;
                assert(false);
            }
            lemma_rescaled(n, part.exponent as nat, fraction.exponent as int);
            assert(0 * den + n == n) by (nonlinear_arith);
        }
        return Rounded { mantissa: part.mantissa, exponent: part.exponent + fraction.exponent };
    }
    let scale = power_of_two(shift);
    let normal = divide(whole, 1);
    proof {
        lemma_pow2_pos(shift as nat);
        assert(1 * pow2(0) == 1) by (nonlinear_arith)
            requires
                pow2(0) == 1,
        ;
    }
    if normal.exponent > 0 {
        let unit = power_of_two(normal.exponent as u32);
        let q = whole / unit;
        let r = whole % unit;
        proof {
            let e = normal.exponent as nat;
            lemma_pow2_pos(e);
            lemma_pow2_unfold(e);
            assert(1 * unit == unit) by (nonlinear_arith);
            lemma_fundamental_div_mod(whole as int, unit as int);
            let rem = r * den + fraction.mantissa;
            assert(total == q * (den * unit) + rem) by (nonlinear_arith)
                requires
                    total == whole * den + fraction.mantissa,
                    whole == unit * q + r,
                    rem == r * den + fraction.mantissa,
            ;
            assert(rem < den * unit) by (nonlinear_arith)
                requires
                    rem == r * den + fraction.mantissa,
                    fraction.mantissa < den,
                    r + 1 <= unit,
            ;
            assert(den * unit > 0) by (nonlinear_arith)
                requires
                    den > 0,
                    unit > 0,
            ;
            lemma_fundamental_div_mod_converse(
                total as int,
                (den * unit) as int,
                q as int,
                rem as int,
            );
            assert(NORMAL_LIMIT * (den * unit) <= total < EXACT_LIMIT * (den * unit))
                by (nonlinear_arith)
                requires
                    NORMAL_LIMIT * unit <= whole,
                    whole + 1 <= EXACT_LIMIT * unit,
                    total == whole * den + fraction.mantissa,
                    0 < fraction.mantissa < den,
            ;
            lemma_round_in_binade(total, den, normal.exponent as int);
            lemma_round_bounds(
                total,
                den * unit as nat,
                NORMAL_LIMIT as nat,
                EXACT_LIMIT as nat,
            );
            let half = pow2((e - 1) as nat);
            if r >= half {
                assert(2 * rem > den * unit) by (nonlinear_arith)
                    requires
                        rem == r * den + fraction.mantissa,
                        fraction.mantissa > 0,
                        r >= half,
                        unit == 2 * half,
                        den > 0,
                ;
            } else {
                assert(2 * rem < den * unit) by (nonlinear_arith)
                    requires
                        rem == r * den + fraction.mantissa,
                        fraction.mantissa < den,
                        r + 1 <= half,
                        unit == 2 * half,
                ;
            }
            assert(unit / 2 == half);
        }
        let mantissa = if r >= unit / 2 {
            q + 1
        } else {
            q
        };
        Rounded { mantissa: mantissa as u64, exponent: normal.exponent }
    } else {
        let up = (-normal.exponent) as u32;
        let grow = power_of_two(up);
        proof {
            let m = normal.mantissa as nat;
            lemma_pow2_pos(up as nat);
            assert(whole * grow == (whole * grow) * 1 && whole * 1 == whole) by (nonlinear_arith);
            lemma_round_whole(whole as nat * grow as nat, 1);
            if up == 0 {
                lemma_round_whole(whole as nat, 1);
                assert(whole * grow == whole) by (nonlinear_arith)
                    requires
                        grow == 1,
                ;
            }
            assert(m == whole * grow);
            assert(NORMAL_LIMIT <= m < EXACT_LIMIT);
            if up > 52 {
                if up > 53 {
                    lemma_pow2_strictly_increases(53, up as nat);
                }
                assert(whole * grow >= grow) by (nonlinear_arith)
                    requires
                        whole >= 1,
                ;
                assert(false);
            }
            lemma_pow2_adds((53 - up) as nat, up as nat);
            let room = pow2((53 - up) as nat);
            assert(whole < room) by (nonlinear_arith)
                requires
                    whole * grow < room * grow,
                    grow > 0,
            ;
            assert(m + grow <= EXACT_LIMIT) by (nonlinear_arith)
                requires
                    m == whole * grow,
                    whole + 1 <= room,
                    room * grow == EXACT_LIMIT,
            ;
            if up < 52 {
                lemma_pow2_strictly_increases(up as nat, 52);
            }
            assert(fraction.mantissa * grow <= 0x20_0000_0000_0000 * 0x10_0000_0000_0000)
                by (nonlinear_arith)
                requires
                    fraction.mantissa <= 0x20_0000_0000_0000,
                    grow <= 0x10_0000_0000_0000,
            ;
        }
        let rest = (fraction.mantissa as u128) * grow;
        let mantissa = round_sum(normal.mantissa as u128, rest, scale);
        proof {
            let m = normal.mantissa as nat;
            assert(total * grow == m * den + rest) by (nonlinear_arith)
                requires
                    total == whole * den + fraction.mantissa,
                    m == whole * grow,
                    rest == fraction.mantissa * grow,
            ;
            assert(NORMAL_LIMIT * den <= m * den + rest < EXACT_LIMIT * den) by (nonlinear_arith)
                requires
                    NORMAL_LIMIT <= m,
                    m + grow <= EXACT_LIMIT,
                    rest == fraction.mantissa * grow,
                    fraction.mantissa < den,
                    grow > 0,
                    den > 0,
            ;
            if up == 0 {
                assert(den * pow2(0) == den && total * grow == total) by (nonlinear_arith)
                    requires
                        pow2(0) == 1,
                        grow == 1,
                ;
            }
            lemma_round_in_binade(total, den, normal.exponent as int);
            lemma_round_bounds(
                (m * den + rest) as nat,
                den,
                NORMAL_LIMIT as nat,
                EXACT_LIMIT as nat,
            );
        }
        Rounded { mantissa: mantissa as u64, exponent: normal.exponent }
    }
}

/// The value in units of one `factor`-th, rounded to the nearest integer,
/// ties to even.
pub fn round_scaled(value: Rounded, factor: u64) -> (scaled: u128)
    requires
        value.well_formed(),
        factor <= 1000,
    ensures
        scaled == value@.in_parts(factor as nat),
{
    proof {
        lemma2_to64();
        lemma2_to64_rest();
    }
    if value.exponent >= 0 {
        let unit = power_of_two(value.exponent as u32);
        proof {
            if value.exponent < 48 {
                lemma_pow2_strictly_increases(value.exponent as nat, 48);
            }
            assert(factor * (value.mantissa * unit) <= 1000 * (0x20_0000_0000_0000
                * 0x1_0000_0000_0000)) by (nonlinear_arith)
                requires
                    value.mantissa <= 0x20_0000_0000_0000,
                    unit <= 0x1_0000_0000_0000,
                    factor <= 1000,
            ;
            assert(value.mantissa * unit <= 0x20_0000_0000_0000 * 0x1_0000_0000_0000)
                by (nonlinear_arith)
                requires
                    value.mantissa <= 0x20_0000_0000_0000,
                    unit <= 0x1_0000_0000_0000,
            ;
            lemma_round_whole(factor as nat * value@.num(), 1);
            assert(factor * value@.num() == (factor * value@.num()) * 1) by (nonlinear_arith);
        }
        (factor as u128) * ((value.mantissa as u128) * unit)
    } else {
        let unit = power_of_two((-value.exponent) as u32);
        proof {
            lemma_pow2_pos((-value.exponent) as nat);
            assert(factor * value.mantissa <= 1000 * 0x20_0000_0000_0000) by (nonlinear_arith)
                requires
                    value.mantissa <= 0x20_0000_0000_0000,
                    factor <= 1000,
            ;
        }
        div_round_half_even((factor as u128) * (value.mantissa as u128), unit)
    }
}

} // verus!
