//! Fixed-point scalar arithmetic.
//!
//! A value of `FP_ONE` stands for the real number 1.0.  `FP_ONE` is
//! 255 * 65536, so a color channel in `[0, 1]` maps to a byte and back
//! without loss.  Angles use a separate scale: one full turn is
//! `FULL_TURN` units.

use vstd::prelude::*;
use vstd::arithmetic::div_mod::{
    lemma_div_is_ordered, lemma_fundamental_div_mod, lemma_mod_division_less_than_divisor,
};
use vstd::arithmetic::mul::{lemma_mul_inequality, lemma_mul_unary_negation};

verus! {

/// Fixed-point representation of 1.0 (= 255 * 65536).
pub const FP_ONE: i64 = 16711680;

/// Fixed-point representation of 0.5.
pub const FP_HALF: i64 = 8355840;

/// One full turn of the angle scale (not the same scale as `FP_ONE`).
pub const FULL_TURN: i64 = 65536;

/// A quarter turn of the angle scale.
pub const QUARTER_TURN: i64 = 16384;

/// Largest magnitude accepted by the fixed-point helpers; large enough for
/// every coordinate this crate produces, small enough that intermediate
/// products stay far from overflow.
pub const FP_BOUND: i64 = 1099511627776;

/// Truncating (toward zero) division of a product by `FP_ONE`: the value of
/// `a * b` in fixed point, as Rust's `/` computes it on a signed product.
pub open spec fn div_f_s(p: int) -> int {
    if p >= 0 {
        p / (FP_ONE as int)
    } else {
        -((-p) / (FP_ONE as int))
    }
}

/// Fixed-point product of `a` and `b`.
pub open spec fn fmul_s(a: int, b: int) -> int {
    div_f_s(a * b)
}

/// Truncating (toward zero) division by a positive divisor, as Rust's `/`
/// computes it on a signed dividend.
pub open spec fn tdiv_s(p: int, d: int) -> int {
    if p >= 0 {
        p / d
    } else {
        -((-p) / d)
    }
}

/// Truncating division; mirrors `tdiv_s` exactly.
pub fn tdiv64(p: i64, d: i64) -> (r: i64)
    requires
        1 <= d,
        -0x7fff_ffff_ffff_ffff <= p,
    ensures
        r == tdiv_s(p as int, d as int),
        abs_s(r as int) <= abs_s(p as int),
{
    if p >= 0 {
        proof {
            vstd::arithmetic::div_mod::lemma_div_nonincreasing(p as int, d as int);
            vstd::arithmetic::div_mod::lemma_div_pos_is_pos(p as int, d as int);
        }
        p / d
    } else {
        proof {
            vstd::arithmetic::div_mod::lemma_div_nonincreasing(-p as int, d as int);
            vstd::arithmetic::div_mod::lemma_div_pos_is_pos(-p as int, d as int);
        }
        -((-p) / d)
    }
}

/// `|x|` on mathematical integers.
pub open spec fn abs_s(x: int) -> int {
    if x >= 0 {
        x
    } else {
        -x
    }
}

/// The magnitude of a product is the product of the magnitudes.
pub proof fn lemma_abs_mul(a: int, b: int)
    ensures
        abs_s(a * b) == abs_s(a) * abs_s(b),
{
    lemma_mul_unary_negation(a, b);
    lemma_mul_unary_negation(-a, b);
    lemma_mul_unary_negation(b, a);
    vstd::arithmetic::mul::lemma_mul_is_commutative(a, b);
    vstd::arithmetic::mul::lemma_mul_is_commutative(-a, b);
    if a >= 0 && b >= 0 {
        vstd::arithmetic::mul::lemma_mul_nonnegative(a, b);
    } else if a < 0 && b < 0 {
        vstd::arithmetic::mul::lemma_mul_nonnegative(-a, -b);
    }
}

/// Bound on a product from bounds on its factors.
pub proof fn lemma_abs_mul_bound(a: int, b: int, ba: int, bb: int)
    requires
        abs_s(a) <= ba,
        abs_s(b) <= bb,
    ensures
        abs_s(a * b) <= ba * bb,
{
    lemma_abs_mul(a, b);
    lemma_mul_inequality(abs_s(a), ba, abs_s(b));
    vstd::arithmetic::mul::lemma_mul_is_commutative(ba, abs_s(b));
    vstd::arithmetic::mul::lemma_mul_is_commutative(ba, bb);
    lemma_mul_inequality(abs_s(b), bb, ba);
}

/// Truncating division by `FP_ONE` shrinks magnitudes by that factor.
pub proof fn lemma_div_f_abs(p: int, bound: int)
    requires
        abs_s(p) <= bound,
    ensures
        abs_s(div_f_s(p)) <= bound / (FP_ONE as int),
        abs_s(div_f_s(p)) <= abs_s(p),
{
    if p >= 0 {
        lemma_div_is_ordered(p, bound, FP_ONE as int);
        vstd::arithmetic::div_mod::lemma_div_nonincreasing(p, FP_ONE as int);
        vstd::arithmetic::div_mod::lemma_div_pos_is_pos(p, FP_ONE as int);
    } else {
        lemma_div_is_ordered(-p, bound, FP_ONE as int);
        vstd::arithmetic::div_mod::lemma_div_nonincreasing(-p, FP_ONE as int);
        vstd::arithmetic::div_mod::lemma_div_pos_is_pos(-p, FP_ONE as int);
    }
}

/// Divides a (possibly negative) wide product by `FP_ONE`, truncating toward
/// zero, exactly as `div_f_s` states.
pub fn div_f_i128(p: i128) -> (r: i64)
    requires
        abs_s(p as int) <= (FP_BOUND as int) * (FP_BOUND as int),
    ensures
        r == div_f_s(p as int),
        abs_s(r as int) <= abs_s(p as int),
{
    proof {
        assert((FP_BOUND as int) * (FP_BOUND as int) == 1208925819614629174706176int)
            by (nonlinear_arith);
    }
    let neg: bool = p < 0;
    let m: u128 = if p >= 0 {
        p as u128
    } else {
        (-p) as u128
    };
    let q: u128 = m / (FP_ONE as u128);
    proof {
        lemma_div_is_ordered(m as int, 1208925819614629174706176int, FP_ONE as int);
        assert(1208925819614629174706176int / (FP_ONE as int) < 0x7fff_ffff_ffff_ffffint);
        vstd::arithmetic::div_mod::lemma_div_nonincreasing(m as int, FP_ONE as int);
        vstd::arithmetic::div_mod::lemma_div_pos_is_pos(m as int, FP_ONE as int);
    }
    if neg {
        -(q as i64)
    } else {
        q as i64
    }
}

/// `FP_ONE`-scaled value of pi / 2.
pub const PI_HALF_FP: i64 = 26250645;

/// Clamps a scalar to the fixed-point interval for [-1, 1].
pub open spec fn clamp_unit_s(c: int) -> int {
    if c > FP_ONE as int {
        FP_ONE as int
    } else if c < -(FP_ONE as int) {
        -(FP_ONE as int)
    } else {
        c
    }
}

/// Cosine over the first quarter turn, by a truncated Taylor series on
/// nonnegative fixed-point values; the angle `u` is in `[0, QUARTER_TURN]`.
pub open spec fn qcos_s(u: int) -> int {
    let zf = (u * (PI_HALF_FP as int)) / (QUARTER_TURN as int);
    let t1 = (zf * zf) / (FP_ONE as int);
    let t2 = (t1 * t1) / (FP_ONE as int);
    let t3 = (t2 * t1) / (FP_ONE as int);
    let t4 = (t2 * t2) / (FP_ONE as int);
    let t5 = (t4 * t1) / (FP_ONE as int);
    clamp_unit_s(
        FP_ONE as int - t1 / 2 + t2 / 24 - t3 / 720 + t4 / 40320 - t5 / 3628800,
    )
}

/// Cosine of a reduced angle in `[0, FULL_TURN)`, by quarter-turn symmetry.
pub open spec fn cos_s(a: int) -> int {
    let q = a / (QUARTER_TURN as int);
    let u = a % (QUARTER_TURN as int);
    if q == 0 {
        qcos_s(u)
    } else if q == 1 {
        -qcos_s(QUARTER_TURN as int - u)
    } else if q == 2 {
        -qcos_s(u)
    } else {
        qcos_s(QUARTER_TURN as int - u)
    }
}

/// Sine of a reduced angle, as the cosine of the angle less a quarter turn.
pub open spec fn sin_s(a: int) -> int {
    cos_s((a - QUARTER_TURN as int) % (FULL_TURN as int))
}

/// Reduces any angle to `[0, FULL_TURN)`; the result is the Euclidean
/// remainder of `a` by `FULL_TURN`.
pub fn reduce_turn(a: i64) -> (r: i64)
    requires
        -0x4000_0000_0000_0000 < a < 0x4000_0000_0000_0000,
    ensures
        r == (a as int) % (FULL_TURN as int),
        0 <= r < FULL_TURN,
{
    if a >= 0 {
        a % FULL_TURN
    } else {
        let k: i64 = (-a) % FULL_TURN;
        proof {
            lemma_fundamental_div_mod(-a as int, FULL_TURN as int);
            lemma_mod_division_less_than_divisor(-a as int, FULL_TURN as int);
            let q = (-a as int) / (FULL_TURN as int);
            if k == 0 {
                assert(a as int == (-q) * (FULL_TURN as int)) by (nonlinear_arith)
                    requires
                        -a as int == q * (FULL_TURN as int),
                ;
                vstd::arithmetic::div_mod::lemma_mod_multiples_basic(-q, FULL_TURN as int);
            } else {
                assert(a as int == (-q - 1) * (FULL_TURN as int) + (FULL_TURN as int - k))
                    by (nonlinear_arith)
                    requires
                        -a as int == (FULL_TURN as int) * q + k,
                ;
                vstd::arithmetic::div_mod::lemma_fundamental_div_mod_converse_mod(
                    a as int,
                    FULL_TURN as int,
                    -q - 1,
                    FULL_TURN as int - k,
                );
            }
        }
        if k == 0 {
            0
        } else {
            FULL_TURN - k
        }
    }
}

/// Cosine over the first quarter turn; mirrors `qcos_s` exactly.
fn qcos(u: i64) -> (r: i64)
    requires
        0 <= u <= QUARTER_TURN,
    ensures
        r == qcos_s(u as int),
        -FP_ONE <= r <= FP_ONE,
{
    proof {
        lemma_abs_mul_bound(u as int, PI_HALF_FP as int, QUARTER_TURN as int, PI_HALF_FP as int);
    }
    let zf: i64 = (u * PI_HALF_FP) / QUARTER_TURN;
    proof {
        lemma_div_is_ordered(
            u as int * PI_HALF_FP as int,
            QUARTER_TURN as int * PI_HALF_FP as int,
            QUARTER_TURN as int,
        );
        vstd::arithmetic::div_mod::lemma_div_pos_is_pos(
            u as int * PI_HALF_FP as int,
            QUARTER_TURN as int,
        );
        lemma_abs_mul_bound(zf as int, zf as int, 26250645int, 26250645int);
    }
    let t1: i64 = (zf * zf) / FP_ONE;
    proof {
        lemma_div_is_ordered(zf as int * zf as int, 26250645int * 26250645int, FP_ONE as int);
        vstd::arithmetic::div_mod::lemma_div_pos_is_pos(zf as int * zf as int, FP_ONE as int);
        lemma_abs_mul_bound(t1 as int, t1 as int, 41234415int, 41234415int);
    }
    let t2: i64 = (t1 * t1) / FP_ONE;
    proof {
        lemma_div_is_ordered(t1 as int * t1 as int, 41234415int * 41234415int, FP_ONE as int);
        vstd::arithmetic::div_mod::lemma_div_pos_is_pos(t1 as int * t1 as int, FP_ONE as int);
        lemma_abs_mul_bound(t2 as int, t1 as int, 101741834int, 41234415int);
    }
    let t3: i64 = (t2 * t1) / FP_ONE;
    proof {
        lemma_div_is_ordered(t2 as int * t1 as int, 101741834int * 41234415int, FP_ONE as int);
        vstd::arithmetic::div_mod::lemma_div_pos_is_pos(t2 as int * t1 as int, FP_ONE as int);
        lemma_abs_mul_bound(t2 as int, t2 as int, 101741834int, 101741834int);
    }
    let t4: i64 = (t2 * t2) / FP_ONE;
    proof {
        lemma_div_is_ordered(t2 as int * t2 as int, 101741834int * 101741834int, FP_ONE as int);
        vstd::arithmetic::div_mod::lemma_div_pos_is_pos(t2 as int * t2 as int, FP_ONE as int);
        lemma_abs_mul_bound(t4 as int, t1 as int, 619411141int, 41234415int);
    }
    let t5: i64 = (t4 * t1) / FP_ONE;
    proof {
        lemma_div_is_ordered(t4 as int * t1 as int, 619411141int * 41234415int, FP_ONE as int);
        vstd::arithmetic::div_mod::lemma_div_pos_is_pos(t4 as int * t1 as int, FP_ONE as int);
    }
    let c: i64 = FP_ONE - t1 / 2 + t2 / 24 - t3 / 720 + t4 / 40320 - t5 / 3628800;
    if c > FP_ONE {
        FP_ONE
    } else if c < -FP_ONE {
        -FP_ONE
    } else {
        c
    }
}

/// Cosine of a reduced angle; mirrors `cos_s` exactly.
pub fn fxcos(a: i64) -> (r: i64)
    requires
        0 <= a < FULL_TURN,
    ensures
        r == cos_s(a as int),
        -FP_ONE <= r <= FP_ONE,
{
    let q: i64 = a / QUARTER_TURN;
    let u: i64 = a % QUARTER_TURN;
    if q == 0 {
        qcos(u)
    } else if q == 1 {
        -qcos(QUARTER_TURN - u)
    } else if q == 2 {
        -qcos(u)
    } else {
        qcos(QUARTER_TURN - u)
    }
}

/// Sine of a reduced angle; mirrors `sin_s` exactly.
pub fn fxsin(a: i64) -> (r: i64)
    requires
        0 <= a < FULL_TURN,
    ensures
        r == sin_s(a as int),
        -FP_ONE <= r <= FP_ONE,
{
    if a >= QUARTER_TURN {
        proof {
            vstd::arithmetic::div_mod::lemma_small_mod(
                (a - QUARTER_TURN) as nat,
                FULL_TURN as nat,
            );
        }
        fxcos(a - QUARTER_TURN)
    } else {
        proof {
            vstd::arithmetic::div_mod::lemma_mod_add_multiples_vanish(
                a as int - QUARTER_TURN as int,
                FULL_TURN as int,
            );
            vstd::arithmetic::div_mod::lemma_small_mod(
                (a + FULL_TURN - QUARTER_TURN) as nat,
                FULL_TURN as nat,
            );
        }
        fxcos(a + (FULL_TURN - QUARTER_TURN))
    }
}

/// `FP_ONE`-scaled value of Euler's number e.
pub const E1_FP: i64 = 45427056;

/// Largest argument magnitude `fxexp` accepts (the fixed-point value of 8).
pub const EXP_ARG_MAX: i64 = 133693440;

/// Term `k` of the Taylor series of e^(rm / FP_ONE), in fixed point.
pub open spec fn eterm_s(rm: int, k: nat) -> int
    decreases k,
{
    if k == 0 {
        FP_ONE as int
    } else {
        ((eterm_s(rm, (k - 1) as nat) * rm) / (FP_ONE as int)) / (k as int)
    }
}

/// Partial sum of that Taylor series, through term `k`.
pub open spec fn esum_s(rm: int, k: nat) -> int
    decreases k,
{
    if k == 0 {
        eterm_s(rm, 0)
    } else {
        esum_s(rm, (k - 1) as nat) + eterm_s(rm, k)
    }
}

/// `base` multiplied `q` times by e, in fixed point.
pub open spec fn epow_s(base: int, q: nat) -> int
    decreases q,
{
    if q == 0 {
        base
    } else {
        (epow_s(base, (q - 1) as nat) * (E1_FP as int)) / (FP_ONE as int)
    }
}

/// 3 to the power `q`; a coarse growth cap for `epow_s`.
pub open spec fn pow3_s(q: nat) -> int
    decreases q,
{
    if q == 0 {
        1
    } else {
        3 * pow3_s((q - 1) as nat)
    }
}

/// e^(x / FP_ONE) in fixed point, for nonnegative `x`: the Taylor sum for the
/// fractional part, then one multiply by e per whole unit.
pub open spec fn exp_pos_s(x: int) -> int {
    epow_s(esum_s(x % (FP_ONE as int), 9), (x / (FP_ONE as int)) as nat)
}

/// e^(x / FP_ONE) in fixed point; negative arguments invert the reciprocal.
pub open spec fn exp_s(x: int) -> int {
    if x >= 0 {
        exp_pos_s(x)
    } else {
        ((FP_ONE as int) * (FP_ONE as int)) / exp_pos_s(-x)
    }
}

/// 3 to any power is at least 1.
proof fn lemma_pow3_pos(q: nat)
    ensures
        pow3_s(q) >= 1,
    decreases q,
{
    if q > 0 {
        lemma_pow3_pos((q - 1) as nat);
    }
}

/// 3 to a power grows with the exponent.
proof fn lemma_pow3_mono(a: nat, b: nat)
    requires
        a <= b,
    ensures
        pow3_s(a) <= pow3_s(b),
    decreases b,
{
    if a < b {
        lemma_pow3_mono(a, (b - 1) as nat);
        lemma_pow3_pos((b - 1) as nat);
    }
}

/// Each repeated multiply by e keeps the value positive and grows it by a
/// factor between 2 and 3.
proof fn lemma_epow_bounds(base: int, q: nat)
    requires
        FP_ONE <= base,
    ensures
        base <= epow_s(base, q),
        epow_s(base, q) <= base * pow3_s(q),
        pow3_s(q) >= 1,
    decreases q,
{
    if q > 0 {
        lemma_epow_bounds(base, (q - 1) as nat);
        let prev = epow_s(base, (q - 1) as nat);
        assert(prev * (E1_FP as int) >= prev * (2 * FP_ONE as int)) by (nonlinear_arith)
            requires
                prev >= FP_ONE as int,
        ;
        assert((prev * (2 * FP_ONE as int)) / (FP_ONE as int) == 2 * prev) by (nonlinear_arith);
        lemma_div_is_ordered(
            prev * (2 * FP_ONE as int),
            prev * (E1_FP as int),
            FP_ONE as int,
        );
        assert(prev * (E1_FP as int) <= prev * (3 * FP_ONE as int)) by (nonlinear_arith)
            requires
                prev >= 0,
        ;
        assert((prev * (3 * FP_ONE as int)) / (FP_ONE as int) == 3 * prev) by (nonlinear_arith);
        lemma_div_is_ordered(
            prev * (E1_FP as int),
            prev * (3 * FP_ONE as int),
            FP_ONE as int,
        );
        assert(3 * prev <= 3 * (base * pow3_s((q - 1) as nat))) by (nonlinear_arith)
            requires
                prev <= base * pow3_s((q - 1) as nat),
        ;
        assert(3 * (base * pow3_s((q - 1) as nat)) == base * (3 * pow3_s((q - 1) as nat)))
            by (nonlinear_arith);
    }
}

/// e^(x / FP_ONE) for nonnegative arguments; mirrors `exp_pos_s` exactly.
fn exp_pos(x: i64) -> (r: i64)
    requires
        0 <= x <= EXP_ARG_MAX,
    ensures
        r == exp_pos_s(x as int),
        FP_ONE <= r <= 1096453324800,
{
    let q: i64 = x / FP_ONE;
    let rm: i64 = x % FP_ONE;
    proof {
        lemma_mod_division_less_than_divisor(x as int, FP_ONE as int);
        vstd::arithmetic::div_mod::lemma_mod_decreases(x as nat, FP_ONE as nat);
        lemma_div_is_ordered(x as int, EXP_ARG_MAX as int, FP_ONE as int);
        vstd::arithmetic::div_mod::lemma_div_pos_is_pos(x as int, FP_ONE as int);
    }
    let mut term: i64 = FP_ONE;
    let mut acc: i64 = FP_ONE;
    let mut k: i64 = 1;
    while k <= 9
        invariant
            1 <= k <= 10,
            0 <= rm < FP_ONE,
            term == eterm_s(rm as int, (k - 1) as nat),
            acc == esum_s(rm as int, (k - 1) as nat),
            0 <= term <= FP_ONE,
            FP_ONE <= acc,
            acc <= k * (FP_ONE as int),
        decreases 10 - k,
    {
        let num: i64 = fmul(term, rm);
        proof {
            lemma_abs_mul_bound(term as int, rm as int, FP_ONE as int, FP_ONE as int);
            lemma_div_f_abs(term as int * rm as int, (FP_ONE as int) * (FP_ONE as int));
            assert(((FP_ONE as int) * (FP_ONE as int)) / (FP_ONE as int) == FP_ONE as int)
                by (nonlinear_arith);
            vstd::arithmetic::div_mod::lemma_div_pos_is_pos(term as int * rm as int, FP_ONE as int);
            vstd::arithmetic::mul::lemma_mul_nonnegative(term as int, rm as int);
        }
        let t: i64 = num / k;
        proof {
            vstd::arithmetic::div_mod::lemma_div_pos_is_pos(num as int, k as int);
            vstd::arithmetic::div_mod::lemma_div_nonincreasing(num as int, k as int);
        }
        term = t;
        acc = acc + term;
        k = k + 1;
    }
    let mut acc2: i64 = acc;
    let mut i: i64 = 0;
    proof {
        lemma_epow_bounds(acc as int, 0);
    }
    while i < q
        invariant
            0 <= i <= q,
            q <= 8,
            FP_ONE <= acc <= 10 * (FP_ONE as int),
            acc2 == epow_s(acc as int, i as nat),
            FP_ONE <= acc2 <= 1096453324800,
        decreases q - i,
    {
        proof {
            lemma_epow_bounds(acc as int, i as nat);
            lemma_abs_mul_bound(acc2 as int, E1_FP as int, 1096453324800int, E1_FP as int);
            assert(1096453324800int * (E1_FP as int) <= (FP_BOUND as int) * (FP_BOUND as int))
                by (nonlinear_arith);
        }
        let p: i128 = (acc2 as i128) * (E1_FP as i128);
        let n: i64 = div_f_i128(p);
        proof {
            lemma_epow_bounds(acc as int, (i + 1) as nat);
            lemma_pow3_mono((i + 1) as nat, 8);
            assert(pow3_s(8) == 6561) by {
                reveal_with_fuel(pow3_s, 9);
            }
            assert(epow_s(acc as int, (i + 1) as nat) <= (10 * (FP_ONE as int)) * 6561)
                by (nonlinear_arith)
                requires
                    epow_s(acc as int, (i + 1) as nat) <= (acc as int) * pow3_s((i + 1) as nat),
                    acc as int <= 10 * (FP_ONE as int),
                    1 <= pow3_s((i + 1) as nat) <= 6561,
                    i + 1 <= 8,
            ;
        }
        acc2 = n;
        i = i + 1;
    }
    acc2
}

/// e^(x / FP_ONE) in fixed point; mirrors `exp_s` exactly.
pub fn fxexp(x: i64) -> (r: i64)
    requires
        -EXP_ARG_MAX <= x <= EXP_ARG_MAX,
    ensures
        r == exp_s(x as int),
        0 <= r <= 1096453324800,
{
    if x >= 0 {
        exp_pos(x)
    } else {
        let d: i64 = exp_pos(-x);
        proof {
            vstd::arithmetic::div_mod::lemma_div_pos_is_pos(
                (FP_ONE as int) * (FP_ONE as int),
                d as int,
            );
            lemma_div_is_ordered_by_denominator_wrap(d as int);
        }
        (FP_ONE * FP_ONE) / d
    }
}

/// Dividing the square of `FP_ONE` by anything at least `FP_ONE` yields at
/// most `FP_ONE`.
proof fn lemma_div_is_ordered_by_denominator_wrap(d: int)
    requires
        FP_ONE <= d,
    ensures
        ((FP_ONE as int) * (FP_ONE as int)) / d <= FP_ONE as int,
{
    assert(((FP_ONE as int) * (FP_ONE as int)) / (FP_ONE as int) == FP_ONE as int)
        by (nonlinear_arith);
    vstd::arithmetic::div_mod::lemma_div_is_ordered_by_denominator(
        (FP_ONE as int) * (FP_ONE as int),
        FP_ONE as int,
        d,
    );
}

/// Fixed-point multiply: `r` is `a * b / FP_ONE`, truncated toward zero.
pub fn fmul(a: i64, b: i64) -> (r: i64)
    requires
        abs_s(a as int) <= FP_BOUND,
        abs_s(b as int) <= FP_BOUND,
    ensures
        r == fmul_s(a as int, b as int),
        abs_s(r as int) <= abs_s((a as int) * (b as int)),
{
    proof {
        lemma_abs_mul_bound(a as int, b as int, FP_BOUND as int, FP_BOUND as int);
    }
    let p: i128 = (a as i128) * (b as i128);
    div_f_i128(p)
}

} // verus!
