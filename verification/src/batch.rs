//! How many requests leave the cache at once: a tenth of the limit, multiplied in
//! single precision and cut to a whole number, but at least one.

use vstd::arithmetic::div_mod::*;
use vstd::arithmetic::mul::*;
use vstd::arithmetic::power2::*;
use vstd::prelude::*;

verus! {

/// Single precision keeps 24 significant bits.
pub const SIGNIFICAND: u128 = 0x100_0000;

/// One tenth in single precision is this many parts of `TENTH_SCALE`.
pub const TENTH_PARTS: u128 = 13_421_773;

/// Two to the power of 27.
pub const TENTH_SCALE: u128 = 0x800_0000;

/// The distance between neighbouring single-precision numbers around `x`.
pub open spec fn spacing(x: nat) -> nat
    decreases x,
{
    if x < SIGNIFICAND {
        1
    } else {
        2 * spacing(x / 2)
    }
}

/// The whole number `x` rounded to single precision: to the nearest multiple of
/// the spacing, and to the even one of two that are equally near.
pub open spec fn rounded(x: nat) -> nat {
    let unit = spacing(x);
    let q = x / unit;
    let r = x % unit;
    if 2 * r > unit || (2 * r == unit && q % 2 == 1) {
        (q + 1) * unit
    } else {
        q * unit
    }
}

/// The whole part of a tenth of `limit`, in single precision.
pub open spec fn tenth(limit: nat) -> nat {
    rounded(rounded(limit) * TENTH_PARTS as nat) / TENTH_SCALE as nat
}

/// How many requests leave a full cache at once: a tenth of the limit, and at least
/// one, so that the limit is kept.
pub open spec fn batch(limit: nat) -> nat {
    if tenth(limit) == 0 {
        1
    } else {
        tenth(limit)
    }
}

proof fn lemma_spacing(x: nat)
    ensures
        0 < spacing(x),
        x > 0 ==> spacing(x) <= x,
    decreases x,
{
    if x >= SIGNIFICAND {
        lemma_spacing(x / 2);
    }
}

proof fn lemma_rounded_bound(x: nat)
    ensures
        rounded(x) <= 2 * x,
{
    lemma_spacing(x);
    let unit = spacing(x) as int;
    let q = x as int / unit;
    let r = x as int % unit;
    lemma_fundamental_div_mod(x as int, unit);
    assert(q * unit == unit * q) by (nonlinear_arith);
    assert((q + 1) * unit == q * unit + unit) by (nonlinear_arith);
    if x == 0 {
        assert(unit == 1);
    }
}

fn round_to_single(x: u128) -> (r: u128)
    requires
        x < 0x1_0000_0000_0000_0000_0000_0000,
    ensures
        r == rounded(x as nat),
{
    let mut q: u128 = x;
    let mut unit: u128 = 1;
    proof {
        lemma_spacing(x as nat);
        lemma_div_basics(x as int);
    }
    while q >= SIGNIFICAND
        invariant
            x < 0x1_0000_0000_0000_0000_0000_0000,
            0 < unit,
            q == x as nat / unit as nat,
            unit * spacing(q as nat) == spacing(x as nat),
            q > 0 ==> unit <= x,
        decreases q,
    {
        proof {
            lemma_fundamental_div_mod(x as int, unit as int);
            assert(2 * unit <= x) by (nonlinear_arith)
                requires
                    x == unit * q + x as int % (unit as int),
                    x as int % (unit as int) >= 0,
                    q >= 2,
                    unit > 0,
            ;
            lemma_div_denominator(x as int, unit as int, 2);
            let s = spacing((q / 2) as nat);
            assert(unit * (2 * s) == (unit * 2) * s) by (nonlinear_arith);
        }
        q = q / 2;
        unit = unit * 2;
    }
    proof {
        assert(spacing(q as nat) == 1);
        lemma_mul_basics(unit as int);
        assert(unit == spacing(x as nat));
        lemma_fundamental_div_mod(x as int, unit as int);
        lemma_rounded_bound(x as nat);
        assert((q as int) * (unit as int) == (unit as int) * (q as int)) by (nonlinear_arith);
        assert((q + 1) * unit == q * unit + unit) by (nonlinear_arith);
        if x == 0 {
            assert(unit == 1);
        }
    }
    let low: u128 = x % unit;
    if 2 * low > unit || (2 * low == unit && q % 2 == 1) {
        (q + 1) * unit
    } else {
        q * unit
    }
}

/// A tenth of the limit is never more than the limit.
pub proof fn law_tenth_is_bounded(limit: nat)
    ensures
        tenth(limit) <= limit,
{
    lemma_rounded_bound(limit);
    let x = rounded(limit) * TENTH_PARTS as nat;
    lemma_rounded_bound(x);
    assert(rounded(x) <= 4 * limit * TENTH_PARTS);
}

/// A full cache has a batch to lose, and keeps its newest request if it may hold one.
pub proof fn law_batch_is_bounded(limit: nat)
    ensures
        1 <= batch(limit) <= limit + 1,
        limit >= 1 ==> batch(limit) <= limit,
{
    law_tenth_is_bounded(limit);
}

/// How many requests leave a full cache at once.
pub fn prune_count(limit: usize) -> (r: usize)
    ensures
        r == batch(limit as nat),
{
    proof {
        lemma_rounded_bound(limit as nat);
        law_tenth_is_bounded(limit as nat);
    }
    let product: u128 = round_to_single(limit as u128) * TENTH_PARTS;
    let whole: usize = (round_to_single(product) / TENTH_SCALE) as usize;
    if whole == 0 {
        1
    } else {
        whole
    }
}

proof fn lemma_spacing_divides(x: nat, bits: nat) -> (w: nat)
    requires
        x < SIGNIFICAND * pow2(bits),
    ensures
        spacing(x) * w == pow2(bits),
    decreases bits,
{
    if x < SIGNIFICAND {
        lemma_mul_basics(pow2(bits) as int);
        pow2(bits)
    } else if bits == 0 {
        lemma2_to64();
        0
    } else {
        lemma_pow2_unfold(bits);
        let b = (bits - 1) as nat;
        let w = lemma_spacing_divides(x / 2, b);
        let s = spacing(x / 2);
        assert(spacing(x) * w == 2 * (s * w)) by (nonlinear_arith)
            requires
                spacing(x) == 2 * s,
        ;
        w
    }
}

/// Up to what single precision counts exactly, it is a tenth of the limit, rounded
/// down.
pub proof fn law_tenth_of_ordinary_limit(limit: nat)
    requires
        limit <= SIGNIFICAND,
    ensures
        tenth(limit) == limit / 10,
{
    lemma2_to64();
    let k = limit / 10;
    let d = limit % 10;
    assert(rounded(limit) == limit) by {
        let unit = spacing(limit);
        if limit < SIGNIFICAND {
            assert(unit == 1);
            assert(limit / unit == limit && limit % unit == 0);
        } else {
            assert(spacing(limit / 2) == 1);
            assert(unit == 2);
            assert(limit / unit == 0x80_0000 && limit % unit == 0);
        }
        let q = limit / unit;
        assert(q * unit == limit) by (nonlinear_arith)
            requires
                unit == 1 && q == limit || unit == 2 && q == 0x80_0000 && limit == 0x100_0000,
        ;
    }
    let x = limit * TENTH_PARTS as nat;
    let w = lemma_spacing_divides(x, 24) as int;
    lemma_spacing(x);
    let unit = spacing(x) as int;
    let q = x as int / unit;
    let r = x as int % unit;
    lemma_fundamental_div_mod(x as int, unit);
    assert(w >= 1) by (nonlinear_arith)
        requires
            unit * w == 0x100_0000,
            unit > 0,
    ;
    assert(unit <= 0x100_0000) by (nonlinear_arith)
        requires
            unit * w == 0x100_0000,
            w >= 1,
            unit > 0,
    ;
    // Below: the multiple of the spacing at `k` is not passed on the way down.
    let m = 8 * w * k;
    assert(unit * m == 0x800_0000 * k) by (nonlinear_arith)
        requires
            m == 8 * w * k,
            unit * w == 0x100_0000,
    ;
    assert(10 * x == 0x800_0000 * limit + 2 * limit);
    assert(unit * m <= x);
    assert(q >= m) by (nonlinear_arith)
        requires
            unit * m <= x,
            x == unit * q + r,
            r < unit,
            unit > 0,
    ;
    assert(unit * q >= unit * m) by (nonlinear_arith)
        requires
            q >= m,
            unit > 0,
    ;
    assert(q * unit == unit * q) by (nonlinear_arith);
    assert((q + 1) * unit == unit * q + unit) by (nonlinear_arith);
    let y = rounded(x);
    assert(2 * y <= 2 * x + unit);
    assert(0x800_0000 * k <= y < 0x800_0000 * (k + 1));
}

/// Below a limit of 10 requests leave one at a time, and from there on, as far as
/// single precision counts exactly, a tenth of the limit at a time.
pub proof fn law_batch_of_ordinary_limit(limit: nat)
    requires
        limit <= SIGNIFICAND,
    ensures
        batch(limit) == (if limit < 10 {
            1
        } else {
            limit / 10
        }),
{
    law_tenth_of_ordinary_limit(limit);
}

/// The spacing is a power of two, fine enough for 24 significant bits, and no finer
/// than they need.
pub proof fn law_spacing_keeps_24_bits(x: nat)
    ensures
        exists|k: nat| spacing(x) == #[trigger] pow2(k),
        x < 0x100_0000 * spacing(x),
        spacing(x) > 1 ==> x >= 0x80_0000 * spacing(x),
    decreases x,
{
    if x < SIGNIFICAND {
        lemma2_to64();
        assert(spacing(x) == pow2(0));
    } else {
        law_spacing_keeps_24_bits(x / 2);
        let k = choose|k: nat| spacing(x / 2) == #[trigger] pow2(k);
        lemma_pow2_unfold(k + 1);
        assert(spacing(x) == pow2(k + 1));
    }
}

/// Rounding gives a multiple of the spacing, none of which is nearer, and of two
/// that are equally near the even one.
pub proof fn law_rounding_is_to_the_nearest(x: nat, m: nat)
    ensures
        ({
            let unit = spacing(x) as int;
            let y = rounded(x) as int;
            let z = m * unit;
            let far = if y < x {
                x - y
            } else {
                y - x
            };
            &&& unit > 0
            &&& y == (y / unit) * unit
            &&& far <= (if z < x {
                x - z
            } else {
                z - x
            })
            &&& 2 * far == unit ==> (y / unit) % 2 == 0
        }),
{
    lemma_spacing(x);
    let unit = spacing(x) as int;
    let q = x as int / unit;
    let r = x as int % unit;
    let y = rounded(x) as int;
    let k = if 2 * r > unit || (2 * r == unit && q % 2 == 1) {
        q + 1
    } else {
        q
    };
    lemma_fundamental_div_mod(x as int, unit);
    assert(q * unit == unit * q) by (nonlinear_arith);
    assert((q + 1) * unit == q * unit + unit) by (nonlinear_arith);
    assert(y == k * unit);
    lemma_div_multiples_vanish(k, unit);
    assert(unit * k == k * unit) by (nonlinear_arith);
    assert(y / unit == k);
    if m <= q {
        assert(m * unit <= q * unit) by (nonlinear_arith)
            requires
                m <= q,
                unit > 0,
        ;
    } else {
        assert(m * unit >= (q + 1) * unit) by (nonlinear_arith)
            requires
                m >= q + 1,
                unit > 0,
        ;
    }
}

/// A tenth is the limit in single precision times the nearest number to one tenth,
/// 13421773 parts of 134217728, in single precision and without its fraction.
pub proof fn law_tenth_is_one_product(limit: nat)
    ensures
        tenth(limit) * 134_217_728 <= rounded(rounded(limit) * 13_421_773),
        rounded(rounded(limit) * 13_421_773) < (tenth(limit) + 1) * 134_217_728,
{
}

/// A batch is a tenth of the limit wherever that is one request or more.
pub proof fn law_batch_is_a_tenth(limit: nat)
    ensures
        tenth(limit) >= 1 ==> batch(limit) == tenth(limit),
        tenth(limit) == 0 ==> batch(limit) == 1,
{
}

} // verus!
