//! Saturating fixed-point arithmetic for the dynamics processor.
//!
//! Every amplitude, coefficient and gain in this crate is an `i64` holding
//! `value * SCALE` ticks. The representable amplitude range is
//! `[-AMP_MAX, AMP_MAX]` (one million units of amplitude); results outside it
//! saturate. Quotients and products are truncated toward zero.

use vstd::prelude::*;

verus! {

/// One unit of amplitude, gain or time, in ticks.
pub const SCALE: i64 = 1000000;

/// Largest representable magnitude: one million units.
pub const AMP_MAX: i64 = SCALE * SCALE;

/// Truncating division (round toward zero), for a positive divisor.
pub open spec fn trunc_div(n: int, d: int) -> int {
    if n >= 0 {
        n / d
    } else {
        -((-n) / d)
    }
}

/// Saturate a mathematical value into the representable range.
pub open spec fn sat_spec(x: int) -> int {
    if x < -(AMP_MAX as int) {
        -(AMP_MAX as int)
    } else if x > AMP_MAX as int {
        AMP_MAX as int
    } else {
        x
    }
}

pub open spec fn fx_add_spec(a: int, b: int) -> int {
    sat_spec(a + b)
}

pub open spec fn fx_mul_spec(a: int, b: int) -> int {
    sat_spec(trunc_div(a * b, SCALE as int))
}

pub open spec fn fx_div_spec(a: int, b: int) -> int {
    sat_spec(trunc_div(a * (SCALE as int), b))
}

/// Whether a tick count is a representable amplitude.
pub open spec fn in_range(x: int) -> bool {
    -(AMP_MAX as int) <= x <= AMP_MAX as int
}

/// Saturating addition of two amplitudes.
pub fn fx_add(a: i64, b: i64) -> (r: i64)
    requires
        in_range(a as int),
        in_range(b as int),
    ensures
        r == fx_add_spec(a as int, b as int),
{
    let s: i64 = a + b;
    if s < -AMP_MAX {
        -AMP_MAX
    } else if s > AMP_MAX {
        AMP_MAX
    } else {
        s
    }
}

/// Fixed-point product `a * b / SCALE`, truncated toward zero and saturated.
pub fn fx_mul(a: i64, b: i64) -> (r: i64)
    requires
        in_range(a as int),
        in_range(b as int),
    ensures
        r == fx_mul_spec(a as int, b as int),
{
    let neg: bool = (a < 0) != (b < 0);
    let am: u128 = (if a < 0 { -a } else { a }) as u128;
    let bm: u128 = (if b < 0 { -b } else { b }) as u128;
    proof {
        assert(am * bm <= (AMP_MAX as u128) * (AMP_MAX as u128)) by (nonlinear_arith)
            requires
                am <= AMP_MAX as u128,
                bm <= AMP_MAX as u128,
        ;
    }
    let q: u128 = (am * bm) / (SCALE as u128);
    let qc: i64 = if q > AMP_MAX as u128 {
        AMP_MAX
    } else {
        q as i64
    };
    proof {
        if a >= 0 && b >= 0 {
            assert(a as int * b as int == am as int * bm as int);
        } else if a < 0 && b < 0 {
            assert(a as int * b as int == am as int * bm as int) by (nonlinear_arith)
                requires
                    am as int == -(a as int),
                    bm as int == -(b as int),
            ;
        } else {
            assert(a as int * b as int == -(am as int * bm as int)) by (nonlinear_arith)
                requires
                    (am as int == -(a as int) && bm as int == b as int) || (am as int == a as int
                        && bm as int == -(b as int)),
            ;
        }
        assert(q as int == (am as int * bm as int) / (SCALE as int));
    }
    if neg {
        -qc
    } else {
        qc
    }
}

/// Fixed-point quotient `a * SCALE / b`, truncated toward zero and saturated.
/// The divisor must be positive; the dividend may run somewhat past the
/// amplitude range so that smoothing intermediates need no pre-clamp.
pub fn fx_div(a: i64, b: i64) -> (r: i64)
    requires
        -4 * (AMP_MAX as int) <= a as int <= 4 * (AMP_MAX as int),
        b >= 1,
    ensures
        r == fx_div_spec(a as int, b as int),
{
    let neg: bool = a < 0;
    let am: u128 = (if a < 0 { -a } else { a }) as u128;
    proof {
        assert(am * (SCALE as u128) <= 4 * (AMP_MAX as u128) * (SCALE as u128))
            by (nonlinear_arith)
            requires
                am <= 4 * (AMP_MAX as u128),
        ;
    }
    let q: u128 = (am * (SCALE as u128)) / (b as u128);
    let qc: i64 = if q > AMP_MAX as u128 {
        AMP_MAX
    } else {
        q as i64
    };
    proof {
        if a >= 0 {
            assert(a as int * (SCALE as int) == am as int * (SCALE as int));
        } else {
            assert(a as int * (SCALE as int) == -(am as int * (SCALE as int)))
                by (nonlinear_arith)
                requires
                    am as int == -(a as int),
            ;
        }
        assert(q as int == (am as int * (SCALE as int)) / (b as int));
    }
    if neg {
        -qc
    } else {
        qc
    }
}

/// `1/e` in ticks (floor of `SCALE / 2.71828...`).
pub const INV_E: i64 = 367879;

/// `1/10` in ticks.
pub const INV_TEN: i64 = 100000;

/// Integer square root, defined by counting up.
pub open spec fn isqrt_spec(n: nat) -> nat
    decreases n,
{
    if n == 0 {
        0
    } else {
        let r = isqrt_spec((n - 1) as nat);
        if (r + 1) * (r + 1) <= n {
            r + 1
        } else {
            r
        }
    }
}

pub proof fn lemma_isqrt_bounds(n: nat)
    ensures
        isqrt_spec(n) * isqrt_spec(n) <= n,
        n < (isqrt_spec(n) + 1) * (isqrt_spec(n) + 1),
    decreases n,
{
    if n == 0 {
        assert(isqrt_spec(0) == 0);
        assert(isqrt_spec(n) * isqrt_spec(n) <= n);
        assert(n < (isqrt_spec(n) + 1) * (isqrt_spec(n) + 1)) by (nonlinear_arith)
            requires
                isqrt_spec(n) == 0,
                n == 0,
        ;
    } else {
        lemma_isqrt_bounds((n - 1) as nat);
        let r = isqrt_spec((n - 1) as nat);
        if (r + 1) * (r + 1) <= n {
            assert(isqrt_spec(n) == r + 1);
            assert(n < (isqrt_spec(n) + 1) * (isqrt_spec(n) + 1)) by (nonlinear_arith)
                requires
                    (n - 1) < (r + 1) * (r + 1),
                    isqrt_spec(n) == r + 1,
            ;
        } else {
            assert(isqrt_spec(n) == r);
            assert(isqrt_spec(n) * isqrt_spec(n) <= n);
            assert(n < (isqrt_spec(n) + 1) * (isqrt_spec(n) + 1));
        }
    }
}

pub proof fn lemma_isqrt_unique(r: nat, n: nat)
    requires
        r * r <= n,
        n < (r + 1) * (r + 1),
    ensures
        r == isqrt_spec(n),
{
    lemma_isqrt_bounds(n);
    let s = isqrt_spec(n);
    if r < s {
        assert((r + 1) * (r + 1) <= s * s) by (nonlinear_arith)
            requires
                r + 1 <= s,
        ;
    }
    if s < r {
        assert((s + 1) * (s + 1) <= r * r) by (nonlinear_arith)
            requires
                s + 1 <= r,
        ;
    }
}

/// Binary-search integer square root.
pub fn isqrt_u64(n: u64) -> (r: u64)
    ensures
        r as nat == isqrt_spec(n as nat),
{
    let mut lo: u64 = 0;
    let mut hi: u64 = 4294967296;
    proof {
        assert((n as nat) < (hi as nat) * (hi as nat)) by (nonlinear_arith)
            requires
                n < 18446744073709551616u128,
                hi as nat == 4294967296nat,
        ;
    }
    while lo + 1 < hi
        invariant
            lo < hi,
            hi <= 4294967296,
            (lo as nat) * (lo as nat) <= n as nat,
            (n as nat) < (hi as nat) * (hi as nat),
        decreases hi - lo,
    {
        let mid: u64 = lo + (hi - lo) / 2;
        proof {
            assert((mid as u128) * (mid as u128) <= 4294967296u128 * 4294967296u128)
                by (nonlinear_arith)
                requires
                    mid <= 4294967296u64,
            ;
        }
        let sq: u128 = (mid as u128) * (mid as u128);
        if sq <= n as u128 {
            lo = mid;
        } else {
            hi = mid;
        }
    }
    proof {
        lemma_isqrt_unique(lo as nat, n as nat);
    }
    lo
}

/// Fixed-point square root of a non-negative amplitude.
pub open spec fn fx_sqrt_spec(x: int) -> int {
    isqrt_spec((x * (SCALE as int)) as nat) as int
}

pub fn fx_sqrt(x: i64) -> (r: i64)
    requires
        0 <= x <= AMP_MAX,
    ensures
        r == fx_sqrt_spec(x as int),
        0 <= r <= AMP_MAX,
        x <= SCALE ==> r <= SCALE,
        x < SCALE ==> r < SCALE,
{
    let n: u64 = (x as u64) * 1000000;
    let r: u64 = isqrt_u64(n);
    proof {
        assert(n as nat == x as nat * 1000000);
        assert(n <= 1000000000000000000u64);
        lemma_isqrt_bounds(n as nat);
        let rr = isqrt_spec(n as nat);
        assert(rr <= 1000000000000nat) by (nonlinear_arith)
            requires
                rr * rr <= n as nat,
                n as nat <= 1000000000000000000nat,
        ;
        if x <= SCALE {
            assert(rr <= 1000000nat) by (nonlinear_arith)
                requires
                    rr * rr <= n as nat,
                    n as nat <= 1000000000000nat,
            ;
        }
        if x < SCALE {
            assert(rr < 1000000nat) by (nonlinear_arith)
                requires
                    rr * rr <= n as nat,
                    (n as nat) < 1000000000000nat,
            ;
        }
    }
    r as i64
}

/// A product of unit-interval factors stays in the unit interval.
pub proof fn lemma_fx_mul_unit(a: int, b: int)
    requires
        0 <= a <= SCALE as int,
        0 <= b <= SCALE as int,
    ensures
        0 <= fx_mul_spec(a, b),
        fx_mul_spec(a, b) <= a,
        fx_mul_spec(a, b) <= b,
{
    assert(0 <= (a * b) / (SCALE as int) && (a * b) / (SCALE as int) <= a && (a * b) / (
    SCALE as int) <= b) by (nonlinear_arith)
        requires
            0 <= a <= SCALE as int,
            0 <= b <= SCALE as int,
    ;
}

/// Fixed-point integer power of a factor in `[0, 1]`.
pub open spec fn fx_pow_int_spec(base: int, n: nat) -> int
    decreases n,
{
    if n == 0 {
        SCALE as int
    } else {
        fx_mul_spec(fx_pow_int_spec(base, (n - 1) as nat), base)
    }
}

pub fn fx_pow_int(base: i64, n: u64) -> (r: i64)
    requires
        0 <= base <= SCALE,
    ensures
        r == fx_pow_int_spec(base as int, n as nat),
        0 <= r <= SCALE,
{
    let mut acc: i64 = SCALE;
    let mut i: u64 = 0;
    while i < n
        invariant
            0 <= base <= SCALE,
            0 <= acc <= SCALE,
            i <= n,
            acc == fx_pow_int_spec(base as int, i as nat),
        decreases n - i,
    {
        proof {
            lemma_fx_mul_unit(acc as int, base as int);
        }
        acc = fx_mul(acc, base);
        i = i + 1;
    }
    acc
}

/// One fuel-counted step of the square-and-multiply walk over the binary
/// digits of a fractional exponent.
pub open spec fn fx_pow_frac_loop(t: int, rem: int, acc: int, fuel: nat) -> int
    decreases fuel,
{
    if fuel == 0 {
        acc
    } else {
        let t2 = fx_sqrt_spec(t);
        let rem2 = 2 * rem;
        if rem2 >= SCALE as int {
            fx_pow_frac_loop(t2, rem2 - SCALE as int, fx_mul_spec(acc, t2), (fuel - 1) as nat)
        } else {
            fx_pow_frac_loop(t2, rem2, acc, (fuel - 1) as nat)
        }
    }
}

/// `base` raised to the fractional exponent `c / SCALE`, both in `[0, 1]`,
/// evaluated to twenty binary digits of the exponent.
pub open spec fn fx_pow_frac_spec(base: int, c: int) -> int {
    fx_pow_frac_loop(base, c, SCALE as int, 20)
}

pub fn fx_pow_frac(base: i64, c: i64) -> (r: i64)
    requires
        0 <= base <= SCALE,
        0 <= c <= SCALE,
    ensures
        r == fx_pow_frac_spec(base as int, c as int),
        0 <= r <= SCALE,
{
    let mut t: i64 = base;
    let mut rem: i64 = c;
    let mut acc: i64 = SCALE;
    let mut k: u64 = 0;
    while k < 20
        invariant
            0 <= t <= SCALE,
            0 <= rem <= SCALE,
            0 <= acc <= SCALE,
            k <= 20,
            fx_pow_frac_loop(t as int, rem as int, acc as int, (20 - k) as nat)
                == fx_pow_frac_spec(base as int, c as int),
        decreases 20 - k,
    {
        let t2: i64 = fx_sqrt(t);
        let rem2: i64 = 2 * rem;
        if rem2 >= SCALE {
            proof {
                lemma_fx_mul_unit(acc as int, t2 as int);
            }
            acc = fx_mul(acc, t2);
            rem = rem2 - SCALE;
        } else {
            rem = rem2;
        }
        t = t2;
        k = k + 1;
    }
    acc
}

/// Per-sample smoothing coefficient `exp(-1 / (samplerate * time))`, taken
/// as `(1/e)` raised to `1 / (samplerate * time)` in fixed point.
pub open spec fn exp_coeff_spec(samplerate: int, t: int) -> int {
    let x = (SCALE as int * SCALE as int) / (samplerate * t);
    if x == 0 {
        SCALE as int
    } else {
        let ip = x / (SCALE as int);
        let fr = x % (SCALE as int);
        if ip >= 28 {
            0
        } else {
            fx_mul_spec(fx_pow_int_spec(INV_E as int, ip as nat), fx_pow_frac_spec(INV_E as int, fr))
        }
    }
}

pub fn exp_coeff(samplerate: usize, t: i64) -> (r: i64)
    requires
        samplerate >= 1,
        t >= 1,
    ensures
        r == exp_coeff_spec(samplerate as int, t as int),
        0 <= r <= SCALE,
{
    proof {
        assert((samplerate as int) * (t as int) <= 0xffffffffffffffffint * 0x7fffffffffffffffint
            && (samplerate as int) * (t as int) >= 1) by (nonlinear_arith)
            requires
                1 <= samplerate as int <= 0xffffffffffffffffint,
                1 <= t as int <= 0x7fffffffffffffffint,
        ;
    }
    let d: u128 = (samplerate as u128) * (t as u128);
    let x128: u128 = 1000000000000u128 / d;
    let xu: u64 = x128 as u64;
    if xu == 0 {
        SCALE
    } else {
        let ip: u64 = xu / 1000000;
        let fr: u64 = xu % 1000000;
        if ip >= 28 {
            0
        } else {
            let pi: i64 = fx_pow_int(INV_E, ip);
            let pf: i64 = fx_pow_frac(INV_E, fr as i64);
            proof {
                lemma_fx_mul_unit(pi as int, pf as int);
            }
            fx_mul(pi, pf)
        }
    }
}

/// Ten to an integer power, for the decades of a decibel conversion.
pub open spec fn pow10_spec(n: nat) -> int
    decreases n,
{
    if n == 0 {
        1
    } else {
        10 * pow10_spec((n - 1) as nat)
    }
}

pub proof fn lemma_pow10_val(n: nat)
    requires
        n <= 6,
    ensures
        pow10_spec(n) == if n == 0 {
            1int
        } else if n == 1 {
            10int
        } else if n == 2 {
            100int
        } else if n == 3 {
            1000int
        } else if n == 4 {
            10000int
        } else if n == 5 {
            100000int
        } else {
            1000000int
        },
    decreases n,
{
    if n > 0 {
        lemma_pow10_val((n - 1) as nat);
    }
}

pub fn pow10(n: u64) -> (r: i64)
    requires
        n <= 6,
    ensures
        r == pow10_spec(n as nat),
        1 <= r <= 1000000,
{
    let mut acc: i64 = 1;
    let mut i: u64 = 0;
    while i < n
        invariant
            i <= n <= 6,
            acc == pow10_spec(i as nat),
            1 <= acc <= 1000000,
        decreases n - i,
    {
        proof {
            lemma_pow10_val(i as nat);
        }
        acc = 10 * acc;
        i = i + 1;
    }
    acc
}

/// A level in dB ticks as a linear amplitude factor `10^(db / 20)`,
/// clamped into `[1, AMP_MAX]` ticks (one millionth to one million).
pub open spec fn db_to_lin_spec(db: int) -> int {
    let d = if db < 0 {
        -db
    } else {
        db
    };
    let ip = d / (20 * SCALE as int);
    let fr = (d % (20 * SCALE as int)) / 20;
    let linf = if fr == 0 {
        SCALE as int
    } else {
        10 * fx_pow_frac_spec(INV_TEN as int, SCALE as int - fr)
    };
    let mag = linf * pow10_spec(ip as nat);
    if db < 0 {
        if mag == 0 {
            AMP_MAX as int
        } else {
            let rec = (SCALE as int * SCALE as int) / mag;
            if rec < 1 {
                1
            } else {
                rec
            }
        }
    } else {
        if mag > AMP_MAX as int {
            AMP_MAX as int
        } else if mag < 1 {
            1
        } else {
            mag
        }
    }
}

pub fn db_to_lin(db: i64) -> (r: i64)
    requires
        -120 * (SCALE as int) <= db as int <= 120 * (SCALE as int),
    ensures
        r == db_to_lin_spec(db as int),
        1 <= r <= AMP_MAX,
{
    let du: u64 = (if db < 0 { -db } else { db }) as u64;
    let ip: u64 = du / 20000000;
    let rem: u64 = du % 20000000;
    let fr: u64 = rem / 20;
    let linf: i64 = if fr == 0 {
        SCALE
    } else {
        let pf: i64 = fx_pow_frac(INV_TEN, SCALE - fr as i64);
        10 * pf
    };
    let p10: i64 = pow10(ip);
    proof {
        assert(linf * p10 <= 10000000000000int && linf * p10 >= 0) by (nonlinear_arith)
            requires
                0 <= linf <= 10000000,
                1 <= p10 <= 1000000,
        ;
    }
    let mag: i64 = linf * p10;
    if db < 0 {
        if mag == 0 {
            AMP_MAX
        } else {
            let recu: u64 = 1000000000000u64 / (mag as u64);
            let rec: i64 = recu as i64;
            if rec < 1 {
                1
            } else {
                rec
            }
        }
    } else {
        if mag > AMP_MAX {
            AMP_MAX
        } else if mag < 1 {
            1
        } else {
            mag
        }
    }
}

} // verus!
