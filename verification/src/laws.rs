//! Laws of the dynamics stage that span several functions, each proved from
//! the contracts in the other modules.

use vstd::prelude::*;
use vstd::arithmetic::div_mod::lemma_div_multiples_vanish;
use crate::compressor::applied_wfs;
use crate::compressor::gain_run;
use crate::compressor::gain_scratch_seq;
use crate::compressor::gain_step;
use crate::compressor::Compressor;
use crate::limiter::gain_of;
use crate::fixed::db_to_lin_spec;
use crate::fixed::fx_div_spec;
use crate::fixed::fx_mul_spec;
use crate::fixed::fx_pow_frac_loop;
use crate::fixed::fx_sqrt_spec;
use crate::fixed::in_range;
use crate::fixed::AMP_MAX;
use crate::fixed::SCALE;
use crate::limiter::soft_clip_spec;
use crate::limiter::CUBE_FACTOR;

verus! {

/// Raising anything to a zero exponent leaves the accumulator alone.
pub proof fn lemma_pow_frac_zero(t: int, acc: int, fuel: nat)
    ensures
        fx_pow_frac_loop(t, 0, acc, fuel) == acc,
    decreases fuel,
{
    if fuel > 0 {
        lemma_pow_frac_zero(fx_sqrt_spec(t), acc, (fuel - 1) as nat);
    }
}

/// Multiplying by the unit factor is the identity on representable values.
pub proof fn lemma_fx_mul_scale(a: int)
    requires
        in_range(a),
    ensures
        fx_mul_spec(a, SCALE as int) == a,
{
    if a >= 0 {
        lemma_div_multiples_vanish(a, SCALE as int);
    } else {
        lemma_div_multiples_vanish(-a, SCALE as int);
        assert((-a) * (SCALE as int) == -(a * (SCALE as int))) by (nonlinear_arith);
    }
}

/// With a ratio of exactly one and a unity starting gain, the gain state
/// stays exactly one through any envelope: above the threshold the curve's
/// exponent is zero, below it the release ramp fixes unity.
pub proof fn lemma_unity_gain_run(release: int, thr: int, vs: Seq<i64>, i: int)
    requires
        0 <= release <= SCALE as int,
    ensures
        gain_run(release, thr, SCALE as int, SCALE as int, vs, i) == SCALE as int,
    decreases i,
{
    if i > 0 {
        lemma_unity_gain_run(release, thr, vs, i - 1);
        let v = vs[i - 1] as int;
        if v > thr {
            assert(fx_div_spec(0, SCALE as int) == 0);
            lemma_pow_frac_zero(fx_div_spec(thr, v), SCALE as int, 20);
            assert(gain_step(release, thr, SCALE as int, SCALE as int, v) == SCALE as int);
        } else {
            lemma_fx_mul_scale(release);
            lemma_fx_mul_scale(SCALE as int - release);
            assert(gain_step(release, thr, SCALE as int, SCALE as int, v) == SCALE as int);
        }
    }
}

/// Identity below unity drive: with a compression ratio of one, no makeup
/// gain and a unity starting gain, the gain curve is exactly one on every
/// sample and the gain stage leaves every channel of the block unchanged.
pub proof fn lemma_identity_when_disabled(c: Compressor, wfs: Seq<Seq<i64>>)
    requires
        c.wf(),
        c.factor == SCALE,
        c.makeup_gain == 0,
        c.prev_gain == SCALE,
        forall|ch: int, i: int|
            0 <= ch < wfs.len() && 0 <= i < wfs[ch].len() ==> in_range(
                #[trigger] wfs[ch][i] as int,
            ),
        forall|ch: int| 0 <= ch < wfs.len() ==> #[trigger] wfs[ch].len() == c.scratch@.len(),
    ensures
        forall|i: int|
            0 <= i < c.scratch@.len() ==> #[trigger] gain_scratch_seq(
                &c,
                wfs,
                c.scratch@.len(),
            )[i] == SCALE,
        forall|ch: int|
            0 <= ch < wfs.len() ==> #[trigger] applied_wfs(&c, wfs, c.scratch@.len())[ch]
                == wfs[ch],
{
    let n = c.scratch@.len();
    assert(crate::fixed::pow10_spec(0) == 1);
    assert(db_to_lin_spec(0) == SCALE as int);
    let thr = db_to_lin_spec(c.threshold as int);
    assert forall|i: int| 0 <= i < n implies #[trigger] gain_scratch_seq(&c, wfs, n)[i]
        == SCALE by {
        lemma_unity_gain_run(
            c.release as int,
            thr,
            crate::compressor::envelope_seq(&c, wfs, n),
            i + 1,
        );
        lemma_fx_mul_scale(SCALE as int);
    }
    assert forall|ch: int| 0 <= ch < wfs.len() implies #[trigger] applied_wfs(&c, wfs, n)[ch]
        == wfs[ch] by {
        if c.process_channels@.contains(ch as usize) {
            assert forall|i: int| 0 <= i < wfs[ch].len() implies #[trigger] applied_wfs(
                &c,
                wfs,
                n,
            )[ch][i] == wfs[ch][i] by {
                assert(gain_scratch_seq(&c, wfs, n)[i] == SCALE);
                lemma_fx_mul_scale(wfs[ch][i] as int);
            }
            assert(applied_wfs(&c, wfs, n)[ch] =~= wfs[ch]);
        }
    }
}

/// Silence drains the loudness envelope: a zero detector sample keeps the
/// smoothed loudness at zero, and strictly shrinks any positive value
/// whenever the attack coefficient is below one.
pub proof fn lemma_silence_loudness_decays(attack: int, p: int)
    requires
        0 <= attack < SCALE as int,
        0 <= p <= AMP_MAX as int,
    ensures
        0 <= fx_mul_spec(attack, p) + fx_mul_spec(SCALE as int - attack, fx_mul_spec(0, 0)) <= p,
        p >= 1 ==> fx_mul_spec(attack, p) + fx_mul_spec(SCALE as int - attack, fx_mul_spec(0, 0))
            < p,
{
    assert(fx_mul_spec(0, 0) == 0);
    assert(fx_mul_spec(SCALE as int - attack, 0) == 0);
    assert(0 <= (attack * p) / (SCALE as int) && (attack * p) / (SCALE as int) <= p && (p >= 1
        ==> (attack * p) / (SCALE as int) < p)) by (nonlinear_arith)
        requires
            0 <= attack < SCALE as int,
            0 <= p,
    ;
}

/// Over an all-zero block the loudness envelope never rises, and keeps
/// strictly falling until it reaches silence, whenever the attack
/// coefficient is below one.
pub proof fn lemma_silence_block_drains(attack: int, p0: int, s: Seq<i64>, i: int)
    requires
        0 <= attack < SCALE as int,
        0 <= p0 <= AMP_MAX as int,
        forall|j: int| 0 <= j < s.len() ==> #[trigger] s[j] == 0i64,
        0 <= i <= s.len(),
    ensures
        0 <= crate::compressor::loud_run(attack, p0, s, i) <= p0,
        i > 0 && crate::compressor::loud_run(attack, p0, s, i - 1) >= 1
            ==> crate::compressor::loud_run(attack, p0, s, i) < crate::compressor::loud_run(
            attack,
            p0,
            s,
            i - 1,
        ),
    decreases i,
{
    if i > 0 {
        lemma_silence_block_drains(attack, p0, s, i - 1);
        let prev = crate::compressor::loud_run(attack, p0, s, i - 1);
        lemma_silence_loudness_decays(attack, prev);
        assert(s[i - 1] == 0i64);
    }
}

/// Below the threshold the gain ramps toward unity: after one release step
/// the remaining distance to the unit gain is at most the release-weighted
/// share of the old distance, plus one tick of rounding.
pub proof fn lemma_silence_gain_recovers(release: int, thr: int, factor: int, g: int, v: int)
    requires
        0 <= release <= SCALE as int,
        0 <= g <= SCALE as int,
        v <= thr,
    ensures
        0 <= gain_step(release, thr, factor, g, v) <= SCALE as int,
        SCALE as int - gain_step(release, thr, factor, g, v) <= (release * (SCALE as int - g)) / (
        SCALE as int) + 1,
{
    lemma_fx_mul_scale(SCALE as int - release);
    assert(0 <= (release * g) / (SCALE as int) && (release * g) / (SCALE as int) <= release && (
    release - (release * g) / (SCALE as int) <= (release * (SCALE as int - g)) / (SCALE as int)
        + 1)) by (nonlinear_arith)
        requires
            0 <= release <= SCALE as int,
            0 <= g <= SCALE as int,
    ;
    let g2 = gain_step(release, thr, factor, g, v);
    assert(g2 == (release * g) / (SCALE as int) + (SCALE as int - release));
}

/// A limiter never amplifies: every gain it computes is at most one.
pub proof fn lemma_gain_never_amplifies(clip_limit: int, p: int)
    requires
        1 <= clip_limit,
        0 <= p,
    ensures
        0 <= gain_of(clip_limit, p) <= SCALE as int,
{
    if p > clip_limit {
        assert(0 <= (clip_limit * (SCALE as int)) / p && (clip_limit * (SCALE as int)) / p
            <= SCALE as int) by (nonlinear_arith)
            requires
                1 <= clip_limit,
                clip_limit < p,
        ;
    }
}

/// Whenever the smoothed peak envelope dominates a sample's magnitude, the
/// limiter's gain caps that sample at the clip limit; this is what bounds
/// the overshoot of the lookahead path while a transient is still inside
/// the detector window.
pub proof fn lemma_limited_sample_bounded(clip_limit: int, p: int, x: int)
    requires
        1 <= clip_limit <= AMP_MAX as int,
        0 <= p <= AMP_MAX as int,
        -p <= x <= p,
    ensures
        -clip_limit <= fx_mul_spec(x, gain_of(clip_limit, p)) <= clip_limit,
{
    let s = SCALE as int;
    if p > clip_limit {
        let g = gain_of(clip_limit, p);
        assert(g == (clip_limit * s) / p && 0 <= g <= s) by (nonlinear_arith)
            requires
                1 <= clip_limit,
                clip_limit < p,
                p <= AMP_MAX as int,
                g == gain_of(clip_limit, p),
                s == SCALE as int,
        ;
        assert(p * g <= clip_limit * s) by (nonlinear_arith)
            requires
                g == (clip_limit * s) / p,
                1 <= p,
                0 <= clip_limit,
                0 < s,
        ;
        if x >= 0 {
            assert((x * g) / s <= clip_limit && 0 <= (x * g) / s) by (nonlinear_arith)
                requires
                    0 <= x <= p,
                    0 <= g,
                    p * g <= clip_limit * s,
                    0 < s,
            ;
        } else {
            assert(((-x) * g) / s <= clip_limit && 0 <= ((-x) * g) / s) by (nonlinear_arith)
                requires
                    0 <= -x <= p,
                    0 <= g,
                    p * g <= clip_limit * s,
                    0 < s,
            ;
            assert(x * g == -((-x) * g)) by (nonlinear_arith);
        }
    } else {
        lemma_fx_mul_scale(x);
    }
}

/// At exactly the clip limit the cubic soft-clip curve yields the limit
/// scaled by one minus the cube factor, about `0.852` of the ceiling.
pub proof fn lemma_soft_clip_at_limit(limit: int)
    requires
        1 <= limit <= AMP_MAX as int,
    ensures
        soft_clip_spec(limit, limit) == fx_mul_spec(SCALE as int - CUBE_FACTOR as int, limit),
{
    assert(limit * (SCALE as int) == (SCALE as int) * limit) by (nonlinear_arith);
    lemma_div_multiples_vanish(SCALE as int, limit);
    assert(fx_div_spec(limit, limit) == SCALE as int);
    lemma_div_multiples_vanish(SCALE as int, SCALE as int);
    assert(fx_mul_spec(SCALE as int, SCALE as int) == SCALE as int);
    lemma_div_multiples_vanish(CUBE_FACTOR as int, SCALE as int);
    assert(fx_mul_spec(CUBE_FACTOR as int, SCALE as int) == CUBE_FACTOR as int);
}

} // verus!
