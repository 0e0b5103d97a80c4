//! Peak limiting of one channel: instantaneous hard or cubic soft clipping,
//! or a feed-forward lookahead algorithm that pairs a smoothed moving-max
//! detector with a delay line, so gain reduction reaches the output before
//! the transient does.

use vstd::prelude::*;
use vstd::string::StringExecFns;
use vstd::arithmetic::div_mod::lemma_div_is_ordered;
use circular_queue::CircularQueue;
use crate::config::ConfigError;
use crate::config::LimiterParameters;
use crate::delay::DelayLine;
use crate::fixed::fx_div;
use crate::fixed::fx_div_spec;
use crate::fixed::fx_mul;
use crate::fixed::fx_mul_spec;
use crate::fixed::fx_pow_frac;
use crate::fixed::fx_pow_frac_spec;
use crate::fixed::fx_pow_int;
use crate::fixed::fx_pow_int_spec;
use crate::fixed::db_to_lin;
use crate::fixed::db_to_lin_spec;
use crate::fixed::in_range;
use crate::fixed::AMP_MAX;
use crate::fixed::SCALE;
use crate::history::cq_capacity;
use crate::history::cq_contents;
use crate::history::cq_items;
use crate::history::cq_push;
use crate::history::cq_with_capacity;

verus! {

/// `1 / 6.75` in ticks: the cubic term of the soft-clip curve.
pub const CUBE_FACTOR: i64 = 148148;

/// The soft-clip curve saturates its scaled input at `1.5`.
pub const CLIP_CLAMP: i64 = 1500000;

/// `(overshoot - 1) / overshoot` in ticks for the allowed overshoot `1.01`.
pub const OVERSHOOT_RATIO: i64 = 9900;

/// Largest accepted lookahead, in samples; bounds the delay buffer.
pub const MAX_LOOKAHEAD: usize = 100000000;

pub struct Limiter {
    pub name: String,
    /// Selects the cubic curve instead of hard clamping when not in
    /// lookahead mode.
    pub soft_clip: bool,
    /// Linear amplitude ceiling, in ticks.
    pub clip_limit: i64,
    pub sample_rate: usize,
    /// Aligns the signal path with the detector window.
    pub delay: DelayLine,
    /// Feed-forward window length in samples; zero selects plain clipping.
    pub lookahead: usize,
    /// The last `lookahead` detector values, oldest first.
    pub clip_control_history: CircularQueue<i64>,
    /// Smoothed peak envelope, carried across blocks.
    pub prev_peak: i64,
    /// Rise coefficient of the peak envelope.
    pub alpha: i64,
    /// Feedback coefficient of the one-step peak prediction.
    pub beta: i64,
}

/// Largest value of a detector window, taking an empty window as silence.
pub open spec fn seq_max0(s: Seq<i64>) -> int
    decreases s.len(),
{
    if s.len() == 0 {
        0
    } else {
        let m = seq_max0(s.drop_last());
        if s.last() as int > m {
            s.last() as int
        } else {
            m
        }
    }
}

pub proof fn lemma_seq_max0_range(s: Seq<i64>, bound: int)
    requires
        bound >= 0,
        forall|i: int| 0 <= i < s.len() ==> #[trigger] (s[i] as int) <= bound,
    ensures
        0 <= seq_max0(s) <= bound,
    decreases s.len(),
{
    if s.len() > 0 {
        assert(forall|i: int|
            0 <= i < s.drop_last().len() ==> #[trigger] (s.drop_last()[i] as int) <= bound);
        lemma_seq_max0_range(s.drop_last(), bound);
        assert(s.last() as int <= bound);
    }
}

/// A window value after a push into a bounded history of capacity `cap`.
pub open spec fn hist_push_spec(hist: Seq<i64>, cap: nat, d: i64) -> Seq<i64> {
    if cap == 0 {
        hist
    } else if hist.len() < cap {
        hist.push(d)
    } else {
        hist.drop_first().push(d)
    }
}

/// The detector value of one input sample: the larger of its magnitude and
/// the one-step-ahead linear prediction of the peak envelope.
pub open spec fn detector_spec(beta: int, prev_peak: int, x: int) -> int {
    let sample = if x < 0 {
        -x
    } else {
        x
    };
    let over = fx_div_spec(sample - fx_mul_spec(beta, prev_peak), SCALE as int - beta);
    if over > sample {
        over
    } else {
        sample
    }
}

/// One sample of the lookahead detector: push the detector value into the
/// window, run the moving-max filter, and smooth the peak envelope.
pub open spec fn peak_step(alpha: int, beta: int, cap: nat, p: int, h: Seq<i64>, x: int) -> (
    int,
    Seq<i64>,
) {
    let d = detector_spec(beta, p, x);
    let h2 = hist_push_spec(h, cap, d as i64);
    let m = seq_max0(h2);
    let p2 = fx_mul_spec(alpha, m) + fx_mul_spec(SCALE as int - alpha, p);
    (p2, h2)
}

/// Peak envelope and window after the first `i` samples of a block.
pub open spec fn peak_state(
    alpha: int,
    beta: int,
    cap: nat,
    p0: int,
    h0: Seq<i64>,
    xs: Seq<i64>,
    i: int,
) -> (int, Seq<i64>)
    decreases i,
{
    if i <= 0 {
        (p0, h0)
    } else {
        let st = peak_state(alpha, beta, cap, p0, h0, xs, i - 1);
        peak_step(alpha, beta, cap, st.0, st.1, xs[i - 1] as int)
    }
}

/// The gain that caps a peak envelope value at the clip limit.
pub open spec fn gain_of(clip_limit: int, p: int) -> int {
    if p > clip_limit {
        fx_div_spec(clip_limit, p)
    } else {
        SCALE as int
    }
}

/// How one processed block relates a limiter's state and a waveform before
/// and after, for a given detector signal. With lookahead, the gains run over
/// the detector while the signal is delayed by the window, so each output
/// sample carries a gain decided `lookahead` samples ahead of it; without
/// lookahead the block is waveshaped in place and the state is untouched.
pub open spec fn lim_processed(
    l0: Limiter,
    l1: Limiter,
    det: Seq<i64>,
    w0: Seq<i64>,
    w1: Seq<i64>,
) -> bool {
    &&& l1.same_config(&l0)
    &&& w1.len() == w0.len()
    &&& det.len() == w0.len()
    &&& if l0.lookahead > 0 {
        let combined = l0.delay.buf@ + w0;
        &&& (forall|i: int|
            0 <= i < w0.len() ==> w1[i] as int == fx_mul_spec(
                combined[i] as int,
                gain_of(
                    l0.clip_limit as int,
                    peak_state(
                        l0.alpha as int,
                        l0.beta as int,
                        l0.lookahead as nat,
                        l0.prev_peak as int,
                        cq_contents(l0.clip_control_history),
                        det,
                        i + 1,
                    ).0,
                ),
            ))
        &&& l1.delay.buf@ == combined.skip(w0.len() as int)
        &&& l1.prev_peak as int == peak_state(
            l0.alpha as int,
            l0.beta as int,
            l0.lookahead as nat,
            l0.prev_peak as int,
            cq_contents(l0.clip_control_history),
            det,
            det.len() as int,
        ).0
        &&& cq_contents(l1.clip_control_history) == peak_state(
            l0.alpha as int,
            l0.beta as int,
            l0.lookahead as nat,
            l0.prev_peak as int,
            cq_contents(l0.clip_control_history),
            det,
            det.len() as int,
        ).1
    } else {
        &&& l1 == l0
        &&& (forall|i: int|
            0 <= i < w0.len() ==> w1[i] as int == if l0.soft_clip {
                soft_clip_spec(l0.clip_limit as int, w0[i] as int)
            } else {
                hard_clip_spec(l0.clip_limit as int, w0[i] as int)
            })
    }
}

/// Hard clipping: clamp to `[-limit, limit]`.
pub open spec fn hard_clip_spec(limit: int, x: int) -> int {
    if x < -limit {
        -limit
    } else if x > limit {
        limit
    } else {
        x
    }
}

/// The cubic soft-clip curve: scale by the limit, clamp at `1.5`, subtract
/// the cubic term, and scale back.
pub open spec fn soft_clip_spec(limit: int, x: int) -> int {
    let scaled = fx_div_spec(x, limit);
    let clamped = if scaled < -(CLIP_CLAMP as int) {
        -(CLIP_CLAMP as int)
    } else if scaled > CLIP_CLAMP as int {
        CLIP_CLAMP as int
    } else {
        scaled
    };
    let cube = fx_mul_spec(fx_mul_spec(clamped, clamped), clamped);
    let shaped = clamped - fx_mul_spec(CUBE_FACTOR as int, cube);
    fx_mul_spec(shaped, limit)
}

/// A convex combination of two amplitudes, each weighted by a unit-interval
/// coefficient summing to one, stays an amplitude.
pub proof fn lemma_convex_bound(a: int, m: int, p: int)
    requires
        0 <= a <= SCALE as int,
        0 <= m <= AMP_MAX as int,
        0 <= p <= AMP_MAX as int,
    ensures
        0 <= fx_mul_spec(a, m) + fx_mul_spec(SCALE as int - a, p) <= AMP_MAX as int,
        fx_mul_spec(a, m) + fx_mul_spec(SCALE as int - a, p) <= if m > p {
            m
        } else {
            p
        },
{
    let s = SCALE as int;
    let mx = if m > p {
        m
    } else {
        p
    };
    assert(a * m <= a * mx && (s - a) * p <= (s - a) * mx && a * m >= 0 && (s - a) * p >= 0)
        by (nonlinear_arith)
        requires
            0 <= a <= s,
            0 <= m <= mx,
            0 <= p <= mx,
    ;
    lemma_div_is_ordered(a * m, a * mx, s);
    lemma_div_is_ordered((s - a) * p, (s - a) * mx, s);
    assert(a * mx / s + (s - a) * mx / s <= mx) by (nonlinear_arith)
        requires
            0 <= a <= s,
            0 <= mx,
            s == SCALE as int,
    ;
}

/// Derive the lookahead coefficients and delay of a limiter.
///
/// The rise coefficient `alpha` is one minus the `(lookahead + 1)`-th root of
/// the allowed-overshoot ratio, taken with `fx_pow_frac`; `beta` is the
/// matching feedback coefficient `(1 - alpha)^(lookahead + 1)`, held just
/// below one so the predictor's divisor stays positive. The delay line is
/// exactly `lookahead` samples long.
pub open spec fn lookahead_alpha_spec(lookahead: int) -> int {
    (SCALE as int) - fx_pow_frac_spec(OVERSHOOT_RATIO as int, (SCALE as int) / (lookahead + 1))
}

pub open spec fn lookahead_beta_spec(lookahead: int) -> int {
    let b = fx_pow_int_spec(
        (SCALE as int) - lookahead_alpha_spec(lookahead),
        (lookahead + 1) as nat,
    );
    if b >= SCALE as int {
        (SCALE as int) - 1
    } else {
        b
    }
}

pub fn calculate_lookahead_parameters(lookahead: usize, _sample_rate: usize) -> (r: (
    i64,
    i64,
    DelayLine,
))
    requires
        lookahead <= MAX_LOOKAHEAD,
    ensures
        r.0 as int == lookahead_alpha_spec(lookahead as int),
        r.1 as int == lookahead_beta_spec(lookahead as int),
        0 <= r.0 <= SCALE,
        0 <= r.1 < SCALE,
        r.2.delay() == lookahead as nat,
        r.2.buf@ == Seq::new(lookahead as nat, |i: int| 0i64),
{
    let la1: u64 = (lookahead as u64) + 1;
    let c: i64 = (1000000u64 / la1) as i64;
    let pf: i64 = fx_pow_frac(OVERSHOOT_RATIO, c);
    let alpha: i64 = SCALE - pf;
    let braw: i64 = fx_pow_int(pf, la1);
    let beta: i64 = if braw >= SCALE {
        SCALE - 1
    } else {
        braw
    };
    let delay = DelayLine::new(lookahead);
    (alpha, beta, delay)
}

impl Limiter {
    /// Structural invariant of a limiter.
    pub open spec fn wf(&self) -> bool {
        &&& 1 <= self.clip_limit <= AMP_MAX
        &&& 0 <= self.prev_peak <= AMP_MAX
        &&& 0 <= self.alpha <= SCALE
        &&& 0 <= self.beta < SCALE
        &&& cq_capacity(self.clip_control_history) == self.lookahead as nat
        &&& cq_contents(self.clip_control_history).len() <= self.lookahead as nat
        &&& (forall|i: int|
            0 <= i < cq_contents(self.clip_control_history).len() ==> 0 <= #[trigger] cq_contents(
                self.clip_control_history,
            )[i] <= AMP_MAX)
        &&& self.delay.delay() == self.lookahead as nat
        &&& self.delay.wf()
    }

    /// Everything but the per-block runtime state of two limiters agrees.
    pub open spec fn same_config(&self, other: &Self) -> bool {
        &&& self.name == other.name
        &&& self.soft_clip == other.soft_clip
        &&& self.clip_limit == other.clip_limit
        &&& self.sample_rate == other.sample_rate
        &&& self.lookahead == other.lookahead
        &&& self.alpha == other.alpha
        &&& self.beta == other.beta
    }

    /// Build a limiter from validated parameters: convert the dB ceiling to a
    /// linear amplitude, derive the lookahead coefficients and delay, and
    /// start from silence.
    pub fn from_config(name: &str, sample_rate: usize, config: LimiterParameters) -> (r: Self)
        requires
            -120 * (SCALE as int) <= config.clip_limit as int <= 120 * (SCALE as int),
            config.lookahead_or_default() <= MAX_LOOKAHEAD,
        ensures
            r.wf(),
            r.name@ == name@,
            r.soft_clip == config.soft_clip_or_default(),
            r.clip_limit as int == db_to_lin_spec(config.clip_limit as int),
            r.sample_rate == sample_rate,
            r.lookahead == config.lookahead_or_default(),
            r.alpha as int == lookahead_alpha_spec(config.lookahead_or_default() as int),
            r.beta as int == lookahead_beta_spec(config.lookahead_or_default() as int),
            r.prev_peak == 0,
            cq_contents(r.clip_control_history) == Seq::<i64>::empty(),
            r.delay.buf@ == Seq::new(config.lookahead_or_default() as nat, |i: int| 0i64),
    {
        let clip_limit: i64 = db_to_lin(config.clip_limit);
        let lookahead: usize = config.lookahead();
        let (alpha, beta, delay) = calculate_lookahead_parameters(lookahead, sample_rate);
        Limiter {
            name: String::from_str(name),
            soft_clip: config.soft_clip(),
            clip_limit,
            sample_rate,
            delay,
            lookahead,
            clip_control_history: cq_with_capacity(lookahead),
            prev_peak: 0,
            alpha,
            beta,
        }
    }

    pub fn name(&self) -> (r: &str)
        ensures
            r@ == self.name@,
    {
        self.name.as_str()
    }

    /// Clamp every sample to `[-clip_limit, clip_limit]`; samples already
    /// within the ceiling pass unchanged.
    pub fn apply_hard_clip(&self, input: &mut Vec<i64>)
        requires
            self.wf(),
            forall|i: int| 0 <= i < old(input)@.len() ==> in_range(old(input)@[i] as int),
        ensures
            final(input)@.len() == old(input)@.len(),
            forall|i: int|
                0 <= i < old(input)@.len() ==> final(input)@[i] as int == hard_clip_spec(
                    self.clip_limit as int,
                    old(input)@[i] as int,
                ),
    {
        let n: usize = input.len();
        let mut i: usize = 0;
        while i < n
            invariant
                i <= n,
                n == input@.len(),
                self.wf(),
                forall|j: int| i <= j < n ==> input@[j] == old(input)@[j],
                forall|j: int|
                    0 <= j < i ==> input@[j] as int == hard_clip_spec(
                        self.clip_limit as int,
                        old(input)@[j] as int,
                    ),
                forall|j: int| 0 <= j < n ==> in_range(old(input)@[j] as int),
            decreases n - i,
        {
            let x: i64 = input[i];
            let v: i64 = if x < -self.clip_limit {
                -self.clip_limit
            } else if x > self.clip_limit {
                self.clip_limit
            } else {
                x
            };
            input.set(i, v);
            i = i + 1;
        }
    }

    /// Shape every sample with the cubic soft-clip curve.
    pub fn apply_soft_clip(&self, input: &mut Vec<i64>)
        requires
            self.wf(),
            forall|i: int| 0 <= i < old(input)@.len() ==> in_range(old(input)@[i] as int),
        ensures
            final(input)@.len() == old(input)@.len(),
            forall|i: int|
                0 <= i < old(input)@.len() ==> final(input)@[i] as int == soft_clip_spec(
                    self.clip_limit as int,
                    old(input)@[i] as int,
                ),
    {
        let n: usize = input.len();
        let mut i: usize = 0;
        while i < n
            invariant
                i <= n,
                n == input@.len(),
                self.wf(),
                forall|j: int| i <= j < n ==> input@[j] == old(input)@[j],
                forall|j: int|
                    0 <= j < i ==> input@[j] as int == soft_clip_spec(
                        self.clip_limit as int,
                        old(input)@[j] as int,
                    ),
                forall|j: int| 0 <= j < n ==> in_range(old(input)@[j] as int),
            decreases n - i,
        {
            let x: i64 = input[i];
            let scaled: i64 = fx_div(x, self.clip_limit);
            let clamped: i64 = if scaled < -CLIP_CLAMP {
                -CLIP_CLAMP
            } else if scaled > CLIP_CLAMP {
                CLIP_CLAMP
            } else {
                scaled
            };
            let sq: i64 = fx_mul(clamped, clamped);
            let cube: i64 = fx_mul(sq, clamped);
            let shaped: i64 = clamped - fx_mul(CUBE_FACTOR, cube);
            let v: i64 = fx_mul(shaped, self.clip_limit);
            input.set(i, v);
            i = i + 1;
        }
    }

    /// Waveshape the block: the cubic curve when `soft_clip` is set, hard
    /// clamping otherwise.
    pub fn apply_clip(&self, input: &mut Vec<i64>)
        requires
            self.wf(),
            forall|i: int| 0 <= i < old(input)@.len() ==> in_range(old(input)@[i] as int),
        ensures
            final(input)@.len() == old(input)@.len(),
            forall|i: int|
                0 <= i < old(input)@.len() ==> final(input)@[i] as int == if self.soft_clip {
                    soft_clip_spec(self.clip_limit as int, old(input)@[i] as int)
                } else {
                    hard_clip_spec(self.clip_limit as int, old(input)@[i] as int)
                },
    {
        if self.soft_clip {
            self.apply_soft_clip(input);
        } else {
            self.apply_hard_clip(input);
        }
    }

    /// Run the lookahead detector over the block and return one gain per
    /// sample: push each detector value into the moving-max window, smooth
    /// the peak envelope, and cap it at the clip limit.
    pub fn calculate_gain(&mut self, waveform: &Vec<i64>) -> (gains: Vec<i64>)
        requires
            old(self).wf(),
            forall|i: int| 0 <= i < waveform@.len() ==> in_range(waveform@[i] as int),
        ensures
            final(self).wf(),
            final(self).same_config(old(self)),
            final(self).delay == old(self).delay,
            gains@.len() == waveform@.len(),
            forall|i: int|
                0 <= i < gains@.len() ==> gains@[i] as int == gain_of(
                    old(self).clip_limit as int,
                    peak_state(
                        old(self).alpha as int,
                        old(self).beta as int,
                        old(self).lookahead as nat,
                        old(self).prev_peak as int,
                        cq_contents(old(self).clip_control_history),
                        waveform@,
                        i + 1,
                    ).0,
                ),
            forall|i: int| 0 <= i < gains@.len() ==> 0 <= #[trigger] gains@[i] <= SCALE,
            final(self).prev_peak as int == peak_state(
                old(self).alpha as int,
                old(self).beta as int,
                old(self).lookahead as nat,
                old(self).prev_peak as int,
                cq_contents(old(self).clip_control_history),
                waveform@,
                waveform@.len() as int,
            ).0,
            cq_contents(final(self).clip_control_history) == peak_state(
                old(self).alpha as int,
                old(self).beta as int,
                old(self).lookahead as nat,
                old(self).prev_peak as int,
                cq_contents(old(self).clip_control_history),
                waveform@,
                waveform@.len() as int,
            ).1,
    {
        let ghost al = old(self).alpha as int;
        let ghost be = old(self).beta as int;
        let ghost cap = old(self).lookahead as nat;
        let ghost p0 = old(self).prev_peak as int;
        let ghost h0 = cq_contents(old(self).clip_control_history);
        let n: usize = waveform.len();
        let mut gains: Vec<i64> = Vec::new();
        let mut i: usize = 0;
        while i < n
            invariant
                i <= n,
                n == waveform@.len(),
                forall|j: int| 0 <= j < n ==> in_range(waveform@[j] as int),
                self.wf(),
                self.same_config(old(self)),
                self.delay == old(self).delay,
                al == self.alpha as int,
                be == self.beta as int,
                cap == self.lookahead as nat,
                gains@.len() == i,
                (self.prev_peak as int, cq_contents(self.clip_control_history)) == peak_state(
                    al,
                    be,
                    cap,
                    p0,
                    h0,
                    waveform@,
                    i as int,
                ),
                forall|j: int|
                    0 <= j < i ==> gains@[j] as int == gain_of(
                        old(self).clip_limit as int,
                        peak_state(al, be, cap, p0, h0, waveform@, j + 1).0,
                    ),
                forall|j: int| 0 <= j < i ==> 0 <= #[trigger] gains@[j] <= SCALE,
            decreases n - i,
        {
            let x: i64 = waveform[i];
            let sample: i64 = if x < 0 {
                -x
            } else {
                x
            };
            let bp: i64 = fx_mul(self.beta, self.prev_peak);
            proof {
                crate::fixed::lemma_fx_mul_unit(self.beta as int, SCALE as int);
                assert(0 <= bp as int <= AMP_MAX as int) by {
                    assert(fx_mul_spec(be, self.prev_peak as int) >= 0 && fx_mul_spec(
                        be,
                        self.prev_peak as int,
                    ) <= self.prev_peak as int) by (nonlinear_arith)
                        requires
                            0 <= be < SCALE as int,
                            0 <= self.prev_peak as int <= AMP_MAX as int,
                    ;
                }
            }
            let num: i64 = sample - bp;
            let over: i64 = fx_div(num, SCALE - self.beta);
            let det: i64 = if over > sample {
                over
            } else {
                sample
            };
            proof {
                assert(det as int == detector_spec(be, self.prev_peak as int, x as int));
                assert(0 <= det as int <= AMP_MAX as int);
            }
            let ghost h_pre = cq_contents(self.clip_control_history);
            let ghost p_pre = self.prev_peak as int;
            cq_push(&mut self.clip_control_history, det);
            proof {
                assert(cq_contents(self.clip_control_history) == hist_push_spec(
                    h_pre,
                    cap,
                    det,
                ));
                assert(forall|j: int|
                    0 <= j < cq_contents(self.clip_control_history).len() ==> 0
                        <= #[trigger] cq_contents(self.clip_control_history)[j] <= AMP_MAX);
            }
            let items: Vec<i64> = cq_items(&self.clip_control_history);
            let m: i64 = vec_max0(&items);
            proof {
                lemma_seq_max0_range(items@, AMP_MAX as int);
            }
            let am: i64 = fx_mul(self.alpha, m);
            let pm: i64 = fx_mul(SCALE - self.alpha, self.prev_peak);
            proof {
                lemma_convex_bound(al, m as int, self.prev_peak as int);
            }
            let p2: i64 = am + pm;
            let g: i64 = if p2 > self.clip_limit {
                fx_div(self.clip_limit, p2)
            } else {
                SCALE
            };
            proof {
                if p2 > self.clip_limit {
                    assert(0 <= (self.clip_limit as int) * (SCALE as int) / (p2 as int) <= SCALE
                        as int) by (nonlinear_arith)
                        requires
                            1 <= self.clip_limit as int,
                            (self.clip_limit as int) < p2 as int,
                    ;
                }
                assert((p2 as int, cq_contents(self.clip_control_history)) == peak_step(
                    al,
                    be,
                    cap,
                    p_pre,
                    h_pre,
                    x as int,
                ));
                assert(peak_state(al, be, cap, p0, h0, waveform@, i + 1) == peak_step(
                    al,
                    be,
                    cap,
                    p_pre,
                    h_pre,
                    waveform@[i as int] as int,
                ));
            }
            self.prev_peak = p2;
            gains.push(g);
            i = i + 1;
        }
        gains
    }

    /// Multiply each sample by its gain; where one vector is longer, the
    /// leftover entries stay untouched.
    pub fn apply_limiter(&self, gains: Vec<i64>, waveform: &mut Vec<i64>)
        requires
            forall|i: int| 0 <= i < old(waveform)@.len() ==> in_range(old(waveform)@[i] as int),
            forall|i: int| 0 <= i < gains@.len() ==> 0 <= #[trigger] gains@[i] <= SCALE,
        ensures
            final(waveform)@.len() == old(waveform)@.len(),
            forall|i: int|
                0 <= i < old(waveform)@.len() && i < gains@.len() ==> final(waveform)@[i] as int
                    == fx_mul_spec(old(waveform)@[i] as int, gains@[i] as int),
            forall|i: int|
                gains@.len() <= i < old(waveform)@.len() ==> final(waveform)@[i] == old(
                    waveform,
                )@[i],
            forall|i: int|
                0 <= i < final(waveform)@.len() ==> in_range(final(waveform)@[i] as int),
    {
        let n: usize = waveform.len();
        let g: usize = gains.len();
        let m: usize = if g < n {
            g
        } else {
            n
        };
        let mut i: usize = 0;
        while i < m
            invariant
                i <= m,
                m <= n,
                m <= g,
                n == waveform@.len(),
                g == gains@.len(),
                forall|j: int| i <= j < n ==> waveform@[j] == old(waveform)@[j],
                forall|j: int|
                    0 <= j < i ==> waveform@[j] as int == fx_mul_spec(
                        old(waveform)@[j] as int,
                        gains@[j] as int,
                    ),
                forall|j: int| 0 <= j < n ==> in_range(old(waveform)@[j] as int),
                forall|j: int| 0 <= j < g ==> 0 <= #[trigger] gains@[j] <= SCALE,
                forall|j: int| 0 <= j < i ==> in_range(waveform@[j] as int),
            decreases m - i,
        {
            let v: i64 = fx_mul(waveform[i], gains[i]);
            waveform.set(i, v);
            i = i + 1;
        }
    }

    /// Process one block in place. With lookahead, the gains computed from
    /// the incoming samples are applied to the delay-aligned signal, so the
    /// reduction reaches the output `lookahead` samples before the transient;
    /// without lookahead the block is waveshaped directly. Never fails.
    pub fn process_waveform(&mut self, waveform: &mut Vec<i64>) -> (r: Result<(), ConfigError>)
        requires
            old(self).wf(),
            forall|i: int| 0 <= i < old(waveform)@.len() ==> in_range(old(waveform)@[i] as int),
        ensures
            r is Ok,
            final(self).wf(),
            final(waveform)@.len() == old(waveform)@.len(),
            forall|i: int|
                0 <= i < final(waveform)@.len() ==> in_range(final(waveform)@[i] as int),
            lim_processed(
                *old(self),
                *final(self),
                old(waveform)@,
                old(waveform)@,
                final(waveform)@,
            ),
    {
        if self.lookahead > 0 {
            let gains: Vec<i64> = self.calculate_gain(waveform);
            let d: &mut DelayLine = &mut self.delay;
            d.process_waveform(waveform);
            proof {
                assert(self.wf());
            }
            self.apply_limiter(gains, waveform);
            Ok(())
        } else {
            self.apply_clip(waveform);
            Ok(())
        }
    }

    /// Limit the block in place, detecting from its own samples.
    pub fn process_limiter(&mut self, waveform: &mut Vec<i64>)
        requires
            old(self).wf(),
            forall|i: int| 0 <= i < old(waveform)@.len() ==> in_range(old(waveform)@[i] as int),
        ensures
            final(self).wf(),
            final(waveform)@.len() == old(waveform)@.len(),
            forall|i: int|
                0 <= i < final(waveform)@.len() ==> in_range(final(waveform)@[i] as int),
            lim_processed(
                *old(self),
                *final(self),
                old(waveform)@,
                old(waveform)@,
                final(waveform)@,
            ),
    {
        let _ = self.process_waveform(waveform);
    }

    /// Limit the block in place, detecting from a shared monitor signal of
    /// the same length instead of the block's own samples.
    pub fn process_limiter_with_monitor(&mut self, monitor: &Vec<i64>, waveform: &mut Vec<i64>)
        requires
            old(self).wf(),
            monitor@.len() == old(waveform)@.len(),
            forall|i: int| 0 <= i < monitor@.len() ==> in_range(monitor@[i] as int),
            forall|i: int| 0 <= i < old(waveform)@.len() ==> in_range(old(waveform)@[i] as int),
        ensures
            final(self).wf(),
            final(waveform)@.len() == old(waveform)@.len(),
            forall|i: int|
                0 <= i < final(waveform)@.len() ==> in_range(final(waveform)@[i] as int),
            lim_processed(
                *old(self),
                *final(self),
                monitor@,
                old(waveform)@,
                final(waveform)@,
            ),
    {
        if self.lookahead > 0 {
            let gains: Vec<i64> = self.calculate_gain(monitor);
            let d: &mut DelayLine = &mut self.delay;
            d.process_waveform(waveform);
            proof {
                assert(self.wf());
            }
            self.apply_limiter(gains, waveform);
        } else {
            self.apply_clip(waveform);
        }
    }

    /// Replace every derived field from the new parameters and reset the
    /// runtime state: the envelope returns to silence, the history and the
    /// delay line are rebuilt empty.
    pub fn update_parameters(&mut self, config: LimiterParameters)
        requires
            -120 * (SCALE as int) <= config.clip_limit as int <= 120 * (SCALE as int),
            config.lookahead_or_default() <= MAX_LOOKAHEAD,
        ensures
            final(self).wf(),
            final(self).name == old(self).name,
            final(self).sample_rate == old(self).sample_rate,
            final(self).soft_clip == config.soft_clip_or_default(),
            final(self).clip_limit as int == db_to_lin_spec(config.clip_limit as int),
            final(self).lookahead == config.lookahead_or_default(),
            final(self).alpha as int == lookahead_alpha_spec(
                config.lookahead_or_default() as int,
            ),
            final(self).beta as int == lookahead_beta_spec(config.lookahead_or_default() as int),
            final(self).prev_peak == 0,
            cq_contents(final(self).clip_control_history) == Seq::<i64>::empty(),
            final(self).delay.buf@ == Seq::new(
                config.lookahead_or_default() as nat,
                |i: int| 0i64,
            ),
    {
        let clip_limit: i64 = db_to_lin(config.clip_limit);
        let lookahead: usize = config.lookahead();
        let (alpha, beta, delay) = calculate_lookahead_parameters(lookahead, self.sample_rate);
        self.delay = delay;
        self.lookahead = lookahead;
        self.alpha = alpha;
        self.beta = beta;
        self.soft_clip = config.soft_clip();
        self.clip_limit = clip_limit;
        self.clip_control_history = cq_with_capacity(lookahead);
        self.prev_peak = 0;
    }
}

/// Largest value of a detector window, zero when it is empty.
fn vec_max0(v: &Vec<i64>) -> (r: i64)
    ensures
        r as int == seq_max0(v@),
{
    let mut acc: i64 = 0;
    let mut i: usize = 0;
    while i < v.len()
        invariant
            i <= v@.len(),
            acc as int == seq_max0(v@.take(i as int)),
        decreases v@.len() - i,
    {
        let x: i64 = v[i];
        proof {
            assert(v@.take(i + 1).drop_last() =~= v@.take(i as int));
            assert(v@.take(i + 1).last() == v@[i as int]);
        }
        if x > acc {
            acc = x;
        }
        i = i + 1;
    }
    proof {
        assert(v@.take(v@.len() as int) =~= v@);
    }
    acc
}

/// Accept any limiter parameters: this stage's policy is intentionally
/// permissive, and out-of-range values are the caller's responsibility.
pub fn validate_config(_config: &LimiterParameters) -> (r: Result<(), ConfigError>)
    ensures
        r is Ok,
{
    Ok(())
}

} // verus!
