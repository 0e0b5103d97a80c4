//! The loudness-tracking compressor: combines the monitored channels into one
//! detector signal, follows its RMS envelope, derives a shared gain curve,
//! applies it to the processed channels, and optionally drives one limiter
//! per processed channel.

use vstd::prelude::*;
use vstd::string::StringExecFns;
use crate::config::CompressorParameters;
use crate::config::ConfigError;
use crate::config::LimiterParameters;
use crate::config::first_oob;
use crate::config::find_oob_channel;
use crate::fixed::exp_coeff;
use crate::fixed::exp_coeff_spec;
use crate::fixed::db_to_lin;
use crate::fixed::db_to_lin_spec;
use crate::fixed::fx_add;
use crate::fixed::fx_add_spec;
use crate::fixed::fx_div_spec;
use crate::fixed::fx_mul;
use crate::fixed::fx_mul_spec;
use crate::fixed::fx_pow_frac_spec;
use crate::fixed::fx_sqrt;
use crate::fixed::fx_sqrt_spec;
use crate::fixed::in_range;
use crate::fixed::AMP_MAX;
use crate::fixed::SCALE;
use crate::limiter::Limiter;

verus! {

/// Ratios at or above this select brick-wall limiting instead of the soft
/// compression curve.
pub const LIMITER_MODE_FACTOR: i64 = 1000000000;

/// One block of audio: one equal-length waveform per channel.
pub struct AudioChunk {
    pub waveforms: Vec<Vec<i64>>,
}

/// The waveforms of a chunk as a sequence of sequences.
pub open spec fn wfs_view(chunk: &AudioChunk) -> Seq<Seq<i64>> {
    Seq::new(chunk.waveforms@.len(), |ch: int| chunk.waveforms@[ch]@)
}

/// All samples of every waveform are representable amplitudes.
pub open spec fn chunk_in_range(chunk: &AudioChunk) -> bool {
    forall|ch: int, i: int|
        0 <= ch < wfs_view(chunk).len() && 0 <= i < wfs_view(chunk)[ch].len() ==> in_range(
            #[trigger] wfs_view(chunk)[ch][i] as int,
        )
}

/// A block is the shape this compressor was built for: one waveform per
/// configured channel, each as long as the scratch buffer.
pub open spec fn chunk_fits(c: &Compressor, chunk: &AudioChunk) -> bool {
    &&& wfs_view(chunk).len() == c.channels
    &&& forall|ch: int|
        0 <= ch < wfs_view(chunk).len() ==> #[trigger] wfs_view(chunk)[ch].len()
            == c.scratch@.len()
}

pub struct Compressor {
    pub name: String,
    /// Channel count of the blocks this stage processes.
    pub channels: usize,
    /// Channels combined into the loudness detector signal.
    pub monitor_channels: Vec<usize>,
    /// Channels the gain curve is applied to.
    pub process_channels: Vec<usize>,
    /// Per-sample attack smoothing coefficient, in ticks.
    pub attack: i64,
    /// Per-sample release smoothing coefficient, in ticks.
    pub release: i64,
    /// Threshold, dB in ticks.
    pub threshold: i64,
    /// Compression ratio, in ticks.
    pub factor: i64,
    /// Makeup gain, dB in ticks.
    pub makeup_gain: i64,
    /// One limiter per processed channel, when a clip limit is configured.
    pub limiters: Option<Vec<Limiter>>,
    pub samplerate: usize,
    /// Reusable block-sized workspace for monitor, envelope and gain values.
    pub scratch: Vec<i64>,
    /// Smoothed squared-RMS loudness, carried across blocks.
    pub prev_loudness: i64,
    /// Last gain value, carried across blocks.
    pub prev_gain: i64,
    /// Drive the limiter bank from the recomputed monitor sum.
    pub clip_use_monitor: bool,
    /// Combine monitor channels as root-sum-of-squares.
    pub monitor_use_power: bool,
}

/// The listed channels, or all of them when the list is empty.
pub open spec fn resolved_channels_spec(given: Seq<usize>, channels: usize) -> Seq<usize> {
    if given.len() == 0 {
        Seq::new(channels as nat, |i: int| i as usize)
    } else {
        given
    }
}

fn resolve_channels(given: Vec<usize>, channels: usize) -> (r: Vec<usize>)
    ensures
        r@ == resolved_channels_spec(given@, channels),
{
    if given.len() == 0 {
        let mut r: Vec<usize> = Vec::new();
        let mut i: usize = 0;
        while i < channels
            invariant
                i <= channels,
                r@ == Seq::new(i as nat, |j: int| j as usize),
            decreases channels - i,
        {
            r.push(i);
            proof {
                assert(r@ =~= Seq::new((i + 1) as nat, |j: int| j as usize));
            }
            i = i + 1;
        }
        r
    } else {
        given
    }
}

/// The sum of the squares of the first `k` monitored channels at sample `i`.
pub open spec fn power_sum_spec(wfs: Seq<Seq<i64>>, mons: Seq<usize>, i: int, k: int) -> int
    decreases k,
{
    if k <= 0 {
        0
    } else {
        fx_add_spec(
            power_sum_spec(wfs, mons, i, k - 1),
            fx_mul_spec(wfs[mons[k - 1] as int][i] as int, wfs[mons[k - 1] as int][i] as int),
        )
    }
}

/// The plain sum of the first `k` monitored channels at sample `i`.
pub open spec fn linear_sum_spec(wfs: Seq<Seq<i64>>, mons: Seq<usize>, i: int, k: int) -> int
    decreases k,
{
    if k <= 1 {
        wfs[mons[0] as int][i] as int
    } else {
        fx_add_spec(linear_sum_spec(wfs, mons, i, k - 1), wfs[mons[k - 1] as int][i] as int)
    }
}

/// The monitor combination at sample `i`: a single channel copies through,
/// several combine as root-sum-of-squares or as a plain sum.
pub open spec fn monitor_sum_spec(
    wfs: Seq<Seq<i64>>,
    mons: Seq<usize>,
    use_power: bool,
    i: int,
) -> int {
    if mons.len() == 1 {
        wfs[mons[0] as int][i] as int
    } else if use_power {
        fx_sqrt_spec(power_sum_spec(wfs, mons, i, mons.len() as int))
    } else {
        linear_sum_spec(wfs, mons, i, mons.len() as int)
    }
}

/// Smoothed squared loudness after the first `i` detector samples.
pub open spec fn loud_run(attack: int, p0: int, s: Seq<i64>, i: int) -> int
    decreases i,
{
    if i <= 0 {
        p0
    } else {
        let sq = fx_mul_spec(s[i - 1] as int, s[i - 1] as int);
        fx_mul_spec(attack, loud_run(attack, p0, s, i - 1)) + fx_mul_spec(
            SCALE as int - attack,
            sq,
        )
    }
}

/// One step of the gain curve for an envelope value `v`: brick-wall above the
/// threshold in limiter mode, the ratio curve `(threshold/v)^((factor-1)/factor)`
/// above it otherwise, and a release ramp toward unity below it.
pub open spec fn gain_step(release: int, thr: int, factor: int, g0: int, v: int) -> int {
    if v > thr {
        if factor > LIMITER_MODE_FACTOR as int {
            fx_div_spec(thr, v)
        } else {
            fx_pow_frac_spec(fx_div_spec(thr, v), fx_div_spec(factor - SCALE as int, factor))
        }
    } else {
        fx_mul_spec(release, g0) + fx_mul_spec(SCALE as int - release, SCALE as int)
    }
}

/// Gain state after the first `i` envelope values.
pub open spec fn gain_run(release: int, thr: int, factor: int, g0: int, vs: Seq<i64>, i: int) -> int
    decreases i,
{
    if i <= 0 {
        g0
    } else {
        gain_step(release, thr, factor, gain_run(release, thr, factor, g0, vs, i - 1), vs[i
            - 1] as int)
    }
}

impl Compressor {
    /// Structural invariant of a compressor.
    pub open spec fn wf(&self) -> bool {
        &&& self.channels >= 1
        &&& self.samplerate >= 1
        &&& self.monitor_channels@.len() >= 1
        &&& forall|i: int|
            0 <= i < self.monitor_channels@.len() ==> (#[trigger] self.monitor_channels@[i])
                < self.channels
        &&& forall|i: int|
            0 <= i < self.process_channels@.len() ==> (#[trigger] self.process_channels@[i])
                < self.channels
        &&& forall|i: int, j: int|
            0 <= i < j < self.process_channels@.len() ==> self.process_channels@[i]
                != self.process_channels@[j]
        &&& 0 <= self.attack <= SCALE
        &&& 0 <= self.release <= SCALE
        &&& SCALE <= self.factor <= AMP_MAX
        &&& -120 * (SCALE as int) <= self.threshold as int <= 120 * (SCALE as int)
        &&& -120 * (SCALE as int) <= self.makeup_gain as int <= 120 * (SCALE as int)
        &&& 0 <= self.prev_loudness <= AMP_MAX
        &&& 0 <= self.prev_gain <= SCALE
        &&& forall|i: int| 0 <= i < self.scratch@.len() ==> in_range(#[trigger] self.scratch@[i] as int)
        &&& match self.limiters {
            Some(ls) => ls@.len() == self.process_channels@.len() && forall|k: int|
                0 <= k < ls@.len() ==> (#[trigger] ls@[k]).wf(),
            None => true,
        }
    }

    /// Whether a configuration may construct or update this stage: the
    /// validator's rules plus the representation's own numeric limits.
    pub open spec fn config_ok(config: &CompressorParameters) -> bool {
        &&& config.channels >= 1
        &&& config.attack >= 1
        &&& config.release as int >= config.attack as int + 1
        &&& -120 * (SCALE as int) <= config.threshold as int <= 120 * (SCALE as int)
        &&& -120 * (SCALE as int) <= config.makeup_gain_or_default() as int <= 120 * (
        SCALE as int)
        &&& SCALE as int <= config.factor as int <= AMP_MAX as int
        &&& (match config.clip_limit {
            Some(cl) => -120 * (SCALE as int) <= cl as int <= 120 * (SCALE as int),
            None => true,
        })
        &&& config.clip_lookahead_or_default() <= crate::limiter::MAX_LOOKAHEAD
        &&& forall|i: int|
            0 <= i < config.monitor_list().len() ==> (#[trigger] config.monitor_list()[i])
                < config.channels
        &&& forall|i: int|
            0 <= i < config.process_list().len() ==> (#[trigger] config.process_list()[i])
                < config.channels
        &&& forall|i: int, j: int|
            0 <= i < j < config.process_list().len() ==> config.process_list()[i]
                != config.process_list()[j]
    }

    /// The fields a configuration derives, shared by construction and update.
    ///
    /// Both derive the release coefficient from `release - attack`, the
    /// canonical formula: the release stage then composes with the attack
    /// stage rather than restating it.
    pub open spec fn derived_from(
        &self,
        config: &CompressorParameters,
        samplerate: int,
    ) -> bool {
        &&& self.channels == config.channels
        &&& self.monitor_channels@ == resolved_channels_spec(
            config.monitor_list(),
            config.channels,
        )
        &&& self.process_channels@ == resolved_channels_spec(
            config.process_list(),
            config.channels,
        )
        &&& self.attack as int == exp_coeff_spec(samplerate, config.attack as int)
        &&& self.release as int == exp_coeff_spec(
            samplerate,
            config.release as int - config.attack as int,
        )
        &&& self.threshold == config.threshold
        &&& self.factor == config.factor
        &&& self.makeup_gain == config.makeup_gain_or_default()
        &&& self.clip_use_monitor == config.clip_use_monitor_or_default()
        &&& self.monitor_use_power == config.monitor_use_power_or_default()
        &&& (match config.clip_limit {
            Some(cl) => match self.limiters {
                Some(ls) => {
                    &&& ls@.len() == self.process_channels@.len()
                    &&& forall|k: int|
                        0 <= k < ls@.len() ==> {
                            let l = #[trigger] ls@[k];
                            &&& l.wf()
                            &&& l.clip_limit as int == db_to_lin_spec(cl as int)
                            &&& l.soft_clip == config.soft_clip_or_default()
                            &&& l.lookahead == config.clip_lookahead_or_default()
                            &&& l.alpha as int == crate::limiter::lookahead_alpha_spec(
                                config.clip_lookahead_or_default() as int,
                            )
                            &&& l.beta as int == crate::limiter::lookahead_beta_spec(
                                config.clip_lookahead_or_default() as int,
                            )
                            &&& l.prev_peak == 0
                            &&& crate::history::cq_contents(l.clip_control_history)
                                == Seq::<i64>::empty()
                            &&& l.delay.buf@ == Seq::new(
                                config.clip_lookahead_or_default() as nat,
                                |i: int| 0i64,
                            )
                        }
                },
                None => false,
            },
            None => self.limiters is None,
        })
    }

    /// Build one limiter per processed channel from the clip settings.
    fn build_limiter_bank(
        samplerate: usize,
        clip_limit: i64,
        soft_clip: Option<bool>,
        lookahead: Option<usize>,
        count: usize,
    ) -> (r: Vec<Limiter>)
        requires
            -120 * (SCALE as int) <= clip_limit as int <= 120 * (SCALE as int),
            (match lookahead {
                Some(n) => n,
                None => 0,
            }) <= crate::limiter::MAX_LOOKAHEAD,
        ensures
            r@.len() == count,
            forall|k: int|
                0 <= k < r@.len() ==> {
                    let l = #[trigger] r@[k];
                    let conf = LimiterParameters { clip_limit, soft_clip, lookahead };
                    &&& l.wf()
                    &&& l.clip_limit as int == db_to_lin_spec(clip_limit as int)
                    &&& l.soft_clip == conf.soft_clip_or_default()
                    &&& l.lookahead == conf.lookahead_or_default()
                    &&& l.alpha as int == crate::limiter::lookahead_alpha_spec(
                        conf.lookahead_or_default() as int,
                    )
                    &&& l.beta as int == crate::limiter::lookahead_beta_spec(
                        conf.lookahead_or_default() as int,
                    )
                    &&& l.prev_peak == 0
                    &&& crate::history::cq_contents(l.clip_control_history) == Seq::<i64>::empty()
                    &&& l.delay.buf@ == Seq::new(conf.lookahead_or_default() as nat, |i: int| 0i64)
                },
    {
        let mut r: Vec<Limiter> = Vec::new();
        let mut k: usize = 0;
        while k < count
            invariant
                k <= count,
                r@.len() == k,
                -120 * (SCALE as int) <= clip_limit as int <= 120 * (SCALE as int),
                (match lookahead {
                    Some(n) => n,
                    None => 0,
                }) <= crate::limiter::MAX_LOOKAHEAD,
                forall|j: int|
                    0 <= j < r@.len() ==> {
                        let l = #[trigger] r@[j];
                        let conf = LimiterParameters { clip_limit, soft_clip, lookahead };
                        &&& l.wf()
                        &&& l.clip_limit as int == db_to_lin_spec(clip_limit as int)
                        &&& l.soft_clip == conf.soft_clip_or_default()
                        &&& l.lookahead == conf.lookahead_or_default()
                        &&& l.alpha as int == crate::limiter::lookahead_alpha_spec(
                            conf.lookahead_or_default() as int,
                        )
                        &&& l.beta as int == crate::limiter::lookahead_beta_spec(
                            conf.lookahead_or_default() as int,
                        )
                        &&& l.prev_peak == 0
                        &&& crate::history::cq_contents(l.clip_control_history)
                            == Seq::<i64>::empty()
                        &&& l.delay.buf@ == Seq::new(
                            conf.lookahead_or_default() as nat,
                            |i: int| 0i64,
                        )
                    },
            decreases count - k,
        {
            let conf = LimiterParameters { clip_limit, soft_clip, lookahead };
            let lim = Limiter::from_config("Limiter", samplerate, conf);
            r.push(lim);
            k = k + 1;
        }
        r
    }

    /// Build a compressor from a validated configuration, the block sample
    /// rate and the block size. Empty channel lists resolve to all channels,
    /// the time constants become per-sample coefficients, and a configured
    /// clip limit brings one limiter per processed channel.
    pub fn from_config(
        name: &str,
        config: CompressorParameters,
        samplerate: usize,
        chunksize: usize,
    ) -> (r: Self)
        requires
            samplerate >= 1,
            Self::config_ok(&config),
        ensures
            r.wf(),
            r.name@ == name@,
            r.samplerate == samplerate,
            r.derived_from(&config, samplerate as int),
            r.scratch@ == Seq::new(chunksize as nat, |i: int| 0i64),
            r.prev_loudness == 0,
            r.prev_gain == SCALE,
    {
        let channels: usize = config.channels;
        let monitor_channels: Vec<usize> = resolve_channels(config.monitor_channels(), channels);
        let process_channels: Vec<usize> = resolve_channels(config.process_channels(), channels);
        let attack: i64 = exp_coeff(samplerate, config.attack);
        let release: i64 = exp_coeff(samplerate, config.release - config.attack);
        let mut scratch: Vec<i64> = Vec::new();
        let mut i: usize = 0;
        while i < chunksize
            invariant
                i <= chunksize,
                scratch@ == Seq::new(i as nat, |j: int| 0i64),
            decreases chunksize - i,
        {
            scratch.push(0);
            proof {
                assert(scratch@ =~= Seq::new((i + 1) as nat, |j: int| 0i64));
            }
            i = i + 1;
        }
        let limiters: Option<Vec<Limiter>> = match config.clip_limit {
            Some(limit) => Some(
                Self::build_limiter_bank(
                    samplerate,
                    limit,
                    config.soft_clip,
                    config.clip_lookahead,
                    process_channels.len(),
                ),
            ),
            None => None,
        };
        proof {
            assert(resolved_channels_spec(config.monitor_list(), channels).len() >= 1);
            assert(forall|j: int|
                0 <= j < resolved_channels_spec(config.monitor_list(), channels).len()
                    ==> (#[trigger] resolved_channels_spec(config.monitor_list(), channels)[j])
                    < channels);
            assert(forall|j: int|
                0 <= j < resolved_channels_spec(config.process_list(), channels).len()
                    ==> (#[trigger] resolved_channels_spec(config.process_list(), channels)[j])
                    < channels);
        }
        Compressor {
            name: String::from_str(name),
            channels,
            monitor_channels,
            process_channels,
            attack,
            release,
            threshold: config.threshold,
            factor: config.factor,
            makeup_gain: config.makeup_gain(),
            limiters,
            samplerate,
            scratch,
            prev_loudness: 0,
            prev_gain: SCALE,
            clip_use_monitor: match config.clip_use_monitor {
                Some(b) => b,
                None => false,
            },
            monitor_use_power: match config.monitor_use_power {
                Some(b) => b,
                None => false,
            },
        }
    }

    pub fn name(&self) -> (r: &str)
        ensures
            r@ == self.name@,
    {
        self.name.as_str()
    }

    /// Replace every derived field from a new parameter set and reset the
    /// runtime envelope state to its construction-time defaults. The scratch
    /// buffer keeps the block size the stage was built for.
    pub fn update_parameters(&mut self, config: CompressorParameters)
        requires
            old(self).wf(),
            Self::config_ok(&config),
        ensures
            final(self).wf(),
            final(self).name == old(self).name,
            final(self).samplerate == old(self).samplerate,
            final(self).scratch == old(self).scratch,
            final(self).derived_from(&config, old(self).samplerate as int),
            final(self).prev_loudness == 0,
            final(self).prev_gain == SCALE,
    {
        let channels: usize = config.channels;
        let monitor_channels: Vec<usize> = resolve_channels(config.monitor_channels(), channels);
        let process_channels: Vec<usize> = resolve_channels(config.process_channels(), channels);
        let attack: i64 = exp_coeff(self.samplerate, config.attack);
        let release: i64 = exp_coeff(self.samplerate, config.release - config.attack);
        let limiters: Option<Vec<Limiter>> = match config.clip_limit {
            Some(limit) => Some(
                Self::build_limiter_bank(
                    self.samplerate,
                    limit,
                    config.soft_clip,
                    config.clip_lookahead,
                    process_channels.len(),
                ),
            ),
            None => None,
        };
        proof {
            assert(resolved_channels_spec(config.monitor_list(), channels).len() >= 1);
        }
        self.limiters = limiters;
        self.channels = channels;
        self.monitor_channels = monitor_channels;
        self.process_channels = process_channels;
        self.attack = attack;
        self.release = release;
        self.threshold = config.threshold;
        self.factor = config.factor;
        self.makeup_gain = config.makeup_gain();
        self.clip_use_monitor = match config.clip_use_monitor {
            Some(b) => b,
            None => false,
        };
        self.monitor_use_power = match config.monitor_use_power {
            Some(b) => b,
            None => false,
        };
        self.prev_loudness = 0;
        self.prev_gain = SCALE;
    }
}

impl Compressor {
    /// Whether two compressors agree on every knob outside the limiter bank,
    /// the scratch buffer and the envelope state.
    pub open spec fn same_knobs(&self, other: &Self) -> bool {
        &&& self.name == other.name
        &&& self.channels == other.channels
        &&& self.monitor_channels == other.monitor_channels
        &&& self.process_channels == other.process_channels
        &&& self.attack == other.attack
        &&& self.release == other.release
        &&& self.threshold == other.threshold
        &&& self.factor == other.factor
        &&& self.makeup_gain == other.makeup_gain
        &&& self.samplerate == other.samplerate
        &&& self.clip_use_monitor == other.clip_use_monitor
        &&& self.monitor_use_power == other.monitor_use_power
    }

    /// Whether two compressors differ at most in scratch and envelope state.
    pub open spec fn same_config(&self, other: &Self) -> bool {
        &&& self.same_knobs(other)
        &&& self.limiters == other.limiters
    }

    /// Write the per-sample combination of the monitored channels into the
    /// scratch buffer: a single channel is copied, several are combined by
    /// root-sum-of-squares or by a plain sum, always read at the listed
    /// channel indices themselves.
    pub fn sum_monitor_channels(&mut self, input: &AudioChunk)
        requires
            old(self).wf(),
            chunk_fits(old(self), input),
            chunk_in_range(input),
        ensures
            final(self).wf(),
            final(self).same_config(old(self)),
            final(self).prev_loudness == old(self).prev_loudness,
            final(self).prev_gain == old(self).prev_gain,
            final(self).scratch@.len() == old(self).scratch@.len(),
            forall|i: int|
                0 <= i < final(self).scratch@.len() ==> final(self).scratch@[i] as int
                    == monitor_sum_spec(
                    wfs_view(input),
                    old(self).monitor_channels@,
                    old(self).monitor_use_power,
                    i,
                ),
    {
        let ghost wfs = wfs_view(input);
        let n: usize = self.scratch.len();
        if self.monitor_channels.len() == 1 {
            let ch: usize = self.monitor_channels[0];
            let w: &Vec<i64> = &input.waveforms[ch];
            let mut i: usize = 0;
            while i < n
                invariant
                    i <= n,
                    self.wf(),
                    self.same_config(old(self)),
                    self.prev_loudness == old(self).prev_loudness,
                    self.prev_gain == old(self).prev_gain,
                    n == self.scratch@.len(),
                    n == old(self).scratch@.len(),
                    old(self).monitor_channels@.len() == 1,
                    chunk_fits(old(self), input),
                    chunk_in_range(input),
                    wfs == wfs_view(input),
                    ch == old(self).monitor_channels@[0],
                    w@ == wfs[ch as int],
                    forall|j: int|
                        0 <= j < i ==> self.scratch@[j] as int == monitor_sum_spec(
                            wfs,
                            old(self).monitor_channels@,
                            old(self).monitor_use_power,
                            j,
                        ),
                decreases n - i,
            {
                proof {
                    assert(wfs_view(input)[ch as int].len() == old(self).scratch@.len());
                    assert(in_range(wfs_view(input)[ch as int][i as int] as int));
                }
                let x: i64 = w[i];
                self.scratch.set(i, x);
                i = i + 1;
            }
        } else if self.monitor_use_power {
            let mut i: usize = 0;
            while i < n
                invariant
                    i <= n,
                    self.wf(),
                    self.same_config(old(self)),
                    self.prev_loudness == old(self).prev_loudness,
                    self.prev_gain == old(self).prev_gain,
                    n == self.scratch@.len(),
                    n == old(self).scratch@.len(),
                    old(self).monitor_channels@.len() != 1,
                    old(self).monitor_use_power,
                    chunk_fits(old(self), input),
                    chunk_in_range(input),
                    wfs == wfs_view(input),
                    forall|j: int|
                        0 <= j < i ==> self.scratch@[j] as int == monitor_sum_spec(
                            wfs,
                            old(self).monitor_channels@,
                            old(self).monitor_use_power,
                            j,
                        ),
                decreases n - i,
            {
                let mut acc: i64 = 0;
                let mut k: usize = 0;
                let m: usize = self.monitor_channels.len();
                while k < m
                    invariant
                        k <= m,
                        i < n,
                        self.wf(),
                        m == self.monitor_channels@.len(),
                        self.monitor_channels == old(self).monitor_channels,
                        n == old(self).scratch@.len(),
                        chunk_fits(old(self), input),
                        chunk_in_range(input),
                        wfs == wfs_view(input),
                        old(self).channels == self.channels,
                        0 <= acc <= AMP_MAX,
                        acc as int == power_sum_spec(
                            wfs,
                            old(self).monitor_channels@,
                            i as int,
                            k as int,
                        ),
                    decreases m - k,
                {
                    let ch: usize = self.monitor_channels[k];
                    let w: &Vec<i64> = &input.waveforms[ch];
                    proof {
                        assert(wfs_view(input)[ch as int].len() == old(self).scratch@.len());
                        assert(in_range(wfs_view(input)[ch as int][i as int] as int));
                    }
                    let x: i64 = w[i];
                    let sq: i64 = fx_mul(x, x);
                    proof {
                        assert((x as int) * (x as int) >= 0) by (nonlinear_arith);
                    }
                    acc = fx_add(acc, sq);
                    k = k + 1;
                }
                let v: i64 = fx_sqrt(acc);
                self.scratch.set(i, v);
                i = i + 1;
            }
        } else {
            let mut i: usize = 0;
            while i < n
                invariant
                    i <= n,
                    self.wf(),
                    self.same_config(old(self)),
                    self.prev_loudness == old(self).prev_loudness,
                    self.prev_gain == old(self).prev_gain,
                    n == self.scratch@.len(),
                    n == old(self).scratch@.len(),
                    old(self).monitor_channels@.len() != 1,
                    !old(self).monitor_use_power,
                    chunk_fits(old(self), input),
                    chunk_in_range(input),
                    wfs == wfs_view(input),
                    forall|j: int|
                        0 <= j < i ==> self.scratch@[j] as int == monitor_sum_spec(
                            wfs,
                            old(self).monitor_channels@,
                            old(self).monitor_use_power,
                            j,
                        ),
                decreases n - i,
            {
                let ch0: usize = self.monitor_channels[0];
                let w0: &Vec<i64> = &input.waveforms[ch0];
                proof {
                    assert(wfs_view(input)[ch0 as int].len() == old(self).scratch@.len());
                    assert(in_range(wfs_view(input)[ch0 as int][i as int] as int));
                }
                let mut acc: i64 = w0[i];
                let mut k: usize = 1;
                let m: usize = self.monitor_channels.len();
                while k < m
                    invariant
                        1 <= k <= m,
                        i < n,
                        self.wf(),
                        m == self.monitor_channels@.len(),
                        self.monitor_channels == old(self).monitor_channels,
                        n == old(self).scratch@.len(),
                        chunk_fits(old(self), input),
                        chunk_in_range(input),
                        wfs == wfs_view(input),
                        old(self).channels == self.channels,
                        in_range(acc as int),
                        acc as int == linear_sum_spec(
                            wfs,
                            old(self).monitor_channels@,
                            i as int,
                            k as int,
                        ),
                    decreases m - k,
                {
                    let ch: usize = self.monitor_channels[k];
                    let w: &Vec<i64> = &input.waveforms[ch];
                    proof {
                        assert(wfs_view(input)[ch as int].len() == old(self).scratch@.len());
                        assert(in_range(wfs_view(input)[ch as int][i as int] as int));
                    }
                    let x: i64 = w[i];
                    acc = fx_add(acc, x);
                    k = k + 1;
                }
                self.scratch.set(i, acc);
                i = i + 1;
            }
        }
    }

    /// Replace each scratch value with the smoothed RMS envelope: the squared
    /// loudness is low-pass filtered with the attack coefficient, and the
    /// square root is written back.
    pub fn estimate_loudness(&mut self)
        requires
            old(self).wf(),
        ensures
            final(self).wf(),
            final(self).same_config(old(self)),
            final(self).prev_gain == old(self).prev_gain,
            final(self).scratch@.len() == old(self).scratch@.len(),
            forall|i: int|
                0 <= i < final(self).scratch@.len() ==> final(self).scratch@[i] as int
                    == fx_sqrt_spec(
                    loud_run(
                        old(self).attack as int,
                        old(self).prev_loudness as int,
                        old(self).scratch@,
                        i + 1,
                    ),
                ),
            forall|i: int|
                0 <= i < final(self).scratch@.len() ==> 0 <= #[trigger] final(self).scratch@[i]
                    <= AMP_MAX,
            final(self).prev_loudness as int == loud_run(
                old(self).attack as int,
                old(self).prev_loudness as int,
                old(self).scratch@,
                old(self).scratch@.len() as int,
            ),
    {
        let ghost s0 = old(self).scratch@;
        let n: usize = self.scratch.len();
        let mut i: usize = 0;
        while i < n
            invariant
                i <= n,
                self.wf(),
                self.same_config(old(self)),
                self.prev_gain == old(self).prev_gain,
                n == self.scratch@.len(),
                n == s0.len(),
                forall|j: int| i <= j < n ==> self.scratch@[j] == s0[j],
                self.prev_loudness as int == loud_run(
                    old(self).attack as int,
                    old(self).prev_loudness as int,
                    s0,
                    i as int,
                ),
                forall|j: int|
                    0 <= j < i ==> self.scratch@[j] as int == fx_sqrt_spec(
                        loud_run(
                            old(self).attack as int,
                            old(self).prev_loudness as int,
                            s0,
                            j + 1,
                        ),
                    ),
                forall|j: int| 0 <= j < i ==> 0 <= #[trigger] self.scratch@[j] <= AMP_MAX,
            decreases n - i,
        {
            let s: i64 = self.scratch[i];
            let sq: i64 = fx_mul(s, s);
            proof {
                assert((s as int) * (s as int) >= 0) by (nonlinear_arith);
                crate::limiter::lemma_convex_bound(
                    old(self).attack as int,
                    self.prev_loudness as int,
                    sq as int,
                );
            }
            let t1: i64 = fx_mul(self.attack, self.prev_loudness);
            let t2: i64 = fx_mul(SCALE - self.attack, sq);
            self.prev_loudness = t1 + t2;
            let v: i64 = fx_sqrt(self.prev_loudness);
            self.scratch.set(i, v);
            i = i + 1;
        }
    }

    /// Turn the envelope in scratch into the gain curve: above the linear
    /// threshold the gain is the brick-wall or ratio reduction, below it the
    /// gain ramps toward unity at the release rate; each scratch value
    /// becomes the gain times the linear makeup factor.
    pub fn calculate_linear_gain(&mut self)
        requires
            old(self).wf(),
            forall|i: int| 0 <= i < old(self).scratch@.len() ==> 0 <= #[trigger] old(self).scratch@[i] <= AMP_MAX,
        ensures
            final(self).wf(),
            final(self).same_config(old(self)),
            final(self).prev_loudness == old(self).prev_loudness,
            final(self).scratch@.len() == old(self).scratch@.len(),
            forall|i: int|
                0 <= i < final(self).scratch@.len() ==> final(self).scratch@[i] as int
                    == fx_mul_spec(
                    gain_run(
                        old(self).release as int,
                        db_to_lin_spec(old(self).threshold as int),
                        old(self).factor as int,
                        old(self).prev_gain as int,
                        old(self).scratch@,
                        i + 1,
                    ),
                    db_to_lin_spec(old(self).makeup_gain as int),
                ),
            forall|i: int|
                0 <= i < final(self).scratch@.len() ==> 0 <= #[trigger] final(self).scratch@[i]
                    <= AMP_MAX,
            final(self).prev_gain as int == gain_run(
                old(self).release as int,
                db_to_lin_spec(old(self).threshold as int),
                old(self).factor as int,
                old(self).prev_gain as int,
                old(self).scratch@,
                old(self).scratch@.len() as int,
            ),
    {
        let ghost s0 = old(self).scratch@;
        let threshold_linear: i64 = db_to_lin(self.threshold);
        let makeup_linear: i64 = db_to_lin(self.makeup_gain);
        let ghost thr = threshold_linear as int;
        let n: usize = self.scratch.len();
        let mut i: usize = 0;
        while i < n
            invariant
                i <= n,
                self.wf(),
                self.same_config(old(self)),
                self.prev_loudness == old(self).prev_loudness,
                n == self.scratch@.len(),
                n == s0.len(),
                threshold_linear as int == db_to_lin_spec(old(self).threshold as int),
                makeup_linear as int == db_to_lin_spec(old(self).makeup_gain as int),
                thr == threshold_linear as int,
                1 <= threshold_linear <= AMP_MAX,
                1 <= makeup_linear <= AMP_MAX,
                forall|j: int| i <= j < n ==> self.scratch@[j] == s0[j],
                forall|j: int| 0 <= j < n ==> 0 <= #[trigger] s0[j] <= AMP_MAX,
                self.prev_gain as int == gain_run(
                    old(self).release as int,
                    thr,
                    old(self).factor as int,
                    old(self).prev_gain as int,
                    s0,
                    i as int,
                ),
                forall|j: int|
                    0 <= j < i ==> self.scratch@[j] as int == fx_mul_spec(
                        gain_run(
                            old(self).release as int,
                            thr,
                            old(self).factor as int,
                            old(self).prev_gain as int,
                            s0,
                            j + 1,
                        ),
                        makeup_linear as int,
                    ),
                forall|j: int| 0 <= j < i ==> 0 <= #[trigger] self.scratch@[j] <= AMP_MAX,
            decreases n - i,
        {
            let v: i64 = self.scratch[i];
            let ghost g_pre = self.prev_gain as int;
            let gain: i64 = if v > threshold_linear {
                if self.factor > LIMITER_MODE_FACTOR {
                    let g: i64 = crate::fixed::fx_div(threshold_linear, v);
                    proof {
                        assert(0 <= (threshold_linear as int) * (SCALE as int) / (v as int)
                            <= SCALE as int) by (nonlinear_arith)
                            requires
                                1 <= threshold_linear as int,
                                (threshold_linear as int) < v as int,
                        ;
                        assert(g as int == gain_step(
                            old(self).release as int,
                            thr,
                            old(self).factor as int,
                            g_pre,
                            v as int,
                        ));
                    }
                    g
                } else {
                    let base: i64 = crate::fixed::fx_div(threshold_linear, v);
                    proof {
                        assert(0 <= (threshold_linear as int) * (SCALE as int) / (v as int)
                            <= SCALE as int) by (nonlinear_arith)
                            requires
                                1 <= threshold_linear as int,
                                (threshold_linear as int) < v as int,
                        ;
                    }
                    let c: i64 = crate::fixed::fx_div(self.factor - SCALE, self.factor);
                    proof {
                        assert(0 <= ((self.factor - SCALE) as int) * (SCALE as int) / (
                        self.factor as int) <= SCALE as int) by (nonlinear_arith)
                            requires
                                SCALE as int <= self.factor as int,
                        ;
                    }
                    let g: i64 = crate::fixed::fx_pow_frac(base, c);
                    proof {
                        assert(g as int == gain_step(
                            old(self).release as int,
                            thr,
                            old(self).factor as int,
                            g_pre,
                            v as int,
                        ));
                    }
                    g
                }
            } else {
                proof {
                    crate::limiter::lemma_convex_bound(
                        old(self).release as int,
                        self.prev_gain as int,
                        SCALE as int,
                    );
                }
                let t1: i64 = fx_mul(self.release, self.prev_gain);
                let t2: i64 = fx_mul(SCALE - self.release, SCALE);
                let g: i64 = t1 + t2;
                proof {
                    assert(g as int == gain_step(
                        old(self).release as int,
                        thr,
                        old(self).factor as int,
                        g_pre,
                        v as int,
                    ));
                }
                g
            };
            proof {
                assert(gain as int == gain_step(
                    old(self).release as int,
                    thr,
                    old(self).factor as int,
                    g_pre,
                    v as int,
                ));
                assert(0 <= (gain as int) * (makeup_linear as int)) by (nonlinear_arith)
                    requires
                        0 <= gain as int,
                        0 <= makeup_linear as int,
                ;
            }
            self.prev_gain = gain;
            let out: i64 = fx_mul(gain, makeup_linear);
            self.scratch.set(i, out);
            i = i + 1;
        }
    }

    /// Multiply a waveform in place by the gain curve in scratch; where one
    /// is longer, the leftover entries stay untouched.
    pub fn apply_gain(&self, input: &mut Vec<i64>)
        requires
            self.wf(),
            forall|i: int| 0 <= i < old(input)@.len() ==> in_range(old(input)@[i] as int),
        ensures
            final(input)@.len() == old(input)@.len(),
            forall|i: int|
                0 <= i < old(input)@.len() && i < self.scratch@.len() ==> final(input)@[i] as int
                    == fx_mul_spec(old(input)@[i] as int, self.scratch@[i] as int),
            forall|i: int|
                self.scratch@.len() <= i < old(input)@.len() ==> final(input)@[i] == old(
                    input,
                )@[i],
            forall|i: int|
                0 <= i < final(input)@.len() ==> in_range(final(input)@[i] as int),
    {
        let n: usize = input.len();
        let s: usize = self.scratch.len();
        let m: usize = if s < n {
            s
        } else {
            n
        };
        let mut i: usize = 0;
        while i < m
            invariant
                i <= m,
                m <= n,
                m <= s,
                n == input@.len(),
                s == self.scratch@.len(),
                self.wf(),
                forall|j: int| i <= j < n ==> input@[j] == old(input)@[j],
                forall|j: int|
                    0 <= j < i ==> input@[j] as int == fx_mul_spec(
                        old(input)@[j] as int,
                        self.scratch@[j] as int,
                    ),
                forall|j: int| 0 <= j < n ==> in_range(old(input)@[j] as int),
                forall|j: int| 0 <= j < i ==> in_range(input@[j] as int),
            decreases m - i,
        {
            let v: i64 = fx_mul(input[i], self.scratch[i]);
            input.set(i, v);
            i = i + 1;
        }
    }

    /// Process one block in place: combine the monitored channels, advance the
    /// loudness envelope, derive the gain curve, apply it to every processed
    /// channel, optionally recompute the shared monitor sum from the reduced
    /// signal, and run the limiter bank. A block of the wrong shape is
    /// rejected unchanged.
    pub fn process_chunk(&mut self, input: &mut AudioChunk) -> (r: Result<(), ConfigError>)
        requires
            old(self).wf(),
            chunk_in_range(old(input)),
        ensures
            final(self).wf(),
            (r is Ok) <==> chunk_fits(old(self), old(input)),
            !chunk_fits(old(self), old(input)) ==> r == Err::<(), ConfigError>(
                ConfigError::BlockSizeMismatch,
            ) && *final(self) == *old(self) && *final(input) == *old(input),
            chunk_fits(old(self), old(input)) ==> process_chunk_post(
                *old(self),
                *final(self),
                wfs_view(old(input)),
                wfs_view(final(input)),
            ),
            chunk_in_range(final(input)),
            wfs_view(final(input)).len() == wfs_view(old(input)).len(),
    {
        let ghost c0 = *old(self);
        let ghost wfs = wfs_view(old(input));
        let n: usize = self.scratch.len();
        if input.waveforms.len() != self.channels {
            return Err(ConfigError::BlockSizeMismatch);
        }
        let cc: usize = input.waveforms.len();
        let mut ch: usize = 0;
        while ch < cc
            invariant
                ch <= cc,
                cc == wfs.len(),
                wfs == wfs_view(old(input)),
                self.wf(),
                chunk_in_range(input),
                *self == c0,
                c0 == *old(self),
                *input == *old(input),
                n == self.scratch@.len(),
                forall|j: int| 0 <= j < ch ==> #[trigger] wfs_view(input)[j].len() == n,
            decreases cc - ch,
        {
            let w: &Vec<i64> = &input.waveforms[ch];
            if w.len() != n {
                proof {
                    assert(wfs_view(input)[ch as int] == input.waveforms@[ch as int]@);
                    assert(wfs_view(old(input))[ch as int].len() != n);
                }
                return Err(ConfigError::BlockSizeMismatch);
            }
            proof {
                assert(wfs_view(input)[ch as int] == input.waveforms@[ch as int]@);
            }
            ch = ch + 1;
        }
        proof {
            assert(chunk_fits(old(self), old(input)));
        }
        self.sum_monitor_channels(input);
        proof {
            assert(self.scratch@ =~= monitor_seq(&c0, wfs, n as nat));
        }
        self.estimate_loudness();
        proof {
            assert(self.scratch@ =~= envelope_seq(&c0, wfs, n as nat));
        }
        self.calculate_linear_gain();
        proof {
            assert(self.scratch@ =~= gain_scratch_seq(&c0, wfs, n as nat));
        }
        let ghost applied = applied_wfs(&c0, wfs, n as nat);
        let m: usize = self.process_channels.len();
        let mut k: usize = 0;
        while k < m
            invariant
                k <= m,
                self.wf(),
                self.same_config(&c0),
                c0.wf(),
                c0 == *old(self),
                wfs == wfs_view(old(input)),
                chunk_in_range(old(input)),
                chunk_fits(&c0, old(input)),
                m == c0.process_channels@.len(),
                n == c0.scratch@.len(),
                n == self.scratch@.len(),
                self.scratch@ == gain_scratch_seq(&c0, wfs, n as nat),
                applied == applied_wfs(&c0, wfs, n as nat),
                self.prev_loudness as int == loud_run(
                    c0.attack as int,
                    c0.prev_loudness as int,
                    monitor_seq(&c0, wfs, n as nat),
                    n as int,
                ),
                self.prev_gain as int == gain_run(
                    c0.release as int,
                    db_to_lin_spec(c0.threshold as int),
                    c0.factor as int,
                    c0.prev_gain as int,
                    envelope_seq(&c0, wfs, n as nat),
                    n as int,
                ),
                wfs_view(input).len() == wfs.len(),
                wfs.len() == c0.channels,
                chunk_in_range(input),
                forall|c2: int| 0 <= c2 < wfs.len() ==> #[trigger] wfs_view(input)[c2].len() == n,
                forall|c2: int|
                    0 <= c2 < wfs.len() ==> #[trigger] wfs_view(input)[c2] == (if in_prefix(
                        c0.process_channels@,
                        k as int,
                        c2 as usize,
                    ) {
                        applied[c2]
                    } else {
                        wfs[c2]
                    }),
            decreases m - k,
        {
            let chx: usize = self.process_channels[k];
            proof {
                assert(c0.process_channels@[k as int] == chx);
                assert(!in_prefix(c0.process_channels@, k as int, chx));
                assert(wfs_view(input)[chx as int] == wfs[chx as int]);
                assert(wfs_view(input)[chx as int] == input.waveforms@[chx as int]@);
            }
            let w0: &Vec<i64> = &input.waveforms[chx];
            let mut w: Vec<i64> = clone_wave(w0);
            proof {
                assert(w@ == wfs[chx as int]);
                assert(forall|i: int|
                    0 <= i < w@.len() ==> in_range(#[trigger] w@[i] as int)) by {
                    assert(forall|i: int|
                        0 <= i < w@.len() ==> #[trigger] w@[i] == wfs_view(input)[chx as int][i]);
                }
            }
            self.apply_gain(&mut w);
            proof {
                assert(c0.process_channels@.contains(chx)) by {
                    assert(c0.process_channels@[k as int] == chx);
                }
                assert(w@ =~= applied[chx as int]);
            }
            let ghost pre_view = wfs_view(input);
            let ghost w_snap = w@;
            input.waveforms.set(chx, w);
            proof {
                assert forall|c2: int| 0 <= c2 < wfs.len() implies #[trigger] wfs_view(input)[c2]
                    == (if in_prefix(c0.process_channels@, k + 1, c2 as usize) {
                    applied[c2]
                } else {
                    wfs[c2]
                }) by {
                    if c2 == chx as int {
                        assert(wfs_view(input)[c2] == w_snap);
                        assert(in_prefix(c0.process_channels@, k + 1, chx)) by {
                            assert(0 <= k < k + 1 && c0.process_channels@[k as int] == chx);
                        }
                    } else {
                        assert(wfs_view(input)[c2] == pre_view[c2]);
                        if in_prefix(c0.process_channels@, k + 1, c2 as usize) {
                            let j = choose|j: int|
                                0 <= j < k + 1 && c0.process_channels@[j] == c2 as usize;
                            assert(j != k);
                            assert(in_prefix(c0.process_channels@, k as int, c2 as usize));
                        }
                        if in_prefix(c0.process_channels@, k as int, c2 as usize) {
                            let j = choose|j: int|
                                0 <= j < k && c0.process_channels@[j] == c2 as usize;
                            assert(0 <= j < k + 1 && c0.process_channels@[j] == c2 as usize);
                            assert(in_prefix(c0.process_channels@, k + 1, c2 as usize));
                        }
                    }
                }
                assert forall|c2: int| 0 <= c2 < wfs.len() implies #[trigger] wfs_view(
                    input,
                )[c2].len() == n by {
                    if c2 == chx as int {
                        assert(wfs_view(input)[c2] == w_snap);
                    } else {
                        assert(wfs_view(input)[c2] == pre_view[c2]);
                    }
                }
                assert(chunk_in_range(input)) by {
                    assert forall|c2: int, i: int|
                        0 <= c2 < wfs_view(input).len() && 0 <= i < wfs_view(input)[c2].len()
                        implies in_range(#[trigger] wfs_view(input)[c2][i] as int) by {
                        if c2 == chx as int {
                            assert(wfs_view(input)[c2] == w_snap);
                        } else {
                            assert(wfs_view(input)[c2] == pre_view[c2]);
                            assert(in_range(pre_view[c2][i] as int));
                        }
                    }
                }
            }
            k = k + 1;
        }
        proof {
            assert(forall|c2: int|
                0 <= c2 < wfs.len() && #[trigger] c0.process_channels@.contains(c2 as usize)
                    ==> in_prefix(c0.process_channels@, m as int, c2 as usize));
            assert(forall|c2: int|
                0 <= c2 < wfs.len() && !(#[trigger] c0.process_channels@.contains(c2 as usize))
                    ==> !in_prefix(c0.process_channels@, m as int, c2 as usize));
            assert(wfs_view(input) =~= applied);
        }
        if self.clip_use_monitor {
            self.sum_monitor_channels(input);
        }
        proof {
            assert(self.scratch@ =~= limiter_scratch_seq(&c0, wfs, n as nat));
        }
        let mut bank_opt: Option<Vec<Limiter>> = None;
        core::mem::swap(&mut bank_opt, &mut self.limiters);
        match bank_opt {
            None => {
                proof {
                    assert(c0.limiters is None);
                    assert(process_chunk_post(c0, *self, wfs, wfs_view(input)));
                }
                Ok(())
            },
            Some(bank) => {
                let ghost l0seq = bank@;
                let mut bank: Vec<Limiter> = bank;
                let mut done: Vec<Limiter> = Vec::new();
                let mut k: usize = 0;
                while k < m
                    invariant
                        k <= m,
                        self.wf(),
                        self.limiters is None,
                        self.same_knobs(&c0),
                        c0.wf(),
                        c0 == *old(self),
                        wfs == wfs_view(old(input)),
                        c0.limiters matches Some(lv) && lv@ == l0seq,
                        bank@ == l0seq.skip(k as int),
                        done@.len() == k,
                        l0seq.len() == m,
                        forall|j: int| 0 <= j < l0seq.len() ==> (#[trigger] l0seq[j]).wf(),
                        forall|j: int| 0 <= j < k ==> (#[trigger] done@[j]).wf(),
                        m == c0.process_channels@.len(),
                        n == c0.scratch@.len(),
                        n == self.scratch@.len(),
                        self.scratch@ == limiter_scratch_seq(&c0, wfs, n as nat),
                        applied == applied_wfs(&c0, wfs, n as nat),
                        self.prev_loudness as int == loud_run(
                            c0.attack as int,
                            c0.prev_loudness as int,
                            monitor_seq(&c0, wfs, n as nat),
                            n as int,
                        ),
                        self.prev_gain as int == gain_run(
                            c0.release as int,
                            db_to_lin_spec(c0.threshold as int),
                            c0.factor as int,
                            c0.prev_gain as int,
                            envelope_seq(&c0, wfs, n as nat),
                            n as int,
                        ),
                        wfs_view(input).len() == wfs.len(),
                        wfs.len() == c0.channels,
                        chunk_in_range(input),
                        forall|c2: int|
                            0 <= c2 < wfs.len() ==> #[trigger] wfs_view(input)[c2].len() == n,
                        forall|c2: int|
                            0 <= c2 < wfs.len() && !c0.process_channels@.contains(c2 as usize)
                                ==> #[trigger] wfs_view(input)[c2] == wfs[c2],
                        forall|c2: int|
                            0 <= c2 < wfs.len() && c0.process_channels@.contains(c2 as usize)
                                && !in_prefix(c0.process_channels@, k as int, c2 as usize)
                                ==> #[trigger] wfs_view(input)[c2] == applied[c2],
                        forall|j: int|
                            0 <= j < k ==> crate::limiter::lim_processed(
                                #[trigger] l0seq[j],
                                done@[j],
                                if c0.clip_use_monitor {
                                    limiter_scratch_seq(&c0, wfs, n as nat)
                                } else {
                                    applied[c0.process_channels@[j] as int]
                                },
                                applied[c0.process_channels@[j] as int],
                                wfs_view(input)[c0.process_channels@[j] as int],
                            ),
                    decreases m - k,
                {
                    let mut lim: Limiter = bank.remove(0);
                    proof {
                        assert(lim == l0seq[k as int]);
                        assert(bank@ =~= l0seq.skip(k + 1));
                        assert(lim.wf());
                    }
                    let chx: usize = self.process_channels[k];
                    proof {
                        assert(c0.process_channels@[k as int] == chx);
                        assert(c0.process_channels@.contains(chx)) by {
                            assert(c0.process_channels@[k as int] == chx);
                        }
                        assert(!in_prefix(c0.process_channels@, k as int, chx));
                        assert(wfs_view(input)[chx as int] == applied[chx as int]);
                        assert(wfs_view(input)[chx as int] == input.waveforms@[chx as int]@);
                    }
                    let w0: &Vec<i64> = &input.waveforms[chx];
                    let mut w: Vec<i64> = clone_wave(w0);
                    proof {
                        assert(w@ == applied[chx as int]);
                        assert(forall|i: int|
                            0 <= i < w@.len() ==> in_range(#[trigger] w@[i] as int)) by {
                            assert(forall|i: int|
                                0 <= i < w@.len() ==> #[trigger] w@[i] == wfs_view(
                                    input,
                                )[chx as int][i]);
                        }
                    }
                    if self.clip_use_monitor {
                        lim.process_limiter_with_monitor(&self.scratch, &mut w);
                    } else {
                        lim.process_limiter(&mut w);
                    }
                    let ghost pre_view = wfs_view(input);
                    let ghost w_snap = w@;
                    let ghost lim_snap = lim;
                    input.waveforms.set(chx, w);
                    done.push(lim);
                    proof {
                        assert forall|c2: int| 0 <= c2 < wfs.len() implies #[trigger] wfs_view(
                            input,
                        )[c2].len() == n by {
                            if c2 == chx as int {
                                assert(wfs_view(input)[c2] == w_snap);
                            } else {
                                assert(wfs_view(input)[c2] == pre_view[c2]);
                            }
                        }
                        assert(chunk_in_range(input)) by {
                            assert forall|c2: int, i: int|
                                0 <= c2 < wfs_view(input).len() && 0 <= i < wfs_view(
                                    input,
                                )[c2].len() implies in_range(
                                #[trigger] wfs_view(input)[c2][i] as int) by {
                                if c2 == chx as int {
                                    assert(wfs_view(input)[c2] == w_snap);
                                } else {
                                    assert(wfs_view(input)[c2] == pre_view[c2]);
                                    assert(in_range(pre_view[c2][i] as int));
                                }
                            }
                        }
                        assert forall|c2: int|
                            0 <= c2 < wfs.len() && !c0.process_channels@.contains(c2 as usize)
                            implies #[trigger] wfs_view(input)[c2] == wfs[c2] by {
                            if c2 != chx as int {
                                assert(wfs_view(input)[c2] == pre_view[c2]);
                            }
                        }
                        assert forall|c2: int|
                            0 <= c2 < wfs.len() && c0.process_channels@.contains(c2 as usize)
                                && !in_prefix(c0.process_channels@, k + 1, c2 as usize)
                            implies #[trigger] wfs_view(input)[c2] == applied[c2] by {
                            if c2 == chx as int {
                                assert(0 <= k < k + 1 && c0.process_channels@[k as int] == chx);
                                assert(in_prefix(c0.process_channels@, k + 1, c2 as usize));
                            } else {
                                assert(wfs_view(input)[c2] == pre_view[c2]);
                                if in_prefix(c0.process_channels@, k as int, c2 as usize) {
                                    let j = choose|j: int|
                                        0 <= j < k && c0.process_channels@[j] == c2 as usize;
                                    assert(0 <= j < k + 1);
                                    assert(in_prefix(c0.process_channels@, k + 1, c2 as usize));
                                }
                            }
                        }
                        assert forall|j: int| 0 <= j < k + 1 implies crate::limiter::lim_processed(
                            #[trigger] l0seq[j],
                            done@[j],
                            if c0.clip_use_monitor {
                                limiter_scratch_seq(&c0, wfs, n as nat)
                            } else {
                                applied[c0.process_channels@[j] as int]
                            },
                            applied[c0.process_channels@[j] as int],
                            wfs_view(input)[c0.process_channels@[j] as int],
                        ) by {
                            if j < k {
                                let cj = c0.process_channels@[j];
                                assert(cj != chx);
                                assert(wfs_view(input)[cj as int] == pre_view[cj as int]);
                                assert(done@[j] == done@.drop_last()[j]);
                            } else {
                                assert(done@[j] == lim_snap);
                                assert(wfs_view(input)[chx as int] == w_snap);
                            }
                        }
                    }
                    k = k + 1;
                }
                self.limiters = Some(done);
                proof {
                    assert(process_chunk_post(c0, *self, wfs, wfs_view(input)));
                }
                Ok(())
            },
        }
    }
}

/// The monitor-sum sequence of a block.
pub open spec fn monitor_seq(c: &Compressor, wfs: Seq<Seq<i64>>, n: nat) -> Seq<i64> {
    Seq::new(n, |i: int| monitor_sum_spec(wfs, c.monitor_channels@, c.monitor_use_power, i) as i64)
}

/// The loudness envelope sequence of a block.
pub open spec fn envelope_seq(c: &Compressor, wfs: Seq<Seq<i64>>, n: nat) -> Seq<i64> {
    Seq::new(
        n,
        |i: int|
            fx_sqrt_spec(
                loud_run(c.attack as int, c.prev_loudness as int, monitor_seq(c, wfs, n), i + 1),
            ) as i64,
    )
}

/// The gain-times-makeup sequence of a block.
pub open spec fn gain_scratch_seq(c: &Compressor, wfs: Seq<Seq<i64>>, n: nat) -> Seq<i64> {
    Seq::new(
        n,
        |i: int|
            fx_mul_spec(
                gain_run(
                    c.release as int,
                    db_to_lin_spec(c.threshold as int),
                    c.factor as int,
                    c.prev_gain as int,
                    envelope_seq(c, wfs, n),
                    i + 1,
                ),
                db_to_lin_spec(c.makeup_gain as int),
            ) as i64,
    )
}

/// The block after the gain stage: processed channels are multiplied by the
/// shared gain curve, the rest pass through.
pub open spec fn applied_wfs(c: &Compressor, wfs: Seq<Seq<i64>>, n: nat) -> Seq<Seq<i64>> {
    Seq::new(
        wfs.len(),
        |ch: int|
            if c.process_channels@.contains(ch as usize) {
                Seq::new(
                    wfs[ch].len(),
                    |i: int|
                        fx_mul_spec(wfs[ch][i] as int, gain_scratch_seq(c, wfs, n)[i] as int) as i64,
                )
            } else {
                wfs[ch]
            },
    )
}

/// The scratch contents at the limiting stage: the monitor sum of the
/// gain-reduced block when the limiters share it, else the gain curve itself.
pub open spec fn limiter_scratch_seq(c: &Compressor, wfs: Seq<Seq<i64>>, n: nat) -> Seq<i64> {
    if c.clip_use_monitor {
        Seq::new(
            n,
            |i: int|
                monitor_sum_spec(
                    applied_wfs(c, wfs, n),
                    c.monitor_channels@,
                    c.monitor_use_power,
                    i,
                ) as i64,
        )
    } else {
        gain_scratch_seq(c, wfs, n)
    }
}

/// Some listed process channel among the first `k` is `c`.
pub open spec fn in_prefix(procs: Seq<usize>, k: int, c: usize) -> bool {
    exists|j: int| 0 <= j < k && procs[j] == c
}

/// Full account of one processed block: the envelope and gain state advance
/// over the monitor sum, the gain curve lands on every processed channel, and
/// each limiter of the bank runs on its channel with its detector signal.
pub open spec fn process_chunk_post(
    c0: Compressor,
    c1: Compressor,
    wfs: Seq<Seq<i64>>,
    out: Seq<Seq<i64>>,
) -> bool {
    let n = c0.scratch@.len();
    let applied = applied_wfs(&c0, wfs, n);
    &&& c1.name == c0.name
    &&& c1.channels == c0.channels
    &&& c1.monitor_channels == c0.monitor_channels
    &&& c1.process_channels == c0.process_channels
    &&& c1.attack == c0.attack
    &&& c1.release == c0.release
    &&& c1.threshold == c0.threshold
    &&& c1.factor == c0.factor
    &&& c1.makeup_gain == c0.makeup_gain
    &&& c1.samplerate == c0.samplerate
    &&& c1.clip_use_monitor == c0.clip_use_monitor
    &&& c1.monitor_use_power == c0.monitor_use_power
    &&& c1.prev_loudness as int == loud_run(
        c0.attack as int,
        c0.prev_loudness as int,
        monitor_seq(&c0, wfs, n),
        n as int,
    )
    &&& c1.prev_gain as int == gain_run(
        c0.release as int,
        db_to_lin_spec(c0.threshold as int),
        c0.factor as int,
        c0.prev_gain as int,
        envelope_seq(&c0, wfs, n),
        n as int,
    )
    &&& c1.scratch@ == limiter_scratch_seq(&c0, wfs, n)
    &&& out.len() == wfs.len()
    &&& (forall|ch: int|
        0 <= ch < wfs.len() && !c0.process_channels@.contains(ch as usize)
            ==> out[ch] == wfs[ch])
    &&& match (c0.limiters, c1.limiters) {
        (Option::None, Option::None) => forall|ch: int|
            0 <= ch < wfs.len() && c0.process_channels@.contains(ch as usize) ==> out[ch]
                == applied[ch],
        (Option::Some(l0), Option::Some(l1)) => {
            &&& l1@.len() == l0@.len()
            &&& l0@.len() == c0.process_channels@.len()
            &&& (forall|k: int|
                0 <= k < l0@.len() ==> crate::limiter::lim_processed(
                    #[trigger] l0@[k],
                    l1@[k],
                    if c0.clip_use_monitor {
                        limiter_scratch_seq(&c0, wfs, n)
                    } else {
                        applied[c0.process_channels@[k] as int]
                    },
                    applied[c0.process_channels@[k] as int],
                    out[c0.process_channels@[k] as int],
                ))
        },
        _ => false,
    }
}

/// An owned copy of one waveform.
fn clone_wave(v: &Vec<i64>) -> (r: Vec<i64>)
    ensures
        r@ == v@,
{
    let mut r: Vec<i64> = Vec::new();
    let mut i: usize = 0;
    while i < v.len()
        invariant
            i <= v@.len(),
            r@ == v@.take(i as int),
        decreases v@.len() - i,
    {
        r.push(v[i]);
        proof {
            assert(r@ =~= v@.take(i + 1));
        }
        i = i + 1;
    }
    proof {
        assert(v@.take(v@.len() as int) =~= v@);
    }
    r
}

/// Check a compressor configuration: the time constants must be positive and
/// every listed channel index must be below the channel count. The result
/// names the first rule broken, scanning attack, release, then the monitor
/// and process lists in order.
pub fn validate_compressor(config: &CompressorParameters) -> (r: Result<(), ConfigError>)
    ensures
        r == validate_compressor_spec(config),
        r is Ok <==> config.attack >= 1 && config.release >= 1 && first_oob(
            config.monitor_list(),
            config.channels,
        ) is None && first_oob(config.process_list(), config.channels) is None,
{
    let channels: usize = config.channels;
    if config.attack <= 0 {
        return Err(ConfigError::NonPositiveAttack);
    }
    if config.release <= 0 {
        return Err(ConfigError::NonPositiveRelease);
    }
    let max: usize = if channels == 0 {
        0
    } else {
        channels - 1
    };
    let mons: Vec<usize> = config.monitor_channels();
    match find_oob_channel(&mons, channels) {
        Some(ch) => {
            return Err(ConfigError::InvalidMonitorChannel { channel: ch, max });
        },
        None => {},
    }
    let procs: Vec<usize> = config.process_channels();
    match find_oob_channel(&procs, channels) {
        Some(ch) => {
            return Err(ConfigError::InvalidProcessChannel { channel: ch, max });
        },
        None => {},
    }
    Ok(())
}

/// The exact outcome of `validate_compressor`.
pub open spec fn validate_compressor_spec(config: &CompressorParameters) -> Result<
    (),
    ConfigError,
> {
    let max = if config.channels == 0 {
        0usize
    } else {
        (config.channels - 1) as usize
    };
    if config.attack <= 0 {
        Err(ConfigError::NonPositiveAttack)
    } else if config.release <= 0 {
        Err(ConfigError::NonPositiveRelease)
    } else if first_oob(config.monitor_list(), config.channels) is Some {
        Err(
            ConfigError::InvalidMonitorChannel {
                channel: first_oob(config.monitor_list(), config.channels)->0,
                max,
            },
        )
    } else if first_oob(config.process_list(), config.channels) is Some {
        Err(
            ConfigError::InvalidProcessChannel {
                channel: first_oob(config.process_list(), config.channels)->0,
                max,
            },
        )
    } else {
        Ok(())
    }
}

} // verus!
