//! Configuration values for the compressor and limiter stages.
//!
//! Real-valued settings are fixed-point ticks (see `fixed::SCALE`): times in
//! seconds, levels in decibels, the compression factor as a plain ratio.

use vstd::prelude::*;

verus! {

/// Parameters of one compressor stage.
pub struct CompressorParameters {
    /// Total channel count of the blocks this stage will process.
    pub channels: usize,
    /// Channels combined into the loudness detector signal; `None` selects all.
    pub monitor_channels: Option<Vec<usize>>,
    /// Channels the gain curve is applied to; `None` selects all.
    pub process_channels: Option<Vec<usize>>,
    /// Attack time constant, seconds in ticks.
    pub attack: i64,
    /// Release time constant, seconds in ticks.
    pub release: i64,
    /// Threshold, dB in ticks.
    pub threshold: i64,
    /// Compression ratio in ticks; at or above `LIMITER_MODE_FACTOR` the gain
    /// curve becomes a brick-wall limiter.
    pub factor: i64,
    /// Makeup gain, dB in ticks; `None` means none.
    pub makeup_gain: Option<i64>,
    /// Clip ceiling, dB in ticks; its presence enables a limiter bank.
    pub clip_limit: Option<i64>,
    /// Soft (cubic) rather than hard clipping in the limiter bank.
    pub soft_clip: Option<bool>,
    /// Lookahead of the limiter bank, in samples.
    pub clip_lookahead: Option<usize>,
    /// Drive every limiter from the recomputed monitor sum.
    pub clip_use_monitor: Option<bool>,
    /// Combine monitor channels as root-sum-of-squares rather than a plain sum.
    pub monitor_use_power: Option<bool>,
}

/// Parameters of one limiter.
pub struct LimiterParameters {
    /// Clip ceiling, dB in ticks.
    pub clip_limit: i64,
    /// Soft (cubic) rather than hard clipping.
    pub soft_clip: Option<bool>,
    /// Lookahead in samples; zero selects plain waveshaping.
    pub lookahead: Option<usize>,
}

/// A configuration the validator rejected.
#[derive(Debug)]
pub enum ConfigError {
    /// The attack time constant was zero or negative.
    NonPositiveAttack,
    /// The release time constant was zero or negative.
    NonPositiveRelease,
    /// A monitor channel index was not below the channel count; `max` is the
    /// largest valid index.
    InvalidMonitorChannel { channel: usize, max: usize },
    /// A process channel index was not below the channel count; `max` is the
    /// largest valid index.
    InvalidProcessChannel { channel: usize, max: usize },
    /// A block did not have the configured channel count and block size.
    BlockSizeMismatch,
}

impl ConfigError {
    /// A human-readable description of the failed rule.
    pub fn message(&self) -> (r: &'static str)
        ensures
            self is NonPositiveAttack ==> r@ == "Attack value must be larger than zero."@,
            self is NonPositiveRelease ==> r@ == "Release value must be larger than zero."@,
            self is InvalidMonitorChannel ==> r@ == "Invalid monitor channel, above max valid index."@,
            self is InvalidProcessChannel ==> r@ == "Invalid channel to process, above max valid index."@,
            self is BlockSizeMismatch ==> r@ == "Block does not match the configured channel count and block size."@,
    {
        match self {
            ConfigError::NonPositiveAttack => "Attack value must be larger than zero.",
            ConfigError::NonPositiveRelease => "Release value must be larger than zero.",
            ConfigError::InvalidMonitorChannel { .. } => "Invalid monitor channel, above max valid index.",
            ConfigError::InvalidProcessChannel { .. } => "Invalid channel to process, above max valid index.",
            ConfigError::BlockSizeMismatch => "Block does not match the configured channel count and block size.",
        }
    }
}

impl CompressorParameters {
    /// The explicitly listed monitor channels; empty when unspecified.
    pub open spec fn monitor_list(&self) -> Seq<usize> {
        match self.monitor_channels {
            Some(v) => v@,
            None => Seq::empty(),
        }
    }

    /// The explicitly listed process channels; empty when unspecified.
    pub open spec fn process_list(&self) -> Seq<usize> {
        match self.process_channels {
            Some(v) => v@,
            None => Seq::empty(),
        }
    }

    pub open spec fn makeup_gain_or_default(&self) -> i64 {
        match self.makeup_gain {
            Some(g) => g,
            None => 0,
        }
    }

    pub open spec fn soft_clip_or_default(&self) -> bool {
        match self.soft_clip {
            Some(b) => b,
            None => false,
        }
    }

    pub open spec fn clip_lookahead_or_default(&self) -> usize {
        match self.clip_lookahead {
            Some(n) => n,
            None => 0,
        }
    }

    pub open spec fn clip_use_monitor_or_default(&self) -> bool {
        match self.clip_use_monitor {
            Some(b) => b,
            None => false,
        }
    }

    pub open spec fn monitor_use_power_or_default(&self) -> bool {
        match self.monitor_use_power {
            Some(b) => b,
            None => false,
        }
    }

    /// The listed monitor channels, or an empty list when unspecified.
    pub fn monitor_channels(&self) -> (r: Vec<usize>)
        ensures
            r@ == self.monitor_list(),
    {
        match &self.monitor_channels {
            Some(v) => v.clone(),
            None => Vec::new(),
        }
    }

    /// The listed process channels, or an empty list when unspecified.
    pub fn process_channels(&self) -> (r: Vec<usize>)
        ensures
            r@ == self.process_list(),
    {
        match &self.process_channels {
            Some(v) => v.clone(),
            None => Vec::new(),
        }
    }

    /// Makeup gain in dB ticks, zero when unspecified.
    pub fn makeup_gain(&self) -> (r: i64)
        ensures
            r == self.makeup_gain_or_default(),
    {
        match self.makeup_gain {
            Some(g) => g,
            None => 0,
        }
    }
}

impl LimiterParameters {
    pub open spec fn soft_clip_or_default(&self) -> bool {
        match self.soft_clip {
            Some(b) => b,
            None => false,
        }
    }

    pub open spec fn lookahead_or_default(&self) -> usize {
        match self.lookahead {
            Some(n) => n,
            None => 0,
        }
    }

    /// Soft-clip flag, false when unspecified.
    pub fn soft_clip(&self) -> (r: bool)
        ensures
            r == self.soft_clip_or_default(),
    {
        match self.soft_clip {
            Some(b) => b,
            None => false,
        }
    }

    /// Lookahead in samples, zero when unspecified.
    pub fn lookahead(&self) -> (r: usize)
        ensures
            r == self.lookahead_or_default(),
    {
        match self.lookahead {
            Some(n) => n,
            None => 0,
        }
    }
}

/// The first listed channel index at or above the channel count, scanning
/// from position `k`.
pub open spec fn first_oob_from(chs: Seq<usize>, channels: usize, k: int) -> Option<usize>
    decreases chs.len() - k,
{
    if k < 0 || k >= chs.len() {
        None
    } else if chs[k] >= channels {
        Some(chs[k])
    } else {
        first_oob_from(chs, channels, k + 1)
    }
}

/// The first listed channel index at or above the channel count.
pub open spec fn first_oob(chs: Seq<usize>, channels: usize) -> Option<usize> {
    first_oob_from(chs, channels, 0)
}

/// Scan a channel list for an index at or above the channel count.
pub fn find_oob_channel(chs: &Vec<usize>, channels: usize) -> (r: Option<usize>)
    ensures
        r == first_oob(chs@, channels),
{
    let mut i: usize = 0;
    while i < chs.len()
        invariant
            i <= chs.len(),
            first_oob_from(chs@, channels, i as int) == first_oob(chs@, channels),
        decreases chs.len() - i,
    {
        if chs[i] >= channels {
            return Some(chs[i]);
        }
        i = i + 1;
    }
    None
}

} // verus!
