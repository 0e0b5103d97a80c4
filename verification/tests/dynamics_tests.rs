use dynamics::compressor::{validate_compressor, AudioChunk, Compressor};
use dynamics::config::{CompressorParameters, ConfigError, LimiterParameters};
use dynamics::delay::DelayLine;
use dynamics::fixed::{db_to_lin, exp_coeff, fx_sqrt, AMP_MAX, SCALE};
use dynamics::limiter::{calculate_lookahead_parameters, validate_config, Limiter};

const S: i64 = SCALE;

fn base_config(channels: usize) -> CompressorParameters {
    CompressorParameters {
        channels,
        monitor_channels: None,
        process_channels: None,
        attack: 10_000,          // 0.01 s
        release: 100_000,        // 0.1 s
        threshold: -20 * S,      // -20 dB
        factor: 4 * S,           // ratio 4
        makeup_gain: None,
        clip_limit: None,
        soft_clip: None,
        clip_lookahead: None,
        clip_use_monitor: None,
        monitor_use_power: None,
    }
}

fn chunk_of(waves: Vec<Vec<i64>>) -> AudioChunk {
    AudioChunk { waveforms: waves }
}

#[test]
fn validation_rejects_zero_attack() {
    let mut c = base_config(2);
    c.attack = 0;
    let r = validate_compressor(&c);
    match r {
        Err(ConfigError::NonPositiveAttack) => {}
        _ => panic!("zero attack must fail as a non-positive attack"),
    }
    assert_eq!(
        validate_compressor(&c).unwrap_err().message(),
        "Attack value must be larger than zero."
    );
}

#[test]
fn validation_rejects_zero_release() {
    let mut c = base_config(2);
    c.release = 0;
    match validate_compressor(&c) {
        Err(ConfigError::NonPositiveRelease) => {}
        _ => panic!("zero release must fail as a non-positive release"),
    }
}

#[test]
fn validation_rejects_monitor_channel_at_count() {
    let mut c = base_config(2);
    c.monitor_channels = Some(vec![0, 2]);
    match validate_compressor(&c) {
        Err(ConfigError::InvalidMonitorChannel { channel, max }) => {
            assert_eq!(channel, 2);
            assert_eq!(max, 1);
        }
        _ => panic!("monitor channel equal to the channel count must fail"),
    }
}

#[test]
fn validation_rejects_process_channel_at_count() {
    let mut c = base_config(2);
    c.process_channels = Some(vec![2]);
    match validate_compressor(&c) {
        Err(ConfigError::InvalidProcessChannel { channel, max }) => {
            assert_eq!(channel, 2);
            assert_eq!(max, 1);
        }
        _ => panic!("process channel equal to the channel count must fail"),
    }
}

#[test]
fn validation_accepts_good_config() {
    let mut c = base_config(2);
    c.monitor_channels = Some(vec![0, 1]);
    c.process_channels = Some(vec![1]);
    assert!(validate_compressor(&c).is_ok());
}

#[test]
fn limiter_validation_accepts_anything() {
    let c = LimiterParameters { clip_limit: -7 * S, soft_clip: Some(true), lookahead: Some(9) };
    assert!(validate_config(&c).is_ok());
}

#[test]
fn db_conversions_are_exact_on_decades() {
    assert_eq!(db_to_lin(0), S);
    assert_eq!(db_to_lin(-20 * S), S / 10);
    assert_eq!(db_to_lin(20 * S), 10 * S);
    assert_eq!(db_to_lin(-120 * S), 1);
}

#[test]
fn fixed_sqrt_is_exact_on_squares() {
    assert_eq!(fx_sqrt(4 * S), 2 * S);
    assert_eq!(fx_sqrt(0), 0);
    assert_eq!(fx_sqrt(AMP_MAX), 1000 * S);
}

#[test]
fn exp_coefficient_matches_float_value() {
    // exp(-1 / (48000 * 0.01)) = 0.99791884...
    let c = exp_coeff(48000, 10_000);
    let expect = (-1.0_f64 / 480.0).exp();
    let got = c as f64 / S as f64;
    assert!((got - expect).abs() < 2e-4, "coefficient {} vs {}", got, expect);
}

#[test]
fn hard_clip_is_exact_clamp() {
    let conf = LimiterParameters { clip_limit: 0, soft_clip: Some(false), lookahead: None };
    let lim = Limiter::from_config("Limiter", 48000, conf);
    assert_eq!(lim.clip_limit, S);
    let mut wave = vec![2 * S, -2 * S, S / 2, S, -S, 0];
    lim.apply_clip(&mut wave);
    assert_eq!(wave, vec![S, -S, S / 2, S, -S, 0]);
}

#[test]
fn soft_clip_at_the_limit() {
    let conf = LimiterParameters { clip_limit: 0, soft_clip: Some(true), lookahead: None };
    let lim = Limiter::from_config("Limiter", 48000, conf);
    let mut wave = vec![S];
    lim.apply_clip(&mut wave);
    // clip_limit * (1 - 1/6.75) = 0.8518518...
    assert_eq!(wave[0], S - 148_148);
    let got = wave[0] as f64 / S as f64;
    assert!((got - (1.0 - 1.0 / 6.75)).abs() < 1e-5);
}

#[test]
fn monitor_sum_of_two_channels_is_exact() {
    let mut conf = base_config(2);
    conf.monitor_channels = Some(vec![0, 1]);
    conf.threshold = 0;
    let mut comp = Compressor::from_config("comp", conf, 48000, 4);
    let chunk = chunk_of(vec![vec![300_000; 4], vec![400_000; 4]]);
    comp.sum_monitor_channels(&chunk);
    assert_eq!(comp.scratch, vec![700_000; 4]);
}

#[test]
fn power_sum_is_root_sum_of_squares() {
    let mut conf = base_config(2);
    conf.monitor_channels = Some(vec![0, 1]);
    conf.monitor_use_power = Some(true);
    let mut comp = Compressor::from_config("comp", conf, 48000, 2);
    // 0.3^2 + 0.4^2 = 0.25, sqrt = 0.5
    let chunk = chunk_of(vec![vec![300_000; 2], vec![400_000; 2]]);
    comp.sum_monitor_channels(&chunk);
    let got = comp.scratch[0] as f64 / S as f64;
    assert!((got - 0.5).abs() < 1e-5, "rms {}", got);
}

#[test]
fn identity_below_threshold() {
    let mut conf = base_config(1);
    conf.threshold = 0;
    conf.factor = S; // ratio 1: compression disabled
    let mut comp = Compressor::from_config("comp", conf, 48000, 4);
    let mut chunk = chunk_of(vec![vec![500_000, -250_000, 100_000, 0]]);
    let r = comp.process_chunk(&mut chunk);
    assert!(r.is_ok());
    assert_eq!(chunk.waveforms[0], vec![500_000, -250_000, 100_000, 0]);
    assert_eq!(comp.prev_gain, S);
}

#[test]
fn settles_to_target_ratio() {
    // threshold -20 dB, ratio 4, input -10 dB: output settles near
    // threshold + (input - threshold) / ratio = -17.5 dB = 0.1333521...
    let conf = base_config(1);
    let mut comp = Compressor::from_config("comp", conf, 48000, 480);
    let level: i64 = 316_228; // 10^(-0.5)
    let mut last: i64 = 0;
    for _ in 0..300 {
        let mut chunk = chunk_of(vec![vec![level; 480]]);
        comp.process_chunk(&mut chunk).unwrap();
        last = chunk.waveforms[0][479];
    }
    let got = last as f64 / S as f64;
    let expect = 10.0_f64.powf(-17.5 / 20.0);
    assert!(
        (got - expect).abs() < 0.01 * expect + 0.002,
        "settled level {} vs {}",
        got,
        expect
    );
}

#[test]
fn silence_recovers_unity_gain() {
    let conf = base_config(1);
    let mut comp = Compressor::from_config("comp", conf, 48000, 480);
    // Drive the gain well below one with a loud signal.
    for _ in 0..50 {
        let mut chunk = chunk_of(vec![vec![800_000; 480]]);
        comp.process_chunk(&mut chunk).unwrap();
    }
    assert!(comp.prev_gain < S - 100_000);
    // Then feed silence for two seconds.
    for _ in 0..200 {
        let mut chunk = chunk_of(vec![vec![0; 480]]);
        comp.process_chunk(&mut chunk).unwrap();
    }
    assert_eq!(comp.prev_loudness, 0);
    // The release ramp is computed in ticks, so the gain settles within a
    // small rounding floor of exact unity.
    assert!(comp.prev_gain >= S - 5_000, "gain {}", comp.prev_gain);
    assert!(comp.prev_gain <= S);
}

#[test]
fn lookahead_bounds_overshoot() {
    let n: usize = 16;
    let conf = LimiterParameters { clip_limit: 0, soft_clip: None, lookahead: Some(n) };
    let mut lim = Limiter::from_config("Limiter", 48000, conf);
    // A sustained burst at twice the ceiling.
    let mut wave = vec![2 * S; 256];
    lim.process_waveform(&mut wave).unwrap();
    // The burst leaves the delay n samples late, already reduced: by then the
    // envelope has charged for n + 1 samples, so no sample passes the ceiling
    // by more than the design's one-percent overshoot allowance plus margin.
    for (i, v) in wave.iter().enumerate() {
        assert!(v.abs() <= S + S / 50, "sample {} overshoots: {}", i, v);
    }
    assert!(wave[n] > S / 2, "the burst should come out near the ceiling");
    // The first n output samples predate the burst (delay-line silence), yet
    // gain reduction starts with the detector, n samples ahead of the output.
    let conf2 = LimiterParameters { clip_limit: 0, soft_clip: None, lookahead: Some(n) };
    let mut lim2 = Limiter::from_config("Limiter", 48000, conf2);
    let mut probe = vec![0i64; 256];
    probe[0] = 2 * S;
    let gains = lim2.calculate_gain(&probe);
    // The detector sees the impulse n samples before it exits the delay, so
    // the gain is already reduced within the lookahead window.
    assert!(
        gains.iter().take(n).any(|g| *g < S),
        "reduction must begin inside the lookahead window"
    );
    assert!(gains[n - 1] < S, "the gain must be reduced before the impulse exits");
}

#[test]
fn moving_max_window_holds_the_peak() {
    let conf = LimiterParameters { clip_limit: 0, soft_clip: None, lookahead: Some(3) };
    let mut lim = Limiter::from_config("Limiter", 48000, conf);
    let gains = lim.calculate_gain(&vec![3 * S, 0, 0, 0]);
    // While the window still holds the transient the envelope keeps rising,
    // so the gains keep falling.
    assert!(gains[1] < gains[0]);
    assert!(gains[2] < gains[1]);
    assert!(lim.prev_peak > 0);
}

#[test]
fn delay_line_shifts_and_carries() {
    let mut d = DelayLine::new(3);
    let mut w = vec![1, 2, 3, 4, 5];
    d.process_waveform(&mut w);
    assert_eq!(w, vec![0, 0, 0, 1, 2]);
    let mut w2 = vec![6, 7, 8, 9, 10];
    d.process_waveform(&mut w2);
    assert_eq!(w2, vec![3, 4, 5, 6, 7]);
}

#[test]
fn lookahead_parameters_follow_the_design() {
    // alpha = 1 - 10^(log10((1.01-1)/1.01) / (lookahead+1)), beta = (1-alpha)^(lookahead+1)
    let (alpha, beta, delay) = calculate_lookahead_parameters(16, 48000);
    let a = alpha as f64 / S as f64;
    let b = beta as f64 / S as f64;
    let expect_a = 1.0 - 10.0_f64.powf((0.01_f64 / 1.01).log10() / 17.0);
    let expect_b = (1.0 - expect_a).powi(17);
    assert!((a - expect_a).abs() < 2e-3, "alpha {} vs {}", a, expect_a);
    assert!((b - expect_b).abs() < 2e-3, "beta {} vs {}", b, expect_b);
    assert_eq!(delay.buf.len(), 16);
}

#[test]
fn update_resets_compressor_state() {
    let mut conf = base_config(1);
    conf.clip_limit = Some(0);
    conf.clip_lookahead = Some(4);
    let mut comp = Compressor::from_config("comp", conf, 48000, 480);
    for _ in 0..50 {
        let mut chunk = chunk_of(vec![vec![900_000; 480]]);
        comp.process_chunk(&mut chunk).unwrap();
    }
    assert!(comp.prev_gain != S);
    assert!(comp.prev_loudness != 0);
    let limiters = comp.limiters.as_ref().unwrap();
    assert!(limiters[0].prev_peak != 0);
    assert!(limiters[0].clip_control_history.len() != 0);

    let mut conf2 = base_config(1);
    conf2.clip_limit = Some(0);
    conf2.clip_lookahead = Some(4);
    comp.update_parameters(conf2);
    assert_eq!(comp.prev_gain, S);
    assert_eq!(comp.prev_loudness, 0);
    let limiters = comp.limiters.as_ref().unwrap();
    assert_eq!(limiters[0].prev_peak, 0);
    assert_eq!(limiters[0].clip_control_history.len(), 0);
}

#[test]
fn update_resets_limiter_state() {
    let conf = LimiterParameters { clip_limit: 0, soft_clip: None, lookahead: Some(4) };
    let mut lim = Limiter::from_config("Limiter", 48000, conf);
    let mut wave = vec![2 * S; 64];
    lim.process_waveform(&mut wave).unwrap();
    assert!(lim.prev_peak != 0);
    assert!(lim.clip_control_history.len() != 0);
    let conf2 = LimiterParameters { clip_limit: -6 * S, soft_clip: Some(true), lookahead: Some(2) };
    lim.update_parameters(conf2);
    assert_eq!(lim.prev_peak, 0);
    assert_eq!(lim.clip_control_history.len(), 0);
    assert_eq!(lim.lookahead, 2);
    assert!(lim.soft_clip);
}

#[test]
fn wrong_block_shape_is_rejected_unchanged() {
    let conf = base_config(2);
    let mut comp = Compressor::from_config("comp", conf, 48000, 4);
    let mut chunk = chunk_of(vec![vec![100; 4]]); // one channel instead of two
    match comp.process_chunk(&mut chunk) {
        Err(ConfigError::BlockSizeMismatch) => {}
        _ => panic!("a block with the wrong channel count must be rejected"),
    }
    assert_eq!(chunk.waveforms[0], vec![100; 4]);
    let mut chunk2 = chunk_of(vec![vec![100; 3], vec![100; 3]]); // wrong length
    match comp.process_chunk(&mut chunk2) {
        Err(ConfigError::BlockSizeMismatch) => {}
        _ => panic!("a block with the wrong length must be rejected"),
    }
}

#[test]
fn default_channel_lists_cover_all_channels() {
    let conf = base_config(3);
    let comp = Compressor::from_config("comp", conf, 48000, 4);
    assert_eq!(comp.monitor_channels, vec![0, 1, 2]);
    assert_eq!(comp.process_channels, vec![0, 1, 2]);
    assert_eq!(comp.name(), "comp");
}

#[test]
fn brick_wall_mode_caps_at_threshold() {
    // factor far above the cutoff selects the brick-wall curve.
    let mut conf = base_config(1);
    conf.factor = 100_000 * S;
    conf.threshold = -20 * S;
    let mut comp = Compressor::from_config("comp", conf, 48000, 480);
    let mut last: i64 = 0;
    for _ in 0..300 {
        let mut chunk = chunk_of(vec![vec![316_228; 480]]);
        comp.process_chunk(&mut chunk).unwrap();
        last = chunk.waveforms[0][479];
    }
    let got = last as f64 / S as f64;
    assert!((got - 0.1).abs() < 0.002, "brick wall level {}", got);
}

#[test]
fn linked_clipping_uses_the_shared_monitor() {
    // Two channels, limiters driven by the recomputed monitor sum.
    let mut conf = base_config(2);
    conf.threshold = 0;
    conf.factor = S;
    conf.clip_limit = Some(0);
    conf.clip_lookahead = Some(8);
    conf.clip_use_monitor = Some(true);
    let mut comp = Compressor::from_config("comp", conf, 48000, 64);
    let mut chunk = chunk_of(vec![vec![900_000; 64], vec![900_000; 64]]);
    comp.process_chunk(&mut chunk).unwrap();
    // The shared detector sums to 1.8, so both channels are reduced alike.
    assert_eq!(chunk.waveforms[0], chunk.waveforms[1]);
    let limiters = comp.limiters.as_ref().unwrap();
    assert_eq!(limiters.len(), 2);
    assert_eq!(limiters[0].prev_peak, limiters[1].prev_peak);
    assert!(limiters[0].prev_peak > 0);
    // The scratch buffer holds the shared monitor sum of the gain-reduced
    // signal: both channels stayed at 0.9, so it reads 1.8 everywhere.
    assert_eq!(comp.scratch[0], 1_800_000);
}

#[test]
fn own_channel_clipping_limits_each_channel() {
    let mut conf = base_config(1);
    conf.threshold = 0;
    conf.factor = S;
    conf.clip_limit = Some(0);
    conf.soft_clip = Some(false);
    let mut comp = Compressor::from_config("comp", conf, 48000, 4);
    let mut chunk = chunk_of(vec![vec![2 * S, -3 * S, S / 2, 0]]);
    comp.process_chunk(&mut chunk).unwrap();
    // No lookahead: the limiter bank hard-clips each processed channel.
    assert_eq!(chunk.waveforms[0], vec![S, -S, S / 2, 0]);
}
