use audiomodem::config::{ChannelConfig, VOLUME_FULL};
use audiomodem::data_decode::DataDecoder;
use audiomodem::differential_decode::{DecodeResult, DifferentialDecoder};
use audiomodem::differential_encode::DifferentialEncoder2;
use audiomodem::fft::{FftDecoder, FftPoint};
use audiomodem::soundgen::{FrequencyComponent, SoundCommand, SoundGenerator};
use num_complex::Complex;
use rustfft::FftPlanner;
use std::f64::consts::PI;

/// The next output sample of a generator, from its clock, volume and mix.
fn mix(g: &SoundGenerator) -> f32 {
    let waveform = g.waveform();
    let total: f64 = waveform.iter().map(|w| w.relative_volume as f64).sum();
    if total == 0.0 {
        return 0.0;
    }
    let clock = g.sample_clock() as f64;
    let raw: f64 = waveform
        .iter()
        .map(|w| {
            let cycles = w.bin as f64 / w.window as f64;
            let phase = w.phase as f64 / w.phase_buckets as f64 * PI;
            (clock * cycles * 2.0 * PI + phase).sin() * w.relative_volume as f64 / total
        })
        .sum();
    assert!((-1.0..=1.0).contains(&raw));
    (raw * g.volume() as f64 / VOLUME_FULL as f64) as f32
}

fn render(encoder: &mut DifferentialEncoder2, buffer: &mut [f32]) -> usize {
    if encoder.done() {
        return 0;
    }
    for s in buffer.iter_mut() {
        encoder.tick();
        *s = mix(encoder.generator());
    }
    buffer.len()
}

/// The spectrum of a window, amplitudes in thousandths and phases as a
/// fraction of half a turn.
fn transform(buffer: &[f32]) -> FftDecoder {
    let mut complexes: Vec<Complex<f32>> = buffer.iter().map(|&b| Complex::new(b, 0.0)).collect();
    let mut planner = FftPlanner::<f32>::new();
    let fft = planner.plan_fft_forward(complexes.len());
    fft.process(&mut complexes);
    let points = complexes
        .iter()
        .map(|c| {
            let amplitude = (c.norm() * 1000.0) as u64;
            let turns = (c.im.atan2(c.re) as f64 / PI).rem_euclid(1.0);
            let phase = ((turns * 4294967296.0) as u64 & 0xffff_ffff) as u32;
            FftPoint::new(amplitude, phase)
        })
        .collect();
    FftDecoder::from_points(points)
}

fn test_encode_and_decode(config: ChannelConfig, buffer_len: usize) -> bool {
    const DATA: &[u8] = b"Hello World";
    let data_u64: Vec<u64> = DATA.iter().map(|&v| v as u64).collect();

    let mut buffer = vec![0.0f32; buffer_len];
    let mut encoder = DifferentialEncoder2::new_config(48000, buffer_len as u64, config);
    encoder.send_calibration();
    encoder.write(DATA);

    let mut decoder = DataDecoder::new(config);
    let mut s = Vec::new();

    while !encoder.done() {
        render(&mut encoder, &mut buffer);
        let fft = transform(&buffer);
        if let Some(v) = decoder.sample(&fft) {
            s.push(v);
        }
    }

    if s.len() < 1 || s[1..] != data_u64[..] {
        println!("{:?} != {:?}", s, data_u64);
        false
    } else {
        true
    }
}

#[test]
fn test_lf_encode_and_decode() {
    assert!(test_encode_and_decode(ChannelConfig::new(), 2048));
}

#[test]
fn test_hf_encode_and_decode() {
    let config = ChannelConfig {
        channel_base: 160,
        channel_step: 2,
        channels: 4,
        symbol_duration: 30,
        pause_duration: 20,
        phase_bits: 2,
        amplitude_bits: 0,
        volume: 250_000,
    };

    assert!(test_encode_and_decode(config, 512));
}

#[test]
fn decoded_bytes_follow_the_calibration_byte() {
    const DATA: &[u8] = b"Hello World";
    let config = ChannelConfig::new();
    let mut buffer = vec![0.0f32; 2048];
    let mut encoder = DifferentialEncoder2::new_config(48000, 2048, config);
    encoder.send_calibration();
    assert_eq!(encoder.write(DATA), DATA.len());
    let mut decoder = DataDecoder::new(config);
    while render(&mut encoder, &mut buffer) > 0 {
        let fft = transform(&buffer);
        decoder.write(&fft);
    }
    let mut output = [0u8; 64];
    let n = decoder.read(&mut output);
    assert_eq!(n, DATA.len() + 1);
    assert_eq!(output[0], 0);
    assert_eq!(&output[1..n], DATA);
}

#[test]
fn pure_tone_peaks_at_its_bin() {
    let mut generator = SoundGenerator::new(48000);
    generator.apply(SoundCommand::SetVolume(VOLUME_FULL / 10));
    generator.push_frequency(25, 2048);
    let mut buffer = vec![0.0f32; 2048];
    for s in buffer.iter_mut() {
        generator.tick();
        *s = mix(&generator);
    }
    let fft = transform(&buffer);
    assert_eq!(fft.peak_bin(), 25);
    assert_eq!(fft.peak(), fft.point(25));
}

#[test]
fn samples_stay_within_the_volume() {
    let mut generator = SoundGenerator::new(48000);
    generator.apply(SoundCommand::SetVolume(250_000));
    generator.push(FrequencyComponent::new(3, 512, 1, 4, 2));
    generator.push(FrequencyComponent::new(7, 512, 3, 4, 1));
    generator.push(FrequencyComponent::new_volume(11, 512, 5));
    for _ in 0..4096 {
        generator.tick();
        let s = mix(&generator);
        assert!(s.abs() <= 0.25 + 1e-6);
    }
}

#[test]
fn glide_reaches_its_target_in_five_milliseconds() {
    let mut generator = SoundGenerator::new(48000);
    generator.apply(SoundCommand::TransitionVolume(100_000));
    for i in 1..=240u64 {
        generator.tick();
        let expected = 100_000 - 100_000 * (240 - i) / 240;
        assert_eq!(generator.volume() as u64, expected);
    }
    generator.tick();
    assert_eq!(generator.volume(), 100_000);
}

#[test]
fn remove_and_clear_tones() {
    let mut generator = SoundGenerator::new(8000);
    generator.push_frequency(4, 64);
    generator.push_frequency(2, 32);
    generator.push_frequency(5, 64);
    generator.apply(SoundCommand::RemoveWaveform(8, 128));
    assert_eq!(generator.waveform().len(), 1);
    assert_eq!(generator.waveform()[0].bin, 5);
    generator.apply(SoundCommand::AddWaveform(FrequencyComponent::new_simple(9, 64)));
    assert_eq!(generator.waveform().len(), 2);
    generator.apply(SoundCommand::ClearWaveform);
    assert!(generator.waveform().is_empty());
    assert_eq!(generator.sample_clock(), 0);
}

fn window_of(len: usize, bins: &[(usize, u64, u32)]) -> FftDecoder {
    let mut points = vec![FftPoint::new(0, 0); len];
    for &(bin, amplitude, phase) in bins {
        points[bin] = FftPoint::new(amplitude, phase);
    }
    FftDecoder::from_points(points)
}

#[test]
fn one_symbol_for_a_four_window_burst() {
    let config = ChannelConfig::new();
    let mut decoder = DataDecoder::new(config);
    let tone = [(14, 20_000, 0), (16, 20_000, 0), (18, 20_000, 0), (20, 20_000, 0)];
    let mut symbols = Vec::new();
    for _ in 0..4 {
        if let Some(s) = decoder.sample(&window_of(64, &tone)) {
            symbols.push(s);
        }
    }
    assert_eq!(decoder.sample(&window_of(64, &[])), None);
    assert_eq!(symbols, vec![0]);
}

#[test]
fn symbol_joins_carriers_highest_first() {
    let config = ChannelConfig::new();
    let mut decoder = DataDecoder::new(config);
    let quarter: u32 = 1 << 30;
    let zero = [(14, 9_000, 0), (16, 9_000, 0), (18, 9_000, 0), (20, 9_000, 0)];
    decoder.sample(&window_of(64, &zero));
    assert_eq!(decoder.sample(&window_of(64, &zero)), Some(0));
    decoder.sample(&window_of(64, &[]));
    // Phases that step back by 1, 2, 3 and 0 quarters of the circle.
    let next = [
        (14, 9_000, 0u32.wrapping_sub(quarter)),
        (16, 9_000, 0u32.wrapping_sub(2 * quarter)),
        (18, 9_000, 0u32.wrapping_sub(3 * quarter)),
        (20, 9_000, 0),
    ];
    assert_eq!(decoder.sample(&window_of(64, &next)), None);
    assert_eq!(decoder.sample(&window_of(64, &next)), Some(0b00_11_10_01));
}

#[test]
fn demodulator_steps_through_its_states() {
    let mut d = DifferentialDecoder::new(4);
    let weak = FftPoint::new(4_999, 123);
    let strong = FftPoint::new(5_000, 0x4000_0000);
    assert_eq!(d.sample(&weak), DecodeResult::Noise);
    assert_eq!(d.sample(&strong), DecodeResult::Noise);
    assert_eq!(d.sample(&strong), DecodeResult::Signal(0));
    assert_eq!(d.sample(&strong), DecodeResult::SameSignal);
    assert_eq!(d.sample(&weak), DecodeResult::Noise);
    let later = FftPoint::new(6_000, 0x2000_0000);
    assert_eq!(d.sample(&later), DecodeResult::Noise);
    // From a quarter to an eighth of the circle: half a bucket, rounded up.
    assert_eq!(d.sample(&later), DecodeResult::Signal(1));
}

#[test]
fn weak_bins_report_no_phase() {
    assert_eq!(FftPoint::new(9, 77).phase(), 0);
    assert_eq!(FftPoint::new(10, 77).phase(), 77);
    assert_eq!(FftPoint::new(11, 77).amplitude(), 11);
}

#[test]
fn peak_prefers_the_lowest_of_equal_bins() {
    let fft = window_of(16, &[(3, 500, 0), (5, 500, 1), (12, 900, 0)]);
    assert_eq!(fft.positive_len(), 8);
    assert_eq!(fft.peak_bin(), 3);
}

#[test]
fn encoder_is_done_when_the_schedule_has_elapsed() {
    let config = ChannelConfig {
        channel_base: 4,
        channel_step: 1,
        channels: 2,
        symbol_duration: 10,
        pause_duration: 10,
        phase_bits: 4,
        amplitude_bits: 0,
        volume: 250_000,
    };
    let mut encoder = DifferentialEncoder2::new_config(1000, 64, config);
    assert!(encoder.done());
    encoder.send_symbol(0x21);
    // Twenty milliseconds at a thousand samples per second.
    for _ in 0..19 {
        encoder.tick();
        assert!(!encoder.done());
    }
    encoder.tick();
    assert!(encoder.done());
}

#[test]
fn burst_after_one_quiet_carrier_is_reported_once() {
    let config = ChannelConfig::new();
    let mut decoder = DataDecoder::new(config);
    let three = [(14, 9_000, 0), (16, 9_000, 0), (18, 9_000, 0)];
    decoder.sample(&window_of(64, &three));
    decoder.sample(&window_of(64, &three));
    let mut reports = Vec::new();
    for k in 0..4u32 {
        let phase = k << 28;
        let burst = [(14, 9_000, phase), (16, 8_000, phase), (18, 7_000, 0), (20, 6_000, phase)];
        reports.push(decoder.sample(&window_of(64, &burst)));
    }
    assert_eq!(reports[0], None);
    assert!(reports[1].is_some());
    assert_eq!(reports[2], None);
    assert_eq!(reports[3], None);
}
