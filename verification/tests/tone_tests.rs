use stimulus::tone::ToneGenerator;
use stimulus::waveform::WaveformConfig;

fn generator(sample_rate: u32, channels: usize, frequency: u32) -> ToneGenerator<u32> {
    let config = WaveformConfig::new(sample_rate, channels, frequency).unwrap();
    let table: Vec<u32> = (0..=config.period_samples() as u32).map(|k| 100 + k).collect();
    ToneGenerator::new(&config, table).unwrap()
}

fn sine_table(sample_rate: u32, frequency: u32, period: usize) -> Vec<f32> {
    (0..=period)
        .map(|k| {
            let t = k as f32 / sample_rate as f32;
            (2.0 * std::f32::consts::PI * frequency as f32 * t).sin()
        })
        .collect()
}

#[test]
fn new_generator_starts_at_zero() {
    let tone = generator(8, 2, 2);
    assert_eq!(tone.phase(), 0);
    assert_eq!(tone.channels(), 2);
    assert_eq!(tone.period_samples(), 4);
}

#[test]
fn table_of_wrong_length_is_refused() {
    let config = WaveformConfig::new(8, 2, 2).unwrap();
    assert!(ToneGenerator::new(&config, vec![0u8; 4]).is_none());
    assert!(ToneGenerator::new(&config, vec![0u8; 6]).is_none());
    assert!(ToneGenerator::new(&config, Vec::<u8>::new()).is_none());
    assert!(ToneGenerator::new(&config, vec![0u8; 5]).is_some());
}

#[test]
fn table_for_period_zero_has_one_entry() {
    let config = WaveformConfig::new(1, 1, 40).unwrap();
    assert!(ToneGenerator::new(&config, Vec::<u8>::new()).is_none());
    let mut tone = ToneGenerator::new(&config, vec![9u8]).unwrap();
    let mut buffer = [0u8; 3];
    tone.fill(&mut buffer);
    assert_eq!(buffer, [9, 9, 9]);
    assert_eq!(tone.phase(), 0);
}

#[test]
fn fill_writes_one_sample_per_frame() {
    let mut tone = generator(8, 2, 2);
    let mut buffer = [0u32; 8];
    tone.fill(&mut buffer);
    assert_eq!(buffer, [100, 100, 101, 101, 102, 102, 103, 103]);
    assert_eq!(tone.phase(), 4);
}

#[test]
fn fill_wraps_after_the_period() {
    let mut tone = generator(8, 1, 2);
    let mut buffer = [0u32; 12];
    tone.fill(&mut buffer);
    assert_eq!(
        buffer,
        [100, 101, 102, 103, 104, 100, 101, 102, 103, 104, 100, 101]
    );
    assert_eq!(tone.phase(), 2);
}

#[test]
fn fill_of_empty_buffer_changes_nothing() {
    let mut tone = generator(8, 2, 2);
    let mut first = [0u32; 6];
    tone.fill(&mut first);
    let mut empty: [u32; 0] = [];
    tone.fill(&mut empty);
    assert_eq!(tone.phase(), 3);
}

#[test]
fn fill_counts_a_short_last_frame() {
    let mut tone = generator(8, 3, 2);
    let mut buffer = [0u32; 7];
    tone.fill(&mut buffer);
    assert_eq!(buffer, [100, 100, 100, 101, 101, 101, 102]);
    assert_eq!(tone.phase(), 3);
}

#[test]
fn fill_overwrites_every_slot() {
    let mut tone = generator(8, 2, 2);
    let mut buffer = [7u32; 10];
    tone.fill(&mut buffer);
    assert!(buffer.iter().all(|&sample| sample != 7));
}

#[test]
fn channels_of_a_frame_are_identical() {
    for channels in 1..=6usize {
        let mut tone = generator(48_000, channels, 4_000);
        let mut buffer = vec![0u32; channels * 40];
        tone.fill(&mut buffer);
        for frame in buffer.chunks(channels) {
            assert!(frame.iter().all(|&sample| sample == frame[0]));
        }
    }
}

#[test]
fn split_fills_equal_one_fill() {
    let channels = 2;
    let total = 50;
    let mut whole = vec![0u32; total * channels];
    generator(100, channels, 7).fill(&mut whole);
    for split in 0..=total {
        let mut tone = generator(100, channels, 7);
        let mut first = vec![0u32; split * channels];
        let mut second = vec![0u32; (total - split) * channels];
        tone.fill(&mut first);
        tone.fill(&mut second);
        first.extend_from_slice(&second);
        assert_eq!(first, whole);
    }
}

#[test]
fn many_small_fills_equal_one_fill() {
    let channels = 3;
    let sizes = [1usize, 0, 5, 2, 13, 1, 1, 8, 34, 3];
    let total: usize = sizes.iter().sum();
    let mut whole = vec![0u32; total * channels];
    let mut single = generator(441, channels, 40);
    single.fill(&mut whole);

    let mut tone = generator(441, channels, 40);
    let mut joined = Vec::new();
    for &size in &sizes {
        let mut chunk = vec![0u32; size * channels];
        tone.fill(&mut chunk);
        joined.extend_from_slice(&chunk);
    }
    assert_eq!(joined, whole);
    assert_eq!(tone.phase(), single.phase());
}

#[test]
fn samples_repeat_after_period_plus_one_frames() {
    let channels = 2;
    let mut tone = generator(48_000, channels, 4_000);
    let period = tone.period_samples();
    assert_eq!(period, 12);
    let mut buffer = vec![0u32; channels * 100];
    tone.fill(&mut buffer);
    let cycle = (period + 1) * channels;
    for i in 0..buffer.len() - cycle {
        assert_eq!(buffer[i], buffer[i + cycle]);
    }
    assert_eq!(buffer[0], 100);
    assert_eq!(buffer[period * channels], 100 + period as u32);
    assert_eq!(buffer[(period + 1) * channels], 100);
}

#[test]
fn counter_stays_within_the_period() {
    let mut tone = generator(48_000, 2, 7_000);
    let period = tone.period_samples();
    for size in 0..40usize {
        let mut buffer = vec![0u32; size];
        tone.fill(&mut buffer);
        assert!(tone.phase() <= period);
    }
}

#[test]
fn sine_table_follows_the_reference_sine() {
    let (sample_rate, frequency) = (48_000u32, 40u32);
    let config = WaveformConfig::new(sample_rate, 2, frequency).unwrap();
    let period = config.period_samples();
    let table = sine_table(sample_rate, frequency, period);
    let mut tone = ToneGenerator::new(&config, table).unwrap();
    let mut buffer = vec![0f32; 2 * (period + 1)];
    tone.fill(&mut buffer);
    for frame in 0..=period {
        let angle = 2.0 * std::f64::consts::PI * frequency as f64 * frame as f64
            / sample_rate as f64;
        let reference = angle.sin() as f32;
        assert!((buffer[2 * frame] - reference).abs() < 1e-5);
        assert_eq!(buffer[2 * frame], buffer[2 * frame + 1]);
        if reference.abs() > 1e-3 {
            assert_eq!(buffer[2 * frame] > 0.0, reference > 0.0);
        }
    }
    assert_eq!(tone.phase(), 0);
}

#[test]
fn sine_is_zero_at_the_wrap_boundary() {
    let (sample_rate, frequency) = (48_000u32, 40u32);
    let config = WaveformConfig::new(sample_rate, 1, frequency).unwrap();
    let period = config.period_samples();
    let mut tone = ToneGenerator::new(&config, sine_table(sample_rate, frequency, period)).unwrap();
    let mut buffer = vec![1f32; period + 2];
    tone.fill(&mut buffer);
    assert_eq!(buffer[0], 0.0);
    assert!(buffer[period].abs() < 1e-5);
    assert_eq!(buffer[period + 1], 0.0);
    assert_eq!(tone.phase(), 1);
}
