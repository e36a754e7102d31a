//! The waveform configuration: what the output device dictates and the
//! frequency of the tone, fixed for the lifetime of a stream.

use vstd::prelude::*;
use vstd::arithmetic::div_mod::{lemma_fundamental_div_mod, lemma_mod_pos_bound};

verus! {

/// Frequency of the tone in hertz when nothing else is asked for.
pub const DEFAULT_FREQUENCY: u32 = 40;

/// `n / d` rounded to the nearest whole number, a tie going upwards.
pub open spec fn round_div(n: nat, d: nat) -> nat {
    (2 * n + d) / (2 * d)
}

/// The mathematical content of a [`WaveformConfig`].
pub struct Waveform {
    pub sample_rate: nat,
    pub channels: nat,
    pub frequency: nat,
}

/// Why a set of parameters makes no waveform.
#[derive(Clone, Copy, Debug, PartialEq, Eq, Structural)]
pub enum ConfigError {
    ZeroSampleRate,
    ZeroChannels,
    ZeroFrequency,
}

/// What `WaveformConfig::new` answers for the given parameters.
pub open spec fn checked_waveform(sample_rate: nat, channels: nat, frequency: nat) -> Result<
    Waveform,
    ConfigError,
> {
    if sample_rate == 0 {
        Err(ConfigError::ZeroSampleRate)
    } else if channels == 0 {
        Err(ConfigError::ZeroChannels)
    } else if frequency == 0 {
        Err(ConfigError::ZeroFrequency)
    } else {
        Ok(Waveform { sample_rate, channels, frequency })
    }
}

/// Sample rate in hertz, slots per frame and tone frequency in hertz, all
/// of them positive.
#[derive(Clone, Copy, Debug)]
pub struct WaveformConfig {
    sample_rate: u32,
    channels: usize,
    frequency: u32,
}

impl View for WaveformConfig {
    type V = Waveform;

    closed spec fn view(&self) -> Waveform {
        Waveform {
            sample_rate: self.sample_rate as nat,
            channels: self.channels as nat,
            frequency: self.frequency as nat,
        }
    }
}

impl WaveformConfig {
    /// Every parameter is positive.
    pub open spec fn wf(&self) -> bool {
        &&& self@.sample_rate > 0
        &&& self@.channels > 0
        &&& self@.frequency > 0
    }

    /// Samples per cycle of the tone, to the nearest whole sample.
    pub open spec fn period(&self) -> nat {
        round_div(self@.sample_rate, self@.frequency)
    }

    /// Accepts the parameters if each of them is positive, and otherwise
    /// names the first that is zero.
    pub fn new(sample_rate: u32, channels: usize, frequency: u32) -> (made: Result<
        WaveformConfig,
        ConfigError,
    >)
        ensures
            match checked_waveform(sample_rate as nat, channels as nat, frequency as nat) {
                Ok(waveform) => made is Ok && made->Ok_0@ == waveform && made->Ok_0.wf(),
                Err(error) => made == Err::<WaveformConfig, ConfigError>(error),
            },
    {
        if sample_rate == 0 {
            Err(ConfigError::ZeroSampleRate)
        } else if channels == 0 {
            Err(ConfigError::ZeroChannels)
        } else if frequency == 0 {
            Err(ConfigError::ZeroFrequency)
        } else {
            Ok(WaveformConfig { sample_rate, channels, frequency })
        }
    }

    /// Sample rate of the output device in hertz.
    pub fn sample_rate(&self) -> (sample_rate: u32)
        ensures
            sample_rate == self@.sample_rate,
    {
        self.sample_rate
    }

    /// Frequency of the tone in hertz.
    pub fn frequency(&self) -> (frequency: u32)
        ensures
            frequency == self@.frequency,
    {
        self.frequency
    }

    /// Slots per frame.
    pub fn channels(&self) -> (channels: usize)
        ensures
            channels == self@.channels,
    {
        self.channels
    }

    /// The counter value at which the phase counter restarts.
    pub fn period_samples(&self) -> (period: usize)
        requires
            self.wf(),
        ensures
            period == self.period(),
            period <= self@.sample_rate,
    {
        let twice_rate: u64 = 2 * (self.sample_rate as u64);
        let twice_frequency: u64 = 2 * (self.frequency as u64);
        let period: u64 = (twice_rate + self.frequency as u64) / twice_frequency;
        proof {
            lemma_round_div_nearest(self@.sample_rate, self@.frequency);
            assert(period <= self.sample_rate) by (nonlinear_arith)
                requires
                    2 * self.frequency * period <= 2 * self.sample_rate + self.frequency,
                    self.frequency > 0,
                    period >= 0,
            ;
        }
        period as usize
    }
}

/// `round_div(n, d)` is the whole number nearest to `n / d`: it lies within
/// one half of the quotient, and a quotient halfway between two whole
/// numbers goes to the greater.
pub proof fn lemma_round_div_nearest(n: nat, d: nat)
    requires
        d > 0,
    ensures
        2 * d * round_div(n, d) <= 2 * n + d < 2 * d * (round_div(n, d) + 1),
{
    let x = (2 * n + d) as int;
    let m = (2 * d) as int;
    lemma_fundamental_div_mod(x, m);
    lemma_mod_pos_bound(x, m);
    assert(m * (x / m + 1) == m * (x / m) + m) by (nonlinear_arith);
}

} // verus!
