use vstd::prelude::*;

verus! {

/// Seconds of audio that one default read-ahead request or one playback window covers.
pub const AUDIO_BUFFER_SIZE_S: usize = 3;

/// The slowest tempo the project accepts, in beats per minute.
pub const MIN_BEAT_PER_MINUTE: usize = 1;

/// The fastest tempo the project accepts, in beats per minute.
pub const MAX_BEAT_PER_MINUTE: usize = 495;

/// The project sample rates a user can pick.
#[derive(Debug, Clone, Copy, PartialEq, Eq, Structural)]
pub enum SampleRate {
    ULow,
    Low,
    Medium,
    High,
    Ultra,
}

impl SampleRate {
    /// The rate in Hz.
    pub open spec fn spec_hz(self) -> nat {
        match self {
            SampleRate::ULow => 32000,
            SampleRate::Low => 41000,
            SampleRate::Medium => 48000,
            SampleRate::High => 96000,
            SampleRate::Ultra => 192000,
        }
    }

    pub fn hz(&self) -> (r: usize)
        ensures
            r == self.spec_hz(),
    {
        match self {
            SampleRate::ULow => 32000,
            SampleRate::Low => 41000,
            SampleRate::Medium => 48000,
            SampleRate::High => 96000,
            SampleRate::Ultra => 192000,
        }
    }
}

impl Default for SampleRate {
    fn default() -> (r: Self)
        ensures
            r == SampleRate::Medium,
    {
        SampleRate::Medium
    }
}

/// Which summation routine the mixer uses.
#[derive(Debug, Clone, Copy, PartialEq, Eq, Structural)]
pub enum PlaybackImplementation {
    Simd,
    NonSimd,
}

impl Default for PlaybackImplementation {
    fn default() -> (r: Self)
        ensures
            r == PlaybackImplementation::Simd,
    {
        PlaybackImplementation::Simd
    }
}

/// Settings that the user can change at any time.
#[derive(Debug, Clone, Copy, PartialEq, Eq, Structural)]
pub struct Settings {
    pub master_audio_percent: u8,
    pub master_sample_playback_type: PlaybackImplementation,
}

impl Default for Settings {
    fn default() -> (r: Self)
        ensures
            r.master_audio_percent == 100,
            r.master_sample_playback_type == PlaybackImplementation::Simd,
    {
        Settings {
            master_audio_percent: 100,
            master_sample_playback_type: PlaybackImplementation::Simd,
        }
    }
}

/// Interleaved stereo samples in one beat: `rate * 60 / bpm`, doubled for the two channels.
pub open spec fn spec_samples_per_beat(rate: SampleRate, bpm: nat) -> nat
    recommends
        bpm >= 1,
{
    ((rate.spec_hz() * 60) / bpm) * 2
}

pub fn samples_per_beat(rate: SampleRate, bpm: usize) -> (r: usize)
    requires
        bpm >= MIN_BEAT_PER_MINUTE,
    ensures
        r == spec_samples_per_beat(rate, bpm as nat),
{
    let per_minute = rate.hz() * 60;
    (per_minute / bpm) * 2
}

/// Interleaved stereo samples asked of a clip's worker by one default read-ahead request.
pub open spec fn spec_default_request_len(rate: nat) -> nat {
    rate * (AUDIO_BUFFER_SIZE_S as nat) * 2
}

/// Interleaved stereo samples that one playback window spans.
pub fn window_len(rate: SampleRate) -> (r: usize)
    ensures
        r == spec_default_request_len(rate.spec_hz()),
{
    rate.hz() * AUDIO_BUFFER_SIZE_S * 2
}

} // verus!
