use crate::chunk_buffer::ChunkBuffer;
use crate::codec::{NodeCodecParameters, SamplePacket};
use crate::settings::{spec_default_request_len, AUDIO_BUFFER_SIZE_S};
use std::sync::mpsc::Sender;
use vstd::prelude::*;

verus! {

#[verifier::external_type_specification]
#[verifier::external_body]
#[verifier::reject_recursive_types(T)]
pub struct ExSender<T>(std::sync::mpsc::Sender<T>);

/// A read-ahead request to a clip's worker: an optional destination index and the number
/// of interleaved samples wanted.
pub type ResampleRequest = (Option<usize>, usize);

/// Relies on `std::sync::mpsc::Sender::send`: it hands the request to the worker, and fails
/// only where the worker's receiving end is gone, which the caller cannot know beforehand.
#[verifier::external_body]
fn send_request(channel: &Sender<ResampleRequest>, destination: Option<usize>, count: usize) -> (sent: bool) {
    channel.send((destination, count)).is_ok()
}

/// Why a clip could not be built from a decoded stream.
#[derive(Debug, Clone, Copy, PartialEq, Eq, Structural)]
pub enum DecodeError {
    /// The stream states no sample rate, or a rate of zero.
    MissingSampleRate,
    /// The stream states no length in frames.
    MissingFrameCount,
    /// The stream holds no packets.
    NoPackets,
}

/// Why a request for more samples was not delivered.
#[derive(Debug, Clone, Copy, PartialEq, Eq, Structural)]
pub enum RequestError {
    /// The clip was built without a worker.
    ChannelMissing,
    /// The clip's worker has finished and takes no more requests.
    ResamplingUnavailable,
}

/// `a / b` rounded up.
pub open spec fn ceil_div(a: nat, b: nat) -> nat
    recommends
        b > 0,
{
    ((a + b - 1) as nat) / b
}

/// Interleaved stereo samples that `frames` frames at `native` Hz become at `project` Hz.
pub open spec fn spec_resampled_len(project: nat, frames: nat, native: nat) -> nat
    recommends
        native > 0,
{
    ((project * frames) / native) * 2
}

/// An audio clip: its name and source, the samples produced for it so far, the compressed
/// packets of its stream and the stream's parameters.
pub struct SoundNode<T> {
    name: String,
    path: String,
    samples_buffer: ChunkBuffer<T>,
    raw_data: Vec<SamplePacket>,
    resampling_request_channel: Option<Sender<ResampleRequest>>,
    track_params: NodeCodecParameters,
    duration_secs: u64,
    desired_length: usize,
    requested: Ghost<Seq<ResampleRequest>>,
}

impl<T> SoundNode<T> {
    /// The samples produced so far, interleaved left and right.
    pub closed spec fn spec_samples(&self) -> Seq<T> {
        self.samples_buffer@
    }

    /// The clip's length in whole seconds, rounded up.
    pub closed spec fn spec_duration_secs(&self) -> nat {
        self.duration_secs as nat
    }

    /// The number of interleaved samples the clip has once fully resampled.
    pub closed spec fn spec_sample_count(&self) -> nat {
        self.desired_length as nat
    }

    pub closed spec fn spec_name(&self) -> Seq<char> {
        self.name@
    }

    pub closed spec fn spec_path(&self) -> Seq<char> {
        self.path@
    }

    pub closed spec fn spec_params(&self) -> NodeCodecParameters {
        self.track_params
    }

    pub closed spec fn spec_packets(&self) -> Seq<SamplePacket> {
        self.raw_data@
    }

    /// Every request this clip has handed to its worker's channel, oldest first.
    pub closed spec fn spec_requests(&self) -> Seq<ResampleRequest> {
        self.requested@
    }

    /// The number of samples that a default read-ahead request asks for.
    pub open spec fn spec_default_count(&self) -> nat {
        if spec_default_request_len(self.spec_native_rate()) <= usize::MAX {
            spec_default_request_len(self.spec_native_rate())
        } else {
            usize::MAX as nat
        }
    }

    pub closed spec fn has_channel(&self) -> bool {
        self.resampling_request_channel is Some
    }

    /// The stream's native sample rate, zero where it states none.
    pub open spec fn spec_native_rate(&self) -> nat {
        match self.spec_params().sample_rate {
            Some(rate) => rate as nat,
            None => 0,
        }
    }

    /// The stream's length in frames, zero where it states none.
    pub open spec fn spec_frames(&self) -> nat {
        match self.spec_params().n_frames {
            Some(frames) => frames as nat,
            None => 0,
        }
    }

    pub closed spec fn wf(&self) -> bool {
        &&& self.track_params.sample_rate is Some
        &&& self.track_params.sample_rate.unwrap() > 0
        &&& self.track_params.n_frames is Some
    }

    /// Builds a clip from a decoded stream, to be resampled to `sample_rate` Hz. The worker
    /// that produces its samples listens on `request_channel`.
    pub fn new(
        name: String,
        path: String,
        sample_rate: usize,
        raw_data: Vec<SamplePacket>,
        track_params: NodeCodecParameters,
        request_channel: Option<Sender<ResampleRequest>>,
    ) -> (r: Result<Self, DecodeError>)
        ensures
            (track_params.sample_rate is None || track_params.sample_rate == Some(0u32)) ==> r
                == Err::<Self, DecodeError>(DecodeError::MissingSampleRate),
            (track_params.sample_rate is Some && track_params.sample_rate != Some(0u32)
                && track_params.n_frames is None) ==> r == Err::<Self, DecodeError>(
                DecodeError::MissingFrameCount,
            ),
            (track_params.sample_rate is Some && track_params.sample_rate != Some(0u32)
                && track_params.n_frames is Some && raw_data@.len() == 0) ==> r == Err::<
                Self,
                DecodeError,
            >(DecodeError::NoPackets),
            r is Ok <==> (track_params.sample_rate is Some && track_params.sample_rate != Some(0u32)
                && track_params.n_frames is Some && raw_data@.len() > 0),
            r matches Ok(n) ==> {
                &&& n.wf()
                &&& n.spec_name() == name@
                &&& n.spec_path() == path@
                &&& n.spec_samples() == Seq::<T>::empty()
                &&& n.spec_requests() == Seq::<ResampleRequest>::empty()
                &&& n.spec_params() == track_params
                &&& n.spec_packets() == raw_data@
                &&& n.has_channel() == request_channel is Some
                &&& n.spec_duration_secs() == ceil_div(
                    track_params.n_frames.unwrap() as nat,
                    track_params.sample_rate.unwrap() as nat,
                )
                &&& n.spec_sample_count() == if spec_resampled_len(
                    sample_rate as nat,
                    track_params.n_frames.unwrap() as nat,
                    track_params.sample_rate.unwrap() as nat,
                ) <= usize::MAX {
                    spec_resampled_len(
                        sample_rate as nat,
                        track_params.n_frames.unwrap() as nat,
                        track_params.sample_rate.unwrap() as nat,
                    )
                } else {
                    usize::MAX as nat
                }
            },
    {
        let native = match track_params.sample_rate {
            Some(rate) => rate,
            None => {
                return Err(DecodeError::MissingSampleRate);
            },
        };
        if native == 0 {
            return Err(DecodeError::MissingSampleRate);
        }
        let frames = match track_params.n_frames {
            Some(f) => f,
            None => {
                return Err(DecodeError::MissingFrameCount);
            },
        };
        if raw_data.len() == 0 {
            return Err(DecodeError::NoPackets);
        }
        let native_wide = native as u128;
        let duration_wide = (frames as u128 + native_wide - 1) / native_wide;
        proof {
            assert((frames as int + native as int - 1) / (native as int) <= frames as int) by (nonlinear_arith)
                requires
                    native >= 1,
                    frames >= 0,
            ;
        }
        let duration_secs = duration_wide as u64;
        proof {
            let a = sample_rate as int;
            let b = frames as int;
            assert(a * b < 0x1_0000_0000_0000_0000 * 0x1_0000_0000_0000_0000) by (nonlinear_arith)
                requires
                    0 <= a < 0x1_0000_0000_0000_0000,
                    0 <= b < 0x1_0000_0000_0000_0000,
            ;
        }
        let scaled = (sample_rate as u128) * (frames as u128);
        let frames_out = scaled / native_wide;
        let desired_length = if frames_out <= (usize::MAX / 2) as u128 {
            (frames_out as usize) * 2
        } else {
            usize::MAX
        };
        let chunk_size = if sample_rate <= usize::MAX / 2 {
            sample_rate * 2
        } else {
            usize::MAX
        };
        Ok(SoundNode {
            name,
            path,
            samples_buffer: ChunkBuffer::new(chunk_size),
            raw_data,
            resampling_request_channel: request_channel,
            track_params,
            duration_secs,
            desired_length,
            requested: Ghost(Seq::empty()),
        })
    }

    pub fn name(&self) -> (r: &str)
        ensures
            r@ == self.spec_name(),
    {
        self.name.as_str()
    }

    /// Hands out the name for the caller to edit in place.
    pub fn name_mut(&mut self) -> (r: &mut String)
        ensures
            r@ == old(self).spec_name(),
            final(self).spec_name() == final(r)@,
            final(self).spec_samples() == old(self).spec_samples(),
            final(self).spec_path() == old(self).spec_path(),
            final(self).spec_params() == old(self).spec_params(),
            final(self).spec_packets() == old(self).spec_packets(),
            final(self).has_channel() == old(self).has_channel(),
            final(self).spec_duration_secs() == old(self).spec_duration_secs(),
            final(self).spec_sample_count() == old(self).spec_sample_count(),
            final(self).spec_requests() == old(self).spec_requests(),
            final(self).wf() == old(self).wf(),
    {
        &mut self.name
    }

    pub fn path(&self) -> (r: &str)
        ensures
            r@ == self.spec_path(),
    {
        self.path.as_str()
    }

    pub fn track_params(&self) -> (r: &NodeCodecParameters)
        ensures
            *r == self.spec_params(),
    {
        &self.track_params
    }

    /// The compressed packets of the clip's stream, in stream order.
    pub fn packets(&self) -> (r: &Vec<SamplePacket>)
        ensures
            r@ == self.spec_packets(),
    {
        &self.raw_data
    }

    pub fn native_rate(&self) -> (r: u32)
        ensures
            r == self.spec_native_rate(),
    {
        match self.track_params.sample_rate {
            Some(rate) => rate,
            None => 0,
        }
    }

    pub fn frames(&self) -> (r: u64)
        ensures
            r == self.spec_frames(),
    {
        match self.track_params.n_frames {
            Some(frames) => frames,
            None => 0,
        }
    }

    pub fn duration_secs(&self) -> (r: u64)
        ensures
            r == self.spec_duration_secs(),
    {
        self.duration_secs
    }

    pub fn sample_count(&self) -> (r: usize)
        ensures
            r == self.spec_sample_count(),
    {
        self.desired_length
    }

    /// The samples produced so far.
    pub fn samples(&self) -> (r: &[T])
        ensures
            r@ == self.spec_samples(),
    {
        self.samples_buffer.inner_buffer()
    }

    /// Appends a batch of produced samples, in order, emptying `chunk`. A batch holds whole
    /// stereo frames, left and right.
    pub fn append_samples(&mut self, chunk: &mut Vec<T>)
        requires
            old(chunk)@.len() % 2 == 0,
        ensures
            final(self).spec_samples() == old(self).spec_samples() + old(chunk)@,
            final(chunk)@ == Seq::<T>::empty(),
            final(self).spec_name() == old(self).spec_name(),
            final(self).spec_path() == old(self).spec_path(),
            final(self).spec_params() == old(self).spec_params(),
            final(self).spec_packets() == old(self).spec_packets(),
            final(self).has_channel() == old(self).has_channel(),
            final(self).spec_duration_secs() == old(self).spec_duration_secs(),
            final(self).spec_sample_count() == old(self).spec_sample_count(),
            final(self).spec_requests() == old(self).spec_requests(),
            final(self).wf() == old(self).wf(),
    {
        self.samples_buffer.append(chunk);
    }

    /// Takes every produced sample out of the clip.
    pub fn take_samples(&mut self) -> (r: Vec<T>)
        ensures
            r@ == old(self).spec_samples(),
            final(self).spec_samples() == Seq::<T>::empty(),
            final(self).spec_name() == old(self).spec_name(),
            final(self).spec_path() == old(self).spec_path(),
            final(self).spec_params() == old(self).spec_params(),
            final(self).spec_packets() == old(self).spec_packets(),
            final(self).has_channel() == old(self).has_channel(),
            final(self).spec_duration_secs() == old(self).spec_duration_secs(),
            final(self).spec_sample_count() == old(self).spec_sample_count(),
            final(self).spec_requests() == old(self).spec_requests(),
            final(self).wf() == old(self).wf(),
    {
        self.samples_buffer.drain_all()
    }

    /// Asks the clip's worker for `count` more interleaved samples. Where the clip has a
    /// channel, the request `(None, count)` is handed to it; whether the worker still takes it
    /// decides between `Ok` and `ResamplingUnavailable`.
    pub fn request_custom_count_sample_parsing(&mut self, count: usize) -> (r: Result<(), RequestError>)
        ensures
            !old(self).has_channel() ==> r == Err::<(), RequestError>(RequestError::ChannelMissing),
            old(self).has_channel() ==> (r is Ok || r == Err::<(), RequestError>(
                RequestError::ResamplingUnavailable,
            )),
            final(self).spec_requests() == if old(self).has_channel() {
                old(self).spec_requests().push((None, count))
            } else {
                old(self).spec_requests()
            },
            same_but_requests(*old(self), *final(self)),
    {
        let sent = match &self.resampling_request_channel {
            None => {
                return Err(RequestError::ChannelMissing);
            },
            Some(channel) => send_request(channel, None, count),
        };
        self.requested = Ghost(self.requested@.push((None, count)));
        if sent {
            Ok(())
        } else {
            Err(RequestError::ResamplingUnavailable)
        }
    }

    /// The number of samples that a default read-ahead request asks for: a few seconds of
    /// stereo audio at the stream's native rate.
    pub fn default_request_count(&self) -> (r: usize)
        ensures
            r == self.spec_default_count(),
    {
        let native = match self.track_params.sample_rate {
            Some(rate) => rate,
            None => 0,
        };
        let seconds = AUDIO_BUFFER_SIZE_S as u128;
        assert(seconds == 3);
        let wide = (native as u128) * seconds * 2;
        if wide <= usize::MAX as u128 {
            wide as usize
        } else {
            usize::MAX
        }
    }

    /// Asks the clip's worker for a default read-ahead's worth of samples.
    pub fn request_default_count_sample_parsing(&mut self) -> (r: Result<(), RequestError>)
        ensures
            !old(self).has_channel() ==> r == Err::<(), RequestError>(RequestError::ChannelMissing),
            old(self).has_channel() ==> (r is Ok || r == Err::<(), RequestError>(
                RequestError::ResamplingUnavailable,
            )),
            final(self).spec_requests() == if old(self).has_channel() {
                old(self).spec_requests().push((None, old(self).spec_default_count() as usize))
            } else {
                old(self).spec_requests()
            },
            same_but_requests(*old(self), *final(self)),
    {
        let count = self.default_request_count();
        self.request_custom_count_sample_parsing(count)
    }
}

/// `b` is `a` but for the requests handed to the worker.
pub open spec fn same_but_requests<T>(a: SoundNode<T>, b: SoundNode<T>) -> bool {
    &&& b.spec_samples() == a.spec_samples()
    &&& b.spec_name() == a.spec_name()
    &&& b.spec_path() == a.spec_path()
    &&& b.spec_params() == a.spec_params()
    &&& b.spec_packets() == a.spec_packets()
    &&& b.has_channel() == a.has_channel()
    &&& b.spec_duration_secs() == a.spec_duration_secs()
    &&& b.spec_sample_count() == a.spec_sample_count()
    &&& b.wf() == a.wf()
}

} // verus!
