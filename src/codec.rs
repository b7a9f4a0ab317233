use vstd::prelude::*;

verus! {

/// The storage format of one decoded audio sample.
#[derive(Debug, Clone, Copy, PartialEq, Eq, Structural)]
pub enum NodeSampleFormat {
    /// Unsigned 8-bit integer.
    U8,
    /// Unsigned 16-bit integer.
    U16,
    /// Unsigned 24-bit integer.
    U24,
    /// Unsigned 32-bit integer.
    U32,
    /// Signed 8-bit integer.
    S8,
    /// Signed 16-bit integer.
    S16,
    /// Signed 24-bit integer.
    S24,
    /// Signed 32-bit integer.
    S32,
    /// Single precision (32-bit) floating point.
    F32,
    /// Double precision (64-bit) floating point.
    F64,
}

/// One compressed packet of a clip's stream, kept so that decoding can go on later.
#[derive(Debug, Clone)]
pub struct SamplePacket {
    pub data: Vec<u8>,
    pub track_id: u32,
    pub dur: u64,
    pub ts: u64,
}

impl SamplePacket {
    pub fn new(data: Vec<u8>, track_id: u32, dur: u64, ts: u64) -> (r: Self)
        ensures
            r.data@ == data@,
            r.track_id == track_id,
            r.dur == dur,
            r.ts == ts,
    {
        SamplePacket { data, track_id, dur, ts }
    }
}

/// The static parameters of a clip's audio stream.
#[derive(Debug, Clone)]
pub struct NodeCodecParameters {
    /// The sample rate of the audio in Hz.
    pub sample_rate: Option<u32>,
    /// The length of the stream in frames.
    pub n_frames: Option<u64>,
    /// The timestamp of the first frame.
    pub start_ts: u64,
    /// The sample format of an audio sample.
    pub sample_format: Option<NodeSampleFormat>,
    /// The number of bits per decoded audio sample.
    pub bits_per_sample: Option<u32>,
    /// The number of bits per encoded audio sample.
    pub bits_per_coded_sample: Option<u32>,
    /// Leading frames inserted by the encoder, to be skipped during playback.
    pub delay: Option<u32>,
    /// Trailing frames inserted by the encoder, to be skipped during playback.
    pub padding: Option<u32>,
    /// The largest number of frames one packet holds.
    pub max_frames_per_packet: Option<u64>,
    /// Whether the demuxer guarantees packet data integrity.
    pub packet_data_integrity: bool,
    /// Frames per block, where packets are split into blocks.
    pub frames_per_block: Option<u64>,
    /// Extra data defined by the codec.
    pub extra_data: Option<Vec<u8>>,
    /// The number of channels in the stream.
    pub channel_count: Option<u32>,
}

impl Default for NodeCodecParameters {
    fn default() -> (r: Self)
        ensures
            r.sample_rate is None,
            r.n_frames is None,
            r.start_ts == 0,
            r.sample_format is None,
            r.bits_per_sample is None,
            r.bits_per_coded_sample is None,
            r.delay is None,
            r.padding is None,
            r.max_frames_per_packet is None,
            !r.packet_data_integrity,
            r.frames_per_block is None,
            r.extra_data is None,
            r.channel_count is None,
    {
        NodeCodecParameters {
            sample_rate: None,
            n_frames: None,
            start_ts: 0,
            sample_format: None,
            bits_per_sample: None,
            bits_per_coded_sample: None,
            delay: None,
            padding: None,
            max_frames_per_packet: None,
            packet_data_integrity: false,
            frames_per_block: None,
            extra_data: None,
            channel_count: None,
        }
    }
}

impl NodeCodecParameters {
    /// Gathers the stream parameters; a stream that names no sample format is taken as 32-bit float.
    pub fn new(
        sample_rate: Option<u32>,
        n_frames: Option<u64>,
        start_ts: u64,
        sample_format: Option<NodeSampleFormat>,
        bits_per_sample: Option<u32>,
        bits_per_coded_sample: Option<u32>,
        delay: Option<u32>,
        padding: Option<u32>,
        max_frames_per_packet: Option<u64>,
        packet_data_integrity: bool,
        frames_per_block: Option<u64>,
        extra_data: Option<Vec<u8>>,
        channel_count: Option<u32>,
    ) -> (r: Self)
        ensures
            r.sample_rate == sample_rate,
            r.n_frames == n_frames,
            r.start_ts == start_ts,
            r.sample_format == Some(
                match sample_format {
                    Some(f) => f,
                    None => NodeSampleFormat::F32,
                },
            ),
            r.bits_per_sample == bits_per_sample,
            r.bits_per_coded_sample == bits_per_coded_sample,
            r.delay == delay,
            r.padding == padding,
            r.max_frames_per_packet == max_frames_per_packet,
            r.packet_data_integrity == packet_data_integrity,
            r.frames_per_block == frames_per_block,
            r.extra_data == extra_data,
            r.channel_count == channel_count,
    {
        let format = match sample_format {
            Some(f) => f,
            None => NodeSampleFormat::F32,
        };
        NodeCodecParameters {
            sample_rate,
            n_frames,
            start_ts,
            sample_format: Some(format),
            bits_per_sample,
            bits_per_coded_sample,
            delay,
            padding,
            max_frames_per_packet,
            packet_data_integrity,
            frames_per_block,
            extra_data,
            channel_count,
        }
    }
}

/// Why the sample total of a list of streams could not be counted.
#[derive(Debug, Clone, Copy, PartialEq, Eq, Structural)]
pub enum RecountError {
    /// A stream does not state its length in frames.
    MissingFrameCount,
    /// A stream does not state its channel count.
    MissingChannels,
}

/// Whether a stream states both its length and its channel count.
pub open spec fn is_countable(p: NodeCodecParameters) -> bool {
    p.n_frames is Some && p.channel_count is Some
}

/// The samples of one stream: frames times channels.
pub open spec fn stream_samples(p: NodeCodecParameters) -> int {
    p.n_frames.unwrap() as int * p.channel_count.unwrap() as int
}

/// The samples of all streams of a list.
pub open spec fn total_samples(s: Seq<NodeCodecParameters>) -> int
    decreases s.len(),
{
    if s.len() == 0 {
        0
    } else {
        total_samples(s.drop_last()) + stream_samples(s.last())
    }
}

/// Whether the first stream of `s` that is not countable lacks its frame count.
pub open spec fn first_gap_is_frames(s: Seq<NodeCodecParameters>) -> bool {
    exists|i: int|
        0 <= i < s.len() && (forall|j: int| 0 <= j < i ==> is_countable(#[trigger] s[j]))
            && s[i].n_frames is None
}

/// Whether the first stream of `s` that is not countable has a frame count but no channel count.
pub open spec fn first_gap_is_channels(s: Seq<NodeCodecParameters>) -> bool {
    exists|i: int|
        0 <= i < s.len() && (forall|j: int| 0 <= j < i ==> is_countable(#[trigger] s[j]))
            && s[i].n_frames is Some && s[i].channel_count is None
}

proof fn lemma_total_samples_bound(s: Seq<NodeCodecParameters>)
    requires
        forall|j: int| 0 <= j < s.len() ==> is_countable(#[trigger] s[j]),
    ensures
        0 <= total_samples(s) <= s.len() * 0x1_0000_0000_0000_0000_0000_0000,
    decreases s.len(),
{
    if s.len() > 0 {
        let p = s.last();
        assert(is_countable(s[s.len() - 1]));
        assert forall|j: int| 0 <= j < s.drop_last().len() implies is_countable(
            #[trigger] s.drop_last()[j],
        ) by {
            assert(s.drop_last()[j] == s[j]);
        }
        lemma_total_samples_bound(s.drop_last());
        let f = p.n_frames.unwrap() as int;
        let c = p.channel_count.unwrap() as int;
        assert(0 <= f * c <= 0x1_0000_0000_0000_0000_0000_0000) by (nonlinear_arith)
            requires
                0 <= f < 0x1_0000_0000_0000_0000,
                0 <= c < 0x1_0000_0000,
        ;
        assert(s.len() * 0x1_0000_0000_0000_0000_0000_0000 == (s.len() - 1)
            * 0x1_0000_0000_0000_0000_0000_0000 + 0x1_0000_0000_0000_0000_0000_0000)
            by (nonlinear_arith);
    }
}

/// Counts the interleaved samples of every stream from their frame and channel counts,
/// to check a running total that is kept elsewhere.
pub fn recount_sample_length(samples: &Vec<NodeCodecParameters>) -> (r: Result<u128, RecountError>)
    requires
        samples.len() <= u32::MAX,
    ensures
        r is Ok <==> forall|j: int| 0 <= j < samples.len() ==> is_countable(#[trigger] samples@[j]),
        r is Ok ==> r.unwrap() == total_samples(samples@),
        r == Err::<u128, RecountError>(RecountError::MissingFrameCount) <==> first_gap_is_frames(samples@),
        r == Err::<u128, RecountError>(RecountError::MissingChannels) <==> first_gap_is_channels(samples@),
{
    let mut sample_count: u128 = 0;
    let mut i: usize = 0;
    while i < samples.len()
        invariant
            i <= samples.len() <= u32::MAX,
            forall|j: int| 0 <= j < i ==> is_countable(#[trigger] samples@[j]),
            sample_count == total_samples(samples@.take(i as int)),
        decreases samples.len() - i,
    {
        let p = &samples[i];
        proof {
            assert(samples@.take(i as int + 1).drop_last() == samples@.take(i as int));
        }
        match p.n_frames {
            None => {
                proof {
                    assert(first_gap_is_frames(samples@));
                    assert(!first_gap_is_channels(samples@)) by {
                        if first_gap_is_channels(samples@) {
                            let k = choose|k: int|
                                0 <= k < samples@.len() && (forall|j: int|
                                    0 <= j < k ==> is_countable(#[trigger] samples@[j]))
                                    && samples@[k].n_frames is Some
                                    && samples@[k].channel_count is None;
                            if k < i {
                            } else if k > i {
                                assert(is_countable(samples@[i as int]));
                            }
                        }
                    }
                }
                return Err(RecountError::MissingFrameCount);
            },
            Some(frames) => match p.channel_count {
                None => {
                    proof {
                        assert(first_gap_is_channels(samples@));
                        assert(!first_gap_is_frames(samples@)) by {
                            if first_gap_is_frames(samples@) {
                                let k = choose|k: int|
                                    0 <= k < samples@.len() && (forall|j: int|
                                        0 <= j < k ==> is_countable(#[trigger] samples@[j]))
                                        && samples@[k].n_frames is None;
                                if k < i {
                                } else if k > i {
                                    assert(is_countable(samples@[i as int]));
                                }
                            }
                        }
                    }
                    return Err(RecountError::MissingChannels);
                },
                Some(channels) => {
                    proof {
                        assert forall|j: int| 0 <= j < i + 1 implies is_countable(
                            #[trigger] samples@.take(i as int + 1)[j],
                        ) by {
                            assert(samples@.take(i as int + 1)[j] == samples@[j]);
                        }
                        lemma_total_samples_bound(samples@.take(i as int + 1));
                        assert((i as int + 1) * 0x1_0000_0000_0000_0000_0000_0000
                            <= 0x1_0000_0000 * 0x1_0000_0000_0000_0000_0000_0000)
                            by (nonlinear_arith)
                            requires
                                i + 1 <= 0x1_0000_0000,
                        ;
                        assert(samples@.take(i as int + 1).last() == samples@[i as int]);
                    }
                    let part = (frames as u128) * (channels as u128);
                    sample_count = sample_count + part;
                    i = i + 1;
                },
            },
        }
    }
    proof {
        assert(samples@.take(i as int) == samples@);
        assert(!first_gap_is_frames(samples@));
        assert(!first_gap_is_channels(samples@));
    }
    Ok(sample_count)
}

} // verus!
