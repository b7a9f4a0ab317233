use dancey::chunk_buffer::ChunkBuffer;
use dancey::codec::{NodeCodecParameters, NodeSampleFormat, RecountError, SamplePacket};
use dancey::grid::{calculate_last_node, LastNode, MusicGrid};
use dancey::item_group::ItemGroup;
use dancey::settings::{samples_per_beat, window_len, PlaybackImplementation, SampleRate, Settings};
use dancey::sound_node::{DecodeError, RequestError, SoundNode};

fn params(rate: Option<u32>, frames: Option<u64>, channels: Option<u32>) -> NodeCodecParameters {
    NodeCodecParameters::new(
        rate, frames, 0, None, None, None, None, None, None, false, None, None, channels,
    )
}

fn clip(frames: u64, project_rate: usize) -> SoundNode<f32> {
    SoundNode::new(
        String::from("clip"),
        String::from("clip.wav"),
        project_rate,
        vec![SamplePacket::new(vec![1, 2, 3], 0, 1152, 0)],
        params(Some(48000), Some(frames), Some(2)),
        None,
    )
    .unwrap()
}

#[test]
fn sample_rates_in_hz() {
    assert_eq!(SampleRate::ULow.hz(), 32000);
    assert_eq!(SampleRate::Low.hz(), 41000);
    assert_eq!(SampleRate::Medium.hz(), 48000);
    assert_eq!(SampleRate::High.hz(), 96000);
    assert_eq!(SampleRate::Ultra.hz(), 192000);
    assert_eq!(SampleRate::default(), SampleRate::Medium);
}

#[test]
fn settings_defaults() {
    let s = Settings::default();
    assert_eq!(s.master_audio_percent, 100);
    assert_eq!(s.master_sample_playback_type, PlaybackImplementation::Simd);
    assert_eq!(PlaybackImplementation::default(), PlaybackImplementation::Simd);
}

#[test]
fn samples_per_beat_formula() {
    assert_eq!(samples_per_beat(SampleRate::Medium, 100), 57600);
    assert_eq!(samples_per_beat(SampleRate::Medium, 60), 96000);
    assert_eq!(samples_per_beat(SampleRate::Low, 495), 9938);
    assert_eq!(window_len(SampleRate::Medium), 288000);
}

#[test]
fn chunk_buffer_hands_out_chunks() {
    let mut b = ChunkBuffer::from_vec(2, vec![1, 2, 3, 4, 5]);
    assert_eq!(b.get_chunk(), vec![1, 2]);
    assert_eq!(b.inner_buffer(), &[3, 4, 5]);
    assert_eq!(b.get_current_length(), 3);
    b.set_chunk_size(3);
    assert_eq!(b.get_chunk_size(), 3);
    *b.chunk_size_mut() = 1;
    assert_eq!(b.get_chunk(), vec![3]);
    b.push(9);
    let mut more = vec![10, 11];
    b.append(&mut more);
    assert!(more.is_empty());
    assert_eq!(b.drain_all(), vec![4, 5, 9, 10, 11]);
    assert_eq!(b.get_current_length(), 0);
    let e: ChunkBuffer<u8> = ChunkBuffer::new(4);
    assert_eq!(e.get_chunk_size(), 4);
    assert_eq!(e.get_current_length(), 0);
}

#[test]
fn recount_two_clips() {
    let list = vec![params(Some(44100), Some(44100), Some(2)), params(Some(22050), Some(22050), Some(2))];
    assert_eq!(MusicGrid::<f32>::recount_sample_length(&list), Ok(132300));
    assert_eq!(dancey::codec::recount_sample_length(&Vec::new()), Ok(0));
}

#[test]
fn recount_reports_first_gap() {
    let list = vec![params(None, Some(10), Some(2)), params(None, None, Some(2)), params(None, Some(5), None)];
    assert_eq!(dancey::codec::recount_sample_length(&list), Err(RecountError::MissingFrameCount));
    let list = vec![params(None, Some(10), None), params(None, None, Some(2))];
    assert_eq!(dancey::codec::recount_sample_length(&list), Err(RecountError::MissingChannels));
}

#[test]
fn codec_parameters_default_format() {
    let p = params(Some(1), Some(2), Some(2));
    assert_eq!(p.sample_format, Some(NodeSampleFormat::F32));
    let q = NodeCodecParameters::new(
        None, None, 7, Some(NodeSampleFormat::S16), Some(16), None, Some(1), Some(2), Some(1152), true, None,
        Some(vec![1]), Some(1),
    );
    assert_eq!(q.sample_format, Some(NodeSampleFormat::S16));
    assert_eq!(q.start_ts, 7);
    let d = NodeCodecParameters::default();
    assert_eq!(d.sample_rate, None);
    assert_eq!(d.channel_count, None);
}

#[test]
fn insert_at_same_place_replaces() {
    let mut g: ItemGroup<&str> = ItemGroup::new();
    g.insert(1, 5, "first");
    g.insert(1, 5, "second");
    let track = g.get(1).unwrap();
    assert_eq!(track.len(), 1);
    assert_eq!(track[0], (5, "second"));
    assert_eq!(g.value_len(), 1);
}

#[test]
fn same_position_on_other_tracks() {
    let mut g: ItemGroup<u32> = ItemGroup::new();
    g.insert(0, 5, 10);
    g.insert(1, 5, 11);
    g.insert(0, 7, 12);
    assert_eq!(g.key_len(), 2);
    assert_eq!(g.value_len(), 3);
    assert_eq!(g.get(0).unwrap(), &vec![(5, 10), (7, 12)]);
    assert_eq!(g.get(1).unwrap(), &vec![(5, 11)]);
    assert!(g.get(2).is_none());
}

#[test]
fn remove_keeps_order_of_the_rest() {
    let mut g: ItemGroup<u32> = ItemGroup::new();
    g.insert(0, 1, 10);
    g.insert(0, 2, 20);
    g.insert(0, 3, 30);
    assert_eq!(g.remove(&0, 1), Some(10));
    assert_eq!(g.get(0).unwrap(), &vec![(2, 20), (3, 30)]);
    assert_eq!(g.remove(&0, 9), None);
    assert_eq!(g.remove(&4, 1), None);
    g.clear();
    assert_eq!(g.key_len(), 0);
    assert_eq!(g.values().len(), 0);
}

#[test]
fn clip_construction_errors() {
    let pk = || vec![SamplePacket::new(vec![0], 0, 0, 0)];
    let e = SoundNode::<f32>::new(String::new(), String::new(), 48000, pk(), params(None, Some(1), None), None);
    assert_eq!(e.err(), Some(DecodeError::MissingSampleRate));
    let e = SoundNode::<f32>::new(String::new(), String::new(), 48000, pk(), params(Some(0), Some(1), None), None);
    assert_eq!(e.err(), Some(DecodeError::MissingSampleRate));
    let e = SoundNode::<f32>::new(String::new(), String::new(), 48000, pk(), params(Some(44100), None, None), None);
    assert_eq!(e.err(), Some(DecodeError::MissingFrameCount));
    let e = SoundNode::<f32>::new(String::new(), String::new(), 48000, Vec::new(), params(Some(44100), Some(1), None), None);
    assert_eq!(e.err(), Some(DecodeError::NoPackets));
}

#[test]
fn clip_lengths() {
    let n = SoundNode::<f32>::new(
        String::from("a"),
        String::from("a.mp3"),
        48000,
        vec![SamplePacket::new(vec![0], 0, 0, 0)],
        params(Some(44100), Some(44100 * 3 + 1), Some(2)),
        None,
    )
    .unwrap();
    assert_eq!(n.duration_secs(), 4);
    assert_eq!(n.sample_count(), (48000 * (44100 * 3 + 1) / 44100) * 2);
    assert_eq!(n.name(), "a");
    assert_eq!(n.path(), "a.mp3");
    assert_eq!(n.packets().len(), 1);
    assert_eq!(n.default_request_count(), 44100 * 3 * 2);
}

#[test]
fn request_without_worker() {
    let mut n = clip(10, 48000);
    assert_eq!(n.request_default_count_sample_parsing(), Err(RequestError::ChannelMissing));
    assert_eq!(n.request_custom_count_sample_parsing(5), Err(RequestError::ChannelMissing));
}

#[test]
fn request_reaches_worker() {
    let (tx, rx) = std::sync::mpsc::channel();
    let mut n = SoundNode::<f32>::new(
        String::from("a"),
        String::from("a"),
        48000,
        vec![SamplePacket::new(vec![0], 0, 0, 0)],
        params(Some(44100), Some(10), Some(2)),
        Some(tx),
    )
    .unwrap();
    assert_eq!(n.request_default_count_sample_parsing(), Ok(()));
    assert_eq!(rx.recv().unwrap(), (None, 264600));
    assert_eq!(n.request_custom_count_sample_parsing(7), Ok(()));
    assert_eq!(rx.recv().unwrap(), (None, 7));
    drop(rx);
    assert_eq!(n.request_custom_count_sample_parsing(7), Err(RequestError::ResamplingUnavailable));
}

#[test]
fn name_can_be_edited() {
    let mut n = clip(10, 48000);
    n.name_mut().push_str("-x");
    assert_eq!(n.name(), "clip-x");
}

#[test]
fn extent_follows_inserts_and_removals() {
    let mut grid: MusicGrid<f32> = MusicGrid::new(2);
    assert_eq!(grid.last_node(), None);
    // 1 s clip at beat 0; 10 s clip at beat 1 on track 1; 1 s clip at beat 3.
    grid.insert_node(0, 0, clip(48000, 48000));
    grid.insert_node(1, 1, clip(480000, 48000));
    grid.insert_node(0, 3, clip(48000, 48000));
    assert_eq!(grid.last_node(), Some(LastNode { track: 1, position: 1, sample_count: 960000 }));
    assert!(grid.remove_node(1, 1).is_some());
    assert_eq!(grid.last_node(), Some(LastNode { track: 0, position: 3, sample_count: 96000 }));
    assert!(grid.remove_node(0, 3).is_some());
    assert!(grid.remove_node(0, 0).is_some());
    assert_eq!(grid.last_node(), None);
    assert!(grid.remove_node(0, 0).is_none());
}

#[test]
fn extent_ties_go_to_the_later_clip() {
    let mut g: ItemGroup<SoundNode<f32>> = ItemGroup::new();
    // At 60 bpm a beat is a second: beat 1 + 1 s ends with beat 0 + 2 s.
    g.insert(0, 1, clip(48000, 48000));
    g.insert(1, 0, clip(96000, 48000));
    assert_eq!(calculate_last_node(&g, 60), Some(LastNode { track: 1, position: 0, sample_count: 192000 }));
    assert_eq!(calculate_last_node(&ItemGroup::<SoundNode<f32>>::new(), 60), None);
}

#[test]
fn grid_settings() {
    let mut grid: MusicGrid<f32> = MusicGrid::new(3);
    assert_eq!(grid.track_count(), 3);
    assert_eq!(grid.beat_per_minute(), 100);
    assert_eq!(grid.sample_rate(), SampleRate::Medium);
    grid.set_beat_per_minute(120);
    grid.set_sample_rate(SampleRate::High);
    grid.set_track_count(4);
    assert_eq!(grid.beat_per_minute(), 120);
    assert_eq!(grid.sample_rate(), SampleRate::High);
    assert_eq!(grid.track_count(), 4);
    grid.insert_node(0, 0, clip(1, 48000));
    grid.clear();
    assert_eq!(grid.last_node(), None);
    assert_eq!(grid.nodes().key_len(), 0);
}

#[test]
fn drop_lands_on_row_and_beat() {
    let grid: MusicGrid<f32> = MusicGrid::new(2);
    // 1000 px wide at 100 bpm: one beat per 10 px.
    assert_eq!(grid.drop_target(55, 150, 1000, 0), Some((1, 5)));
    assert_eq!(grid.drop_target(55, 20, 1000, 200), Some((0, 25)));
    assert_eq!(grid.drop_target(55, 200, 1000, 0), None);
    assert_eq!(grid.drop_target(1000, 10, 1000, 0), None);
}

#[test]
fn default_grid() {
    let grid: MusicGrid<f32> = MusicGrid::default();
    assert_eq!(grid.track_count(), 1);
    assert_eq!(grid.beat_per_minute(), 100);
    assert_eq!(grid.last_node(), None);
    assert_eq!(grid.sample_rate(), SampleRate::Medium);
}

#[test]
fn extent_uses_exact_end_times() {
    // At 100 bpm a beat is 0.6 s: 1.0 s from beat 1 ends at 1.6 s, later than 1.5 s from beat 0.
    let mut grid: MusicGrid<f32> = MusicGrid::new(2);
    grid.insert_node(0, 1, clip(48000, 48000));
    grid.insert_node(1, 0, clip(72000, 48000));
    assert_eq!(grid.last_node(), Some(LastNode { track: 0, position: 1, sample_count: 96000 }));
    assert_eq!(grid.preview_len(), Some(57600 + 96000));
}
