use dancey::codec::{NodeCodecParameters, SamplePacket};
use dancey::grid::{wants_read_ahead, MusicGrid};
use dancey::mix::{add_clip, add_lanes, add_pointwise};
use dancey::sound_node::SoundNode;

fn sum(a: f32, b: f32) -> f32 {
    a + b
}

fn clip_with(samples: Vec<f32>, frames: u64) -> SoundNode<f32> {
    let p = NodeCodecParameters::new(
        Some(48000), Some(frames), 0, None, None, None, None, None, None, false, None, None, Some(2),
    );
    let mut node = SoundNode::new(
        String::from("clip"),
        String::from("clip.wav"),
        48000,
        vec![SamplePacket::new(vec![0], 0, 0, 0)],
        p,
        None,
    )
    .unwrap();
    let mut s = samples;
    node.append_samples(&mut s);
    node
}

fn ramp(n: usize, scale: f32) -> Vec<f32> {
    (0..n).map(|i| ((i % 97) as f32) * scale - 0.3).collect()
}

#[test]
fn single_clip_preview_is_verbatim() {
    let samples = ramp(9600, 0.01);
    let mut grid: MusicGrid<f32> = MusicGrid::new(1);
    grid.insert_node(0, 0, clip_with(samples.clone(), 4800));
    assert_eq!(grid.preview_len(), Some(9600));
    let simd = grid.create_preview_samples_simd(0.0, &sum).unwrap();
    assert_eq!(simd.len(), 9600);
    assert_eq!(simd, samples);
    let scalar = grid.create_preview_samples(0.0, &sum).unwrap();
    assert_eq!(scalar, samples);
    // The scalar preview takes the produced samples out of the clips.
    let again = grid.create_preview_samples_simd(0.0, &sum).unwrap();
    assert!(again.iter().all(|s| *s == 0.0));
}

#[test]
fn empty_grid_has_no_preview() {
    let mut grid: MusicGrid<f32> = MusicGrid::new(1);
    assert!(grid.create_preview_samples_simd(0.0, &sum).is_none());
    assert!(grid.create_preview_samples(0.0, &sum).is_none());
    assert_eq!(grid.preview_len(), None);
}

#[test]
fn overlapping_clips_sum() {
    // 100 bpm at 48000 Hz: one beat is 57600 interleaved samples.
    let n = 57600;
    let a = ramp(60000, 0.001);
    let b = ramp(10000, 0.002);
    let mut grid: MusicGrid<f32> = MusicGrid::new(1);
    grid.insert_node(0, 0, clip_with(a.clone(), 30000));
    grid.insert_node(0, 1, clip_with(b.clone(), 5000));
    let out = grid.create_preview_samples_simd(0.0, &sum).unwrap();
    assert_eq!(out.len(), n + 10000);
    for i in 0..n {
        assert_eq!(out[i], a[i]);
    }
    for i in n..60000 {
        assert_eq!(out[i], a[i] + b[i - n]);
    }
    for i in 60000..n + 10000 {
        assert_eq!(out[i], b[i - n]);
    }
}

#[test]
fn scalar_and_lane_previews_agree() {
    let mut grid: MusicGrid<f32> = MusicGrid::new(3);
    grid.insert_node(0, 0, clip_with(ramp(70002, 0.0137), 35000));
    grid.insert_node(1, 1, clip_with(ramp(33334, 0.071), 16666));
    grid.insert_node(2, 0, clip_with(ramp(32, 1.5), 16));
    grid.insert_node(2, 1, clip_with(ramp(57602, 0.9), 28800));
    let lanes = grid.create_preview_samples_simd(0.0, &sum).unwrap();
    let scalar = grid.create_preview_samples(0.0, &sum).unwrap();
    assert_eq!(lanes.len(), scalar.len());
    for (x, y) in lanes.iter().zip(scalar.iter()) {
        assert_eq!(x.to_bits(), y.to_bits());
    }
}

#[test]
fn windows_concatenate() {
    let mut grid: MusicGrid<f32> = MusicGrid::new(2);
    grid.insert_node(0, 0, clip_with(ramp(70002, 0.0137), 35000));
    grid.insert_node(1, 1, clip_with(ramp(33334, 0.071), 16666));
    let (a, b, c) = (1000, 58000, 90000);
    let mut left = grid.buffer_preview_samples_simd(a, b, 0.0, &sum);
    let right = grid.buffer_preview_samples_simd(b, c, 0.0, &sum);
    left.extend(right);
    let whole = grid.buffer_preview_samples_simd(a, c, 0.0, &sum);
    assert_eq!(left, whole);
    let full = grid.create_preview_samples_simd(0.0, &sum).unwrap();
    assert_eq!(&full[a..c], &whole[..]);
    assert!(grid.buffer_preview_samples_simd(5, 5, 0.0, &sum).is_empty());
}

#[test]
fn window_past_every_clip_is_silent() {
    let mut grid: MusicGrid<f32> = MusicGrid::new(1);
    grid.insert_node(0, 0, clip_with(ramp(100, 1.0), 50));
    let w = grid.buffer_preview_samples_simd(200, 264, 0.0, &sum);
    assert_eq!(grid.last_node().map(|n| n.sample_count), Some(100));
    assert_eq!(w, vec![0.0; 64]);
}

#[test]
fn region_sums() {
    let mut a = vec![1.0f32; 40];
    add_pointwise(&mut a, 2, &[1.0, 2.0, 3.0], 1, 2, &sum);
    assert_eq!(&a[0..5], &[1.0, 1.0, 3.0, 4.0, 1.0]);
    let mut b = vec![1.0f32; 40];
    let src: Vec<f32> = (0..40).map(|i| i as f32).collect();
    add_lanes(&mut b, 1, &src, 0, 35, 0.0, &sum);
    assert_eq!(b[0], 1.0);
    assert_eq!(b[1], 1.0);
    assert_eq!(b[35], 35.0);
    assert_eq!(b[36], 1.0);
    let mut c = vec![0.0f32; 10];
    add_clip(&mut c, 100, 95, &[1.0; 8], 0.0, &sum, true);
    assert_eq!(c, vec![1.0, 1.0, 1.0, 0.0, 0.0, 0.0, 0.0, 0.0, 0.0, 0.0]);
}

#[test]
fn reversed_window_is_empty() {
    let mut grid: MusicGrid<f32> = MusicGrid::new(1);
    grid.insert_node(0, 0, clip_with(ramp(100, 1.0), 50));
    assert!(grid.buffer_preview_samples_simd(60, 10, 0.0, &sum).is_empty());
}

#[test]
fn read_ahead_follows_produced_span() {
    assert!(wants_read_ahead(10, 5, 12, 20));
    assert!(wants_read_ahead(10, 5, 0, 11));
    assert!(!wants_read_ahead(10, 5, 15, 20));
    assert!(!wants_read_ahead(10, 5, 0, 10));
    assert!(!wants_read_ahead(10, 0, 0, 20));
    assert!(wants_read_ahead(usize::MAX - 1, 4, usize::MAX - 1, usize::MAX));
}

#[test]
fn window_asks_clips_it_meets() {
    let (tx, rx) = std::sync::mpsc::channel();
    let p = NodeCodecParameters::new(
        Some(48000), Some(50), 0, None, None, None, None, None, None, false, None, None, Some(2),
    );
    let mut node = SoundNode::new(
        String::from("a"),
        String::from("a.wav"),
        48000,
        vec![SamplePacket::new(vec![0], 0, 0, 0)],
        p,
        Some(tx),
    )
    .unwrap();
    let mut s = ramp(100, 1.0);
    node.append_samples(&mut s);
    let mut grid: MusicGrid<f32> = MusicGrid::new(1);
    grid.insert_node(0, 0, node);
    grid.buffer_preview_samples_simd(50, 150, 0.0, &sum);
    assert_eq!(rx.try_recv().unwrap(), (None, 288000));
    assert!(rx.try_recv().is_err());
    grid.buffer_preview_samples_simd(100, 200, 0.0, &sum);
    assert!(rx.try_recv().is_err());
}
