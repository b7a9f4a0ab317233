use dancey::transport::{PlaybackControl, PlaybackLine, PlaybackTimer, Transport, TransportAction, TransportState};
use dancey::worker::{input_frame_ready, ResampleWorker};

#[test]
fn worker_exhausts_and_stops() {
    let mut w = ResampleWorker::new(5);
    assert!(w.begin_request());
    // One packet holds 1152 samples; asking for far more than remains takes the rest.
    assert_eq!(w.more_packets(100000, 1152), 4);
    assert_eq!(w.backlog, 0);
    assert!(!w.begin_request());
    assert!(!w.live);
    assert!(!w.begin_request());
    assert_eq!(w.backlog, 0);
}

#[test]
fn worker_takes_what_the_request_covers() {
    let mut w = ResampleWorker::new(10);
    assert!(w.begin_request());
    assert_eq!(w.more_packets(2304, 1152), 2);
    assert_eq!(w.backlog, 7);
    assert_eq!(w.more_packets(5000, 0), 0);
    w.fail();
    assert!(!w.begin_request());
    assert!(input_frame_ready(1024, 1024));
    assert!(!input_frame_ready(1023, 1024));
}

#[test]
fn transport_plays_windows_in_turn() {
    let mut t = Transport::new(100);
    assert_eq!(t.tick(), TransportAction::Nothing);
    assert_eq!(t.play(), TransportAction::Mix { start: 0, end: 100 });
    assert_eq!(t.tick(), TransportAction::Mix { start: 100, end: 200 });
    assert_eq!(t.play(), TransportAction::Nothing);
    assert_eq!(t.command(PlaybackControl::Pause), TransportAction::Nothing);
    assert_eq!(t.state, TransportState::Paused);
    assert_eq!(t.tick(), TransportAction::Nothing);
    assert_eq!(t.command(PlaybackControl::Pause), TransportAction::Nothing);
    assert_eq!(t.command(PlaybackControl::Seek(1000)), TransportAction::Nothing);
    assert_eq!(t.tick(), TransportAction::Mix { start: 1000, end: 1100 });
    assert_eq!(t.command(PlaybackControl::Stop), TransportAction::Halt);
    assert_eq!(t.state, TransportState::Idle);
    assert_eq!(t.cursor, 0);
    assert_eq!(t.command(PlaybackControl::Stop), TransportAction::Nothing);
}

#[test]
fn transport_starts_from_seek() {
    let mut t = Transport::new(10);
    t.command(PlaybackControl::Seek(50));
    assert_eq!(t.play(), TransportAction::Mix { start: 50, end: 60 });
    let mut u = Transport::new(10);
    u.command(PlaybackControl::Seek(usize::MAX - 3));
    assert_eq!(u.play(), TransportAction::Mix { start: usize::MAX - 3, end: usize::MAX });
}

#[test]
fn timer_subtracts_pauses() {
    let mut timer = PlaybackTimer::new(1000);
    assert_eq!(timer.elapsed(1500), 500);
    timer.pause(2000);
    assert_eq!(timer.elapsed(2600), 1000);
    timer.pause(2500);
    timer.unpause(3000);
    assert_eq!(timer.paused_time, 1000);
    assert_eq!(timer.elapsed(4000), 2000);
    assert_eq!(timer.elapsed(500), 0);
    let line = PlaybackLine { pos: 7 };
    assert_eq!(line.pos, 7);
}
