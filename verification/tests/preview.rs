use ovax::preview::{preview_height, preview_height_fits, FrameStep, FrameTiming, PreviewProgress, PREVIEW_WIDTH};

#[test]
fn preview_keeps_aspect_ratio() {
    assert_eq!(PREVIEW_WIDTH, 320);
    assert_eq!(preview_height(1920, 1080), 180);
    assert_eq!(preview_height(1280, 720), 180);
    assert_eq!(preview_height(640, 481), 240);
    assert_eq!(preview_height(1080, 1920), 568);
}

#[test]
fn frames_are_skipped_encoded_then_stopped() {
    let mut p = PreviewProgress::new(2);
    assert_eq!(p.step(FrameTiming::Untimed), FrameStep::Skip);
    assert_eq!(p.step(FrameTiming::BeforeStart), FrameStep::Skip);
    assert_eq!(p.step(FrameTiming::FromStart), FrameStep::Encode);
    assert_eq!(p.packet_pts_ms(), 0);
    p.frame_sent();
    assert_eq!(p.step(FrameTiming::FromStart), FrameStep::Encode);
    assert_eq!(p.packet_pts_ms(), 40);
    p.frame_sent();
    assert_eq!(p.step(FrameTiming::FromStart), FrameStep::Stop);
    assert_eq!(p.step(FrameTiming::BeforeStart), FrameStep::Skip);
    assert_eq!(p.frame_count, 2);
}

#[test]
fn zero_frames_wanted_stops_at_once() {
    let p = PreviewProgress::new(0);
    assert_eq!(p.step(FrameTiming::FromStart), FrameStep::Stop);
}

#[test]
fn drained_packets_advance_one_frame_each() {
    let mut p = PreviewProgress::new(125);
    p.frame_count = 125;
    assert_eq!(p.flush_packet_pts_ms(), 5000);
    assert_eq!(p.flush_packet_pts_ms(), 5040);
    assert_eq!(p.frame_count, 127);
}

#[test]
fn exactly_the_first_frames_from_start_are_encoded() {
    let timings = [
        FrameTiming::BeforeStart,
        FrameTiming::FromStart,
        FrameTiming::Untimed,
        FrameTiming::FromStart,
        FrameTiming::FromStart,
        FrameTiming::FromStart,
    ];
    let mut p = PreviewProgress::new(2);
    let mut encoded = Vec::new();
    let mut stopped_at = None;
    for (i, t) in timings.iter().enumerate() {
        match p.step(*t) {
            FrameStep::Skip => {}
            FrameStep::Stop => {
                stopped_at = Some(i);
                break;
            }
            FrameStep::Encode => {
                encoded.push(i);
                p.frame_sent();
            }
        }
    }
    assert_eq!(encoded, vec![1, 3]);
    assert_eq!(stopped_at, Some(4));
    assert_eq!(p.frame_count, 2);
}

#[test]
fn preview_height_check() {
    assert!(preview_height_fits(1920, 1080));
    assert!(!preview_height_fits(0, 1080));
    assert!(!preview_height_fits(1920, 20_000_000));
}
