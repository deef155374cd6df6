use ovax::clock::{format_clock, format_duration, format_human_time};
use ovax::layout::{grid_inputs_fit, plan_sprite_sheets};
use ovax::sprite::{
    generate_sprite_manifest, keyframe_image_file_name, manifest_inputs_fit, KeyframeInfo,
    KeyframeScanResult,
};

fn frame(ms: i64, human: &str) -> KeyframeInfo {
    KeyframeInfo { time_ms: ms, time_human: human.to_string() }
}

fn scan(frames: Vec<KeyframeInfo>) -> KeyframeScanResult {
    KeyframeScanResult::new(frames)
}

#[test]
fn scan_result_counts_its_keyframes() {
    let r = scan(vec![frame(0, "00:00:00.000"), frame(1000, "00:00:01.000")]);
    assert_eq!(r.total_keyframes, 2);
    assert_eq!(r.keyframes.len(), 2);
}

#[test]
fn manifest_single_sheet_layout() {
    let r = scan(vec![
        frame(2280, "00:00:02.280"),
        frame(3680, "00:00:03.680"),
        frame(5000, "00:00:05.000"),
    ]);
    let m = generate_sprite_manifest(&r, 2, 2, 160, 90);
    assert_eq!(m.len(), 3);
    assert_eq!(m[0].time_start_ms, 2280);
    assert_eq!(m[0].time_end_ms, 3680);
    assert_eq!(m[0].time_display, "00:00:02.280 --> 00:00:03.680");
    assert_eq!(m[0].sheet_file, "sprite_sheet_1.jpg");
    assert_eq!(m[0].xywh, "0,0,160,90");
    assert_eq!(m[1].xywh, "160,0,160,90");
    assert_eq!(m[2].xywh, "0,90,160,90");
    assert_eq!(m[2].time_end_ms, 7000);
    assert_eq!(m[2].time_display, "00:00:05.000 --> 00:00:07.000");
}

#[test]
fn manifest_spreads_over_sheets() {
    let frames: Vec<KeyframeInfo> =
        (0..5).map(|i| frame(i * 1000, &format_human_time(i * 1000))).collect();
    let m = generate_sprite_manifest(&scan(frames), 1, 2, 10, 20);
    let sheets: Vec<&str> = m.iter().map(|e| e.sheet_file.as_str()).collect();
    assert_eq!(
        sheets,
        vec![
            "sprite_sheet_1.jpg",
            "sprite_sheet_1.jpg",
            "sprite_sheet_2.jpg",
            "sprite_sheet_2.jpg",
            "sprite_sheet_3.jpg"
        ]
    );
    assert_eq!(m[3].xywh, "10,0,10,20");
    assert_eq!(m[4].xywh, "0,0,10,20");
}

#[test]
fn manifest_of_no_keyframes_is_empty() {
    let m = generate_sprite_manifest(&scan(vec![]), 0, 0, 160, 90);
    assert!(m.is_empty());
}

#[test]
fn manifest_spans_are_contiguous_on_example() {
    let r = scan(vec![frame(0, "a"), frame(1500, "b"), frame(4000, "c"), frame(4001, "d")]);
    let m = generate_sprite_manifest(&r, 3, 3, 1, 1);
    for i in 0..m.len() - 1 {
        assert_eq!(m[i].time_end_ms, m[i + 1].time_start_ms);
    }
}

#[test]
fn manifest_agrees_with_sheet_plan_on_example() {
    let frames: Vec<KeyframeInfo> = (0..7).map(|i| frame(i * 40, "t")).collect();
    let (rows, cols, w, h) = (2u32, 2u32, 160u32, 90u32);
    let m = generate_sprite_manifest(&scan(frames), rows, cols, w, h);
    let plan = plan_sprite_sheets(7, rows, cols, w, h);
    for (i, entry) in m.iter().enumerate() {
        let sheet = &plan[i / 4];
        let tile = sheet.tiles[i % 4];
        assert_eq!(tile.frame_index, i);
        assert_eq!(entry.sheet_file, sheet.file_name);
        assert_eq!(entry.xywh, format!("{},{},{},{}", tile.x, tile.y, w, h));
    }
}

#[test]
fn sheet_plan_groups_and_places_frames() {
    let plan = plan_sprite_sheets(5, 2, 2, 160, 90);
    assert_eq!(plan.len(), 2);
    assert_eq!(plan[0].file_name, "sprite_sheet_1.jpg");
    assert_eq!(plan[1].file_name, "sprite_sheet_2.jpg");
    assert_eq!((plan[0].width, plan[0].height), (320, 180));
    assert_eq!(plan[0].tiles.len(), 4);
    assert_eq!(plan[1].tiles.len(), 1);
    assert_eq!((plan[0].tiles[3].x, plan[0].tiles[3].y), (160, 90));
    assert_eq!(plan[1].tiles[0].frame_index, 4);
    assert_eq!((plan[1].tiles[0].x, plan[1].tiles[0].y), (0, 0));
    assert!(plan_sprite_sheets(0, 2, 2, 160, 90).is_empty());
}

#[test]
fn human_time_examples() {
    assert_eq!(format_human_time(0), "00:00:00.000");
    assert_eq!(format_human_time(3_723_004), "01:02:03.004");
    assert_eq!(format_human_time(59_999), "00:00:59.999");
    assert_eq!(format_human_time(360_000_000), "100:00:00.000");
    assert_eq!(format_human_time(-1), "00:00:00.000");
    assert_eq!(format_human_time(-3_600_000), "00:00:00.000");
    assert_eq!(format_human_time(2000), "00:00:02.000");
}

#[test]
fn clock_fields_are_padded_not_truncated() {
    assert_eq!(format_clock(3661, 7), "01:01:01.007");
    assert_eq!(format_clock(59, 999), "00:00:59.999");
}

#[test]
fn clock_text_reads_back_on_example() {
    let t = format_human_time(7_384_250);
    let parts: Vec<&str> = t.split(|c| c == ':' || c == '.').collect();
    let v: Vec<i64> = parts.iter().map(|p| p.parse().unwrap()).collect();
    assert_eq!(((v[0] * 3600 + v[1] * 60 + v[2]) * 1000) + v[3], 7_384_250);
}

#[test]
fn keyframe_image_names() {
    assert_eq!(keyframe_image_file_name(0), "frame_00000.png");
    assert_eq!(keyframe_image_file_name(42), "frame_00042.png");
    assert_eq!(keyframe_image_file_name(123_456), "frame_123456.png");
    assert_ne!(keyframe_image_file_name(1), keyframe_image_file_name(10));
}

#[test]
fn duration_text_examples() {
    assert_eq!(format_duration(0), "00:00:00");
    assert_eq!(format_duration(3723), "01:02:03");
    assert_eq!(format_duration(360_000), "100:00:00");
}

#[test]
fn grid_and_manifest_checks() {
    assert!(grid_inputs_fit(5, 5, 160, 90));
    assert!(!grid_inputs_fit(0, 5, 160, 90));
    assert!(!grid_inputs_fit(70_000, 70_000, 1, 1));
    assert!(!grid_inputs_fit(1, 2, u32::MAX, 1));
    let one = scan(vec![frame(0, "a")]);
    assert!(manifest_inputs_fit(&one, 1, 1, u32::MAX, u32::MAX));
    assert!(!manifest_inputs_fit(&one, 0, 1, 1, 1));
    assert!(manifest_inputs_fit(&scan(vec![]), 0, 0, 1, 1));
    assert!(!manifest_inputs_fit(&scan(vec![]), 70_000, 70_000, 1, 1));
    let two = scan(vec![frame(0, "a"), frame(1, "b")]);
    assert!(manifest_inputs_fit(&two, 1, 2, u32::MAX, 1));
    assert!(manifest_inputs_fit(&two, 2, 1, 1, u32::MAX));
    let three = scan(vec![frame(0, "a"), frame(1, "b"), frame(2, "c")]);
    assert!(!manifest_inputs_fit(&three, 1, 3, u32::MAX / 2 + 1, 1));
    assert!(!manifest_inputs_fit(&three, 3, 1, 1, u32::MAX / 2 + 1));
    assert!(manifest_inputs_fit(&three, 3, 1, 1, u32::MAX / 2));
    let late = scan(vec![frame(i64::MAX - 1999, "z")]);
    assert!(!manifest_inputs_fit(&late, 1, 1, 1, 1));
}
