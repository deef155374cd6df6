use ovax::thumb::{pack_rgb_rows, rows_fit, thumbnail_file_name, ExtractionResults, ThumbOutcome};

#[test]
fn packs_rows_dropping_padding() {
    let data: Vec<u8> = (0u8..16).collect();
    assert_eq!(pack_rgb_rows(&data, 1, 2, 8), vec![0, 1, 2, 8, 9, 10]);
    assert_eq!(pack_rgb_rows(&data, 2, 2, 6), vec![0, 1, 2, 3, 4, 5, 6, 7, 8, 9, 10, 11]);
    assert_eq!(pack_rgb_rows(&data, 5, 0, 100), Vec::<u8>::new());
    assert_eq!(pack_rgb_rows(&data[..3], 1, 1, 3), vec![0, 1, 2]);
}

#[test]
fn thumbnail_names() {
    assert_eq!(thumbnail_file_name(Some("holiday")), "holiday.jpg");
    assert_eq!(thumbnail_file_name(Some("")), ".jpg");
    assert_eq!(thumbnail_file_name(None), "thumb.jpg");
}

#[test]
fn extraction_results_collect_outcomes() {
    let outcomes = vec![
        ThumbOutcome::Extracted { video_path: "a.mp4".to_string() },
        ThumbOutcome::Failed { video_path: "b.mp4".to_string(), error: "No video stream found".to_string() },
        ThumbOutcome::Extracted { video_path: "c.mp4".to_string() },
    ];
    let r = ExtractionResults::from_outcomes(&outcomes);
    assert_eq!(r.successes, vec!["a.mp4".to_string(), "c.mp4".to_string()]);
    assert_eq!(r.failures.len(), 1);
    assert_eq!(
        r.failures.get(&"b.mp4".to_string()).map(|s| s.as_str()),
        Some("No video stream found")
    );
    let empty = ExtractionResults::new();
    assert!(empty.successes.is_empty());
    assert_eq!(empty.failures.len(), 0);
}

#[test]
fn row_bounds_check() {
    assert!(rows_fit(16, 1, 2, 8));
    assert!(rows_fit(11, 1, 2, 8));
    assert!(!rows_fit(10, 1, 2, 8));
    assert!(rows_fit(0, 5, 0, 100));
    assert!(rows_fit(0, usize::MAX, 0, 1));
    assert!(!rows_fit(usize::MAX, usize::MAX / 2, 1, 0));
}
