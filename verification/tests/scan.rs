use ovax::scan::{
    has_mp4_extension, normalize_separators, pick_video_track, select_mp4_files,
    video_candidate_indices, DirEntryInfo, TrackPick, TrackSummary,
};

fn entry(path: &str, name: Option<&str>, is_file: bool) -> DirEntryInfo {
    DirEntryInfo { path: path.to_string(), file_name: name.map(|s| s.to_string()), is_file }
}

#[test]
fn mp4_extension_rules() {
    assert!(has_mp4_extension("clip.mp4", false));
    assert!(has_mp4_extension("a.tar.mp4", false));
    assert!(!has_mp4_extension("clip.MP4", false));
    assert!(has_mp4_extension("clip.MP4", true));
    assert!(has_mp4_extension("clip.Mp4", true));
    assert!(!has_mp4_extension(".mp4", false));
    assert!(!has_mp4_extension(".mp4", true));
    assert!(!has_mp4_extension("mp4", false));
    assert!(!has_mp4_extension("clip.mp4.bak", true));
    assert!(!has_mp4_extension("clip.", false));
    assert!(!has_mp4_extension("..", false));
    assert!(!has_mp4_extension("clip.mp", false));
    assert!(has_mp4_extension("..mp4", false));
}

#[test]
fn separators_become_forward_slashes() {
    assert_eq!(normalize_separators("C:\\videos\\a.mp4"), "C:/videos/a.mp4");
    assert_eq!(normalize_separators("/srv/v/a.mp4"), "/srv/v/a.mp4");
    let once = normalize_separators("a\\b/c\\\\d");
    assert_eq!(once, "a/b/c//d");
    assert_eq!(normalize_separators(&once), once);
}

#[test]
fn scan_keeps_regular_mp4_files_in_order() {
    let entries = vec![
        entry("root", Some("root"), false),
        entry("root\\a.mp4", Some("a.mp4"), true),
        entry("root/dir.mp4", Some("dir.mp4"), false),
        entry("root/b.MP4", Some("b.MP4"), true),
        entry("root/c.mp4", Some("c.mp4"), true),
        entry("..", None, false),
    ];
    assert_eq!(select_mp4_files(&entries), vec!["root/a.mp4".to_string(), "root/c.mp4".to_string()]);
}

#[test]
fn detailed_scan_candidates_ignore_case_and_kind() {
    let entries = vec![
        entry("root", Some("root"), false),
        entry("root/a.mp4", Some("a.mp4"), true),
        entry("root/dir.mp4", Some("dir.mp4"), false),
        entry("root/b.MP4", Some("b.MP4"), true),
        entry("root/c.mkv", Some("c.mkv"), true),
    ];
    assert_eq!(video_candidate_indices(&entries), vec![1, 2, 3]);
}

fn track(is_video: bool, codec: Option<&str>) -> TrackSummary {
    TrackSummary { is_video, codec: codec.map(|c| c.to_string()) }
}

#[test]
fn first_video_track_is_picked() {
    assert_eq!(
        pick_video_track(&vec![track(false, Some("mp4a")), track(true, Some("avc1")), track(true, Some("hev1"))]),
        TrackPick::Video(1)
    );
    assert_eq!(pick_video_track(&vec![track(false, Some("mp4a"))]), TrackPick::NoVideoTrack);
    assert_eq!(pick_video_track(&vec![]), TrackPick::NoVideoTrack);
    assert_eq!(
        pick_video_track(&vec![track(true, None), track(true, Some("avc1"))]),
        TrackPick::Unreadable
    );
}
