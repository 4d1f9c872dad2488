use jangal::{is_video_file, purge_media, scan_file, scan_paths, Media, MediaId, Watched};

#[test]
fn only_supported_extensions_are_videos() {
    assert!(is_video_file("/a/b/movie.mkv"));
    assert!(is_video_file("/a/b/movie.MP4"));
    assert!(is_video_file("/a/b/movie.Mkv"));
    assert!(!is_video_file("/a/b/movie.avi"));
    assert!(!is_video_file("/a/b/movie"));
    assert!(!is_video_file("/a/b/.mkv"));
    assert!(!is_video_file("/a/b.mkv/readme"));
    assert!(!is_video_file("/a/b/movie.mkvx"));
}

#[test]
fn scanned_file_is_new_and_unwatched() {
    match scan_file("/v/x.mp4".to_string(), 42) {
        Some(Media::Uncategorised(u)) => {
            assert_eq!(u.video.path, "/v/x.mp4");
            assert_eq!(u.video.watched, Watched::No);
            assert_eq!(u.video.added, 42);
            assert_eq!(u.video.last_watched, None);
            assert!(!u.dont_scrape);
        }
        _ => panic!(),
    }
    assert!(scan_file("/v/x.txt".to_string(), 42).is_none());
}

#[test]
fn scan_keeps_each_path_once() {
    let found = scan_paths(
        vec![
            "/v/a.mkv".to_string(),
            "/v/notes.txt".to_string(),
            "/v/b.mp4".to_string(),
            "/v/a.mkv".to_string(),
        ],
        7,
    );
    let paths: Vec<String> = found.iter().map(|m| m.video().unwrap().path.clone()).collect();
    assert_eq!(paths, vec!["/v/a.mkv".to_string(), "/v/b.mp4".to_string()]);
}

#[test]
fn purge_reports_exactly_the_missing() {
    let probed = vec![(MediaId(1), true), (MediaId(2), false), (MediaId(3), true), (MediaId(4), false)];
    assert_eq!(purge_media(&probed), vec![MediaId(2), MediaId(4)]);
    let mut reversed = probed.clone();
    reversed.reverse();
    let mut again = purge_media(&reversed);
    again.sort();
    assert_eq!(again, vec![MediaId(2), MediaId(4)]);
    assert!(purge_media(&vec![]).is_empty());
}
