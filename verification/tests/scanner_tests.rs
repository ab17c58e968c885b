use mdlyricgetter::scanner::{has_allowed_extension, ScanAction, Scanner, WalkEntry};

fn dir(path: &str, depth: usize) -> WalkEntry {
    WalkEntry { path: path.to_string(), depth, is_dir: true, is_file: false }
}

fn file(path: &str, depth: usize) -> WalkEntry {
    WalkEntry { path: path.to_string(), depth, is_dir: false, is_file: true }
}

fn exts(list: &[&str]) -> Vec<String> {
    list.iter().map(|e| e.to_string()).collect()
}

#[test]
fn extension_match_is_case_insensitive_and_needs_a_dot() {
    let allowed = exts(&["mp3", "flac"]);
    assert!(has_allowed_extension("root/song1.mp3", &allowed));
    assert!(has_allowed_extension("root/sub/song2.MP3", &allowed));
    assert!(has_allowed_extension("track.FlAc", &allowed));
    assert!(!has_allowed_extension("root/readme.txt", &allowed));
    assert!(!has_allowed_extension("root/no_extension", &allowed));
    assert!(!has_allowed_extension("root/.mp3", &allowed));
    assert!(!has_allowed_extension("root/trailing.", &allowed));
    assert!(has_allowed_extension("archive.tar.mp3", &allowed));
}

#[test]
fn collects_mp3_files_recursively() {
    let mut scanner = Scanner::new("root".to_string(), None, false, exts(&["mp3"]));
    let entries = vec![
        dir("root", 0),
        file("root/song1.mp3", 1),
        dir("root/sub", 1),
        file("root/sub/song2.MP3", 2),
        file("root/readme.txt", 1),
        dir("root/not_audio.mp3", 1),
    ];
    let mut collected = scanner.scan_entries(&entries);
    collected.sort();

    assert_eq!(collected, vec!["root/song1.mp3".to_string(), "root/sub/song2.MP3".to_string()]);
    assert_eq!(scanner.skipped_due_to_depth(), 0);
    assert!(scanner.depth_skipped_paths().is_empty());
}

#[test]
fn respects_max_depth_and_tracks_skips() {
    let mut scanner = Scanner::new("root".to_string(), Some(2), false, exts(&["mp3"]));
    let entries = vec![
        dir("root", 0),
        file("root/root.mp3", 1),
        dir("root/sub", 1),
        file("root/sub/mid.mp3", 2),
        dir("root/sub/deep", 2),
    ];
    let mut collected = scanner.scan_entries(&entries);
    collected.sort();

    assert_eq!(collected, vec!["root/root.mp3".to_string(), "root/sub/mid.mp3".to_string()]);
    assert_eq!(scanner.skipped_due_to_depth(), 1);
    assert_eq!(scanner.depth_skipped_paths(), vec!["root/sub/deep".to_string()]);
}

#[test]
fn filters_multiple_extensions() {
    let mut scanner = Scanner::new("root".to_string(), None, false, exts(&["mp3", "flac"]));
    let entries = vec![
        dir("root", 0),
        file("root/song.mp3", 1),
        file("root/track.flac", 1),
        file("root/notes.txt", 1),
    ];
    let collected = scanner.scan_entries(&entries);
    assert_eq!(collected, vec!["root/song.mp3".to_string(), "root/track.flac".to_string()]);
}

#[test]
fn prunes_each_directory_at_the_limit_exactly_once() {
    let mut scanner = Scanner::new("root".to_string(), Some(1), false, exts(&["mp3"]));

    assert_eq!(scanner.classify_entry(&dir("root", 0)), ScanAction::Ignore);
    assert_eq!(scanner.classify_entry(&file("root/a.mp3", 1)), ScanAction::Yield);
    assert_eq!(scanner.classify_entry(&dir("root/sub", 1)), ScanAction::Prune);
    // an entry already below the limit, met through another route, is
    // silently dropped without a second pruning record
    assert_eq!(scanner.classify_entry(&file("root/sub/b.mp3", 2)), ScanAction::Ignore);

    assert_eq!(scanner.skipped_due_to_depth(), 1);
    assert_eq!(scanner.depth_skipped_paths(), vec!["root/sub".to_string()]);
}

#[test]
fn tree_of_three_levels_with_limit_two_scans_two_files() {
    // root -> sub -> deep, one qualifying file each, limit 2: the files of
    // root and sub are scanned, deep itself is pruned and recorded once.
    let mut scanner = Scanner::new("root".to_string(), Some(2), false, exts(&["mp3"]));
    let entries = vec![
        dir("root", 0),
        file("root/zero.mp3", 1),
        dir("root/sub", 1),
        file("root/sub/one.mp3", 2),
        dir("root/sub/deep", 2),
    ];
    let collected = scanner.scan_entries(&entries);
    assert_eq!(collected, vec!["root/zero.mp3".to_string(), "root/sub/one.mp3".to_string()]);
    assert_eq!(scanner.skipped_due_to_depth(), 1);
    assert_eq!(scanner.depth_skipped_paths(), vec!["root/sub/deep".to_string()]);
}

#[test]
fn symlinked_entries_follow_their_reported_file_type() {
    // without follow-symlinks the walk reports a link as neither file nor
    // directory, so it is passed over; with it, the target's type is used
    let mut scanner = Scanner::new("root".to_string(), None, false, exts(&["mp3"]));
    let link = WalkEntry {
        path: "root/link.mp3".to_string(),
        depth: 1,
        is_dir: false,
        is_file: false,
    };
    assert_eq!(scanner.classify_entry(&link), ScanAction::Ignore);

    let mut following = Scanner::new("root".to_string(), None, true, exts(&["mp3"]));
    assert_eq!(following.classify_entry(&file("root/link.mp3", 1)), ScanAction::Yield);
}
