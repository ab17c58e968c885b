use mdlyricgetter::report::Report;

#[test]
fn summary_reflects_collected_counts() {
    let mut report = Report::default();
    report.record_scan();
    report.record_scan();
    report.record_match();
    report.record_artist_skip();
    report.record_missing_lyrics();
    report.record_walk_error();
    report.record_tag_error();
    report.record_depth_skips(1, vec!["deep".to_string()]);

    let summary = report.summary();

    assert_eq!(summary.scanned, 2);
    assert_eq!(summary.matched, 1);
    assert_eq!(summary.skipped_artist, 1);
    assert_eq!(summary.missing_lyrics, 1);
    assert_eq!(summary.walk_errors, 1);
    assert_eq!(summary.tag_errors, 1);
    assert_eq!(summary.depth_skipped_dirs, 1);
    assert_eq!(summary.depth_skip_paths, vec!["deep".to_string()]);
}

#[test]
fn emit_summary_lists_headline_skips_and_errors() {
    let mut report = Report::default();
    report.record_scan();
    report.record_match();
    report.record_depth_skips(2, vec!["a/b".to_string(), "a/c".to_string()]);
    report.record_walk_error();

    let lines = report.emit_summary();
    assert_eq!(lines.len(), 4);
    assert_eq!(
        lines[0],
        "Scanned 1 MP3 files -- matched 1, artist skips 0, missing lyrics 0, directories at depth limit 2"
    );
    assert_eq!(lines[1], "Depth limit prevented descent into directory 'a/b'");
    assert_eq!(lines[2], "Depth limit prevented descent into directory 'a/c'");
    assert_eq!(lines[3], "Encountered 1 traversal errors and 0 tag read failures.");
}

#[test]
fn emit_summary_omits_error_line_when_clean() {
    let report = Report::default();
    let lines = report.emit_summary();
    assert_eq!(lines.len(), 1);
    assert_eq!(
        lines[0],
        "Scanned 0 MP3 files -- matched 0, artist skips 0, missing lyrics 0, directories at depth limit 0"
    );
}
