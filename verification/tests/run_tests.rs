use mdlyricgetter::cli::OutputFormat;
use mdlyricgetter::metadata::{TagFrame, TagView};
use mdlyricgetter::report::Report;
use mdlyricgetter::run::{handle_tag, FileOutcome};
use mdlyricgetter::writer::OutputWriter;

fn tag(artist: &str, title: &str, lyrics: &[&str]) -> TagView {
    TagView {
        artist: Some(artist.to_string()),
        album_artist: None,
        title: Some(title.to_string()),
        frames: lyrics
            .iter()
            .map(|l| TagFrame::Lyrics { description: String::new(), text: l.to_string() })
            .collect(),
    }
}

fn library() -> Vec<TagView> {
    vec![
        tag("Studio Heroes", "Hit Single", &["Verse one"]),
        tag("Composer", "Ambient", &["Nope"]),
        tag("Audio Crew", "Silent", &[]),
    ]
}

#[test]
fn explicit_filter_emits_only_the_matching_track() {
    let mut writer = OutputWriter::create(OutputFormat::Text, false);
    let mut report = Report::default();

    for t in library() {
        report.record_scan();
        handle_tag(&t, "Heroes", &mut writer, &mut report);
    }

    let summary = report.summary();
    assert_eq!(summary.scanned, 3);
    assert_eq!(summary.matched, 1);
    assert_eq!(summary.skipped_artist, 2);
    assert_eq!(summary.missing_lyrics, 0);

    let contents = writer.flush();
    assert!(contents.contains("=== Hit Single ==="));
    assert!(contents.contains("Artist: Studio Heroes"));
    assert!(contents.contains("Verse one"));
    assert!(!contents.contains("Nope"), "non-matching artist should not appear");
    assert!(!contents.contains("Silent"), "track with missing lyrics should be skipped");
}

#[test]
fn empty_filter_matches_both_tracks_with_lyrics() {
    let mut writer = OutputWriter::create(OutputFormat::Text, false);
    let mut report = Report::default();

    for t in library() {
        report.record_scan();
        handle_tag(&t, "", &mut writer, &mut report);
    }

    let summary = report.summary();
    assert_eq!(summary.scanned, 3);
    assert_eq!(summary.matched, 2);
    assert_eq!(summary.skipped_artist, 0);
    assert_eq!(summary.missing_lyrics, 1);
}

#[test]
fn outcome_carries_what_the_caller_logs() {
    let mut writer = OutputWriter::create(OutputFormat::Text, false);
    let mut report = Report::default();

    let matched = handle_tag(&tag("Audio One", "Song", &["La"]), "audio", &mut writer, &mut report);
    match matched {
        FileOutcome::Matched(track) => {
            assert_eq!(track.artist, "Audio One");
            assert_eq!(track.title, "Song");
            assert_eq!(track.lyrics, "La");
        },
        other => panic!("expected a match, got {other:?}"),
    }

    let missing = handle_tag(&tag("Audio Two", " Quiet ", &[]), "audio", &mut writer, &mut report);
    match missing {
        FileOutcome::MissingLyrics { artist, title } => {
            assert_eq!(artist, "Audio Two");
            assert_eq!(title, "Quiet");
        },
        other => panic!("expected missing lyrics, got {other:?}"),
    }

    let skipped = handle_tag(&tag("Composer", "Other", &["La"]), "audio", &mut writer, &mut report);
    assert!(matches!(skipped, FileOutcome::ArtistSkip));

    assert_eq!(report.matched, 1);
    assert_eq!(report.missing_lyrics, 1);
    assert_eq!(report.skipped_artist, 1);
}

#[test]
fn dry_run_processing_still_counts_but_writes_nothing() {
    let mut writer = OutputWriter::create(OutputFormat::Json, true);
    let mut report = Report::default();

    for t in library() {
        report.record_scan();
        handle_tag(&t, "", &mut writer, &mut report);
    }

    assert_eq!(report.matched, 2);
    assert_eq!(writer.flush(), "", "dry-run must not produce sink content");
}
