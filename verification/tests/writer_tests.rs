use mdlyricgetter::cli::OutputFormat;
use mdlyricgetter::codec::parse_track_line;
use mdlyricgetter::metadata::TrackMetadata;
use mdlyricgetter::writer::{format_block, OutputWriter};

fn sample_metadata() -> TrackMetadata {
    TrackMetadata {
        artist: "Studio Band".to_string(),
        title: "Echoes".to_string(),
        lyrics: "Line one\nLine two\n".to_string(),
    }
}

#[test]
fn formats_block_with_clean_trailing_newline() {
    let metadata = sample_metadata();
    let formatted = format_block(&metadata);
    assert!(formatted.ends_with("\n\n"));
    assert!(formatted.contains("=== Echoes ==="));
    assert!(formatted.contains("Artist: Studio Band"));
}

#[test]
fn block_strips_trailing_newlines_from_lyrics_only() {
    let metadata = sample_metadata();
    let formatted = format_block(&metadata);
    assert_eq!(formatted, "=== Echoes ===\nArtist: Studio Band\nLine one\nLine two\n\n");
}

#[test]
fn writes_blocks_and_appends() {
    let mut writer = OutputWriter::create(OutputFormat::Text, false);
    writer.write_entry(&sample_metadata());
    writer.write_entry(&sample_metadata());
    let contents = writer.flush();

    let expected = format_block(&sample_metadata());
    assert_eq!(contents, format!("{expected}{expected}"));
}

#[test]
fn dry_run_does_not_create_file() {
    let mut writer = OutputWriter::create(OutputFormat::Text, true);
    writer.write_entry(&sample_metadata());
    writer.write_entry(&sample_metadata());
    assert_eq!(writer.flush(), "", "dry-run should not produce output bytes");
}

#[test]
fn dry_run_stays_silent_in_json_mode() {
    let mut writer = OutputWriter::create(OutputFormat::Json, true);
    writer.write_entry(&sample_metadata());
    assert_eq!(writer.flush(), "");
}

#[test]
fn writes_json_lines_when_configured() {
    let mut writer = OutputWriter::create(OutputFormat::Json, false);
    writer.write_entry(&sample_metadata());
    writer.write_entry(&sample_metadata());
    let contents = writer.flush();

    let mut lines = contents.lines();
    let first = parse_track_line(lines.next().unwrap()).unwrap();
    let second = parse_track_line(lines.next().unwrap()).unwrap();
    assert!(lines.next().is_none());

    assert_eq!(first, sample_metadata());
    assert_eq!(second, sample_metadata());
}

#[test]
fn flush_empties_the_buffer() {
    let mut writer = OutputWriter::create(OutputFormat::Text, false);
    writer.write_entry(&sample_metadata());
    let first = writer.flush();
    assert!(!first.is_empty());
    assert_eq!(writer.flush(), "");
}
