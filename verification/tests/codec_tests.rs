use mdlyricgetter::codec::{encode_track, parse_track_line, summary_json};
use mdlyricgetter::metadata::TrackMetadata;
use mdlyricgetter::report::Summary;

fn track(artist: &str, title: &str, lyrics: &str) -> TrackMetadata {
    TrackMetadata {
        artist: artist.to_string(),
        title: title.to_string(),
        lyrics: lyrics.to_string(),
    }
}

#[test]
fn encodes_plain_track_as_one_json_object() {
    let line = encode_track(&track("Audio Ensemble", "Sunrise", "Golden light"));
    assert_eq!(
        line,
        "{\"artist\":\"Audio Ensemble\",\"title\":\"Sunrise\",\"lyrics\":\"Golden light\"}"
    );
}

#[test]
fn escapes_quotes_backslashes_and_control_characters() {
    let line = encode_track(&track("A\"B", "C\\D", "E\nF\tG\u{1}H"));
    assert_eq!(
        line,
        "{\"artist\":\"A\\\"B\",\"title\":\"C\\\\D\",\"lyrics\":\"E\\nF\\tG\\u0001H\"}"
    );
}

#[test]
fn encoded_line_round_trips_through_the_parser() {
    let original = track(
        "Quote \" and \\ backslash",
        "Tabs\tand\nnewlines \u{8}\u{c}\r\u{1f}",
        "Unicode voilà — ❄ and blanks  ",
    );
    let line = encode_track(&original);
    let parsed = parse_track_line(&line).expect("line should parse");
    assert_eq!(parsed, original);
}

#[test]
fn several_lines_round_trip_in_order() {
    let tracks = vec![
        track("One", "First", "la\nla"),
        track("Two", "Second", "dee"),
        track("Three", "Third", "dum\u{7}"),
    ];
    let mut buffer = String::new();
    for t in &tracks {
        buffer.push_str(&encode_track(t));
        buffer.push('\n');
    }
    let parsed: Vec<TrackMetadata> =
        buffer.lines().map(|l| parse_track_line(l).expect("line should parse")).collect();
    assert_eq!(parsed, tracks);
}

#[test]
fn encoded_line_is_valid_json_for_other_readers() {
    let line = encode_track(&track("A\"B", "C\u{2}", "D\\E"));
    let value: serde_json::Value = serde_json::from_str(&line).expect("valid json");
    assert_eq!(value["artist"], "A\"B");
    assert_eq!(value["title"], "C\u{2}");
    assert_eq!(value["lyrics"], "D\\E");
}

#[test]
fn parser_rejects_lines_of_another_shape() {
    assert!(parse_track_line("").is_none());
    assert!(parse_track_line("{\"artist\":\"A\"}").is_none());
    assert!(parse_track_line("{\"artist\":\"A\",\"title\":\"B\",\"lyrics\":\"C\"} ").is_none());
    assert!(parse_track_line("{\"artist\":\"A\",\"title\":\"B\",\"lyrics\":\"C").is_none());
    assert!(parse_track_line("{\"artist\":\"\\q\",\"title\":\"B\",\"lyrics\":\"C\"}").is_none());
}

#[test]
fn summary_json_lists_every_counter_and_path() {
    let summary = Summary {
        scanned: 3,
        matched: 1,
        skipped_artist: 2,
        missing_lyrics: 0,
        walk_errors: 1,
        tag_errors: 0,
        depth_skipped_dirs: 2,
        depth_skip_paths: vec!["a/deep".to_string(), "b \"quoted\"".to_string()],
    };
    let text = summary_json(&summary);
    let value: serde_json::Value = serde_json::from_str(&text).expect("valid json");
    assert_eq!(value["scanned"], 3);
    assert_eq!(value["matched"], 1);
    assert_eq!(value["skipped_artist"], 2);
    assert_eq!(value["missing_lyrics"], 0);
    assert_eq!(value["walk_errors"], 1);
    assert_eq!(value["tag_errors"], 0);
    assert_eq!(value["depth_skipped_dirs"], 2);
    let paths = value["depth_skip_paths"].as_array().expect("array");
    assert_eq!(paths.len(), 2);
    assert_eq!(paths[0], "a/deep");
    assert_eq!(paths[1], "b \"quoted\"");
}

#[test]
fn summary_json_with_no_paths_has_empty_array() {
    let summary = Summary {
        scanned: 0,
        matched: 0,
        skipped_artist: 0,
        missing_lyrics: 0,
        walk_errors: 0,
        tag_errors: 0,
        depth_skipped_dirs: 0,
        depth_skip_paths: Vec::new(),
    };
    let text = summary_json(&summary);
    assert!(text.contains("\"depth_skip_paths\":[]"));
    let value: serde_json::Value = serde_json::from_str(&text).expect("valid json");
    assert!(value["depth_skip_paths"].as_array().unwrap().is_empty());
}
