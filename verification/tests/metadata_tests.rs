use mdlyricgetter::metadata::{extract_metadata, match_artist, resolve_artist, TagFrame, TagView};
use mdlyricgetter::metadata::DEFAULT_ARTIST_FILTER;

fn empty_tag() -> TagView {
    TagView { artist: None, album_artist: None, title: None, frames: Vec::new() }
}

fn lyric(description: &str, text: &str) -> TagFrame {
    TagFrame::Lyrics { description: description.to_string(), text: text.to_string() }
}

#[test]
fn extracts_metadata_when_artist_matches() {
    let mut tag = empty_tag();
    tag.artist = Some("Studio Master".to_string());
    tag.title = Some("Anthem".to_string());
    tag.frames.push(lyric("verse1", "Line one"));
    tag.frames.push(lyric("verse2", "Line two"));

    let metadata =
        extract_metadata(&tag, DEFAULT_ARTIST_FILTER).expect("metadata should be extracted");

    assert_eq!(metadata.artist, "Studio Master");
    assert_eq!(metadata.title, "Anthem");
    assert_eq!(metadata.lyrics, "Line one\n\nLine two");
}

#[test]
fn uses_album_artist_when_primary_missing() {
    let mut tag = empty_tag();
    tag.album_artist = Some("Audio Collective".to_string());
    tag.frames.push(lyric("", "Words"));

    let metadata =
        extract_metadata(&tag, DEFAULT_ARTIST_FILTER).expect("metadata should be extracted");

    assert_eq!(metadata.artist, "Audio Collective");
    assert_eq!(metadata.title, "Unknown Title");
    assert_eq!(metadata.lyrics, "Words");
}

#[test]
fn skips_when_artist_does_not_match() {
    let mut tag = empty_tag();
    tag.artist = Some("Composer".to_string());
    tag.frames.push(lyric("", "Words"));

    assert!(extract_metadata(&tag, DEFAULT_ARTIST_FILTER).is_none());
}

#[test]
fn skips_when_lyrics_missing() {
    let mut tag = empty_tag();
    tag.artist = Some("Studio Duo".to_string());

    assert!(extract_metadata(&tag, DEFAULT_ARTIST_FILTER).is_none());
}

#[test]
fn ignores_empty_lyrics_frames() {
    let mut tag = empty_tag();
    tag.artist = Some("Studio Duo".to_string());
    tag.frames.push(lyric("empty1", ""));
    tag.frames.push(lyric("empty2", "   "));
    tag.frames.push(lyric("lyric", "Verse"));

    let metadata =
        extract_metadata(&tag, DEFAULT_ARTIST_FILTER).expect("metadata should be extracted");
    assert_eq!(metadata.lyrics, "Verse");
}

#[test]
fn extracts_lyrics_from_extended_text_frame() {
    let mut tag = empty_tag();
    tag.artist = Some("Studio Duo".to_string());
    tag.frames.push(TagFrame::ExtendedText {
        description: "LYRICS".to_string(),
        value: "Block A".to_string(),
    });
    tag.frames.push(TagFrame::ExtendedText {
        description: "Other".to_string(),
        value: "Ignore me".to_string(),
    });

    let metadata =
        extract_metadata(&tag, DEFAULT_ARTIST_FILTER).expect("metadata should be extracted");
    assert_eq!(metadata.lyrics, "Block A");
}

#[test]
fn primary_artist_wins_over_album_artist() {
    let mut tag = empty_tag();
    tag.artist = Some("  Audio One  ".to_string());
    tag.album_artist = Some("Audio Two".to_string());
    assert_eq!(resolve_artist(&tag), Some("Audio One".to_string()));
}

#[test]
fn blank_primary_artist_falls_back_to_album_artist() {
    let mut tag = empty_tag();
    tag.artist = Some("   ".to_string());
    tag.album_artist = Some("Audio Two".to_string());
    assert_eq!(resolve_artist(&tag), Some("Audio Two".to_string()));
    let mut none_tag = empty_tag();
    none_tag.artist = Some("   ".to_string());
    none_tag.album_artist = Some("  ".to_string());
    assert_eq!(resolve_artist(&none_tag), None);
}

#[test]
fn empty_filter_matches_any_resolved_artist() {
    let mut tag = empty_tag();
    tag.artist = Some("Anyone".to_string());
    tag.frames.push(lyric("", "Some words"));
    assert_eq!(match_artist(&tag, ""), Some("Anyone".to_string()));
    assert_eq!(match_artist(&tag, "   "), Some("Anyone".to_string()));
}

#[test]
fn filter_comparison_ignores_case() {
    let mut tag = empty_tag();
    tag.artist = Some("Cosmic Choir".to_string());
    assert_eq!(match_artist(&tag, "CHOIR"), Some("Cosmic Choir".to_string()));
    assert_eq!(match_artist(&tag, "organ"), None);
}

#[test]
fn lyrics_are_deduplicated_and_joined_in_first_occurrence_order() {
    let mut tag = empty_tag();
    tag.artist = Some("Studio Duo".to_string());
    tag.frames.push(lyric("a", "  A  "));
    tag.frames.push(lyric("b", "B"));
    tag.frames.push(lyric("c", "A"));
    tag.frames.push(TagFrame::Comment {
        description: "Lyrics".to_string(),
        text: "B\n".to_string(),
    });
    tag.frames.push(TagFrame::Text { id: "lyrics".to_string(), value: "C".to_string() });

    let metadata =
        extract_metadata(&tag, DEFAULT_ARTIST_FILTER).expect("metadata should be extracted");
    assert_eq!(metadata.lyrics, "A\n\nB\n\nC");
}

#[test]
fn joining_two_blocks_uses_one_blank_line() {
    let mut tag = empty_tag();
    tag.artist = Some("Studio Duo".to_string());
    tag.frames.push(lyric("a", "A"));
    tag.frames.push(lyric("b", "B"));
    let metadata =
        extract_metadata(&tag, DEFAULT_ARTIST_FILTER).expect("metadata should be extracted");
    assert_eq!(metadata.lyrics, "A\n\nB");
}
