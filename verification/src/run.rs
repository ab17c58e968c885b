//! The per-file decision of the run coordinator: match the tag, emit the
//! track to the sink when it matches, and classify every scanned file into
//! exactly one outcome so the report's counters stay mutually exclusive.

use vstd::prelude::*;

use crate::metadata::{
    collected_lyrics, extract_metadata, match_artist, match_artist_spec, resolve_title,
    resolved_title, TagView, TrackMetadata,
};
use crate::report::Report;
use crate::writer::{entry_text, OutputWriter};

verus! {

/// The mutually exclusive classification of one readable tag.
#[derive(Debug)]
pub enum FileOutcome {
    /// Artist matched and lyrics were found: the track was emitted.
    Matched(TrackMetadata),
    /// Artist matched, but no lyrics block survived: nothing emitted.
    MissingLyrics { artist: String, title: String },
    /// The artist did not match the filter.
    ArtistSkip,
}

/// Decides one file whose tag was read: emits the track and bumps `matched`
/// on a full match, else bumps `missing_lyrics` when only the artist
/// matched, else bumps `skipped_artist` -- always exactly one of the three.
/// (A file whose tag cannot be read bumps `tag_errors` instead, at the
/// point where the read fails.)
pub fn handle_tag(
    tag: &TagView,
    artist_filter: &str,
    writer: &mut OutputWriter,
    report: &mut Report,
) -> (r: FileOutcome)
    requires
        old(report).matched < usize::MAX,
        old(report).missing_lyrics < usize::MAX,
        old(report).skipped_artist < usize::MAX,
    ensures
        r is Matched <==> match_artist_spec(*tag, artist_filter@) is Some && collected_lyrics(
            *tag,
        ) is Some,
        r is MissingLyrics <==> match_artist_spec(*tag, artist_filter@) is Some
            && collected_lyrics(*tag) is None,
        r is ArtistSkip <==> match_artist_spec(*tag, artist_filter@) is None,
        r is Matched ==> r->Matched_0.artist@ == match_artist_spec(*tag, artist_filter@)->0
            && r->Matched_0.title@ == resolved_title(*tag) && r->Matched_0.lyrics@
            == collected_lyrics(*tag)->0,
        r is MissingLyrics ==> r->MissingLyrics_artist@ == match_artist_spec(
            *tag,
            artist_filter@,
        )->0 && r->MissingLyrics_title@ == resolved_title(*tag),
        final(report).matched == old(report).matched + (if r is Matched {
            1int
        } else {
            0int
        }),
        final(report).missing_lyrics == old(report).missing_lyrics + (if r is MissingLyrics {
            1int
        } else {
            0int
        }),
        final(report).skipped_artist == old(report).skipped_artist + (if r is ArtistSkip {
            1int
        } else {
            0int
        }),
        final(report).scanned == old(report).scanned,
        final(report).walk_errors == old(report).walk_errors,
        final(report).tag_errors == old(report).tag_errors,
        final(report).depth_skipped_dirs == old(report).depth_skipped_dirs,
        final(report).depth_skip_paths == old(report).depth_skip_paths,
        final(writer).format == old(writer).format,
        final(writer).enabled == old(writer).enabled,
        r is Matched && old(writer).enabled ==> final(writer).pending@ == old(writer).pending@
            + entry_text(
            old(writer).format,
            match_artist_spec(*tag, artist_filter@)->0,
            resolved_title(*tag),
            collected_lyrics(*tag)->0,
        ),
        !(r is Matched) || !old(writer).enabled ==> *final(writer) == *old(writer),
{
    match extract_metadata(tag, artist_filter) {
        Some(track) => {
            writer.write_entry(&track);
            report.record_match();
            FileOutcome::Matched(track)
        },
        None => {
            match match_artist(tag, artist_filter) {
                Some(artist) => {
                    report.record_missing_lyrics();
                    let title = resolve_title(tag);
                    FileOutcome::MissingLyrics { artist, title }
                },
                None => {
                    report.record_artist_skip();
                    FileOutcome::ArtistSkip
                },
            }
        },
    }
}

} // verus!
