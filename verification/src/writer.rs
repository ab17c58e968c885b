//! The output sink's content: what each matched track contributes in each
//! format, buffered until the single end-of-run flush. Opening and appending
//! to the actual file happens outside; with dry-run in force nothing is ever
//! buffered, so nothing ever reaches the output path.

use vstd::prelude::*;
use vstd::string::StringExecFns;

use crate::cli::OutputFormat;
use crate::codec::{encode_track, track_line};
use crate::metadata::TrackMetadata;
use crate::text::{chars_of, extend_chars, string_from_chars};

verus! {

/// The trailing newline and carriage-return characters dropped, as the
/// human-readable block does with the lyrics.
pub open spec fn strip_trailing_newlines(s: Seq<char>) -> Seq<char>
    decreases s.len(),
{
    if s.len() > 0 && (s.last() == '\n' || s.last() == '\r') {
        strip_trailing_newlines(s.drop_last())
    } else {
        s
    }
}

/// The human-readable block for one matched track.
pub open spec fn block_text(artist: Seq<char>, title: Seq<char>, lyrics: Seq<char>) -> Seq<char> {
    "=== "@ + title + " ===\nArtist: "@ + artist + seq!['\n'] + strip_trailing_newlines(lyrics)
        + "\n\n"@
}

/// What one matched track contributes to the sink in each format: the block,
/// or its JSON line followed by a newline.
pub open spec fn entry_text(
    format: OutputFormat,
    artist: Seq<char>,
    title: Seq<char>,
    lyrics: Seq<char>,
) -> Seq<char> {
    match format {
        OutputFormat::Text => block_text(artist, title, lyrics),
        OutputFormat::Json => track_line(artist, title, lyrics) + seq!['\n'],
    }
}

fn strip_newlines_chars(v: &Vec<char>) -> (r: Vec<char>)
    ensures
        r@ == strip_trailing_newlines(v@),
{
    let len: usize = v.len();
    proof {
        assert(v@.subrange(0, len as int) =~= v@);
    }
    let mut j: usize = len;
    while j > 0 && (v[j - 1] == '\n' || v[j - 1] == '\r')
        invariant
            j <= len,
            len == v@.len(),
            strip_trailing_newlines(v@) == strip_trailing_newlines(v@.subrange(0, j as int)),
        decreases j,
    {
        proof {
            assert(v@.subrange(0, j as int).drop_last() =~= v@.subrange(0, j as int - 1));
        }
        j = j - 1;
    }
    proof {
        assert(strip_trailing_newlines(v@) == v@.subrange(0, j as int));
    }
    let mut r: Vec<char> = Vec::new();
    let mut k: usize = 0;
    while k < j
        invariant
            k <= j <= len,
            len == v@.len(),
            r@.len() == k,
            forall|m: int| 0 <= m < k ==> r@[m] == v@[m],
        decreases j - k,
    {
        r.push(v[k]);
        k = k + 1;
    }
    proof {
        assert(r@ =~= v@.subrange(0, j as int));
    }
    r
}

/// The human-readable block: the title between markers, the artist line,
/// then the lyrics with their trailing newlines stripped, and a blank line.
pub fn format_block(metadata: &TrackMetadata) -> (r: String)
    ensures
        r@ == block_text(metadata.artist@, metadata.title@, metadata.lyrics@),
{
    let mut out: Vec<char> = chars_of("=== ");
    extend_chars(&mut out, &chars_of(metadata.title.as_str()));
    extend_chars(&mut out, &chars_of(" ===\nArtist: "));
    extend_chars(&mut out, &chars_of(metadata.artist.as_str()));
    out.push('\n');
    extend_chars(&mut out, &strip_newlines_chars(&chars_of(metadata.lyrics.as_str())));
    extend_chars(&mut out, &chars_of("\n\n"));
    proof {
        assert(out@ =~= block_text(metadata.artist@, metadata.title@, metadata.lyrics@));
    }
    string_from_chars(&out)
}

/// The buffered output sink. `enabled` is false exactly in a dry run; a
/// disabled writer never changes, so a dry run never produces a byte for
/// the output path, regardless of how many entries are written.
#[derive(Debug)]
pub struct OutputWriter {
    pub format: OutputFormat,
    pub enabled: bool,
    pub pending: String,
}

impl OutputWriter {
    /// A fresh sink with nothing buffered; dry-run disables it for good.
    pub fn create(format: OutputFormat, dry_run: bool) -> (r: OutputWriter)
        ensures
            r.format == format,
            r.enabled == !dry_run,
            r.pending@.len() == 0,
    {
        OutputWriter { format, enabled: !dry_run, pending: String::new() }
    }

    /// Appends the track's contribution to the buffer; a disabled writer is
    /// left entirely unchanged.
    pub fn write_entry(&mut self, metadata: &TrackMetadata)
        ensures
            final(self).format == old(self).format,
            final(self).enabled == old(self).enabled,
            old(self).enabled ==> final(self).pending@ == old(self).pending@ + entry_text(
                old(self).format,
                metadata.artist@,
                metadata.title@,
                metadata.lyrics@,
            ),
            !old(self).enabled ==> *final(self) == *old(self),
    {
        if self.enabled {
            match self.format {
                OutputFormat::Text => {
                    let block = format_block(metadata);
                    self.pending.append(block.as_str());
                },
                OutputFormat::Json => {
                    let line = encode_track(metadata);
                    self.pending.append(line.as_str());
                    self.pending.append("\n");
                    proof {
                        reveal_strlit("\n");
                        assert("\n"@ =~= seq!['\n']);
                        assert(self.pending@ =~= old(self).pending@ + entry_text(
                            old(self).format,
                            metadata.artist@,
                            metadata.title@,
                            metadata.lyrics@,
                        ));
                    }
                },
            }
        }
    }

    /// Hands the buffered content out for the single end-of-run append and
    /// leaves the buffer empty.
    pub fn flush(&mut self) -> (r: String)
        ensures
            r@ == old(self).pending@,
            final(self).pending@.len() == 0,
            final(self).format == old(self).format,
            final(self).enabled == old(self).enabled,
    {
        let out = self.pending.clone();
        self.pending = String::new();
        out
    }
}

} // verus!
