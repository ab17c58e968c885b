//! Run accounting: counters and skipped-path lists mutated after every
//! per-file decision, finalized into an immutable summary snapshot.

use vstd::prelude::*;

use crate::text::{chars_of, clone_strings, dec_chars, dec_seq, extend_chars, string_from_chars, views_of};

verus! {

/// Mutable counters of one run. Every scanned file increments exactly one of
/// `matched`, `skipped_artist`, `missing_lyrics` and `tag_errors`.
#[derive(Debug)]
pub struct Report {
    pub scanned: usize,
    pub matched: usize,
    pub skipped_artist: usize,
    pub missing_lyrics: usize,
    pub depth_skipped_dirs: usize,
    pub depth_skip_paths: Vec<String>,
    pub walk_errors: usize,
    pub tag_errors: usize,
}

/// The immutable end-of-run snapshot of a `Report`.
#[derive(Debug, Clone, PartialEq, Eq)]
pub struct Summary {
    pub scanned: usize,
    pub matched: usize,
    pub skipped_artist: usize,
    pub missing_lyrics: usize,
    pub walk_errors: usize,
    pub tag_errors: usize,
    pub depth_skipped_dirs: usize,
    pub depth_skip_paths: Vec<String>,
}

impl Default for Report {
    fn default() -> (r: Report)
        ensures
            r.scanned == 0,
            r.matched == 0,
            r.skipped_artist == 0,
            r.missing_lyrics == 0,
            r.depth_skipped_dirs == 0,
            r.depth_skip_paths@.len() == 0,
            r.walk_errors == 0,
            r.tag_errors == 0,
    {
        Report {
            scanned: 0,
            matched: 0,
            skipped_artist: 0,
            missing_lyrics: 0,
            depth_skipped_dirs: 0,
            depth_skip_paths: Vec::new(),
            walk_errors: 0,
            tag_errors: 0,
        }
    }
}

impl Report {
    pub fn record_scan(&mut self)
        requires
            old(self).scanned < usize::MAX,
        ensures
            final(self).scanned == old(self).scanned + 1,
            final(self).matched == old(self).matched,
            final(self).skipped_artist == old(self).skipped_artist,
            final(self).missing_lyrics == old(self).missing_lyrics,
            final(self).depth_skipped_dirs == old(self).depth_skipped_dirs,
            final(self).depth_skip_paths == old(self).depth_skip_paths,
            final(self).walk_errors == old(self).walk_errors,
            final(self).tag_errors == old(self).tag_errors,
    {
        self.scanned = self.scanned + 1;
    }

    pub fn record_match(&mut self)
        requires
            old(self).matched < usize::MAX,
        ensures
            final(self).matched == old(self).matched + 1,
            final(self).scanned == old(self).scanned,
            final(self).skipped_artist == old(self).skipped_artist,
            final(self).missing_lyrics == old(self).missing_lyrics,
            final(self).depth_skipped_dirs == old(self).depth_skipped_dirs,
            final(self).depth_skip_paths == old(self).depth_skip_paths,
            final(self).walk_errors == old(self).walk_errors,
            final(self).tag_errors == old(self).tag_errors,
    {
        self.matched = self.matched + 1;
    }

    pub fn record_artist_skip(&mut self)
        requires
            old(self).skipped_artist < usize::MAX,
        ensures
            final(self).skipped_artist == old(self).skipped_artist + 1,
            final(self).scanned == old(self).scanned,
            final(self).matched == old(self).matched,
            final(self).missing_lyrics == old(self).missing_lyrics,
            final(self).depth_skipped_dirs == old(self).depth_skipped_dirs,
            final(self).depth_skip_paths == old(self).depth_skip_paths,
            final(self).walk_errors == old(self).walk_errors,
            final(self).tag_errors == old(self).tag_errors,
    {
        self.skipped_artist = self.skipped_artist + 1;
    }

    pub fn record_missing_lyrics(&mut self)
        requires
            old(self).missing_lyrics < usize::MAX,
        ensures
            final(self).missing_lyrics == old(self).missing_lyrics + 1,
            final(self).scanned == old(self).scanned,
            final(self).matched == old(self).matched,
            final(self).skipped_artist == old(self).skipped_artist,
            final(self).depth_skipped_dirs == old(self).depth_skipped_dirs,
            final(self).depth_skip_paths == old(self).depth_skip_paths,
            final(self).walk_errors == old(self).walk_errors,
            final(self).tag_errors == old(self).tag_errors,
    {
        self.missing_lyrics = self.missing_lyrics + 1;
    }

    pub fn record_walk_error(&mut self)
        requires
            old(self).walk_errors < usize::MAX,
        ensures
            final(self).walk_errors == old(self).walk_errors + 1,
            final(self).scanned == old(self).scanned,
            final(self).matched == old(self).matched,
            final(self).skipped_artist == old(self).skipped_artist,
            final(self).missing_lyrics == old(self).missing_lyrics,
            final(self).depth_skipped_dirs == old(self).depth_skipped_dirs,
            final(self).depth_skip_paths == old(self).depth_skip_paths,
            final(self).tag_errors == old(self).tag_errors,
    {
        self.walk_errors = self.walk_errors + 1;
    }

    pub fn record_tag_error(&mut self)
        requires
            old(self).tag_errors < usize::MAX,
        ensures
            final(self).tag_errors == old(self).tag_errors + 1,
            final(self).scanned == old(self).scanned,
            final(self).matched == old(self).matched,
            final(self).skipped_artist == old(self).skipped_artist,
            final(self).missing_lyrics == old(self).missing_lyrics,
            final(self).depth_skipped_dirs == old(self).depth_skipped_dirs,
            final(self).depth_skip_paths == old(self).depth_skip_paths,
            final(self).walk_errors == old(self).walk_errors,
    {
        self.tag_errors = self.tag_errors + 1;
    }

    pub fn record_depth_skips(&mut self, count: usize, paths: Vec<String>)
        requires
            old(self).depth_skipped_dirs + count <= usize::MAX,
        ensures
            final(self).depth_skipped_dirs == old(self).depth_skipped_dirs + count,
            final(self).depth_skip_paths@ == old(self).depth_skip_paths@ + paths@,
            final(self).scanned == old(self).scanned,
            final(self).matched == old(self).matched,
            final(self).skipped_artist == old(self).skipped_artist,
            final(self).missing_lyrics == old(self).missing_lyrics,
            final(self).walk_errors == old(self).walk_errors,
            final(self).tag_errors == old(self).tag_errors,
    {
        let mut incoming = paths;
        self.depth_skipped_dirs = self.depth_skipped_dirs + count;
        self.depth_skip_paths.append(&mut incoming);
    }

    /// The snapshot copies every counter and the recorded paths unchanged.
    pub fn summary(&self) -> (r: Summary)
        ensures
            r.scanned == self.scanned,
            r.matched == self.matched,
            r.skipped_artist == self.skipped_artist,
            r.missing_lyrics == self.missing_lyrics,
            r.walk_errors == self.walk_errors,
            r.tag_errors == self.tag_errors,
            r.depth_skipped_dirs == self.depth_skipped_dirs,
            views_of(r.depth_skip_paths@) == views_of(self.depth_skip_paths@),
    {
        Summary {
            scanned: self.scanned,
            matched: self.matched,
            skipped_artist: self.skipped_artist,
            missing_lyrics: self.missing_lyrics,
            walk_errors: self.walk_errors,
            tag_errors: self.tag_errors,
            depth_skipped_dirs: self.depth_skipped_dirs,
            depth_skip_paths: clone_strings(&self.depth_skip_paths),
        }
    }

    /// The lines the end-of-run summary prints: the headline, one line per
    /// depth-skipped directory, and a warning line when any traversal or tag
    /// error occurred.
    pub fn emit_summary(&self) -> (lines: Vec<String>)
        ensures
            lines@.len() == 1 + self.depth_skip_paths@.len() + (
            if self.walk_errors > 0 || self.tag_errors > 0 {
                1int
            } else {
                0int
            }),
            lines@[0]@ == headline_text(*self),
            forall|i: int|
                0 <= i < self.depth_skip_paths@.len() ==> lines@[1 + i]@ == depth_skip_text(
                    self.depth_skip_paths@[i]@,
                ),
            self.walk_errors > 0 || self.tag_errors > 0 ==> lines@[lines@.len() - 1]@
                == errors_text(*self),
    {
        let mut lines: Vec<String> = Vec::new();
        let mut head: Vec<char> = chars_of("Scanned ");
        extend_chars(&mut head, &dec_chars(self.scanned));
        extend_chars(&mut head, &chars_of(" MP3 files -- matched "));
        extend_chars(&mut head, &dec_chars(self.matched));
        extend_chars(&mut head, &chars_of(", artist skips "));
        extend_chars(&mut head, &dec_chars(self.skipped_artist));
        extend_chars(&mut head, &chars_of(", missing lyrics "));
        extend_chars(&mut head, &dec_chars(self.missing_lyrics));
        extend_chars(&mut head, &chars_of(", directories at depth limit "));
        extend_chars(&mut head, &dec_chars(self.depth_skipped_dirs));
        lines.push(string_from_chars(&head));
        let mut i: usize = 0;
        while i < self.depth_skip_paths.len()
            invariant
                i <= self.depth_skip_paths@.len(),
                lines@.len() == 1 + i,
                lines@[0]@ == headline_text(*self),
                forall|k: int|
                    0 <= k < i ==> lines@[1 + k]@ == depth_skip_text(
                        self.depth_skip_paths@[k]@,
                    ),
            decreases self.depth_skip_paths@.len() - i,
        {
            let mut line: Vec<char> = chars_of("Depth limit prevented descent into directory '");
            extend_chars(&mut line, &chars_of(self.depth_skip_paths[i].as_str()));
            extend_chars(&mut line, &chars_of("'"));
            lines.push(string_from_chars(&line));
            i = i + 1;
        }
        if self.walk_errors > 0 || self.tag_errors > 0 {
            let mut warn: Vec<char> = chars_of("Encountered ");
            extend_chars(&mut warn, &dec_chars(self.walk_errors));
            extend_chars(&mut warn, &chars_of(" traversal errors and "));
            extend_chars(&mut warn, &dec_chars(self.tag_errors));
            extend_chars(&mut warn, &chars_of(" tag read failures."));
            lines.push(string_from_chars(&warn));
        }
        lines
    }
}

/// The headline of the end-of-run summary.
pub open spec fn headline_text(r: Report) -> Seq<char> {
    "Scanned "@ + dec_seq(r.scanned as nat) + " MP3 files -- matched "@ + dec_seq(
        r.matched as nat,
    ) + ", artist skips "@ + dec_seq(r.skipped_artist as nat) + ", missing lyrics "@ + dec_seq(
        r.missing_lyrics as nat,
    ) + ", directories at depth limit "@ + dec_seq(r.depth_skipped_dirs as nat)
}

/// The line reported for one directory pruned by the depth limit.
pub open spec fn depth_skip_text(path: Seq<char>) -> Seq<char> {
    "Depth limit prevented descent into directory '"@ + path + "'"@
}

/// The warning line reported when recoverable errors occurred.
pub open spec fn errors_text(r: Report) -> Seq<char> {
    "Encountered "@ + dec_seq(r.walk_errors as nat) + " traversal errors and "@ + dec_seq(
        r.tag_errors as nat,
    ) + " tag read failures."@
}

} // verus!
