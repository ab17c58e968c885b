//! The directory scanner policy: which walk entries are yielded as scan
//! candidates, which directories are pruned by the depth limit, and how the
//! pruning events are recorded. The filesystem walk itself happens outside;
//! it feeds each entry it meets to `classify_entry` and obeys the returned
//! action.

use vstd::prelude::*;

use crate::text::{chars_of, clone_strings, eq_chars, last_index_of, lower_chars, lower_seq, views_of};

verus! {

/// One entry met by the filesystem walk: its path, its depth below the scan
/// root (the root itself is depth 0), and whether it is a directory or a
/// regular file (following the symlink-follow policy of the walk).
#[derive(Debug, Clone, PartialEq, Eq)]
pub struct WalkEntry {
    pub path: String,
    pub depth: usize,
    pub is_dir: bool,
    pub is_file: bool,
}

/// What the walk must do with an entry: yield it as a scan candidate, prune
/// its whole subtree, or pass over it silently.
#[derive(Debug, Clone, Copy, PartialEq, Eq, Structural)]
pub enum ScanAction {
    Yield,
    Prune,
    Ignore,
}

/// The scanner: the walk configuration plus the cumulative record of the
/// directories pruned by the depth limit.
#[derive(Debug)]
pub struct Scanner {
    pub root: String,
    pub max_depth: Option<usize>,
    pub follow_symlinks: bool,
    pub extensions: Vec<String>,
    pub skipped_due_to_depth: usize,
    pub skipped_paths: Vec<String>,
}

/// The final path component: everything after the last separator.
pub open spec fn file_name_spec(p: Seq<char>) -> Seq<char> {
    p.subrange(last_index_of(p, '/') + 1, p.len() as int)
}

/// The extension of the final path component: the part after its last dot,
/// unless there is no dot or the only dot starts a hidden file's name.
pub open spec fn extension_spec(p: Seq<char>) -> Option<Seq<char>> {
    let f = file_name_spec(p);
    let k = last_index_of(f, '.');
    if k <= 0 {
        None
    } else {
        Some(f.subrange(k + 1, f.len() as int))
    }
}

/// Whether the path's extension, lower-cased, is one of the allowed ones; a
/// path with no extension never matches.
pub open spec fn has_allowed_ext(p: Seq<char>, exts: Seq<Seq<char>>) -> bool {
    match extension_spec(p) {
        None => false,
        Some(e) => exts.contains(lower_seq(e)),
    }
}

/// A directory sitting exactly at the depth limit is pruned.
pub open spec fn prunes_at(max_depth: Option<usize>, e: WalkEntry) -> bool {
    max_depth is Some && e.depth == max_depth->0 && e.is_dir
}

/// An entry deeper than the depth limit is silently dropped.
pub open spec fn too_deep_at(max_depth: Option<usize>, e: WalkEntry) -> bool {
    max_depth is Some && e.depth > max_depth->0
}

/// A regular file within the depth limit whose extension is allowed is
/// yielded as a scan candidate.
pub open spec fn yields_at(max_depth: Option<usize>, exts: Seq<Seq<char>>, e: WalkEntry) -> bool {
    !too_deep_at(max_depth, e) && !prunes_at(max_depth, e) && e.is_file && has_allowed_ext(
        e.path@,
        exts,
    )
}

/// The paths of the entries of `es` that the configuration yields, in order.
pub open spec fn yielded_paths(
    max_depth: Option<usize>,
    exts: Seq<Seq<char>>,
    es: Seq<WalkEntry>,
) -> Seq<Seq<char>>
    decreases es.len(),
{
    if es.len() == 0 {
        Seq::empty()
    } else {
        let rest = yielded_paths(max_depth, exts, es.drop_last());
        if yields_at(max_depth, exts, es.last()) {
            rest.push(es.last().path@)
        } else {
            rest
        }
    }
}

/// The paths of the entries of `es` that the configuration prunes, in order.
pub open spec fn pruned_paths(max_depth: Option<usize>, es: Seq<WalkEntry>) -> Seq<Seq<char>>
    decreases es.len(),
{
    if es.len() == 0 {
        Seq::empty()
    } else {
        let rest = pruned_paths(max_depth, es.drop_last());
        if prunes_at(max_depth, es.last()) {
            rest.push(es.last().path@)
        } else {
            rest
        }
    }
}

pub fn has_allowed_extension(path: &str, extensions: &Vec<String>) -> (r: bool)
    ensures
        r == has_allowed_ext(path@, views_of(extensions@)),
{
    let v = chars_of(path);
    let n: usize = v.len();
    proof {
        assert(v@.subrange(0, 0int) =~= Seq::<char>::empty());
    }
    let mut slash: usize = 0;
    let mut has_slash: bool = false;
    let mut i: usize = 0;
    while i < n
        invariant
            i <= n,
            n == v@.len(),
            v@ == path@,
            has_slash ==> slash < i,
            last_index_of(v@.subrange(0, i as int), '/') == if has_slash {
                slash as int
            } else {
                -1
            },
        decreases n - i,
    {
        proof {
            assert(v@.subrange(0, i as int + 1).drop_last() =~= v@.subrange(0, i as int));
            assert(v@.subrange(0, i as int + 1).last() == v@[i as int]);
        }
        if v[i] == '/' {
            slash = i;
            has_slash = true;
        }
        i = i + 1;
    }
    proof {
        assert(v@.subrange(0, n as int) =~= v@);
    }
    let fstart: usize = if has_slash {
        slash + 1
    } else {
        0
    };
    let ghost f = file_name_spec(path@);
    proof {
        assert(f == v@.subrange(fstart as int, n as int));
        assert(f.subrange(0, 0int) =~= Seq::<char>::empty());
    }
    let mut dot: usize = 0;
    let mut has_dot: bool = false;
    let mut j: usize = fstart;
    while j < n
        invariant
            fstart <= j <= n,
            n == v@.len(),
            v@ == path@,
            f == v@.subrange(fstart as int, n as int),
            has_dot ==> fstart <= dot < j,
            last_index_of(f.subrange(0, j - fstart), '.') == if has_dot {
                dot - fstart
            } else {
                -1
            },
        decreases n - j,
    {
        proof {
            assert(f.subrange(0, j - fstart + 1).drop_last() =~= f.subrange(0, j - fstart));
            assert(f.subrange(0, j - fstart + 1).last() == v@[j as int]);
        }
        if v[j] == '.' {
            dot = j;
            has_dot = true;
        }
        j = j + 1;
    }
    proof {
        assert(f.subrange(0, n - fstart) =~= f);
    }
    if !has_dot || dot == fstart {
        proof {
            assert(extension_spec(path@) is None);
        }
        return false;
    }
    let mut ext: Vec<char> = Vec::new();
    let mut k: usize = dot + 1;
    while k < n
        invariant
            dot + 1 <= k <= n,
            n == v@.len(),
            v@ == path@,
            ext@.len() == k - dot - 1,
            forall|m: int| 0 <= m < ext@.len() ==> ext@[m] == v@[dot + 1 + m],
        decreases n - k,
    {
        ext.push(v[k]);
        k = k + 1;
    }
    proof {
        assert(ext@ =~= f.subrange(dot - fstart + 1, f.len() as int));
        assert(extension_spec(path@) == Some(ext@));
    }
    let low = lower_chars(&ext);
    let mut t: usize = 0;
    while t < extensions.len()
        invariant
            t <= extensions@.len(),
            low@ == lower_seq(ext@),
            extension_spec(path@) == Some(ext@),
            forall|m: int| 0 <= m < t ==> extensions@[m]@ != low@,
        decreases extensions@.len() - t,
    {
        if eq_chars(&chars_of(extensions[t].as_str()), &low) {
            proof {
                assert(views_of(extensions@)[t as int] == low@);
                assert(views_of(extensions@).contains(lower_seq(ext@)));
            }
            return true;
        }
        t = t + 1;
    }
    proof {
        assert(forall|m: int|
            0 <= m < views_of(extensions@).len() ==> views_of(extensions@)[m] == extensions@[m]@);
        assert(!views_of(extensions@).contains(lower_seq(ext@)));
    }
    false
}

impl Scanner {
    /// A scanner for one walk, with nothing recorded yet.
    pub fn new(
        root: String,
        max_depth: Option<usize>,
        follow_symlinks: bool,
        extensions: Vec<String>,
    ) -> (r: Scanner)
        ensures
            r.root@ == root@,
            r.max_depth == max_depth,
            r.follow_symlinks == follow_symlinks,
            r.extensions == extensions,
            r.skipped_due_to_depth == 0,
            r.skipped_paths@.len() == 0,
    {
        Scanner {
            root,
            max_depth,
            follow_symlinks,
            extensions,
            skipped_due_to_depth: 0,
            skipped_paths: Vec::new(),
        }
    }

    /// Decides what the walk must do with one entry, and records a pruning
    /// event when the entry is a directory exactly at the depth limit.
    pub fn classify_entry(&mut self, e: &WalkEntry) -> (r: ScanAction)
        requires
            old(self).skipped_due_to_depth < usize::MAX,
        ensures
            r == ScanAction::Prune <==> prunes_at(old(self).max_depth, *e),
            r == ScanAction::Yield <==> yields_at(
                old(self).max_depth,
                views_of(old(self).extensions@),
                *e,
            ),
            final(self).max_depth == old(self).max_depth,
            final(self).follow_symlinks == old(self).follow_symlinks,
            final(self).root == old(self).root,
            final(self).extensions == old(self).extensions,
            prunes_at(old(self).max_depth, *e) ==> final(self).skipped_due_to_depth == old(
                self,
            ).skipped_due_to_depth + 1 && views_of(final(self).skipped_paths@) == views_of(
                old(self).skipped_paths@,
            ).push(e.path@),
            !prunes_at(old(self).max_depth, *e) ==> final(self).skipped_due_to_depth == old(
                self,
            ).skipped_due_to_depth && final(self).skipped_paths == old(self).skipped_paths,
    {
        match self.max_depth {
            Some(limit) => {
                if e.depth > limit {
                    return ScanAction::Ignore;
                }
                if e.depth == limit && e.is_dir {
                    self.skipped_due_to_depth = self.skipped_due_to_depth + 1;
                    self.skipped_paths.push(e.path.clone());
                    proof {
                        assert(views_of(self.skipped_paths@) =~= views_of(
                            old(self).skipped_paths@,
                        ).push(e.path@));
                    }
                    return ScanAction::Prune;
                }
            },
            None => {},
        }
        if e.is_file && has_allowed_extension(e.path.as_str(), &self.extensions) {
            ScanAction::Yield
        } else {
            ScanAction::Ignore
        }
    }

    /// Classifies a whole walk in order and returns the yielded candidate
    /// paths; afterwards the recorded pruning events cover exactly the
    /// pruned directories of this walk, one record each.
    pub fn scan_entries(&mut self, entries: &Vec<WalkEntry>) -> (yielded: Vec<String>)
        requires
            old(self).skipped_due_to_depth + entries@.len() <= usize::MAX,
        ensures
            views_of(yielded@) == yielded_paths(
                old(self).max_depth,
                views_of(old(self).extensions@),
                entries@,
            ),
            final(self).skipped_due_to_depth == old(self).skipped_due_to_depth + pruned_paths(
                old(self).max_depth,
                entries@,
            ).len(),
            views_of(final(self).skipped_paths@) == views_of(old(self).skipped_paths@)
                + pruned_paths(old(self).max_depth, entries@),
            final(self).max_depth == old(self).max_depth,
            final(self).follow_symlinks == old(self).follow_symlinks,
            final(self).root == old(self).root,
            final(self).extensions == old(self).extensions,
    {
        let ghost cfg_depth = old(self).max_depth;
        let ghost cfg_exts = views_of(old(self).extensions@);
        let mut yielded: Vec<String> = Vec::new();
        proof {
            assert(entries@.subrange(0, 0int) =~= Seq::<WalkEntry>::empty());
            assert(views_of(yielded@) =~= Seq::<Seq<char>>::empty());
            assert(views_of(self.skipped_paths@) =~= views_of(old(self).skipped_paths@)
                + pruned_paths(cfg_depth, entries@.subrange(0, 0int)));
        }
        let mut i: usize = 0;
        while i < entries.len()
            invariant
                i <= entries@.len(),
                self.max_depth == cfg_depth,
                self.extensions == old(self).extensions,
                cfg_exts == views_of(old(self).extensions@),
                self.follow_symlinks == old(self).follow_symlinks,
                self.root == old(self).root,
                self.skipped_due_to_depth == old(self).skipped_due_to_depth + pruned_paths(
                    cfg_depth,
                    entries@.subrange(0, i as int),
                ).len(),
                old(self).skipped_due_to_depth + entries@.len() <= usize::MAX,
                pruned_paths(cfg_depth, entries@.subrange(0, i as int)).len() <= i,
                views_of(self.skipped_paths@) == views_of(old(self).skipped_paths@)
                    + pruned_paths(cfg_depth, entries@.subrange(0, i as int)),
                views_of(yielded@) == yielded_paths(
                    cfg_depth,
                    cfg_exts,
                    entries@.subrange(0, i as int),
                ),
            decreases entries@.len() - i,
        {
            proof {
                assert(entries@.subrange(0, i as int + 1).drop_last() =~= entries@.subrange(
                    0,
                    i as int,
                ));
                assert(entries@.subrange(0, i as int + 1).last() == entries@[i as int]);
            }
            let action = self.classify_entry(&entries[i]);
            match action {
                ScanAction::Yield => {
                    yielded.push(entries[i].path.clone());
                    proof {
                        assert(views_of(yielded@) =~= yielded_paths(
                            cfg_depth,
                            cfg_exts,
                            entries@.subrange(0, i as int),
                        ).push(entries@[i as int].path@));
                    }
                },
                ScanAction::Prune => {},
                ScanAction::Ignore => {},
            }
            i = i + 1;
        }
        proof {
            assert(entries@.subrange(0, entries@.len() as int) =~= entries@);
        }
        yielded
    }

    /// How many directories the depth limit pruned so far.
    pub fn skipped_due_to_depth(&self) -> (r: usize)
        ensures
            r == self.skipped_due_to_depth,
    {
        self.skipped_due_to_depth
    }

    /// The paths of the directories the depth limit pruned so far, in the
    /// order they were met.
    pub fn depth_skipped_paths(&self) -> (r: Vec<String>)
        ensures
            views_of(r@) == views_of(self.skipped_paths@),
    {
        clone_strings(&self.skipped_paths)
    }
}

/// With a depth limit in force, no yielded entry lies below the limit, and
/// an entry is pruned exactly when it is a directory sitting exactly at the
/// limit.
pub proof fn lemma_depth_policy(max_depth: Option<usize>, exts: Seq<Seq<char>>, e: WalkEntry)
    requires
        max_depth is Some,
    ensures
        yields_at(max_depth, exts, e) ==> e.depth <= max_depth->0,
        prunes_at(max_depth, e) <==> (e.is_dir && e.depth == max_depth->0),
{
}

/// Entries strictly below the depth limit -- those inside a pruned subtree
/// that the walk still reports -- contribute nothing: they are neither
/// yielded nor counted as pruning events again.
pub proof fn lemma_deep_entries_dropped(
    max_depth: Option<usize>,
    exts: Seq<Seq<char>>,
    es: Seq<WalkEntry>,
)
    requires
        max_depth is Some,
        forall|i: int| 0 <= i < es.len() ==> es[i].depth > max_depth->0,
    ensures
        yielded_paths(max_depth, exts, es).len() == 0,
        pruned_paths(max_depth, es).len() == 0,
    decreases es.len(),
{
    if es.len() > 0 {
        assert(es.last() == es[es.len() - 1]);
        lemma_deep_entries_dropped(max_depth, exts, es.drop_last());
    }
}

} // verus!
