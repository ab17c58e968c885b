//! Normalizes the raw command-line options into the run configuration:
//! resolves the root and output paths against the working directory and
//! parses the comma-separated extension list. Probing the filesystem for the
//! root directory happens outside; its verdict is handed in as a plain flag.

use vstd::prelude::*;

use crate::cli::{CliArgs, OutputFormat};
use crate::text::{
    chars_of, extend_chars, last_index_of, lemma_last_index_bounds, lemma_last_index_none,
    lemma_last_index_skip_tail, lower_chars, lower_seq, string_from_chars, trim_chars, trim_spec,
    views_of,
};

verus! {

/// The configuration of one run, fully normalized.
#[derive(Debug, Clone)]
pub struct Config {
    pub root: String,
    pub output: String,
    pub dry_run: bool,
    pub artist_filter: String,
    pub extensions: Vec<String>,
    pub output_format: OutputFormat,
    pub max_depth: Option<usize>,
    pub follow_symlinks: bool,
    pub summary_json: Option<String>,
    pub quiet: bool,
}

/// A path is absolute when it starts with the separator.
pub open spec fn is_absolute(p: Seq<char>) -> bool {
    p.len() > 0 && p[0] == '/'
}

/// Joining a relative path onto a base, inserting the separator unless the
/// base already ends with one.
pub open spec fn joined_path(base: Seq<char>, rel: Seq<char>) -> Seq<char> {
    if base.len() > 0 && base.last() == '/' {
        base + rel
    } else {
        base + seq!['/'] + rel
    }
}

/// An absolute path stands; a relative one is resolved against the base.
pub open spec fn make_absolute_spec(base: Seq<char>, p: Seq<char>) -> Seq<char> {
    if is_absolute(p) {
        p
    } else {
        joined_path(base, p)
    }
}

/// The scan root: the configured one resolved against the working
/// directory, or the working directory itself when none is configured.
pub open spec fn resolved_root_spec(root: Option<String>, cwd: Seq<char>) -> Seq<char> {
    match root {
        Some(p) => make_absolute_spec(cwd, p@),
        None => cwd,
    }
}

/// The output path: the configured one resolved against the root, or
/// lyrics.txt under the root when none is configured.
pub open spec fn normalized_output_spec(root: Seq<char>, output: Option<String>) -> Seq<char> {
    match output {
        Some(p) => make_absolute_spec(root, p@),
        None => joined_path(root, "lyrics.txt"@),
    }
}

/// The message of the fatal error for a missing root directory.
pub open spec fn dir_error_text(p: Seq<char>) -> Seq<char> {
    "The provided root path '"@ + p + "' is not an existing directory."@
}

pub fn make_absolute(base: &str, path: String) -> (r: String)
    ensures
        r@ == make_absolute_spec(base@, path@),
{
    let v = chars_of(path.as_str());
    if v.len() > 0 && v[0] == '/' {
        return path;
    }
    let mut out: Vec<char> = chars_of(base);
    if out.len() == 0 || out[out.len() - 1] != '/' {
        out.push('/');
        proof {
            assert(out@ =~= base@ + seq!['/']);
        }
    }
    extend_chars(&mut out, &v);
    proof {
        assert(out@ =~= joined_path(base@, path@));
    }
    string_from_chars(&out)
}

/// Fails, with the fatal configuration error, exactly when the probe found
/// no directory at the path.
pub fn ensure_directory(path: &str, is_dir: bool) -> (r: Result<(), String>)
    ensures
        r is Ok <==> is_dir,
        r is Err ==> r->Err_0@ == dir_error_text(path@),
{
    if is_dir {
        Ok(())
    } else {
        let mut msg: Vec<char> = chars_of("The provided root path '");
        extend_chars(&mut msg, &chars_of(path));
        extend_chars(&mut msg, &chars_of("' is not an existing directory."));
        Err(string_from_chars(&msg))
    }
}

pub fn resolve_root(root: &Option<String>, cwd: &str) -> (r: String)
    ensures
        r@ == resolved_root_spec(*root, cwd@),
{
    match root {
        Some(p) => make_absolute(cwd, p.clone()),
        None => cwd.to_owned(),
    }
}

pub fn normalize_output(root: &str, output: Option<String>) -> (r: String)
    ensures
        r@ == normalized_output_spec(root@, output),
{
    match output {
        Some(p) => make_absolute(root, p),
        None => {
            proof {
                reveal_strlit("lyrics.txt");
                assert(!is_absolute("lyrics.txt"@));
            }
            make_absolute(root, "lyrics.txt".to_owned())
        },
    }
}

/// The comma-separated segments of a raw extension list.
pub open spec fn split_commas(s: Seq<char>) -> Seq<Seq<char>>
    decreases s.len(),
    via split_commas_dec
{
    let k = last_index_of(s, ',');
    if k < 0 {
        seq![s]
    } else {
        split_commas(s.subrange(0, k)).push(s.subrange(k + 1, s.len() as int))
    }
}

#[via_fn]
proof fn split_commas_dec(s: Seq<char>) {
    lemma_last_index_bounds(s, ',');
}

/// Leading dots of a segment are dropped.
pub open spec fn strip_dots(s: Seq<char>) -> Seq<char>
    decreases s.len(),
{
    if s.len() > 0 && s[0] == '.' {
        strip_dots(s.drop_first())
    } else {
        s
    }
}

/// One segment normalized into an extension: trimmed, leading dots
/// dropped, lower-cased.
pub open spec fn ext_norm(seg: Seq<char>) -> Seq<char> {
    lower_seq(strip_dots(trim_spec(seg)))
}

/// What one segment contributes: its normalized extension, unless the
/// segment is empty after trimming.
pub open spec fn seg_delta(seg: Seq<char>) -> Seq<Seq<char>> {
    if trim_spec(seg).len() > 0 {
        seq![ext_norm(seg)]
    } else {
        Seq::empty()
    }
}

/// The extensions contributed by a list of segments, in order.
pub open spec fn exts_of(segs: Seq<Seq<char>>) -> Seq<Seq<char>>
    decreases segs.len(),
{
    if segs.len() == 0 {
        Seq::empty()
    } else {
        exts_of(segs.drop_last()) + seg_delta(segs.last())
    }
}

/// The parsed extension list, with the fallback when nothing survives.
pub open spec fn parsed_extensions(raw: Seq<char>) -> Seq<Seq<char>> {
    let ex = exts_of(split_commas(raw));
    if ex.len() == 0 {
        seq!["mp3"@]
    } else {
        ex
    }
}

proof fn lemma_exts_push(segs: Seq<Seq<char>>, seg: Seq<char>)
    ensures
        exts_of(segs.push(seg)) == exts_of(segs) + seg_delta(seg),
{
    assert(segs.push(seg).drop_last() =~= segs);
    assert(segs.push(seg).last() == seg);
}

proof fn lemma_split_push(a: Seq<char>, seg: Seq<char>)
    requires
        forall|k: int| 0 <= k < seg.len() ==> seg[k] != ',',
    ensures
        split_commas(a + seq![','] + seg) == split_commas(a).push(seg),
{
    let s = a + seq![','] + seg;
    lemma_last_index_skip_tail(a + seq![','], seg, ',');
    assert((a + seq![',']).last() == ',');
    assert(last_index_of(a + seq![','], ',') == a.len());
    assert(last_index_of(s, ',') == a.len());
    assert(s.subrange(0, a.len() as int) =~= a);
    assert(s.subrange(a.len() as int + 1, s.len() as int) =~= seg);
}

fn strip_dots_chars(v: &Vec<char>) -> (r: Vec<char>)
    ensures
        r@ == strip_dots(v@),
{
    let len: usize = v.len();
    proof {
        assert(v@.subrange(0, len as int) =~= v@);
    }
    let mut i: usize = 0;
    while i < len && v[i] == '.'
        invariant
            i <= len,
            len == v@.len(),
            strip_dots(v@) == strip_dots(v@.subrange(i as int, len as int)),
        decreases len - i,
    {
        proof {
            assert(v@.subrange(i as int, len as int).drop_first() =~= v@.subrange(
                i as int + 1,
                len as int,
            ));
        }
        i = i + 1;
    }
    proof {
        assert(strip_dots(v@) == v@.subrange(i as int, len as int));
    }
    let mut r: Vec<char> = Vec::new();
    let mut k: usize = i;
    while k < len
        invariant
            i <= k <= len,
            len == v@.len(),
            r@.len() == k - i,
            forall|m: int| 0 <= m < r@.len() ==> r@[m] == v@[i + m],
        decreases len - k,
    {
        r.push(v[k]);
        k = k + 1;
    }
    proof {
        assert(r@ =~= v@.subrange(i as int, len as int));
    }
    r
}

fn handle_segment(exts: &mut Vec<String>, v: &Vec<char>, a: usize, b: usize)
    requires
        a <= b <= v@.len(),
    ensures
        views_of(final(exts)@) == views_of(old(exts)@) + seg_delta(
            v@.subrange(a as int, b as int),
        ),
{
    let mut seg: Vec<char> = Vec::new();
    let mut k: usize = a;
    while k < b
        invariant
            a <= k <= b <= v@.len(),
            seg@.len() == k - a,
            forall|m: int| 0 <= m < seg@.len() ==> seg@[m] == v@[a + m],
        decreases b - k,
    {
        seg.push(v[k]);
        k = k + 1;
    }
    proof {
        assert(seg@ =~= v@.subrange(a as int, b as int));
    }
    let t = trim_chars(&seg);
    if t.len() > 0 {
        let lowered = lower_chars(&strip_dots_chars(&t));
        exts.push(string_from_chars(&lowered));
        proof {
            assert(views_of(exts@) =~= views_of(old(exts)@) + seg_delta(seg@));
        }
    } else {
        proof {
            assert(views_of(exts@) =~= views_of(old(exts)@) + seg_delta(seg@));
        }
    }
}

pub fn parse_extensions(raw: String) -> (r: Vec<String>)
    ensures
        views_of(r@) == parsed_extensions(raw@),
{
    let v = chars_of(raw.as_str());
    let n: usize = v.len();
    let mut exts: Vec<String> = Vec::new();
    let mut seg_start: usize = 0;
    let mut i: usize = 0;
    while i < n
        invariant
            seg_start <= i <= n,
            n == v@.len(),
            v@ == raw@,
            seg_start > 0 ==> v@[seg_start as int - 1] == ',',
            forall|k: int| seg_start <= k < i ==> v@[k] != ',',
            seg_start == 0 ==> views_of(exts@) == Seq::<Seq<char>>::empty(),
            seg_start > 0 ==> views_of(exts@) == exts_of(
                split_commas(v@.subrange(0, seg_start as int - 1)),
            ),
        decreases n - i,
    {
        if v[i] == ',' {
            let ghost seg = v@.subrange(seg_start as int, i as int);
            let ghost pre = views_of(exts@);
            proof {
                assert(forall|m: int| 0 <= m < seg.len() ==> seg[m] == v@[seg_start + m]);
            }
            handle_segment(&mut exts, &v, seg_start, i);
            proof {
                if seg_start == 0 {
                    lemma_last_index_none(seg, ',');
                    assert(v@.subrange(0, i as int) =~= seg);
                    assert(split_commas(seg) == seq![seg]);
                    assert(seq![seg] =~= Seq::<Seq<char>>::empty().push(seg));
                    lemma_exts_push(Seq::empty(), seg);
                    assert(exts_of(Seq::<Seq<char>>::empty()) == Seq::<Seq<char>>::empty());
                    assert(views_of(exts@) =~= exts_of(split_commas(v@.subrange(0, i as int))));
                } else {
                    let prev = v@.subrange(0, seg_start as int - 1);
                    assert(v@.subrange(0, i as int) =~= prev + seq![','] + seg);
                    lemma_split_push(prev, seg);
                    lemma_exts_push(split_commas(prev), seg);
                    assert(views_of(exts@) =~= exts_of(split_commas(v@.subrange(0, i as int))));
                }
            }
            seg_start = i + 1;
        }
        i = i + 1;
    }
    let ghost seg = v@.subrange(seg_start as int, n as int);
    proof {
        assert(forall|m: int| 0 <= m < seg.len() ==> seg[m] == v@[seg_start + m]);
    }
    handle_segment(&mut exts, &v, seg_start, n);
    proof {
        if seg_start == 0 {
            lemma_last_index_none(seg, ',');
            assert(v@ =~= seg);
            assert(split_commas(seg) == seq![seg]);
            assert(seq![seg] =~= Seq::<Seq<char>>::empty().push(seg));
            lemma_exts_push(Seq::empty(), seg);
            assert(exts_of(Seq::<Seq<char>>::empty()) == Seq::<Seq<char>>::empty());
            assert(views_of(exts@) =~= exts_of(split_commas(v@)));
        } else {
            let prev = v@.subrange(0, seg_start as int - 1);
            assert(v@ =~= prev + seq![','] + seg);
            lemma_split_push(prev, seg);
            lemma_exts_push(split_commas(prev), seg);
            assert(views_of(exts@) =~= exts_of(split_commas(v@)));
        }
    }
    if exts.len() == 0 {
        exts.push("mp3".to_owned());
        proof {
            assert(views_of(exts@) =~= seq!["mp3"@]);
        }
    }
    exts
}

impl Config {
    /// Normalizes the raw options. `cwd` is the working directory and
    /// `root_is_dir` is the filesystem's verdict on the resolved root;
    /// a missing root directory is the fatal configuration error.
    pub fn from_args(args: CliArgs, cwd: String, root_is_dir: bool) -> (r: Result<Config, String>)
        ensures
            r is Ok <==> root_is_dir,
            !root_is_dir ==> r->Err_0@ == dir_error_text(resolved_root_spec(args.root, cwd@)),
            root_is_dir ==> {
                let c = r->Ok_0;
                &&& c.root@ == resolved_root_spec(args.root, cwd@)
                &&& c.output@ == normalized_output_spec(resolved_root_spec(args.root, cwd@), args.output)
                &&& c.dry_run == args.dry_run
                &&& c.artist_filter@ == args.artist_filter@
                &&& views_of(c.extensions@) == parsed_extensions(args.extensions@)
                &&& c.output_format == args.format
                &&& c.max_depth == args.max_depth
                &&& c.follow_symlinks == args.follow_symlinks
                &&& (c.summary_json is Some <==> args.summary_json is Some)
                &&& args.summary_json is Some ==> c.summary_json->0@ == make_absolute_spec(
                    resolved_root_spec(args.root, cwd@),
                    args.summary_json->0@,
                )
                &&& c.quiet == args.quiet
            },
    {
        let root = resolve_root(&args.root, cwd.as_str());
        match ensure_directory(root.as_str(), root_is_dir) {
            Ok(()) => {},
            Err(e) => {
                return Err(e);
            },
        }
        let output = normalize_output(root.as_str(), args.output);
        let summary_json = match args.summary_json {
            Some(p) => Some(make_absolute(root.as_str(), p)),
            None => None,
        };
        let extensions = parse_extensions(args.extensions);
        Ok(
            Config {
                root,
                output,
                dry_run: args.dry_run,
                artist_filter: args.artist_filter,
                extensions,
                output_format: args.format,
                max_depth: args.max_depth,
                follow_symlinks: args.follow_symlinks,
                summary_json,
                quiet: args.quiet,
            },
        )
    }
}

} // verus!
