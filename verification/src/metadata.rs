//! The metadata matcher: resolves the effective artist of a tag, decides
//! whether it matches the configured filter, and collects the de-duplicated
//! lyrics blocks of the tag's lyrics-bearing frames.

use vstd::prelude::*;

use crate::text::{
    chars_of, contains_chars, contains_seq, eq_chars_ignore_case, eq_ignore_case, lower_chars,
    lower_seq, string_from_chars, trim_chars, trim_spec, extend_chars, lemma_trim_idempotent,
    views_of,
};

verus! {

/// The artist filter used when the caller configures none.
pub const DEFAULT_ARTIST_FILTER: &'static str = "udio";

/// One matched track, ready for the output sink.
#[derive(Debug, Clone, PartialEq, Eq)]
pub struct TrackMetadata {
    pub artist: String,
    pub title: String,
    pub lyrics: String,
}

/// One lyrics-bearing frame of a tag: a dedicated lyrics entry, an
/// extended-text entry, a comment, a generic text frame with its identifier,
/// or any other frame kind, which the collector ignores.
#[derive(Debug, Clone, PartialEq, Eq)]
pub enum TagFrame {
    Lyrics { description: String, text: String },
    ExtendedText { description: String, value: String },
    Comment { description: String, text: String },
    Text { id: String, value: String },
    Other,
}

/// The structured view of a file's embedded metadata that the matcher reads;
/// the tag-parsing subsystem fills it in.
#[derive(Debug, Clone, PartialEq, Eq)]
pub struct TagView {
    pub artist: Option<String>,
    pub album_artist: Option<String>,
    pub title: Option<String>,
    pub frames: Vec<TagFrame>,
}

/// The effective artist: the trimmed primary artist when non-empty, else the
/// trimmed album artist when non-empty, else nothing.
pub open spec fn resolved_artist(t: TagView) -> Option<Seq<char>> {
    if t.artist is Some && trim_spec(t.artist->0@).len() > 0 {
        Some(trim_spec(t.artist->0@))
    } else if t.album_artist is Some && trim_spec(t.album_artist->0@).len() > 0 {
        Some(trim_spec(t.album_artist->0@))
    } else {
        None
    }
}

/// The filter matches when it is empty after trimming, or occurs in the
/// artist, both compared in ASCII lower case.
pub open spec fn filter_matches(artist: Seq<char>, needle: Seq<char>) -> bool {
    let n = lower_seq(trim_spec(needle));
    n.len() == 0 || contains_seq(lower_seq(artist), n)
}

/// The artist returned for a tag and a filter: the resolved artist when it
/// exists and the filter matches it.
pub open spec fn match_artist_spec(t: TagView, needle: Seq<char>) -> Option<Seq<char>> {
    match resolved_artist(t) {
        Some(a) => if filter_matches(a, needle) {
            Some(a)
        } else {
            None
        },
        None => None,
    }
}

/// The trimmed title when non-empty, else the fixed placeholder.
pub open spec fn resolved_title(t: TagView) -> Seq<char> {
    if t.title is Some && trim_spec(t.title->0@).len() > 0 {
        trim_spec(t.title->0@)
    } else {
        "Unknown Title"@
    }
}

/// The lyrics text a frame contributes in the second collection pass, if any.
pub open spec fn frame_candidate(f: TagFrame) -> Option<Seq<char>> {
    match f {
        TagFrame::ExtendedText { description, value } => if eq_ignore_case(
            description@,
            "lyrics"@,
        ) {
            Some(value@)
        } else {
            None
        },
        TagFrame::Comment { description, text } => if eq_ignore_case(description@, "lyrics"@) {
            Some(text@)
        } else {
            None
        },
        TagFrame::Lyrics { description, text } => Some(text@),
        TagFrame::Text { id, value } => if eq_ignore_case(id@, "lyrics"@) {
            Some(value@)
        } else {
            None
        },
        TagFrame::Other => None,
    }
}

/// The texts of the dedicated lyrics frames, in frame order (the first
/// collection pass).
pub open spec fn lyrics_texts(frames: Seq<TagFrame>) -> Seq<Seq<char>>
    decreases frames.len(),
{
    if frames.len() == 0 {
        Seq::empty()
    } else {
        let rest = lyrics_texts(frames.drop_last());
        match frames.last() {
            TagFrame::Lyrics { description, text } => rest.push(text@),
            _ => rest,
        }
    }
}

/// The candidates of the second collection pass, in frame order.
pub open spec fn frame_candidates(frames: Seq<TagFrame>) -> Seq<Seq<char>>
    decreases frames.len(),
{
    if frames.len() == 0 {
        Seq::empty()
    } else {
        let rest = frame_candidates(frames.drop_last());
        match frame_candidate(frames.last()) {
            Some(c) => rest.push(c),
            None => rest,
        }
    }
}

/// Every candidate lyrics text of a tag, in collection order: the dedicated
/// lyrics frames first, then the remaining lyrics-bearing frames.
pub open spec fn all_candidates(t: TagView) -> Seq<Seq<char>> {
    lyrics_texts(t.frames@) + frame_candidates(t.frames@)
}

/// A candidate joins the collected blocks when it is non-empty after
/// trimming and not already present; the first occurrence wins.
pub open spec fn push_block_spec(blocks: Seq<Seq<char>>, cand: Seq<char>) -> Seq<Seq<char>> {
    let t = trim_spec(cand);
    if t.len() > 0 && !blocks.contains(t) {
        blocks.push(t)
    } else {
        blocks
    }
}

pub open spec fn fold_blocks(blocks: Seq<Seq<char>>, cands: Seq<Seq<char>>) -> Seq<Seq<char>>
    decreases cands.len(),
{
    if cands.len() == 0 {
        blocks
    } else {
        fold_blocks(push_block_spec(blocks, cands[0]), cands.drop_first())
    }
}

/// The surviving lyrics blocks of a tag, in first-occurrence order.
pub open spec fn collected_blocks(t: TagView) -> Seq<Seq<char>> {
    fold_blocks(Seq::empty(), all_candidates(t))
}

pub open spec fn blank_line() -> Seq<char> {
    seq!['\n', '\n']
}

/// The blocks joined with a blank line between each pair.
pub open spec fn join_blocks(bs: Seq<Seq<char>>) -> Seq<char>
    decreases bs.len(),
{
    if bs.len() == 0 {
        Seq::empty()
    } else if bs.len() == 1 {
        bs[0]
    } else {
        join_blocks(bs.drop_last()) + blank_line() + bs.last()
    }
}

/// The joined lyrics of a tag, or nothing when no block survives.
pub open spec fn collected_lyrics(t: TagView) -> Option<Seq<char>> {
    if collected_blocks(t).len() == 0 {
        None
    } else {
        Some(join_blocks(collected_blocks(t)))
    }
}

pub open spec fn opt_view(o: Option<String>) -> Option<Seq<char>> {
    match o {
        Some(s) => Some(s@),
        None => None,
    }
}

pub fn resolve_artist(tag: &TagView) -> (r: Option<String>)
    ensures
        opt_view(r) == resolved_artist(*tag),
{
    match &tag.artist {
        Some(a) => {
            let t = trim_chars(&chars_of(a.as_str()));
            if t.len() > 0 {
                return Some(string_from_chars(&t));
            }
        },
        None => {},
    }
    match &tag.album_artist {
        Some(a) => {
            let t = trim_chars(&chars_of(a.as_str()));
            if t.len() > 0 {
                return Some(string_from_chars(&t));
            }
        },
        None => {},
    }
    None
}

pub fn matches_artist(artist: &str, needle: &str) -> (r: bool)
    ensures
        r == filter_matches(artist@, needle@),
{
    let n = lower_chars(&trim_chars(&chars_of(needle)));
    if n.len() == 0 {
        true
    } else {
        contains_chars(&lower_chars(&chars_of(artist)), &n)
    }
}

pub fn match_artist(tag: &TagView, needle: &str) -> (r: Option<String>)
    ensures
        opt_view(r) == match_artist_spec(*tag, needle@),
{
    match resolve_artist(tag) {
        Some(a) => {
            if matches_artist(a.as_str(), needle) {
                Some(a)
            } else {
                None
            }
        },
        None => None,
    }
}

pub fn resolve_title(tag: &TagView) -> (r: String)
    ensures
        r@ == resolved_title(*tag),
{
    match &tag.title {
        Some(ti) => {
            let t = trim_chars(&chars_of(ti.as_str()));
            if t.len() > 0 {
                return string_from_chars(&t);
            }
        },
        None => {},
    }
    "Unknown Title".to_owned()
}

pub fn push_block(blocks: &mut Vec<String>, candidate: &str)
    ensures
        views_of(final(blocks)@) == push_block_spec(views_of(old(blocks)@), candidate@),
{
    let t = trim_chars(&chars_of(candidate));
    if t.len() == 0 {
        proof {
            assert(views_of(blocks@) =~= push_block_spec(views_of(old(blocks)@), candidate@));
        }
        return ;
    }
    let ts = string_from_chars(&t);
    let mut i: usize = 0;
    while i < blocks.len()
        invariant
            i <= blocks@.len(),
            blocks@ == old(blocks)@,
            ts@ == trim_spec(candidate@),
            forall|k: int| 0 <= k < i ==> blocks@[k]@ != ts@,
        decreases blocks@.len() - i,
    {
        if blocks[i] == ts {
            proof {
                assert(views_of(blocks@)[i as int] == blocks@[i as int]@);
                assert(views_of(blocks@).contains(trim_spec(candidate@)));
                assert(views_of(blocks@) =~= push_block_spec(
                    views_of(old(blocks)@),
                    candidate@,
                ));
            }
            return ;
        }
        i = i + 1;
    }
    proof {
        assert(forall|k: int|
            0 <= k < views_of(blocks@).len() ==> views_of(blocks@)[k] == blocks@[k]@);
        assert(!views_of(blocks@).contains(ts@));
    }
    blocks.push(ts);
    proof {
        assert(views_of(blocks@) =~= push_block_spec(views_of(old(blocks)@), candidate@));
    }
}

proof fn lemma_fold_blocks_push(blocks: Seq<Seq<char>>, cands: Seq<Seq<char>>, c: Seq<char>)
    ensures
        fold_blocks(blocks, cands.push(c)) == push_block_spec(fold_blocks(blocks, cands), c),
    decreases cands.len(),
{
    if cands.len() == 0 {
        assert(cands.push(c)[0] == c);
        assert(cands.push(c).drop_first() =~= cands);
        assert(fold_blocks(blocks, cands) == blocks);
        assert(fold_blocks(push_block_spec(blocks, c), cands) == push_block_spec(blocks, c));
        assert(fold_blocks(blocks, cands.push(c)) == fold_blocks(
            push_block_spec(blocks, c),
            cands.push(c).drop_first(),
        ));
    } else {
        assert(cands.push(c)[0] == cands[0]);
        assert(cands.push(c).drop_first() =~= cands.drop_first().push(c));
        lemma_fold_blocks_push(push_block_spec(blocks, cands[0]), cands.drop_first(), c);
    }
}

pub fn collect_lyrics(tag: &TagView) -> (r: Option<String>)
    ensures
        opt_view(r) == collected_lyrics(*tag),
{
    let mut blocks: Vec<String> = Vec::new();
    let frames = &tag.frames;
    let n: usize = frames.len();
    proof {
        assert(frames@.take(0int) =~= Seq::<TagFrame>::empty());
        assert(views_of(blocks@) =~= Seq::<Seq<char>>::empty());
    }
    let mut i: usize = 0;
    while i < n
        invariant
            i <= n,
            n == frames@.len(),
            frames@ == tag.frames@,
            views_of(blocks@) == fold_blocks(Seq::empty(), lyrics_texts(frames@.take(i as int))),
        decreases n - i,
    {
        let ghost pre = lyrics_texts(frames@.take(i as int));
        proof {
            assert(frames@.take(i as int + 1).drop_last() =~= frames@.take(i as int));
            assert(frames@.take(i as int + 1).last() == frames@[i as int]);
        }
        match &frames[i] {
            TagFrame::Lyrics { description, text } => {
                push_block(&mut blocks, text.as_str());
                proof {
                    lemma_fold_blocks_push(Seq::empty(), pre, text@);
                }
            },
            _ => {},
        }
        i = i + 1;
    }
    proof {
        assert(frames@.take(n as int) =~= frames@);
    }
    let ghost pass1 = lyrics_texts(frames@);
    let mut j: usize = 0;
    while j < n
        invariant
            j <= n,
            n == frames@.len(),
            frames@ == tag.frames@,
            pass1 == lyrics_texts(frames@),
            views_of(blocks@) == fold_blocks(
                Seq::empty(),
                pass1 + frame_candidates(frames@.take(j as int)),
            ),
        decreases n - j,
    {
        let ghost pre = pass1 + frame_candidates(frames@.take(j as int));
        proof {
            assert(frames@.take(j as int + 1).drop_last() =~= frames@.take(j as int));
            assert(frames@.take(j as int + 1).last() == frames@[j as int]);
        }
        let ghost cand = frame_candidate(frames@[j as int]);
        match &frames[j] {
            TagFrame::ExtendedText { description, value } => {
                if eq_chars_ignore_case(&chars_of(description.as_str()), &chars_of("lyrics")) {
                    push_block(&mut blocks, value.as_str());
                    proof {
                        lemma_fold_blocks_push(Seq::empty(), pre, value@);
                        assert(pass1 + frame_candidates(frames@.take(j as int + 1)) =~= pre.push(
                            value@,
                        ));
                    }
                } else {
                    proof {
                        assert(pass1 + frame_candidates(frames@.take(j as int + 1)) =~= pre);
                    }
                }
            },
            TagFrame::Comment { description, text } => {
                if eq_chars_ignore_case(&chars_of(description.as_str()), &chars_of("lyrics")) {
                    push_block(&mut blocks, text.as_str());
                    proof {
                        lemma_fold_blocks_push(Seq::empty(), pre, text@);
                        assert(pass1 + frame_candidates(frames@.take(j as int + 1)) =~= pre.push(
                            text@,
                        ));
                    }
                } else {
                    proof {
                        assert(pass1 + frame_candidates(frames@.take(j as int + 1)) =~= pre);
                    }
                }
            },
            TagFrame::Lyrics { description, text } => {
                push_block(&mut blocks, text.as_str());
                proof {
                    lemma_fold_blocks_push(Seq::empty(), pre, text@);
                    assert(pass1 + frame_candidates(frames@.take(j as int + 1)) =~= pre.push(
                        text@,
                    ));
                }
            },
            TagFrame::Text { id, value } => {
                if eq_chars_ignore_case(&chars_of(id.as_str()), &chars_of("lyrics")) {
                    push_block(&mut blocks, value.as_str());
                    proof {
                        lemma_fold_blocks_push(Seq::empty(), pre, value@);
                        assert(pass1 + frame_candidates(frames@.take(j as int + 1)) =~= pre.push(
                            value@,
                        ));
                    }
                } else {
                    proof {
                        assert(pass1 + frame_candidates(frames@.take(j as int + 1)) =~= pre);
                    }
                }
            },
            TagFrame::Other => {
                proof {
                    assert(pass1 + frame_candidates(frames@.take(j as int + 1)) =~= pre);
                }
            },
        }
        j = j + 1;
    }
    proof {
        assert(frames@.take(n as int) =~= frames@);
        assert(views_of(blocks@) == collected_blocks(*tag));
    }
    if blocks.len() == 0 {
        None
    } else {
        let mut out: Vec<char> = chars_of(blocks[0].as_str());
        proof {
            assert(views_of(blocks@).take(1int) =~= seq![blocks@[0int]@]);
        }
        let mut k: usize = 1;
        while k < blocks.len()
            invariant
                1 <= k <= blocks@.len(),
                views_of(blocks@) == collected_blocks(*tag),
                out@ == join_blocks(views_of(blocks@).take(k as int)),
            decreases blocks@.len() - k,
        {
            out.push('\n');
            out.push('\n');
            extend_chars(&mut out, &chars_of(blocks[k].as_str()));
            proof {
                assert(views_of(blocks@).take(k as int + 1).drop_last() =~= views_of(
                    blocks@,
                ).take(k as int));
                assert(views_of(blocks@).take(k as int + 1).last() == blocks@[k as int]@);
                assert(out@ =~= join_blocks(views_of(blocks@).take(k as int)) + blank_line()
                    + blocks@[k as int]@);
            }
            k = k + 1;
        }
        proof {
            assert(views_of(blocks@).take(blocks@.len() as int) =~= views_of(blocks@));
        }
        Some(string_from_chars(&out))
    }
}

pub fn extract_metadata(tag: &TagView, needle: &str) -> (r: Option<TrackMetadata>)
    ensures
        r is Some <==> match_artist_spec(*tag, needle@) is Some && collected_lyrics(*tag) is Some,
        r is Some ==> r->0.artist@ == match_artist_spec(*tag, needle@)->0,
        r is Some ==> r->0.title@ == resolved_title(*tag),
        r is Some ==> r->0.lyrics@ == collected_lyrics(*tag)->0,
{
    let artist = match match_artist(tag, needle) {
        Some(a) => a,
        None => {
            return None;
        },
    };
    let lyrics = match collect_lyrics(tag) {
        Some(l) => l,
        None => {
            return None;
        },
    };
    let title = resolve_title(tag);
    Some(TrackMetadata { artist, title, lyrics })
}

/// For every tag view, the effective artist is the trimmed primary artist
/// when that is non-empty, else the trimmed album artist when that is
/// non-empty, else nothing.
pub proof fn lemma_artist_preference(t: TagView)
    ensures
        t.artist is Some && trim_spec(t.artist->0@).len() > 0 ==> resolved_artist(t) == Some(
            trim_spec(t.artist->0@),
        ),
        !(t.artist is Some && trim_spec(t.artist->0@).len() > 0) && t.album_artist is Some
            && trim_spec(t.album_artist->0@).len() > 0 ==> resolved_artist(t) == Some(
            trim_spec(t.album_artist->0@),
        ),
        !(t.artist is Some && trim_spec(t.artist->0@).len() > 0) && !(t.album_artist is Some
            && trim_spec(t.album_artist->0@).len() > 0) ==> resolved_artist(t) is None,
{
}

/// A filter that is empty after trimming matches every resolved artist, so
/// matching returns exactly the resolved artist.
pub proof fn lemma_empty_filter_matches(t: TagView, needle: Seq<char>)
    requires
        trim_spec(needle).len() == 0,
    ensures
        match_artist_spec(t, needle) == resolved_artist(t),
{
    assert(lower_seq(trim_spec(needle)).len() == 0);
}

proof fn lemma_fold_blocks_sound(blocks: Seq<Seq<char>>, cands: Seq<Seq<char>>)
    requires
        forall|i: int, j: int| 0 <= i < j < blocks.len() ==> blocks[i] != blocks[j],
        forall|i: int|
            0 <= i < blocks.len() ==> blocks[i].len() > 0 && trim_spec(blocks[i]) == blocks[i],
    ensures
        forall|i: int, j: int|
            0 <= i < j < fold_blocks(blocks, cands).len() ==> fold_blocks(blocks, cands)[i]
                != fold_blocks(blocks, cands)[j],
        forall|i: int|
            0 <= i < fold_blocks(blocks, cands).len() ==> fold_blocks(blocks, cands)[i].len() > 0
                && trim_spec(fold_blocks(blocks, cands)[i]) == fold_blocks(blocks, cands)[i],
        blocks.len() <= fold_blocks(blocks, cands).len(),
        forall|i: int| 0 <= i < blocks.len() ==> fold_blocks(blocks, cands)[i] == blocks[i],
    decreases cands.len(),
{
    if cands.len() > 0 {
        let next = push_block_spec(blocks, cands[0]);
        let t = trim_spec(cands[0]);
        lemma_trim_idempotent(cands[0]);
        if t.len() > 0 && !blocks.contains(t) {
            assert(forall|i: int| 0 <= i < blocks.len() ==> next[i] == blocks[i]);
            assert(forall|i: int, j: int| 0 <= i < j < next.len() ==> next[i] != next[j]) by {
                assert(forall|i: int|
                    0 <= i < blocks.len() ==> blocks.contains(blocks[i]) && next[i] == blocks[i]);
            }
        }
        lemma_fold_blocks_sound(next, cands.drop_first());
    }
}

/// The collected lyrics blocks are pairwise distinct, and each is non-empty
/// and exactly the whitespace-trimmed text of one candidate source, with its
/// case preserved.
pub proof fn lemma_blocks_collected(t: TagView)
    ensures
        forall|i: int, j: int|
            0 <= i < j < collected_blocks(t).len() ==> collected_blocks(t)[i] != collected_blocks(
                t,
            )[j],
        forall|i: int|
            0 <= i < collected_blocks(t).len() ==> collected_blocks(t)[i].len() > 0 && trim_spec(
                collected_blocks(t)[i],
            ) == collected_blocks(t)[i],
{
    lemma_fold_blocks_sound(Seq::empty(), all_candidates(t));
}

/// The index of the first candidate whose trimmed text is `b`, or -1.
pub open spec fn trimmed_hit(cands: Seq<Seq<char>>, b: Seq<char>) -> int
    decreases cands.len(),
{
    if cands.len() == 0 {
        -1
    } else if trim_spec(cands[0]) == b {
        0
    } else {
        let r = trimmed_hit(cands.drop_first(), b);
        if r < 0 {
            -1
        } else {
            r + 1
        }
    }
}

proof fn lemma_trimmed_hit_props(cands: Seq<Seq<char>>, b: Seq<char>)
    ensures
        trimmed_hit(cands, b) >= 0 ==> trimmed_hit(cands, b) < cands.len() && trim_spec(
            cands[trimmed_hit(cands, b)],
        ) == b,
    decreases cands.len(),
{
    if cands.len() > 0 && trim_spec(cands[0]) != b {
        lemma_trimmed_hit_props(cands.drop_first(), b);
    }
}

proof fn lemma_trimmed_hit_push(cands: Seq<Seq<char>>, c: Seq<char>, b: Seq<char>)
    ensures
        trimmed_hit(cands.push(c), b) == (if trimmed_hit(cands, b) >= 0 {
            trimmed_hit(cands, b)
        } else if trim_spec(c) == b {
            cands.len() as int
        } else {
            -1int
        }),
    decreases cands.len(),
{
    if cands.len() == 0 {
        assert(cands.push(c)[0] == c);
        assert(cands.push(c).drop_first() =~= cands);
    } else {
        assert(cands.push(c)[0] == cands[0]);
        assert(cands.push(c).drop_first() =~= cands.drop_first().push(c));
        lemma_trimmed_hit_push(cands.drop_first(), c, b);
    }
}

proof fn lemma_fold_first_occurrence(cands: Seq<Seq<char>>)
    ensures
        forall|i: int|
            0 <= i < fold_blocks(Seq::empty(), cands).len() ==> trimmed_hit(
                cands,
                fold_blocks(Seq::empty(), cands)[i],
            ) >= 0,
        forall|i: int, j: int|
            0 <= i < j < fold_blocks(Seq::empty(), cands).len() ==> trimmed_hit(
                cands,
                fold_blocks(Seq::empty(), cands)[i],
            ) < trimmed_hit(cands, fold_blocks(Seq::empty(), cands)[j]),
        forall|k: int|
            0 <= k < cands.len() && trim_spec(cands[k]).len() > 0 ==> fold_blocks(
                Seq::empty(),
                cands,
            ).contains(trim_spec(cands[k])),
    decreases cands.len(),
{
    if cands.len() > 0 {
        let p = cands.drop_last();
        let c = cands.last();
        let bs_p = fold_blocks(Seq::empty(), p);
        let bs = fold_blocks(Seq::empty(), cands);
        assert(cands =~= p.push(c));
        lemma_fold_blocks_push(Seq::empty(), p, c);
        assert(bs == push_block_spec(bs_p, c));
        lemma_fold_first_occurrence(p);
        assert forall|b: Seq<char>| bs_p.contains(b) implies trimmed_hit(cands, b) == trimmed_hit(
            p,
            b,
        ) by {
            let i = choose|i: int| 0 <= i < bs_p.len() && bs_p[i] == b;
            lemma_trimmed_hit_push(p, c, b);
        }
        assert forall|b: Seq<char>| bs_p.contains(b) implies 0 <= trimmed_hit(p, b)
            < p.len() by {
            let i = choose|i: int| 0 <= i < bs_p.len() && bs_p[i] == b;
            lemma_trimmed_hit_props(p, b);
        }
        let t = trim_spec(c);
        if t.len() > 0 && !bs_p.contains(t) {
            assert(bs == bs_p.push(t));
            assert(trimmed_hit(p, t) < 0) by {
                if trimmed_hit(p, t) >= 0 {
                    lemma_trimmed_hit_props(p, t);
                    let k = trimmed_hit(p, t);
                    assert(p[k] == cands[k] && trim_spec(cands[k]) == t && t.len() > 0);
                    assert(bs_p.contains(t));
                }
            }
            lemma_trimmed_hit_push(p, c, t);
            assert(trimmed_hit(cands, t) == p.len());
            assert(forall|i: int| 0 <= i < bs_p.len() ==> bs[i] == bs_p[i] && bs_p.contains(
                bs_p[i],
            ));
            assert(forall|k: int|
                0 <= k < p.len() && trim_spec(p[k]).len() > 0 ==> bs.contains(trim_spec(p[k])))
                by {
                assert(forall|k: int|
                    0 <= k < p.len() && trim_spec(p[k]).len() > 0 ==> #[trigger] bs_p.contains(
                        trim_spec(p[k]),
                    ) && bs_p.len() <= bs.len());
                assert(forall|b: Seq<char>| bs_p.contains(b) ==> #[trigger] bs.contains(b)) by {
                    assert(forall|i: int| 0 <= i < bs_p.len() ==> bs[i] == bs_p[i]);
                }
            }
            assert(bs.contains(t)) by {
                assert(bs[bs.len() - 1] == t);
            }
        } else {
            assert(bs == bs_p);
            if t.len() > 0 {
                assert(bs.contains(t));
            }
        }
        assert(forall|k: int| 0 <= k < p.len() ==> p[k] == cands[k]);
    }
}

/// The blocks stand in the order in which their texts first occur among
/// the candidate sources: the first occurrence wins and later duplicates
/// change nothing; and every candidate that is non-empty after trimming is
/// represented by exactly the trimmed text of its first occurrence, its
/// case untouched.
pub proof fn lemma_blocks_first_occurrence_order(t: TagView)
    ensures
        forall|i: int|
            0 <= i < collected_blocks(t).len() ==> {
                let h = trimmed_hit(all_candidates(t), #[trigger] collected_blocks(t)[i]);
                &&& h >= 0
                &&& h < all_candidates(t).len()
                &&& collected_blocks(t)[i] == trim_spec(all_candidates(t)[h])
            },
        forall|i: int, j: int|
            0 <= i < j < collected_blocks(t).len() ==> trimmed_hit(
                all_candidates(t),
                collected_blocks(t)[i],
            ) < trimmed_hit(all_candidates(t), collected_blocks(t)[j]),
        forall|k: int|
            0 <= k < all_candidates(t).len() && trim_spec(all_candidates(t)[k]).len() > 0
                ==> collected_blocks(t).contains(trim_spec(all_candidates(t)[k])),
{
    lemma_fold_first_occurrence(all_candidates(t));
    assert forall|i: int| 0 <= i < collected_blocks(t).len() implies {
        let h = trimmed_hit(all_candidates(t), #[trigger] collected_blocks(t)[i]);
        &&& h >= 0
        &&& h < all_candidates(t).len()
        &&& collected_blocks(t)[i] == trim_spec(all_candidates(t)[h])
    } by {
        lemma_trimmed_hit_props(all_candidates(t), collected_blocks(t)[i]);
    }
}

/// Joining two blocks puts exactly one blank line between them.
pub proof fn lemma_join_two(a: Seq<char>, b: Seq<char>)
    ensures
        join_blocks(seq![a, b]) == a + seq!['\n', '\n'] + b,
{
    assert(seq![a, b].drop_last() =~= seq![a]);
    assert(join_blocks(seq![a]) == a);
    assert(seq![a, b].last() == b);
    assert(join_blocks(seq![a, b]) == join_blocks(seq![a, b].drop_last()) + blank_line() + seq![
        a,
        b,
    ].last());
}

} // verus!
