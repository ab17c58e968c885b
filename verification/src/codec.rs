//! The line format of the output sink in JSON mode and of the summary
//! artifact: one JSON object per matched track, with the strings escaped as
//! JSON demands, plus the parser that reads such a line back.

use vstd::prelude::*;

use crate::metadata::TrackMetadata;
use crate::report::Summary;
use crate::text::{chars_of, extend_chars, string_from_chars, views_of, dec_chars, dec_seq};

verus! {

/// The lower-case hexadecimal digit for a value below 16.
pub open spec fn hex_char(d: nat) -> char {
    if d == 0 {
        '0'
    } else if d == 1 {
        '1'
    } else if d == 2 {
        '2'
    } else if d == 3 {
        '3'
    } else if d == 4 {
        '4'
    } else if d == 5 {
        '5'
    } else if d == 6 {
        '6'
    } else if d == 7 {
        '7'
    } else if d == 8 {
        '8'
    } else if d == 9 {
        '9'
    } else if d == 10 {
        'a'
    } else if d == 11 {
        'b'
    } else if d == 12 {
        'c'
    } else if d == 13 {
        'd'
    } else if d == 14 {
        'e'
    } else {
        'f'
    }
}

pub open spec fn is_hex(c: char) -> bool {
    ('0' <= c && c <= '9') || ('a' <= c && c <= 'f') || ('A' <= c && c <= 'F')
}

/// The value of a hexadecimal digit character.
pub open spec fn hex_value(c: char) -> nat {
    if '0' <= c && c <= '9' {
        (c as u32 - '0' as u32) as nat
    } else if 'a' <= c && c <= 'f' {
        (c as u32 - 'a' as u32 + 10) as nat
    } else {
        (c as u32 - 'A' as u32 + 10) as nat
    }
}

/// How one character appears inside a JSON string: quote and backslash get a
/// backslash escape, the five short control escapes are used where they
/// exist, any other control character becomes a four-digit hex escape, and
/// everything else stands as itself.
pub open spec fn escape_char(c: char) -> Seq<char> {
    if c == '"' {
        seq!['\\', '"']
    } else if c == '\\' {
        seq!['\\', '\\']
    } else if c == '\u{8}' {
        seq!['\\', 'b']
    } else if c == '\t' {
        seq!['\\', 't']
    } else if c == '\n' {
        seq!['\\', 'n']
    } else if c == '\u{C}' {
        seq!['\\', 'f']
    } else if c == '\r' {
        seq!['\\', 'r']
    } else if (c as u32) < 0x20 {
        seq!['\\', 'u', '0', '0', hex_char((c as u32 / 16) as nat), hex_char((c as u32 % 16) as nat)]
    } else {
        seq![c]
    }
}

pub open spec fn escape_seq(s: Seq<char>) -> Seq<char>
    decreases s.len(),
{
    if s.len() == 0 {
        Seq::empty()
    } else {
        escape_char(s[0]) + escape_seq(s.drop_first())
    }
}

pub proof fn lemma_escape_concat(a: Seq<char>, b: Seq<char>)
    ensures
        escape_seq(a + b) == escape_seq(a) + escape_seq(b),
    decreases a.len(),
{
    if a.len() == 0 {
        assert(a + b =~= b);
        assert(escape_seq(a) + escape_seq(b) =~= escape_seq(b));
    } else {
        assert((a + b)[0] == a[0]);
        assert((a + b).drop_first() =~= a.drop_first() + b);
        lemma_escape_concat(a.drop_first(), b);
        assert(escape_char(a[0]) + (escape_seq(a.drop_first()) + escape_seq(b)) =~= (escape_char(
            a[0],
        ) + escape_seq(a.drop_first())) + escape_seq(b));
    }
}

fn hex_digit(d: u32) -> (c: char)
    requires
        d < 16,
    ensures
        c == hex_char(d as nat),
{
    match d {
        0 => '0',
        1 => '1',
        2 => '2',
        3 => '3',
        4 => '4',
        5 => '5',
        6 => '6',
        7 => '7',
        8 => '8',
        9 => '9',
        10 => 'a',
        11 => 'b',
        12 => 'c',
        13 => 'd',
        14 => 'e',
        _ => 'f',
    }
}

/// Appends the JSON escaping of `s` to `out`.
pub fn escape_into(out: &mut Vec<char>, s: &Vec<char>)
    ensures
        final(out)@ == old(out)@ + escape_seq(s@),
{
    let mut i: usize = 0;
    proof {
        assert(s@.subrange(0, 0int) =~= Seq::<char>::empty());
        assert(out@ =~= old(out)@ + escape_seq(s@.subrange(0, 0int)));
    }
    while i < s.len()
        invariant
            i <= s@.len(),
            out@ == old(out)@ + escape_seq(s@.subrange(0, i as int)),
        decreases s@.len() - i,
    {
        let ghost done = s@.subrange(0, i as int);
        let c = s[i];
        if c == '"' {
            out.push('\\');
            out.push('"');
        } else if c == '\\' {
            out.push('\\');
            out.push('\\');
        } else if c == '\u{8}' {
            out.push('\\');
            out.push('b');
        } else if c == '\t' {
            out.push('\\');
            out.push('t');
        } else if c == '\n' {
            out.push('\\');
            out.push('n');
        } else if c == '\u{C}' {
            out.push('\\');
            out.push('f');
        } else if c == '\r' {
            out.push('\\');
            out.push('r');
        } else {
            let u: u32 = c as u32;
            if u < 0x20 {
                out.push('\\');
                out.push('u');
                out.push('0');
                out.push('0');
                out.push(hex_digit(u / 16));
                out.push(hex_digit(u % 16));
            } else {
                out.push(c);
            }
        }
        proof {
            lemma_escape_concat(done, seq![c]);
            assert(s@.subrange(0, i as int + 1) =~= done + seq![c]);
            assert(seq![c].drop_first() =~= Seq::<char>::empty());
            assert(escape_seq(Seq::<char>::empty()) == Seq::<char>::empty());
            assert(seq![c][0] == c);
            assert(escape_seq(seq![c]) =~= escape_char(c));
            assert(out@ =~= old(out)@ + escape_seq(s@.subrange(0, i as int + 1)));
        }
        i = i + 1;
    }
    proof {
        assert(s@.subrange(0, s@.len() as int) =~= s@);
    }
}

/// One matched track as a JSON line: the fields artist, title and lyrics in
/// that order, each a JSON string.
pub open spec fn track_line(artist: Seq<char>, title: Seq<char>, lyrics: Seq<char>) -> Seq<char> {
    "{\"artist\":\""@ + escape_seq(artist) + seq!['"'] + ",\"title\":\""@ + escape_seq(title)
        + seq!['"'] + ",\"lyrics\":\""@ + escape_seq(lyrics) + seq!['"'] + seq!['}']
}

pub fn encode_track(m: &TrackMetadata) -> (r: String)
    ensures
        r@ == track_line(m.artist@, m.title@, m.lyrics@),
{
    let mut out: Vec<char> = chars_of("{\"artist\":\"");
    escape_into(&mut out, &chars_of(m.artist.as_str()));
    out.push('"');
    extend_chars(&mut out, &chars_of(",\"title\":\""));
    escape_into(&mut out, &chars_of(m.title.as_str()));
    out.push('"');
    extend_chars(&mut out, &chars_of(",\"lyrics\":\""));
    escape_into(&mut out, &chars_of(m.lyrics.as_str()));
    out.push('"');
    out.push('}');
    proof {
        assert(out@ =~= track_line(m.artist@, m.title@, m.lyrics@));
    }
    string_from_chars(&out)
}

/// The result of reading one backslash escape starting at `i` (which points
/// at the backslash): the character it denotes and how many characters of
/// the line it used.
pub open spec fn parse_escape(s: Seq<char>, i: int) -> Option<(char, int)> {
    if !(0 <= i && i + 1 < s.len()) {
        None
    } else {
        let e = s[i + 1];
        if e == '"' {
            Some(('"', 2))
        } else if e == '\\' {
            Some(('\\', 2))
        } else if e == '/' {
            Some(('/', 2))
        } else if e == 'b' {
            Some(('\u{8}', 2))
        } else if e == 'f' {
            Some(('\u{C}', 2))
        } else if e == 'n' {
            Some(('\n', 2))
        } else if e == 'r' {
            Some(('\r', 2))
        } else if e == 't' {
            Some(('\t', 2))
        } else if e == 'u' {
            if i + 5 < s.len() && is_hex(s[i + 2]) && is_hex(s[i + 3]) && is_hex(s[i + 4])
                && is_hex(s[i + 5]) {
                let v = hex_value(s[i + 2]) * 4096 + hex_value(s[i + 3]) * 256 + hex_value(
                    s[i + 4],
                ) * 16 + hex_value(s[i + 5]);
                if v < 0xD800 || (0xE000 <= v && v <= 0xFFFF) {
                    Some((v as char, 6))
                } else {
                    None
                }
            } else {
                None
            }
        } else {
            None
        }
    }
}

/// The result of reading a JSON string body starting at `i` (just after the
/// opening quote): the decoded content and the position just past the
/// closing quote.
pub open spec fn parse_string_body(s: Seq<char>, i: int) -> Option<(Seq<char>, int)>
    decreases s.len() - i
        when 0 <= i <= s.len()
{
    if !(0 <= i && i < s.len()) {
        None
    } else if s[i] == '"' {
        Some((Seq::empty(), i + 1))
    } else if s[i] == '\\' {
        match parse_escape(s, i) {
            None => None,
            Some((c, n)) => match parse_string_body(s, i + n) {
                None => None,
                Some((rest, k)) => Some((seq![c] + rest, k)),
            },
        }
    } else {
        match parse_string_body(s, i + 1) {
            None => None,
            Some((rest, k)) => Some((seq![s[i]] + rest, k)),
        }
    }
}

fn is_hex_digit(c: char) -> (r: bool)
    ensures
        r == is_hex(c),
{
    ('0' <= c && c <= '9') || ('a' <= c && c <= 'f') || ('A' <= c && c <= 'F')
}

fn hex_digit_value(c: char) -> (r: u32)
    requires
        is_hex(c),
    ensures
        r as nat == hex_value(c),
        r < 16,
{
    if '0' <= c && c <= '9' {
        c as u32 - '0' as u32
    } else if 'a' <= c && c <= 'f' {
        c as u32 - 'a' as u32 + 10
    } else {
        c as u32 - 'A' as u32 + 10
    }
}

/// Relies on `char::from_u32`: for a code point below the surrogate range
/// (or any other valid scalar value), the character with that code point.
#[verifier::external_body]
fn char_from_code(v: u32) -> (c: char)
    requires
        v < 0xD800 || (0xE000 <= v && v <= 0x10FFFF),
    ensures
        c == (v as char),
        c as u32 == v,
{
    char::from_u32(v).unwrap()
}

fn parse_escape_at(v: &Vec<char>, i: usize) -> (r: Option<(char, usize)>)
    requires
        i < v@.len(),
    ensures
        match r {
            None => parse_escape(v@, i as int) is None,
            Some(p) => parse_escape(v@, i as int) == Some((p.0, p.1 as int)) && i + p.1
                <= v@.len() && p.1 >= 2,
        },
{
    let len: usize = v.len();
    if len - i < 2 {
        return None;
    }
    let e = v[i + 1];
    if e == '"' {
        Some(('"', 2))
    } else if e == '\\' {
        Some(('\\', 2))
    } else if e == '/' {
        Some(('/', 2))
    } else if e == 'b' {
        Some(('\u{8}', 2))
    } else if e == 'f' {
        Some(('\u{C}', 2))
    } else if e == 'n' {
        Some(('\n', 2))
    } else if e == 'r' {
        Some(('\r', 2))
    } else if e == 't' {
        Some(('\t', 2))
    } else if e == 'u' {
        if len - i < 6 {
            return None;
        }
        let h1 = v[i + 2];
        let h2 = v[i + 3];
        let h3 = v[i + 4];
        let h4 = v[i + 5];
        if !(is_hex_digit(h1) && is_hex_digit(h2) && is_hex_digit(h3) && is_hex_digit(h4)) {
            return None;
        }
        let val: u32 = hex_digit_value(h1) * 4096 + hex_digit_value(h2) * 256 + hex_digit_value(
            h3,
        ) * 16 + hex_digit_value(h4);
        if val < 0xD800 || (0xE000 <= val && val <= 0xFFFF) {
            let c = char_from_code(val);
            Some((c, 6))
        } else {
            None
        }
    } else {
        None
    }
}

/// Reads a JSON string body out of `v`, starting just past the opening
/// quote, through its closing quote.
pub fn parse_string_at(v: &Vec<char>, start: usize) -> (r: Option<(Vec<char>, usize)>)
    requires
        start <= v@.len(),
    ensures
        match r {
            None => parse_string_body(v@, start as int) is None,
            Some(p) => parse_string_body(v@, start as int) == Some((p.0@, p.1 as int)) && p.1
                <= v@.len(),
        },
{
    let mut acc: Vec<char> = Vec::new();
    let mut pos: usize = start;
    loop
        invariant
            start <= pos <= v@.len(),
            parse_string_body(v@, start as int) is Some <==> parse_string_body(
                v@,
                pos as int,
            ) is Some,
            parse_string_body(v@, pos as int) is Some ==> parse_string_body(v@, start as int)->0
                == (acc@ + (parse_string_body(v@, pos as int)->0).0, (parse_string_body(
                v@,
                pos as int,
            )->0).1),
        decreases v@.len() - pos,
    {
        if pos >= v.len() {
            return None;
        }
        let c = v[pos];
        if c == '"' {
            proof {
                assert(parse_string_body(v@, pos as int) == Some(
                    (Seq::<char>::empty(), pos as int + 1),
                ));
                assert(acc@ + Seq::<char>::empty() =~= acc@);
            }
            return Some((acc, pos + 1));
        }
        if c == '\\' {
            match parse_escape_at(v, pos) {
                None => {
                    return None;
                },
                Some((ec, n)) => {
                    proof {
                        if parse_string_body(v@, pos as int + n as int) is Some {
                            let rest = (parse_string_body(v@, pos as int + n as int)->0).0;
                            assert(acc@ + (seq![ec] + rest) =~= acc@.push(ec) + rest);
                        }
                    }
                    acc.push(ec);
                    pos = pos + n;
                },
            }
        } else {
            proof {
                if parse_string_body(v@, pos as int + 1) is Some {
                    let rest = (parse_string_body(v@, pos as int + 1)->0).0;
                    assert(acc@ + (seq![c] + rest) =~= acc@.push(c) + rest);
                }
            }
            acc.push(c);
            pos = pos + 1;
        }
    }
}

/// `lit` occurs in `t` starting exactly at `i`.
pub open spec fn lit_at(t: Seq<char>, i: int, lit: Seq<char>) -> bool {
    0 <= i && i + lit.len() <= t.len() && t.subrange(i, i + lit.len()) == lit
}

fn lit_matches(v: &Vec<char>, i: usize, lit: &Vec<char>) -> (r: bool)
    ensures
        r == lit_at(v@, i as int, lit@),
{
    let vlen: usize = v.len();
    if i > vlen || vlen - i < lit.len() {
        return false;
    }
    let mut k: usize = 0;
    while k < lit.len()
        invariant
            k <= lit@.len(),
            vlen == v@.len(),
            i + lit@.len() <= v@.len(),
            forall|m: int| 0 <= m < k ==> v@[i + m] == lit@[m],
        decreases lit@.len() - k,
    {
        if v[i + k] != lit[k] {
            proof {
                assert(v@.subrange(i as int, i + lit@.len())[k as int] == v@[i + k]);
            }
            return false;
        }
        k = k + 1;
    }
    proof {
        assert(v@.subrange(i as int, i + lit@.len()) =~= lit@);
    }
    true
}

/// The three string fields recovered from one JSON line of the sink, when
/// the line has exactly the shape the encoder writes: the object with the
/// fields artist, title and lyrics, in that order, and nothing after it.
pub open spec fn parse_track_spec(t: Seq<char>) -> Option<(Seq<char>, Seq<char>, Seq<char>)> {
    let l1 = "{\"artist\":\""@;
    if !lit_at(t, 0, l1) {
        None
    } else {
        match parse_string_body(t, l1.len() as int) {
            None => None,
            Some((artist, p1)) => {
                let l2 = ",\"title\":\""@;
                if !lit_at(t, p1, l2) {
                    None
                } else {
                    match parse_string_body(t, p1 + l2.len()) {
                        None => None,
                        Some((title, p2)) => {
                            let l3 = ",\"lyrics\":\""@;
                            if !lit_at(t, p2, l3) {
                                None
                            } else {
                                match parse_string_body(t, p2 + l3.len()) {
                                    None => None,
                                    Some((lyrics, p3)) => if p3 + 1 == t.len() && 0 <= p3
                                        < t.len() && t[p3] == '}' {
                                        Some((artist, title, lyrics))
                                    } else {
                                        None
                                    },
                                }
                            }
                        },
                    }
                }
            },
        }
    }
}

pub fn parse_track_line(line: &str) -> (r: Option<TrackMetadata>)
    ensures
        r is Some <==> parse_track_spec(line@) is Some,
        r is Some ==> r->0.artist@ == (parse_track_spec(line@)->0).0,
        r is Some ==> r->0.title@ == (parse_track_spec(line@)->0).1,
        r is Some ==> r->0.lyrics@ == (parse_track_spec(line@)->0).2,
{
    let v = chars_of(line);
    let l1 = chars_of("{\"artist\":\"");
    if !lit_matches(&v, 0, &l1) {
        return None;
    }
    let artist_parse = parse_string_at(&v, l1.len());
    match artist_parse {
        None => None,
        Some((artist_chars, p1)) => {
            let l2 = chars_of(",\"title\":\"");
            if !lit_matches(&v, p1, &l2) {
                return None;
            }
            let title_parse = parse_string_at(&v, p1 + l2.len());
            match title_parse {
                None => None,
                Some((title_chars, p2)) => {
                    let l3 = chars_of(",\"lyrics\":\"");
                    if !lit_matches(&v, p2, &l3) {
                        return None;
                    }
                    let lyrics_parse = parse_string_at(&v, p2 + l3.len());
                    match lyrics_parse {
                        None => None,
                        Some((lyrics_chars, p3)) => {
                            if p3 < v.len() && p3 + 1 == v.len() && v[p3] == '}' {
                                Some(
                                    TrackMetadata {
                                        artist: string_from_chars(&artist_chars),
                                        title: string_from_chars(&title_chars),
                                        lyrics: string_from_chars(&lyrics_chars),
                                    },
                                )
                            } else {
                                None
                            }
                        },
                    }
                },
            }
        },
    }
}

/// A string as it appears inside a JSON document.
pub open spec fn quoted_string(s: Seq<char>) -> Seq<char> {
    seq!['"'] + escape_seq(s) + seq!['"']
}

/// The members of a JSON array of strings, comma-separated.
pub open spec fn paths_array(ps: Seq<Seq<char>>) -> Seq<char>
    decreases ps.len(),
{
    if ps.len() == 0 {
        Seq::empty()
    } else if ps.len() == 1 {
        quoted_string(ps[0])
    } else {
        paths_array(ps.drop_last()) + seq![','] + quoted_string(ps.last())
    }
}

/// The summary artifact as one JSON object: every counter, then the pruned
/// paths as an array of strings.
pub open spec fn summary_json_text(s: Summary) -> Seq<char> {
    "{\"scanned\":"@ + dec_seq(s.scanned as nat) + ",\"matched\":"@ + dec_seq(s.matched as nat)
        + ",\"skipped_artist\":"@ + dec_seq(s.skipped_artist as nat) + ",\"missing_lyrics\":"@
        + dec_seq(s.missing_lyrics as nat) + ",\"walk_errors\":"@ + dec_seq(s.walk_errors as nat)
        + ",\"tag_errors\":"@ + dec_seq(s.tag_errors as nat) + ",\"depth_skipped_dirs\":"@
        + dec_seq(s.depth_skipped_dirs as nat) + ",\"depth_skip_paths\":["@ + paths_array(
        views_of(s.depth_skip_paths@),
    ) + "]}"@
}

fn push_quoted(out: &mut Vec<char>, s: &str)
    ensures
        final(out)@ == old(out)@ + quoted_string(s@),
{
    out.push('"');
    escape_into(out, &chars_of(s));
    out.push('"');
    proof {
        assert(out@ =~= old(out)@ + quoted_string(s@));
    }
}

pub fn summary_json(s: &Summary) -> (r: String)
    ensures
        r@ == summary_json_text(*s),
{
    let mut out: Vec<char> = chars_of("{\"scanned\":");
    extend_chars(&mut out, &dec_chars(s.scanned));
    extend_chars(&mut out, &chars_of(",\"matched\":"));
    extend_chars(&mut out, &dec_chars(s.matched));
    extend_chars(&mut out, &chars_of(",\"skipped_artist\":"));
    extend_chars(&mut out, &dec_chars(s.skipped_artist));
    extend_chars(&mut out, &chars_of(",\"missing_lyrics\":"));
    extend_chars(&mut out, &dec_chars(s.missing_lyrics));
    extend_chars(&mut out, &chars_of(",\"walk_errors\":"));
    extend_chars(&mut out, &dec_chars(s.walk_errors));
    extend_chars(&mut out, &chars_of(",\"tag_errors\":"));
    extend_chars(&mut out, &dec_chars(s.tag_errors));
    extend_chars(&mut out, &chars_of(",\"depth_skipped_dirs\":"));
    extend_chars(&mut out, &dec_chars(s.depth_skipped_dirs));
    extend_chars(&mut out, &chars_of(",\"depth_skip_paths\":["));
    let ghost prefix = out@;
    let ghost ps = views_of(s.depth_skip_paths@);
    let mut k: usize = 0;
    while k < s.depth_skip_paths.len()
        invariant
            k <= s.depth_skip_paths@.len(),
            ps == views_of(s.depth_skip_paths@),
            out@ == prefix + paths_array(ps.take(k as int)),
        decreases s.depth_skip_paths@.len() - k,
    {
        let ghost sofar = paths_array(ps.take(k as int));
        proof {
            assert(ps.take(k as int + 1).drop_last() =~= ps.take(k as int));
            assert(ps.take(k as int + 1).last() == s.depth_skip_paths@[k as int]@);
        }
        if k > 0 {
            out.push(',');
        }
        push_quoted(&mut out, s.depth_skip_paths[k].as_str());
        proof {
            if k == 0 {
                assert(ps.take(1int).len() == 1);
                assert(ps.take(1int)[0] == s.depth_skip_paths@[0int]@);
                assert(out@ =~= prefix + paths_array(ps.take(1int)));
            } else {
                assert(out@ =~= prefix + (sofar + seq![','] + quoted_string(
                    s.depth_skip_paths@[k as int]@,
                )));
            }
        }
        k = k + 1;
    }
    proof {
        assert(ps.take(s.depth_skip_paths@.len() as int) =~= ps);
    }
    extend_chars(&mut out, &chars_of("]}"));
    proof {
        assert(out@ =~= summary_json_text(*s));
    }
    string_from_chars(&out)
}

proof fn lemma_hex_digit_roundtrip(d: nat)
    requires
        d < 16,
    ensures
        is_hex(hex_char(d)),
        hex_value(hex_char(d)) == d,
{
}

/// Parsing a string body over the escaping of `s` followed by a closing
/// quote recovers `s` exactly and stops just past that quote.
#[verifier::rlimit(60)]
proof fn lemma_escaped_body_parses(t: Seq<char>, i: int, s: Seq<char>)
    requires
        0 <= i,
        i + escape_seq(s).len() + 1 <= t.len(),
        t.subrange(i, i + escape_seq(s).len() + 1) == escape_seq(s) + seq!['"'],
    ensures
        parse_string_body(t, i) == Some((s, i + escape_seq(s).len() + 1)),
    decreases s.len(),
{
    let e_all = escape_seq(s);
    let quoted = e_all + seq!['"'];
    let sub = t.subrange(i, i + e_all.len() + 1);
    assert forall|k: int| 0 <= k < e_all.len() + 1 implies t[i + k] == quoted[k] by {
        assert(t[i + k] == sub[k]);
        assert(sub[k] == quoted[k]);
    }
    if s.len() == 0 {
        assert(e_all =~= Seq::<char>::empty());
        assert(t[i + 0] == quoted[0]);
        assert(t[i] == '"');
        assert(parse_string_body(t, i) == Some((Seq::<char>::empty(), i + 1)));
        assert(s =~= Seq::<char>::empty());
    } else {
        let c = s[0];
        let e = escape_char(c);
        let s2 = s.drop_first();
        let e2 = escape_seq(s2);
        assert(e_all == e + e2);
        let j = i + e.len();
        assert forall|k: int| 0 <= k < e2.len() + 1 implies t.subrange(j, j + e2.len() + 1)[k] == (
        e2 + seq!['"'])[k] by {
            assert(t.subrange(j, j + e2.len() + 1)[k] == t[j + k]);
            assert(t[i + (e.len() + k)] == quoted[e.len() + k]);
        }
        assert(t.subrange(j, j + e2.len() + 1) =~= e2 + seq!['"']);
        lemma_escaped_body_parses(t, j, s2);
        assert(seq![c] + s2 =~= s);
        if c == '"' || c == '\\' || c == '\u{8}' || c == '\t' || c == '\n' || c == '\u{C}' || c
            == '\r' {
            assert(e.len() == 2);
            assert(t[i + 0] == quoted[0] && t[i + 1] == quoted[1]);
            assert(t[i] == '\\');
            assert(parse_escape(t, i) == Some((c, 2int)));
            assert(parse_string_body(t, i) == Some((s, i + e_all.len() + 1)));
        } else if (c as u32) < 0x20 {
            assert(e.len() == 6);
            assert(t[i + 0] == quoted[0] && t[i + 1] == quoted[1] && t[i + 2] == quoted[2] && t[i
                + 3] == quoted[3] && t[i + 4] == quoted[4] && t[i + 5] == quoted[5]);
            assert(t[i] == '\\');
            assert(t[i + 1] == 'u');
            let hi = (c as u32 / 16) as nat;
            let lo = (c as u32 % 16) as nat;
            lemma_hex_digit_roundtrip(hi);
            lemma_hex_digit_roundtrip(lo);
            assert(t[i + 4] == hex_char(hi));
            assert(t[i + 5] == hex_char(lo));
            assert(is_hex('0') && hex_value('0') == 0);
            let v = hex_value(t[i + 2]) * 4096 + hex_value(t[i + 3]) * 256 + hex_value(t[i + 4])
                * 16 + hex_value(t[i + 5]);
            assert(c as u32 == (c as u32) / 16 * 16 + (c as u32) % 16);
            assert(v == c as u32);
            vstd::utf8::char_u32_cast(c, c as u32);
            assert((v as char) == c);
            assert(parse_escape(t, i) == Some((c, 6int)));
            assert(parse_string_body(t, i) == Some((s, i + e_all.len() + 1)));
        } else {
            assert(e.len() == 1);
            assert(t[i + 0] == quoted[0]);
            assert(t[i] == c);
            assert(t[i] != '"' && t[i] != '\\');
            assert(parse_string_body(t, i) == Some((s, i + e_all.len() + 1)));
        }
    }
}

proof fn lemma_escape_char_no_newline(c: char)
    ensures
        forall|k: int| 0 <= k < escape_char(c).len() ==> escape_char(c)[k] != '\n',
{
}

proof fn lemma_escape_seq_no_newline(s: Seq<char>)
    ensures
        forall|k: int| 0 <= k < escape_seq(s).len() ==> escape_seq(s)[k] != '\n',
    decreases s.len(),
{
    if s.len() > 0 {
        lemma_escape_char_no_newline(s[0]);
        lemma_escape_seq_no_newline(s.drop_first());
        assert(forall|k: int|
            escape_char(s[0]).len() <= k < escape_seq(s).len() ==> escape_seq(s)[k] == escape_seq(
                s.drop_first(),
            )[k - escape_char(s[0]).len()]);
    }
}

/// A track's JSON line contains no newline character: every character of
/// the three strings that could break the line is escaped. In the
/// newline-delimited output each written track therefore occupies exactly
/// one line, and the lines stand in writing order.
pub proof fn lemma_track_line_single_line(artist: Seq<char>, title: Seq<char>, lyrics: Seq<char>)
    ensures
        forall|k: int|
            0 <= k < track_line(artist, title, lyrics).len() ==> track_line(
                artist,
                title,
                lyrics,
            )[k] != '\n',
{
    reveal_strlit("{\"artist\":\"");
    reveal_strlit(",\"title\":\"");
    reveal_strlit(",\"lyrics\":\"");
    lemma_escape_seq_no_newline(artist);
    lemma_escape_seq_no_newline(title);
    lemma_escape_seq_no_newline(lyrics);
    assert(forall|k: int|
        0 <= k < "{\"artist\":\""@.len() ==> "{\"artist\":\""@[k] != '\n') by {
        assert("{\"artist\":\""@ =~= seq!['{', '"', 'a', 'r', 't', 'i', 's', 't', '"', ':', '"']);
    }
    assert(forall|k: int| 0 <= k < ",\"title\":\""@.len() ==> ",\"title\":\""@[k] != '\n') by {
        assert(",\"title\":\""@ =~= seq![',', '"', 't', 'i', 't', 'l', 'e', '"', ':', '"']);
    }
    assert(forall|k: int| 0 <= k < ",\"lyrics\":\""@.len() ==> ",\"lyrics\":\""@[k] != '\n') by {
        assert(",\"lyrics\":\""@ =~= seq![',', '"', 'l', 'y', 'r', 'i', 'c', 's', '"', ':', '"']);
    }
}

/// Round trip: a line the encoder writes for a track parses back to exactly
/// the artist, title and lyrics it was written from. Writing any number of
/// tracks one line each and re-parsing each line therefore recovers the
/// tracks unchanged, in order.
#[verifier::rlimit(60)]
pub proof fn lemma_track_round_trip(artist: Seq<char>, title: Seq<char>, lyrics: Seq<char>)
    ensures
        parse_track_spec(track_line(artist, title, lyrics)) == Some((artist, title, lyrics)),
{
    let la = "{\"artist\":\""@;
    let lb = ",\"title\":\""@;
    let lc = ",\"lyrics\":\""@;
    let ea = escape_seq(artist);
    let eb = escape_seq(title);
    let ec = escape_seq(lyrics);
    let t = track_line(artist, title, lyrics);
    let p0 = la.len() as int;
    let p1 = p0 + ea.len() + 1;
    let p2 = p1 + lb.len();
    let p3 = p2 + eb.len() + 1;
    let p4 = p3 + lc.len();
    let p5 = p4 + ec.len() + 1;
    assert(t.len() == p5 + 1);
    assert(t.subrange(0, p0) =~= la);
    assert(t.subrange(p0, p0 + ea.len() + 1) =~= ea + seq!['"']);
    lemma_escaped_body_parses(t, p0, artist);
    assert(t.subrange(p1, p1 + lb.len() as int) =~= lb);
    assert(t.subrange(p2, p2 + eb.len() + 1) =~= eb + seq!['"']);
    lemma_escaped_body_parses(t, p2, title);
    assert(t.subrange(p3, p3 + lc.len() as int) =~= lc);
    assert(t.subrange(p4, p4 + ec.len() + 1) =~= ec + seq!['"']);
    lemma_escaped_body_parses(t, p4, lyrics);
    assert(t[p5] == '}');
    assert(lit_at(t, 0, la));
    assert(lit_at(t, p1, lb));
    assert(lit_at(t, p3, lc));
    assert(parse_track_spec(t) == Some((artist, title, lyrics)));
}

} // verus!
