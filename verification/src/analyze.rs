//! Reading chart files: which files are charts, which chart has a given
//! MD5, and which sound and image files a chart refers to.
//!
//! The caller walks the directory and reads the files; the functions here
//! decide on the contents.

use vstd::prelude::*;
use crate::extract::path_views;
use crate::hashing::{hex_lower, md5_hex, md5_of};
use crate::organize::{chart_exts, chart_extensions, char_views};
use crate::path::{parse_path, BmsPath, PathView};
use crate::text::{
    chars_eq, chars_eq_ignore_case, chars_of, chars_starts_with, eq_ignore_case, is_whitespace,
    is_ws, lemma_split_on_nonempty, split_chars, split_on, starts_with, string_of, sub_chars,
    trim, trim_chars,
};

verus! {

/// A file found below a directory, with its contents.
#[derive(Debug)]
pub struct ChartFile {
    pub path: BmsPath,
    pub data: Vec<u8>,
}

/// Index of the first whitespace character of `s`, or -1.
pub open spec fn ws_index(s: Seq<char>) -> int
    decreases s.len(),
{
    if s.len() == 0 {
        -1
    } else if is_ws(s[0]) {
        0
    } else if ws_index(s.drop_first()) < 0 {
        -1
    } else {
        ws_index(s.drop_first()) + 1
    }
}

/// A chart command line split into its key (up to the first whitespace)
/// and its trimmed value; `None` when there is no whitespace or no value.
pub open spec fn command_of(line: Seq<char>) -> Option<(Seq<char>, Seq<char>)> {
    let k = ws_index(line);
    if k < 0 {
        None
    } else if trim(line.skip(k)).len() == 0 {
        None
    } else {
        Some((line.take(k), trim(line.skip(k))))
    }
}

/// Keys that name a sound (`#WAVxx`) or image (`#BMPxx`) file.
pub open spec fn is_ref_key(key: Seq<char>) -> bool {
    starts_with(key, "#WAV"@) || starts_with(key, "#BMP"@)
}

/// The file a chart line refers to, if any.
pub open spec fn line_ref(line: Seq<char>) -> Option<PathView> {
    match command_of(trim(line)) {
        Some((key, value)) => if is_ref_key(key) {
            Some(parse_path(value))
        } else {
            None
        },
        None => None,
    }
}

/// Some line of the chart text refers to `p`.
pub open spec fn refers_to(text: Seq<char>, p: PathView) -> bool {
    let lines = split_on(text, '\n');
    exists|i: int| 0 <= i < lines.len() && #[trigger] line_ref(lines[i]) == Some(p)
}

/// A chart file: extension `bms`, `bme`, `bml` or `pms` (case-sensitive).
pub open spec fn is_chart_path(p: PathView) -> bool {
    match p.extension() {
        Some(e) => exists|i: int| 0 <= i < chart_exts().len() && e == #[trigger] chart_exts()[i],
        None => false,
    }
}

/// A chart file whose MD5 digest, in hexadecimal, is `md5` ignoring ASCII case.
pub open spec fn chart_matches(f: ChartFile, md5: Seq<char>) -> bool {
    is_chart_path(f.path@) && eq_ignore_case(hex_lower(md5_of(f.data@)), md5)
}

proof fn lemma_ws_index(s: Seq<char>)
    ensures
        -1 <= ws_index(s) < s.len(),
        ws_index(s) >= 0 ==> is_ws(s[ws_index(s)]),
        forall|j: int| 0 <= j < s.len() && (ws_index(s) < 0 || j < ws_index(s)) ==> !is_ws(
            #[trigger] s[j],
        ),
    decreases s.len(),
{
    if s.len() > 0 && !is_ws(s[0]) {
        let t = s.drop_first();
        lemma_ws_index(t);
        assert forall|j: int| 0 <= j < s.len() && (ws_index(s) < 0 || j < ws_index(s)) implies !is_ws(
            #[trigger] s[j],
        ) by {
            if j > 0 {
                assert(s[j] == t[j - 1]);
            }
        }
    }
}

/// Index of the first whitespace character of `s`.
fn find_ws(s: &[char]) -> (r: Option<usize>)
    ensures
        match r {
            Some(k) => k < s@.len() && k as int == ws_index(s@),
            None => ws_index(s@) < 0,
        },
{
    proof {
        lemma_ws_index(s@);
    }
    let mut i: usize = 0;
    while i < s.len()
        invariant
            0 <= i <= s@.len(),
            -1 <= ws_index(s@) < s@.len(),
            ws_index(s@) >= 0 ==> is_ws(s@[ws_index(s@)]),
            forall|j: int| 0 <= j < s@.len() && (ws_index(s@) < 0 || j < ws_index(s@)) ==> !is_ws(
                #[trigger] s@[j],
            ),
            forall|j: int| 0 <= j < i ==> !is_ws(#[trigger] s@[j]),
        decreases s.len() - i,
    {
        if is_whitespace(s[i]) {
            return Some(i);
        }
        i = i + 1;
    }
    None
}

fn split_command_chars(line: &[char]) -> (r: Option<(Vec<char>, Vec<char>)>)
    ensures
        match r {
            Some((k, v)) => command_of(line@) == Some((k@, v@)),
            None => command_of(line@) is None,
        },
{
    match find_ws(line) {
        None => None,
        Some(k) => {
            let rest = sub_chars(line, k, line.len());
            assert(rest@ =~= line@.skip(k as int));
            let value = trim_chars(&rest);
            if value.len() == 0 {
                None
            } else {
                let key = sub_chars(line, 0, k);
                assert(key@ =~= line@.take(k as int));
                Some((key, value))
            }
        },
    }
}

/// Splits a chart command line into its key (the text before the first
/// whitespace) and its trimmed value.
pub fn split_command(line: &str) -> (r: Option<(String, String)>)
    ensures
        match r {
            Some((k, v)) => command_of(line@) == Some((k@, v@)),
            None => command_of(line@) is None,
        },
{
    let c = chars_of(line);
    match split_command_chars(&c) {
        None => None,
        Some((k, v)) => Some((string_of(&k), string_of(&v))),
    }
}

fn line_ref_of(line: &[char]) -> (r: Option<BmsPath>)
    ensures
        match r {
            Some(p) => line_ref(line@) == Some(p@),
            None => line_ref(line@) is None,
        },
{
    let t = trim_chars(line);
    match split_command_chars(&t) {
        None => None,
        Some((key, value)) => {
            let wav = chars_of("#WAV");
            let bmp = chars_of("#BMP");
            if chars_starts_with(&key, &wav) || chars_starts_with(&key, &bmp) {
                let s = string_of(&value);
                Some(BmsPath::parse(s.as_str()))
            } else {
                None
            }
        },
    }
}

/// Index of a path equal to `p` in `v`.
pub fn position_of(v: &Vec<BmsPath>, p: &BmsPath) -> (r: Option<usize>)
    ensures
        match r {
            Some(i) => i < v@.len() && v@[i as int]@ == p@,
            None => !path_views(v@).contains(p@),
        },
{
    let mut i: usize = 0;
    while i < v.len()
        invariant
            0 <= i <= v@.len(),
            forall|j: int| 0 <= j < i ==> #[trigger] v@[j]@ != p@,
        decreases v.len() - i,
    {
        if v[i].same_as(p) {
            return Some(i);
        }
        i = i + 1;
    }
    proof {
        if path_views(v@).contains(p@) {
            let j = choose|j: int| 0 <= j < path_views(v@).len() && path_views(v@)[j] == p@;
            assert(v@[j]@ == p@);
        }
    }
    None
}

/// The files a chart refers to with `#WAVxx` and `#BMPxx` lines, each once.
pub fn chart_refs(text: &str) -> (r: Vec<BmsPath>)
    ensures
        path_views(r@).no_duplicates(),
        forall|p: PathView| #[trigger] path_views(r@).contains(p) <==> refers_to(text@, p),
{
    let c = chars_of(text);
    let lines = split_chars(&c, '\n');
    let ghost ls = split_on(text@, '\n');
    let mut refs: Vec<BmsPath> = Vec::new();
    let mut i: usize = 0;
    while i < lines.len()
        invariant
            0 <= i <= lines@.len(),
            lines@.len() == ls.len(),
            ls == split_on(text@, '\n'),
            forall|k: int| 0 <= k < lines@.len() ==> #[trigger] lines@[k]@ == ls[k],
            path_views(refs@).no_duplicates(),
            forall|p: PathView| #[trigger]
                path_views(refs@).contains(p) <==> exists|k: int|
                    0 <= k < i && #[trigger] line_ref(ls[k]) == Some(p),
        decreases lines.len() - i,
    {
        assert(lines@[i as int]@ == ls[i as int]);
        match line_ref_of(&lines[i]) {
            None => {
                proof {
                    assert forall|p: PathView| #[trigger] path_views(refs@).contains(p) <==> exists|k: int|
                        0 <= k < i + 1 && #[trigger] line_ref(ls[k]) == Some(p) by {
                        if exists|k: int| 0 <= k < i + 1 && #[trigger] line_ref(ls[k]) == Some(p) {
                            let k = choose|k: int| 0 <= k < i + 1 && #[trigger] line_ref(ls[k]) == Some(p);
                            assert(k != i);
                        }
                    }
                }
            },
            Some(p) => {
                let ghost before = refs@;
                let pos = position_of(&refs, &p);
                proof {
                    if let Some(j) = pos {
                        assert(path_views(before)[j as int] == p@);
                    }
                }
                if pos.is_none() {
                    proof {
                        lemma_path_views_push_refs(refs@, p);
                    }
                    refs.push(p);
                }
                proof {
                    assert forall|q: PathView| #[trigger] path_views(refs@).contains(q) <==> exists|k: int|
                        0 <= k < i + 1 && #[trigger] line_ref(ls[k]) == Some(q) by {
                        if exists|k: int| 0 <= k < i + 1 && #[trigger] line_ref(ls[k]) == Some(q) {
                            let k = choose|k: int| 0 <= k < i + 1 && #[trigger] line_ref(ls[k]) == Some(q);
                            if k == i {
                                assert(q == p@);
                                if refs@.len() > before.len() {
                                    assert(path_views(refs@)[before.len() as int] == q);
                                } else {
                                    assert(path_views(before).contains(q));
                                }
                            } else {
                                assert(path_views(before).contains(q));
                                let w = choose|w: int| 0 <= w < path_views(before).len() && path_views(before)[w] == q;
                                assert(path_views(refs@)[w] == q);
                            }
                        }
                        if path_views(refs@).contains(q) {
                            let w = choose|w: int| 0 <= w < path_views(refs@).len() && path_views(refs@)[w] == q;
                            if w < before.len() {
                                assert(path_views(before)[w] == q);
                                assert(path_views(before).contains(q));
                            } else {
                                assert(q == p@);
                                assert(line_ref(ls[i as int]) == Some(q));
                            }
                        }
                    }
                }
            },
        }
        i = i + 1;
    }
    refs
}

proof fn lemma_path_views_push_refs(s: Seq<BmsPath>, x: BmsPath)
    requires
        path_views(s).no_duplicates(),
        !path_views(s).contains(x@),
    ensures
        path_views(s.push(x)) == path_views(s).push(x@),
        path_views(s.push(x)).no_duplicates(),
{
    crate::extract::lemma_path_views_push(s, x);
    let t = path_views(s.push(x));
    assert forall|a: int, b: int| 0 <= a < t.len() && 0 <= b < t.len() && a != b implies t[a] != t[b] by {
        if a == s.len() as int {
            assert(path_views(s)[b] == t[b]);
        } else if b == s.len() as int {
            assert(path_views(s)[a] == t[a]);
        } else {
            assert(path_views(s)[a] == t[a]);
            assert(path_views(s)[b] == t[b]);
        }
    }
}

/// Whether the path has a chart extension (`bms`, `bme`, `bml`, `pms`).
pub fn is_chart(path: &BmsPath) -> (r: bool)
    ensures
        r == is_chart_path(path@),
{
    match path.extension() {
        None => false,
        Some(ext) => {
            let e = chars_of(ext.as_str());
            let exts = chart_extensions();
            let mut i: usize = 0;
            while i < exts.len()
                invariant
                    0 <= i <= exts@.len(),
                    char_views(exts@) == chart_exts(),
                    path@.extension() == Some(e@),
                    forall|j: int| 0 <= j < i ==> e@ != #[trigger] chart_exts()[j],
                decreases exts.len() - i,
            {
                assert(char_views(exts@)[i as int] == exts@[i as int]@);
                if chars_eq(&e, &exts[i]) {
                    return true;
                }
                i = i + 1;
            }
            false
        },
    }
}

/// Whether a file with this path and MD5 digest is the chart `md5` names:
/// a chart file whose digest, in hexadecimal, equals `md5` ignoring ASCII case.
pub fn digest_matches(path: &BmsPath, digest: &[u8], md5: &str) -> (r: bool)
    ensures
        r == (is_chart_path(path@) && eq_ignore_case(hex_lower(digest@), md5@)),
{
    if !is_chart(path) {
        return false;
    }
    let hex = crate::hashing::hex_encode(digest);
    let h = chars_of(hex.as_str());
    let m = chars_of(md5);
    chars_eq_ignore_case(&h, &m)
}

/// The first file of `files` that is the chart with MD5 `md5`.
pub fn find_chart(files: &Vec<ChartFile>, md5: &str) -> (r: Option<usize>)
    ensures
        match r {
            Some(i) => i < files@.len() && chart_matches(files@[i as int], md5@) && forall|j: int|
                0 <= j < i ==> !chart_matches(#[trigger] files@[j], md5@),
            None => forall|j: int| 0 <= j < files@.len() ==> !chart_matches(#[trigger] files@[j], md5@),
        },
{
    let m = chars_of(md5);
    let mut i: usize = 0;
    while i < files.len()
        invariant
            0 <= i <= files@.len(),
            m@ == md5@,
            forall|j: int| 0 <= j < i ==> !chart_matches(#[trigger] files@[j], md5@),
        decreases files.len() - i,
    {
        let f = &files[i];
        if is_chart(&f.path) {
            let hex = md5_hex(&f.data);
            let h = chars_of(hex.as_str());
            if chars_eq_ignore_case(&h, &m) {
                return Some(i);
            }
        }
        i = i + 1;
    }
    None
}

/// Only `#WAV` and `#BMP` lines refer to files: a chart text refers to `p`
/// exactly when one of its lines, trimmed, is a command whose key begins
/// with `#WAV` or `#BMP` and whose value names `p`. Lines with other keys
/// (`#BPM`, `#BANNER`, `#BACKBMP`, `#BGA`, ...) refer to nothing.
pub proof fn lemma_only_wav_and_bmp_refer(text: Seq<char>, p: PathView)
    ensures
        refers_to(text, p) <==> exists|i: int|
            0 <= i < split_on(text, '\n').len() && (#[trigger] command_of(trim(split_on(text, '\n')[i]))
                matches Some((key, value)) && (starts_with(key, "#WAV"@) || starts_with(key, "#BMP"@))
                && parse_path(value) == p),
{
    let lines = split_on(text, '\n');
    if refers_to(text, p) {
        let i = choose|i: int| 0 <= i < lines.len() && #[trigger] line_ref(lines[i]) == Some(p);
        assert(line_ref(lines[i]) == Some(p));
        assert(command_of(trim(lines[i])) is Some);
    }
    if exists|i: int|
        0 <= i < lines.len() && (#[trigger] command_of(trim(lines[i])) matches Some((key, value))
            && (starts_with(key, "#WAV"@) || starts_with(key, "#BMP"@)) && parse_path(value) == p) {
        let i = choose|i: int|
            0 <= i < lines.len() && (#[trigger] command_of(trim(lines[i])) matches Some((key, value))
                && (starts_with(key, "#WAV"@) || starts_with(key, "#BMP"@)) && parse_path(value) == p);
        assert(line_ref(lines[i]) == Some(p));
    }
}

/// A chart file is one whose extension is exactly `bms`, `bme`, `bml` or
/// `pms` (lower case; `bmson` and other cases are not charts here).
pub proof fn lemma_chart_path_extensions(p: PathView)
    ensures
        is_chart_path(p) <==> (p.extension() matches Some(e) && (e == "bms"@ || e == "bme"@ || e == "bml"@
            || e == "pms"@)),
{
    let c = chart_exts();
    if let Some(e) = p.extension() {
        if e == "bms"@ { assert(c[0] == e); }
        if e == "bme"@ { assert(c[1] == e); }
        if e == "bml"@ { assert(c[2] == e); }
        if e == "pms"@ { assert(c[3] == e); }
        if is_chart_path(p) {
            let i = choose|i: int| 0 <= i < c.len() && e == #[trigger] c[i];
            assert(0 <= i < 4);
        }
    }
}

} // verus!
