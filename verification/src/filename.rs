//! Choosing the name under which a download is saved.

use vstd::prelude::*;
use crate::path::{dot, parse_path, BmsPath, PathView};
use crate::pattern::{capture_group, regex_capture};
use crate::text::{
    chars_has, chars_of, has_char, is_control, is_ctrl, lemma_split_on_nonempty, split_chars,
    split_on, string_of, trim, trim_chars, trim_end, trim_end_char, trim_end_matching,
    trim_start,
};

verus! {

/// Characters that may not appear in a saved file name.
pub open spec fn is_forbidden(c: char) -> bool {
    c == '/' || c == '\\' || c == ':' || c == '*' || c == '?' || c == '"' || c == '<' || c
        == '>' || c == '|'
}

/// Each control or forbidden character replaced by `_`.
pub open spec fn replace_forbidden(s: Seq<char>) -> Seq<char> {
    s.map_values(|c: char| if is_ctrl(c) || is_forbidden(c) { '_' } else { c })
}

/// The name a file is saved under: forbidden and control characters
/// replaced by `_`, surrounding whitespace and trailing dots removed, and
/// `downloaded_file` when nothing is left.
pub open spec fn sanitized(name: Seq<char>) -> Seq<char> {
    let t = trim_end_char(trim(replace_forbidden(name)), '.');
    if t.len() == 0 {
        "downloaded_file"@
    } else {
        t
    }
}

/// The last `/`-separated segment of the URL before any `?`.
pub open spec fn url_last_segment(url: Seq<char>) -> Seq<char> {
    split_on(split_on(url, '?')[0], '/').last()
}

/// The file name taken from a URL: its last path segment when that holds
/// a `.` and is shorter than 100 bytes in UTF-8.
pub open spec fn filename_from_url(url: Seq<char>) -> Option<Seq<char>> {
    let seg = url_last_segment(url);
    if has_char(seg, '.') && utf8_len(seg) < 100 {
        Some(sanitized(seg))
    } else {
        None
    }
}

/// Bytes needed to encode `c` in UTF-8.
pub open spec fn utf8_width(c: char) -> nat {
    if c <= '\u{7f}' {
        1
    } else if c <= '\u{7ff}' {
        2
    } else if c <= '\u{ffff}' {
        3
    } else {
        4
    }
}

/// Length of `s` in UTF-8 bytes (what `str::len` returns).
pub open spec fn utf8_len(s: Seq<char>) -> nat
    decreases s.len(),
{
    if s.len() == 0 {
        0
    } else {
        utf8_len(s.drop_last()) + utf8_width(s.last())
    }
}

/// Whether `s` takes fewer than `limit` bytes in UTF-8.
fn utf8_len_below(s: &[char], limit: usize) -> (r: bool)
    ensures
        r == (utf8_len(s@) < limit),
{
    if limit == 0 {
        return false;
    }
    let mut total: usize = 0;
    let mut i: usize = 0;
    while i < s.len()
        invariant
            0 <= i <= s@.len(),
            total == utf8_len(s@.take(i as int)),
            total < limit,
        decreases s.len() - i,
    {
        let c = s[i];
        let w: usize = if c <= '\u{7f}' {
            1
        } else if c <= '\u{7ff}' {
            2
        } else if c <= '\u{ffff}' {
            3
        } else {
            4
        };
        proof {
            assert(s@.take(i + 1).drop_last() =~= s@.take(i as int));
        }
        if w >= limit - total {
            proof {
                lemma_utf8_len_prefix(s@, i + 1);
            }
            return false;
        }
        total = total + w;
        i = i + 1;
    }
    assert(s@.take(i as int) =~= s@);
    true
}

/// A prefix never takes more bytes than the whole.
proof fn lemma_utf8_len_prefix(s: Seq<char>, k: int)
    requires
        0 <= k <= s.len(),
    ensures
        utf8_len(s.take(k)) <= utf8_len(s),
    decreases s.len() - k,
{
    if k < s.len() {
        lemma_utf8_len_prefix(s.drop_last(), k);
        assert(s.drop_last().take(k) =~= s.take(k));
    } else {
        assert(s.take(k) =~= s);
    }
}

/// The pattern for the file name in a `Content-Disposition` header.
pub open spec fn disposition_pattern() -> Seq<char> {
    "filename=\"?([^\";]+)\"?"@
}

/// The file name taken from a `Content-Disposition` header.
pub open spec fn filename_from_header(header: Seq<char>) -> Option<Seq<char>> {
    match regex_capture(disposition_pattern(), header, 1) {
        Some(c) => Some(sanitized(c)),
        None => None,
    }
}

fn forbidden(c: char) -> (r: bool)
    ensures
        r == is_forbidden(c),
{
    c == '/' || c == '\\' || c == ':' || c == '*' || c == '?' || c == '"' || c == '<' || c == '>'
        || c == '|'
}

/// Makes a name safe to save a file under (see `sanitized`).
pub fn sanitize(name: &str) -> (r: String)
    ensures
        r@ == sanitized(name@),
{
    let c = chars_of(name);
    let mut mapped: Vec<char> = Vec::new();
    let mut i: usize = 0;
    while i < c.len()
        invariant
            0 <= i <= c@.len(),
            mapped@ == replace_forbidden(c@.take(i as int)),
        decreases c.len() - i,
    {
        let ch = c[i];
        if is_control(ch) || forbidden(ch) {
            mapped.push('_');
        } else {
            mapped.push(ch);
        }
        i = i + 1;
        assert(mapped@ =~= replace_forbidden(c@.take(i as int)));
    }
    assert(c@.take(i as int) =~= c@);
    let t = trim_chars(&mapped);
    let t = trim_end_matching(&t, '.');
    if t.len() == 0 {
        "downloaded_file".to_string()
    } else {
        string_of(&t)
    }
}

/// The file name a URL suggests (see `filename_from_url`).
pub fn get_filename_from_url(url: &str) -> (r: Option<String>)
    ensures
        match r {
            Some(s) => filename_from_url(url@) == Some(s@),
            None => filename_from_url(url@) is None,
        },
{
    let c = chars_of(url);
    let parts = split_chars(&c, '?');
    proof {
        lemma_split_on_nonempty(url@, '?');
    }
    let head = &parts[0];
    let segs = split_chars(head, '/');
    proof {
        lemma_split_on_nonempty(head@, '/');
    }
    let seg = &segs[segs.len() - 1];
    assert(seg@ == url_last_segment(url@));
    let s = string_of(seg);
    if chars_has(seg, '.') && utf8_len_below(seg, 100) {
        Some(sanitize(s.as_str()))
    } else {
        None
    }
}

/// The file name a `Content-Disposition` header gives (see `filename_from_header`).
pub fn get_filename_from_header(header: &str) -> (r: Option<String>)
    ensures
        match r {
            Some(s) => filename_from_header(header@) == Some(s@),
            None => filename_from_header(header@) is None,
        },
{
    let pattern = "filename=\"?([^\";]+)\"?";
    match capture_group(pattern, header, 1) {
        Some(c) => Some(sanitize(c.as_str())),
        None => None,
    }
}

/// The name to save a download under: from the `Content-Disposition`
/// header when there is one and it names a file, else from the URL.
pub fn choose_filename(content_disposition: Option<&str>, url: &str) -> (r: Option<String>)
    ensures
        ({
            let from_header = match content_disposition {
                Some(h) => filename_from_header(h@),
                None => None,
            };
            match from_header {
                Some(n) => r matches Some(s) && s@ == n,
                None => match filename_from_url(url@) {
                    Some(n) => r matches Some(s) && s@ == n,
                    None => r is None,
                },
            }
        }),
{
    if let Some(h) = content_disposition {
        if let Some(name) = get_filename_from_header(h) {
            return Some(name);
        }
    }
    get_filename_from_url(url)
}

/// Where a download named `filename` is saved: `output_dir` joined with it.
pub fn save_path(output_dir: &BmsPath, filename: &str) -> (r: BmsPath)
    ensures
        r@ == output_dir@.join(parse_path(filename@)),
{
    output_dir.join(&BmsPath::parse(filename))
}

proof fn lemma_trim_start_keeps_absent(x: Seq<char>, c: char)
    requires
        !has_char(x, c),
    ensures
        !has_char(trim_start(x), c),
    decreases x.len(),
{
    if x.len() > 0 && crate::text::is_ws(x[0]) {
        let t = x.drop_first();
        assert(!has_char(t, c)) by {
            if has_char(t, c) {
                let j = choose|j: int| 0 <= j < t.len() && t[j] == c;
                assert(x[j + 1] == c);
            }
        }
        lemma_trim_start_keeps_absent(t, c);
    }
}

proof fn lemma_trim_end_keeps_absent(x: Seq<char>, c: char)
    requires
        !has_char(x, c),
    ensures
        !has_char(trim_end(x), c),
    decreases x.len(),
{
    if x.len() > 0 && crate::text::is_ws(x.last()) {
        let t = x.drop_last();
        assert(!has_char(t, c)) by {
            if has_char(t, c) {
                let j = choose|j: int| 0 <= j < t.len() && t[j] == c;
                assert(x[j] == c);
            }
        }
        lemma_trim_end_keeps_absent(t, c);
    }
}

proof fn lemma_trim_end_char_props(x: Seq<char>, d: char, c: char)
    requires
        !has_char(x, c),
    ensures
        !has_char(trim_end_char(x, d), c),
        trim_end_char(x, d).len() > 0 ==> trim_end_char(x, d).last() != d,
    decreases x.len(),
{
    if x.len() > 0 && x.last() == d {
        let t = x.drop_last();
        assert(!has_char(t, c)) by {
            if has_char(t, c) {
                let j = choose|j: int| 0 <= j < t.len() && t[j] == c;
                assert(x[j] == c);
            }
        }
        lemma_trim_end_char_props(t, d, c);
    }
}

/// A string without `sep` splits into itself alone.
proof fn lemma_split_without_sep(s: Seq<char>, sep: char)
    requires
        !has_char(s, sep),
    ensures
        split_on(s, sep) == seq![s],
    decreases s.len(),
{
    if s.len() > 0 {
        let t = s.drop_last();
        assert(!has_char(t, sep)) by {
            if has_char(t, sep) {
                let j = choose|j: int| 0 <= j < t.len() && t[j] == sep;
                assert(s[j] == sep);
            }
        }
        lemma_split_without_sep(t, sep);
        assert(s.last() != sep) by {
            assert(s[s.len() - 1] == s.last());
        }
        assert(t.push(s.last()) =~= s);
        assert(split_on(s, sep) =~= seq![s]);
    } else {
        assert(s =~= Seq::<char>::empty());
    }
}

/// A sanitized name is a single path component: never empty, free of `/`
/// and not ending in `.`, so it is neither `.` nor `..`.
pub proof fn lemma_sanitized_is_one_component(name: Seq<char>)
    ensures
        sanitized(name).len() > 0,
        !has_char(sanitized(name), '/'),
        sanitized(name).last() != '.',
        parse_path(sanitized(name)) == (PathView { absolute: false, parts: seq![sanitized(name)] }),
{
    let m = replace_forbidden(name);
    assert(!has_char(m, '/')) by {
        if has_char(m, '/') {
            let j = choose|j: int| 0 <= j < m.len() && m[j] == '/';
            assert(m[j] == (if is_ctrl(name[j]) || is_forbidden(name[j]) { '_' } else { name[j] }));
        }
    }
    lemma_trim_start_keeps_absent(m, '/');
    lemma_trim_end_keeps_absent(trim_start(m), '/');
    lemma_trim_end_char_props(trim(m), '.', '/');
    let s = sanitized(name);
    if trim_end_char(trim(m), '.').len() == 0 {
        reveal_strlit("downloaded_file");
        assert(s.len() == 15);
        assert(!has_char(s, '/')) by {
            if has_char(s, '/') {
                let j = choose|j: int| 0 <= j < s.len() && s[j] == '/';
                assert(0 <= j < 15);
            }
        }
        assert(s.last() == 'e');
    }
    lemma_split_without_sep(s, '/');
    let pieces = split_on(s, '/');
    let pred = |p: Seq<char>| p.len() > 0 && p != dot();
    assert(s != dot()) by {
        if s == dot() {
            assert(s.last() == '.');
        }
    }
    assert(s[0] != '/') by {
        assert(!has_char(s, '/'));
        if s[0] == '/' {
            assert(has_char(s, '/'));
        }
    }
    reveal_with_fuel(Seq::filter, 2);
    assert(seq![s].drop_last() =~= Seq::<Seq<char>>::empty());
    assert(pieces.filter(pred) =~= seq![s]);
}

/// A download is saved directly inside the output directory: under one
/// new component, the sanitized name.
pub proof fn lemma_saved_inside_output_dir(output_dir: PathView, raw_name: Seq<char>)
    ensures
        output_dir.join(parse_path(sanitized(raw_name))) == (PathView {
            absolute: output_dir.absolute,
            parts: output_dir.parts.push(sanitized(raw_name)),
        }),
{
    lemma_sanitized_is_one_component(raw_name);
    let s = sanitized(raw_name);
    assert(s != dot()) by {
        if s == dot() {
            assert(s.last() == '.');
        }
    }
    assert(output_dir.parts + seq![s] =~= output_dir.parts.push(s));
}

/// Sanitizing replaces only control characters (U+0000 to U+001F and
/// U+007F to U+009F) and `/ \\ : * ? " < > |`, each by `_`; every other
/// character, ASCII or not, is kept where it was.
pub proof fn lemma_replaces_only_forbidden(name: Seq<char>)
    ensures
        replace_forbidden(name).len() == name.len(),
        forall|i: int| 0 <= i < name.len() ==> {
            let c = name[i];
            let bad = c <= '\u{1f}' || ('\u{7f}' <= c && c <= '\u{9f}') || c == '/' || c == '\\'
                || c == ':' || c == '*' || c == '?' || c == '"' || c == '<' || c == '>' || c == '|';
            #[trigger] replace_forbidden(name)[i] == if bad { '_' } else { c }
        },
{
}

/// A name that needs no cleaning is saved as it is: non-empty, with none of
/// the replaced characters, no whitespace at either end and no trailing
/// dot.
pub proof fn lemma_clean_name_kept(name: Seq<char>)
    requires
        name.len() > 0,
        forall|i: int| 0 <= i < name.len() ==> {
            let c = #[trigger] name[i];
            !(c <= '\u{1f}' || ('\u{7f}' <= c && c <= '\u{9f}') || c == '/' || c == '\\' || c == ':'
                || c == '*' || c == '?' || c == '"' || c == '<' || c == '>' || c == '|')
        },
        !crate::text::is_ws(name[0]),
        !crate::text::is_ws(name.last()),
        name.last() != '.',
    ensures
        sanitized(name) == name,
{
    let m = replace_forbidden(name);
    assert(m =~= name) by {
        assert forall|i: int| 0 <= i < name.len() implies m[i] == name[i] by {
            assert(!is_ctrl(name[i]) && !is_forbidden(name[i]));
        }
    }
    assert(trim_start(name) == name);
    assert(trim_end(name) == name);
    assert(trim_end_char(name, '.') == name);
}

} // verus!
