//! Resolving a URL to something downloadable: some hosts need a page to be
//! read before the file's own URL is known.
//!
//! Google Drive is the host `parse_url` resolves; Dropbox and Manbow pages
//! have parsers of their own. The caller fetches pages; the functions here
//! read URLs and pages.

use vstd::prelude::*;
use crate::html::{
    attr_of, inner_text, inner_text_of, node_attr, select, selected, subtree_end, subtree_end_of,
    HtmlNode,
};
use crate::path::{lemma_views_push, views};
use crate::html::{html_nodes, parse_html};
use crate::pattern::{capture_group, regex_capture};
use crate::sjis::{decodable, decode_shift_jis, shift_jis_text};
use crate::provider::concat_str;
use crate::text::{chars_contains, chars_eq, chars_of, chars_starts_with, contains_seq, starts_with};
use crate::url::{
    fits, fits_with_pairs, opt_view, pair_views, pairs_chars, url_append_query_pairs,
    url_clear_fragment, url_parsed, url_parts, url_set_host, url_set_scheme, url_with_added_pairs,
    url_with_host, url_with_scheme, url_without_fragment, UrlParts, UrlPartsView,
};

verus! {

/// What resolving a URL gives: more URLs to try, or the URL of a file.
#[derive(Debug)]
pub enum ParseResult {
    Links(Vec<String>),
    File(String),
}

/// Why a URL could not be resolved.
#[derive(PartialEq, Eq, Structural, Clone, Copy, Debug)]
pub enum ParserError {
    InvalidUrl,
    /// The host refused the new host name.
    InvalidHost,
    DriveIdNotFound,
    DownloadLinkNotFound,
    NoDownloadAddress,
    UrlTooLong,
}

/// The hosts `parse_url` has a parser for.
#[derive(PartialEq, Eq, Structural, Clone, Copy, Debug)]
pub enum ParserKind {
    GDrive,
}

/// Google Drive links (the URL mentions `drive.google.com`).
pub open spec fn is_gdrive(url: Seq<char>) -> bool {
    contains_seq(url, "drive.google.com"@)
}

/// The parser `parse_url` uses for `url`; `None` means the URL is a file.
pub fn parser_for(url: &str) -> (r: Option<ParserKind>)
    ensures
        r == if is_gdrive(url@) {
            Some(ParserKind::GDrive)
        } else {
            None::<ParserKind>
        },
{
    if (GDriveParser).can_parse(url) {
        Some(ParserKind::GDrive)
    } else {
        None
    }
}

/// Resolves a URL no parser handles: it is the file itself.
pub fn unparsed(url: &str) -> (r: ParseResult)
    ensures
        r matches ParseResult::File(f) && f@ == url@,
{
    ParseResult::File(url.to_string())
}

/// Dropbox shared links.
pub struct DropboxParser;

/// The parts of a Dropbox shared link: host `www.dropbox.com`, path under
/// `/s/` or `/scl/fi/`.
pub open spec fn is_dropbox_share(p: UrlPartsView) -> bool {
    p.host == Some("www.dropbox.com"@) && (starts_with(p.path, "/s/"@) || starts_with(
        p.path,
        "/scl/fi/"@,
    ))
}

/// A Dropbox shared link (see `is_dropbox_share`).
pub open spec fn is_dropbox_link(url: Seq<char>) -> bool {
    match url_parsed(url) {
        Some(p) => is_dropbox_share(p),
        None => false,
    }
}

/// The direct-download form of a Dropbox link: scheme `https`, host
/// `dl.dropboxusercontent.com`, no fragment.
pub open spec fn dropbox_direct(url: Seq<char>) -> Result<Seq<char>, ParserError> {
    let host = "dl.dropboxusercontent.com"@;
    if url_parsed(url) is None {
        Err(ParserError::InvalidUrl)
    } else if !fits(url.len() + 5) {
        Err(ParserError::UrlTooLong)
    } else {
        match url_with_scheme(url, "https"@) {
            None => Err(ParserError::InvalidUrl),
            Some(a) => if !fits(a.len() + host.len()) {
                Err(ParserError::UrlTooLong)
            } else {
                match url_with_host(a, host) {
                    None => Err(ParserError::InvalidHost),
                    Some(b) => if !fits(b.len()) {
                        Err(ParserError::UrlTooLong)
                    } else {
                        match url_without_fragment(b) {
                            None => Err(ParserError::InvalidUrl),
                            Some(c) => Ok(c),
                        }
                    },
                }
            },
        }
    }
}

impl DropboxParser {
    /// Whether `url` is a Dropbox shared link.
    pub fn can_parse(&self, url: &str) -> (r: bool)
        ensures
            r == is_dropbox_link(url@),
    {
        match url_parts(url) {
            None => false,
            Some(p) => Self::is_share(&p),
        }
    }

    /// Whether parsed URL parts are those of a Dropbox shared link.
    pub fn is_share(p: &UrlParts) -> (r: bool)
        ensures
            r == is_dropbox_share(p@),
    {
        let host_ok = match &p.host {
            Some(h) => {
                let hc = chars_of(h.as_str());
                let want = chars_of("www.dropbox.com");
                chars_eq(&hc, &want)
            },
            None => false,
        };
        let path = chars_of(p.path.as_str());
        let s = chars_of("/s/");
        let scl = chars_of("/scl/fi/");
        host_ok && (chars_starts_with(&path, &s) || chars_starts_with(&path, &scl))
    }

    /// The direct-download URL of a Dropbox link (see `dropbox_direct`).
    pub fn parse(&self, url: &str) -> (r: Result<Vec<String>, ParserError>)
        ensures
            match dropbox_direct(url@) {
                Ok(c) => r matches Ok(v) && views(v@) == seq![c],
                Err(e) => r == Err::<Vec<String>, ParserError>(e),
            },
    {
        let host = "dl.dropboxusercontent.com";
        proof {
            reveal_strlit("https");
            reveal_strlit("dl.dropboxusercontent.com");
        }
        if url_parts(url).is_none() {
            return Err(ParserError::InvalidUrl);
        }
        if chars_of(url).len() > 300_000_000 - 5 {
            return Err(ParserError::UrlTooLong);
        }
        let a = match url_set_scheme(url, "https") {
            None => {
                return Err(ParserError::InvalidUrl);
            },
            Some(a) => a,
        };
        let host_len = chars_of(host).len();
        if chars_of(a.as_str()).len() > 300_000_000 - host_len {
            return Err(ParserError::UrlTooLong);
        }
        let b = match url_set_host(a.as_str(), host) {
            None => {
                return Err(ParserError::InvalidHost);
            },
            Some(b) => b,
        };
        if chars_of(b.as_str()).len() > 300_000_000 {
            return Err(ParserError::UrlTooLong);
        }
        match url_clear_fragment(b.as_str()) {
            None => Err(ParserError::InvalidUrl),
            Some(c) => {
                let mut v: Vec<String> = Vec::new();
                proof {
                    lemma_views_push(v@, c);
                }
                v.push(c);
                assert(views(v@) =~= seq![c@]);
                Ok(v)
            },
        }
    }
}

/// Google Drive links.
pub struct GDriveParser;

/// The pattern for a file id in a `/file/d/<id>` path.
pub open spec fn drive_path_pattern() -> Seq<char> {
    "/file/d/([a-zA-Z0-9_-]+)"@
}

/// The pattern for a file id in an `id=<id>` query parameter.
pub open spec fn drive_query_pattern() -> Seq<char> {
    "[?&]id=([a-zA-Z0-9_-]+)"@
}

/// The file id of a Drive link: from a `/file/d/<id>` path, else from an `id=` parameter.
pub open spec fn drive_id_of(url: Seq<char>) -> Option<Seq<char>> {
    match regex_capture(drive_path_pattern(), url, 1) {
        Some(id) => Some(id),
        None => regex_capture(drive_query_pattern(), url, 1),
    }
}

/// The first `form#download-form` of a page.
pub open spec fn download_form(nodes: Seq<HtmlNode>) -> Option<int> {
    let f = selected(nodes, 0, nodes.len() as int, "form"@, Some(("id"@, "download-form"@)));
    if f.len() > 0 {
        Some(f[0])
    } else {
        None
    }
}

/// The name and value of an `input`, when it has both.
pub open spec fn input_pair(n: HtmlNode) -> Option<(Seq<char>, Seq<char>)> {
    match (node_attr(n, "name"@), node_attr(n, "value"@)) {
        (Some(k), Some(v)) => Some((k, v)),
        _ => None,
    }
}

/// The name/value pairs of the inputs inside the form at `f`, in order.
pub open spec fn form_pairs(nodes: Seq<HtmlNode>, f: int) -> Seq<(Seq<char>, Seq<char>)> {
    selected(nodes, f + 1, subtree_end(nodes, f), "input"@, None).filter_map(
        |i: int| input_pair(nodes[i]),
    )
}

/// The URL the Drive download form submits to: its `action` with the
/// inputs' pairs appended to the query. `None` when there is no form, no
/// `action`, the action is not a URL, or the result would be too long.
pub open spec fn form_target(nodes: Seq<HtmlNode>) -> Option<Seq<char>> {
    match download_form(nodes) {
        None => None,
        Some(f) => match node_attr(nodes[f], "action"@) {
            None => None,
            Some(action) => match url_parsed(action) {
                None => None,
                Some(p) => if form_pairs(nodes, f).len() == 0 {
                    Some(p.serialization)
                } else if !fits((action.len() + pairs_chars(form_pairs(nodes, f))) as nat) {
                    None
                } else {
                    url_with_added_pairs(action, form_pairs(nodes, f))
                },
            },
        },
    }
}

impl GDriveParser {
    /// Whether `url` is a Drive link.
    pub fn can_parse(&self, url: &str) -> (r: bool)
        ensures
            r == is_gdrive(url@),
    {
        let c = chars_of(url);
        let d = chars_of("drive.google.com");
        chars_contains(&c, &d)
    }
}

/// The file id of a Drive link (see `drive_id_of`).
pub fn get_drive_id(url: &str) -> (r: Option<String>)
    ensures
        opt_view(r) == drive_id_of(url@),
{
    if let Some(id) = capture_group("/file/d/([a-zA-Z0-9_-]+)", url, 1) {
        return Some(id);
    }
    capture_group("[?&]id=([a-zA-Z0-9_-]+)", url, 1)
}

/// The direct download URL of the Drive file `id`.
pub fn drive_download_url(id: &str) -> (r: String)
    ensures
        r@ == "https://drive.usercontent.google.com/download?id="@ + id@
            + "&export=download&authuser=0"@,
{
    let a = concat_str("https://drive.usercontent.google.com/download?id=", id);
    concat_str(a.as_str(), "&export=download&authuser=0")
}

/// Whether a `Content-Type` announces an HTML page (the virus-scan warning
/// Drive shows instead of large files).
pub fn is_html_content(content_type: &str) -> (r: bool)
    ensures
        r == contains_seq(content_type@, "text/html"@),
{
    let c = chars_of(content_type);
    let h = chars_of("text/html");
    chars_contains(&c, &h)
}

/// The first `form#download-form` of a page.
pub fn find_download_form(nodes: &Vec<HtmlNode>) -> (r: Option<usize>)
    ensures
        match r {
            Some(f) => download_form(nodes@) == Some(f as int) && f < nodes@.len(),
            None => download_form(nodes@) is None,
        },
{
    let f = select(nodes, 0, nodes.len(), "form", &Some(("id".to_string(), "download-form".to_string())));
    let ghost fv = f@.map_values(|k: usize| k as int);
    if f.len() > 0 {
        assert(fv[0] == f@[0] as int);
        Some(f[0])
    } else {
        None
    }
}

/// The URL the Drive download form submits to (see `form_target`).
pub fn get_download_url_from_form(nodes: &Vec<HtmlNode>) -> (r: Option<String>)
    ensures
        opt_view(r) == form_target(nodes@),
{
    let f = match find_download_form(nodes) {
        None => {
            return None;
        },
        Some(f) => f,
    };
    let action = match attr_of(&nodes[f], "action") {
        None => {
            return None;
        },
        Some(a) => a,
    };
    let parts = match url_parts(action.as_str()) {
        None => {
            return None;
        },
        Some(p) => p,
    };
    let end = subtree_end_of(nodes, f);
    let inputs = select(nodes, f + 1, end, "input", &None);
    let ghost iv = inputs@.map_values(|k: usize| k as int);
    let ghost g = |i: int| input_pair(nodes@[i]);
    let mut pairs: Vec<(String, String)> = Vec::new();
    let mut i: usize = 0;
    while i < inputs.len()
        invariant
            0 <= i <= inputs@.len(),
            iv == inputs@.map_values(|k: usize| k as int),
            forall|j: int| 0 <= j < inputs@.len() ==> #[trigger] inputs@[j] < nodes@.len(),
            g == (|i: int| input_pair(nodes@[i])),
            pair_views(pairs@) == iv.take(i as int).filter_map(g),
        decreases inputs.len() - i,
    {
        let k = inputs[i];
        proof {
            crate::event::lemma_filter_map_step(iv, g, i as int);
            assert(iv[i as int] == k as int);
        }
        let name = attr_of(&nodes[k], "name");
        let value = attr_of(&nodes[k], "value");
        match (name, value) {
            (Some(n), Some(v)) => {
                let ghost before = pairs@;
                pairs.push((n, v));
                assert(pair_views(pairs@) =~= pair_views(before) + seq![(n@, v@)]);
            },
            _ => {},
        }
        i = i + 1;
    }
    assert(iv.take(i as int) =~= iv);
    if pairs.len() == 0 {
        return Some(parts.serialization);
    }
    if !fits_with_pairs(action.as_str(), &pairs) {
        return None;
    }
    url_append_query_pairs(action.as_str(), &pairs)
}

/// Manbow song pages.
pub struct ManbowParser;

/// Manbow pages (the URL mentions `manbow.nothing.sh`).
pub open spec fn is_manbow(url: Seq<char>) -> bool {
    contains_seq(url, "manbow.nothing.sh"@)
}

/// The links of the first table row whose text mentions `DownLoadAddress`:
/// the `href` of every anchor in that row that has one, in order.
pub open spec fn download_addresses(nodes: Seq<HtmlNode>) -> Option<Seq<Seq<char>>> {
    let rows = selected(nodes, 0, nodes.len() as int, "tr"@, None);
    let hits = rows.filter(|r: int| contains_seq(inner_text(nodes, r), "DownLoadAddress"@));
    if hits.len() == 0 {
        None
    } else {
        let r = hits[0];
        Some(selected(nodes, r + 1, subtree_end(nodes, r), "a"@, None).filter_map(
            |a: int| node_attr(nodes[a], "href"@),
        ))
    }
}

impl ManbowParser {
    /// Whether `url` is a Manbow page.
    pub fn can_parse(&self, url: &str) -> (r: bool)
        ensures
            r == is_manbow(url@),
    {
        let c = chars_of(url);
        let d = chars_of("manbow.nothing.sh");
        chars_contains(&c, &d)
    }
}

/// The links listed as download addresses on a Manbow song page (see
/// `download_addresses`); an error when no row mentions them.
pub fn manbow_download_links(nodes: &Vec<HtmlNode>) -> (r: Result<Vec<String>, ParserError>)
    ensures
        match download_addresses(nodes@) {
            None => r == Err::<Vec<String>, ParserError>(ParserError::NoDownloadAddress),
            Some(l) => r matches Ok(v) && views(v@) == l,
        },
{
    let rows = select(nodes, 0, nodes.len(), "tr", &None);
    let ghost rv = rows@.map_values(|k: usize| k as int);
    let ghost p = |r: int| contains_seq(inner_text(nodes@, r), "DownLoadAddress"@);
    let key = chars_of("DownLoadAddress");
    let mut i: usize = 0;
    while i < rows.len()
        invariant
            0 <= i <= rows@.len(),
            rv == rows@.map_values(|k: usize| k as int),
            rv == selected(nodes@, 0, nodes@.len() as int, "tr"@, None),
            forall|j: int| 0 <= j < rows@.len() ==> #[trigger] rows@[j] < nodes@.len(),
            p == (|r: int| contains_seq(inner_text(nodes@, r), "DownLoadAddress"@)),
            key@ == "DownLoadAddress"@,
            rv.take(i as int).filter(p).len() == 0,
        decreases rows.len() - i,
    {
        let r = rows[i];
        proof {
            crate::organize::lemma_filter_step(rv, p, i as int);
            assert(rv[i as int] == r as int);
        }
        let text = inner_text_of(nodes, r);
        if chars_contains(&text, &key) {
            proof {
                assert(rv.take(i + 1).filter(p) =~= seq![r as int]);
                lemma_first_of_filter(rv, p, i as int);
            }
            let end = subtree_end_of(nodes, r);
            let anchors = select(nodes, r + 1, end, "a", &None);
            let ghost av = anchors@.map_values(|k: usize| k as int);
            let ghost g = |a: int| node_attr(nodes@[a], "href"@);
            let mut links: Vec<String> = Vec::new();
            let mut j: usize = 0;
            while j < anchors.len()
                invariant
                    0 <= j <= anchors@.len(),
                    av == anchors@.map_values(|k: usize| k as int),
                    av == selected(nodes@, r + 1, subtree_end(nodes@, r as int), "a"@, None),
                    forall|m: int| 0 <= m < anchors@.len() ==> #[trigger] anchors@[m] < nodes@.len(),
                    g == (|a: int| node_attr(nodes@[a], "href"@)),
                    views(links@) == av.take(j as int).filter_map(g),
                decreases anchors.len() - j,
            {
                let a = anchors[j];
                proof {
                    crate::event::lemma_filter_map_step(av, g, j as int);
                    assert(av[j as int] == a as int);
                }
                match attr_of(&nodes[a], "href") {
                    Some(h) => {
                        let ghost before = links@;
                        proof {
                            lemma_views_push(links@, h);
                        }
                        links.push(h);
                        assert(views(links@) =~= views(before) + seq![h@]);
                    },
                    None => {},
                }
                j = j + 1;
            }
            assert(av.take(j as int) =~= av);
            return Ok(links);
        }
        i = i + 1;
    }
    assert(rv.take(i as int) =~= rv);
    Err(ParserError::NoDownloadAddress)
}

/// When nothing before position `i` passes the filter and `s[i]` does,
/// `s[i]` is the first element of the filtered sequence.
pub proof fn lemma_first_of_filter(s: Seq<int>, p: spec_fn(int) -> bool, i: int)
    requires
        0 <= i < s.len(),
        s.take(i).filter(p).len() == 0,
        p(s[i]),
    ensures
        s.filter(p).len() > 0,
        s.filter(p)[0] == s[i],
{
    crate::organize::lemma_filter_step(s, p, i);
    let rest = s.skip(i + 1);
    assert(s =~= s.take(i + 1) + rest);
    Seq::filter_distributes_over_add(s.take(i + 1), rest, p);
    assert(s.take(i + 1).filter(p) =~= seq![s[i]]);
}

impl GDriveParser {
    /// Reads Drive's virus-scan warning page: the URL its download form
    /// submits to, as the one link; an error when the page has no such form.
    pub fn links_from_page(page: &str) -> (r: Result<Vec<String>, ParserError>)
        ensures
            match form_target(html_nodes(page@)) {
                Some(u) => r matches Ok(v) && views(v@) == seq![u],
                None => r == Err::<Vec<String>, ParserError>(ParserError::DownloadLinkNotFound),
            },
    {
        let nodes = parse_html(page);
        match get_download_url_from_form(&nodes) {
            Some(u) => {
                let mut v: Vec<String> = Vec::new();
                proof {
                    lemma_views_push(v@, u);
                }
                v.push(u);
                Ok(v)
            },
            None => Err(ParserError::DownloadLinkNotFound),
        }
    }
}

impl ManbowParser {
    /// Reads a Manbow song page, as fetched (Shift_JIS bytes): the links
    /// of its download-address row (see `download_addresses`).
    pub fn links_from_page(bytes: &[u8]) -> (r: Result<Vec<String>, ParserError>)
        requires
            decodable(bytes@),
        ensures
            match download_addresses(html_nodes(shift_jis_text(bytes@))) {
                None => r == Err::<Vec<String>, ParserError>(ParserError::NoDownloadAddress),
                Some(l) => r matches Ok(v) && views(v@) == l,
            },
    {
        let text = decode_shift_jis(bytes);
        let nodes = parse_html(text.as_str());
        manbow_download_links(&nodes)
    }
}

} // verus!
