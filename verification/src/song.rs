//! Looking up a chart's download URLs with a file type: full package
//! ("main"), additional chart ("diff"), or not known ("unknown").
//!
//! The BMS SEARCH API tells the type by a pattern's pack type; the LR2IR
//! ranking page lists a body URL and a diff URL in labelled table rows.

use vstd::prelude::*;
use crate::html::{
    attr_of, html_nodes, inner_text, inner_text_of, node_attr, parse_html, select, selected,
    subtree_end, subtree_end_of, HtmlNode,
};
use crate::sjis::{decodable, decode_shift_jis, shift_jis_text};
use crate::path::views;
use crate::provider::{concat_str, copy_strings, singleton_or_empty};
use crate::text::{chars_eq, chars_of, string_of, trim, trim_chars};
use crate::url::opt_view;

verus! {

/// What a URL downloads.
#[derive(PartialEq, Eq, Structural, Clone, Copy, Debug)]
pub enum BmsFileType {
    Main,
    Diff,
    Unknown,
}

impl Default for BmsFileType {
    fn default() -> (r: BmsFileType)
        ensures
            r == BmsFileType::Unknown,
    {
        BmsFileType::Unknown
    }
}

/// URLs of a chart by kind, and the kind of file the chart itself is.
#[derive(Debug)]
pub struct BmsUrl {
    pub main_urls: Vec<String>,
    pub diff_urls: Vec<String>,
    pub unknown_urls: Vec<String>,
    pub target_type: BmsFileType,
}

impl Default for BmsUrl {
    fn default() -> (r: BmsUrl)
        ensures
            r.main_urls@.len() == 0,
            r.diff_urls@.len() == 0,
            r.unknown_urls@.len() == 0,
            r.target_type == BmsFileType::Unknown,
    {
        BmsUrl {
            main_urls: Vec::new(),
            diff_urls: Vec::new(),
            unknown_urls: Vec::new(),
            target_type: BmsFileType::Unknown,
        }
    }
}

/// The BMS SEARCH API, with pack types.
pub struct BmsSearchProvider;

impl BmsSearchProvider {
    /// The provider's name.
    pub fn name(&self) -> (r: &'static str)
        ensures
            r@ == "BMS SEARCH API"@,
    {
        "BMS SEARCH API"
    }

    /// Sorts a BMS entry's download URLs by the pattern's pack type:
    /// `INCLUDED` (the chart ships in the package) makes them full packages
    /// of a main chart; `ADDITIONAL` makes them packages of a diff chart
    /// (still listed as full packages); anything else leaves them unknown.
    pub fn classify(urls: Vec<String>, pack_type: Option<&str>) -> (r: BmsUrl)
        ensures
            match pack_type {
                Some(t) if t@ == "INCLUDED"@ => views(r.main_urls@) == views(urls@)
                    && r.diff_urls@.len() == 0 && r.unknown_urls@.len() == 0 && r.target_type
                    == BmsFileType::Main,
                Some(t) if t@ == "ADDITIONAL"@ => views(r.main_urls@) == views(urls@)
                    && r.diff_urls@.len() == 0 && r.unknown_urls@.len() == 0 && r.target_type
                    == BmsFileType::Diff,
                _ => r.main_urls@.len() == 0 && r.diff_urls@.len() == 0 && views(r.unknown_urls@)
                    == views(urls@) && r.target_type == BmsFileType::Unknown,
            },
    {
        let (is_included, is_additional) = match pack_type {
            Some(t) => {
                let c = chars_of(t);
                let inc = chars_of("INCLUDED");
                let add = chars_of("ADDITIONAL");
                (chars_eq(&c, &inc), chars_eq(&c, &add))
            },
            None => (false, false),
        };
        if is_included {
            BmsUrl { main_urls: urls, diff_urls: Vec::new(), unknown_urls: Vec::new(), target_type: BmsFileType::Main }
        } else if is_additional {
            BmsUrl { main_urls: urls, diff_urls: Vec::new(), unknown_urls: Vec::new(), target_type: BmsFileType::Diff }
        } else {
            BmsUrl { main_urls: Vec::new(), diff_urls: Vec::new(), unknown_urls: urls, target_type: BmsFileType::Unknown }
        }
    }
}

/// The LR2IR ranking pages.
pub struct Lr2IrProvider;

/// The label of a row: its first header cell's text, trimmed.
pub open spec fn row_label(nodes: Seq<HtmlNode>, r: int) -> Option<Seq<char>> {
    let ths = selected(nodes, r + 1, subtree_end(nodes, r), "th"@, None);
    if ths.len() == 0 {
        None
    } else {
        Some(trim(inner_text(nodes, ths[0])))
    }
}

/// The link of a row labelled `label`: the `href` of its first anchor.
pub open spec fn labelled_link(nodes: Seq<HtmlNode>, r: int, label: Seq<char>) -> Option<Seq<char>> {
    if row_label(nodes, r) == Some(label) {
        let anchors = selected(nodes, r + 1, subtree_end(nodes, r), "a"@, None);
        if anchors.len() == 0 {
            None
        } else {
            node_attr(nodes[anchors[0]], "href"@)
        }
    } else {
        None
    }
}

/// The last element of `s`, if any.
pub open spec fn last_of(s: Seq<Seq<char>>) -> Option<Seq<char>> {
    if s.len() == 0 {
        None
    } else {
        Some(s.last())
    }
}

/// The link of the last row labelled `label` that has one.
pub open spec fn page_link(nodes: Seq<HtmlNode>, label: Seq<char>) -> Option<Seq<char>> {
    let rows = selected(nodes, 0, nodes.len() as int, "tr"@, None);
    last_of(rows.filter_map(|r: int| labelled_link(nodes, r, label)))
}

/// Label of the body (full package) URL row.
pub open spec fn body_label() -> Seq<char> {
    "本体URL"@
}

/// Label of the diff URL row.
pub open spec fn diff_label() -> Seq<char> {
    "差分URL"@
}

fn row_link_of(nodes: &Vec<HtmlNode>, r: usize, label: &[char]) -> (res: Option<String>)
    requires
        r < nodes@.len(),
    ensures
        opt_view(res) == labelled_link(nodes@, r as int, label@),
{
    let end = subtree_end_of(nodes, r);
    let ths = select(nodes, r + 1, end, "th", &None);
    let ghost tv = ths@.map_values(|k: usize| k as int);
    if ths.len() == 0 {
        return None;
    }
    assert(tv[0] == ths@[0] as int);
    let text = inner_text_of(nodes, ths[0]);
    let t = trim_chars(&text);
    if !chars_eq(&t, label) {
        return None;
    }
    let anchors = select(nodes, r + 1, end, "a", &None);
    let ghost av = anchors@.map_values(|k: usize| k as int);
    if anchors.len() == 0 {
        return None;
    }
    assert(av[0] == anchors@[0] as int);
    attr_of(&nodes[anchors[0]], "href")
}

impl Lr2IrProvider {
    /// The provider's name.
    pub fn name(&self) -> (r: &'static str)
        ensures
            r@ == "LR2IR"@,
    {
        "LR2IR"
    }

    /// The ranking page of the chart with MD5 `md5`.
    pub fn search_url(md5: &str) -> (r: String)
        ensures
            r@ == "http://www.dream-pro.info/~lavalse/LR2IR/search.cgi?mode=ranking&bmsmd5="@ + md5@,
    {
        concat_str("http://www.dream-pro.info/~lavalse/LR2IR/search.cgi?mode=ranking&bmsmd5=", md5)
    }

    /// The URLs a ranking page lists: the body URL as full package and the
    /// diff URL as additional chart (each from the last row labelled so);
    /// the chart is a diff when a diff URL is listed.
    pub fn urls_from_page(nodes: &Vec<HtmlNode>) -> (r: BmsUrl)
        ensures
            views(r.main_urls@) == match page_link(nodes@, body_label()) {
                Some(x) => seq![x],
                None => Seq::<Seq<char>>::empty(),
            },
            views(r.diff_urls@) == match page_link(nodes@, diff_label()) {
                Some(x) => seq![x],
                None => Seq::<Seq<char>>::empty(),
            },
            r.unknown_urls@.len() == 0,
            r.target_type == if page_link(nodes@, diff_label()) is Some {
                BmsFileType::Diff
            } else {
                BmsFileType::Unknown
            },
    {
        let body = chars_of("本体URL");
        let diff = chars_of("差分URL");
        let rows = select(nodes, 0, nodes.len(), "tr", &None);
        let ghost rv = rows@.map_values(|k: usize| k as int);
        let ghost fb = |r: int| labelled_link(nodes@, r, body_label());
        let ghost fd = |r: int| labelled_link(nodes@, r, diff_label());
        let mut main_url: Option<String> = None;
        let mut diff_url: Option<String> = None;
        let mut i: usize = 0;
        while i < rows.len()
            invariant
                0 <= i <= rows@.len(),
                rv == rows@.map_values(|k: usize| k as int),
                forall|j: int| 0 <= j < rows@.len() ==> #[trigger] rows@[j] < nodes@.len(),
                body@ == body_label(),
                diff@ == diff_label(),
                fb == (|r: int| labelled_link(nodes@, r, body_label())),
                fd == (|r: int| labelled_link(nodes@, r, diff_label())),
                opt_view(main_url) == last_of(rv.take(i as int).filter_map(fb)),
                opt_view(diff_url) == last_of(rv.take(i as int).filter_map(fd)),
            decreases rows.len() - i,
        {
            let r = rows[i];
            proof {
                crate::event::lemma_filter_map_step(rv, fb, i as int);
                crate::event::lemma_filter_map_step(rv, fd, i as int);
                assert(rv[i as int] == r as int);
            }
            if let Some(h) = row_link_of(nodes, r, &body) {
                proof {
                    let s = rv.take(i as int).filter_map(fb);
                    assert((s + seq![h@]).last() == h@);
                }
                main_url = Some(h);
            }
            if let Some(h) = row_link_of(nodes, r, &diff) {
                proof {
                    let s = rv.take(i as int).filter_map(fd);
                    assert((s + seq![h@]).last() == h@);
                }
                diff_url = Some(h);
            }
            i = i + 1;
        }
        assert(rv.take(i as int) =~= rv);
        let target_type = if diff_url.is_some() {
            BmsFileType::Diff
        } else {
            BmsFileType::Unknown
        };
        BmsUrl {
            main_urls: singleton_or_empty(main_url),
            diff_urls: singleton_or_empty(diff_url),
            unknown_urls: Vec::new(),
            target_type,
        }
    }
}

impl Lr2IrProvider {
    /// Reads a ranking page, as fetched (Shift_JIS bytes) (see `urls_from_page`).
    pub fn urls_from_response(bytes: &[u8]) -> (r: BmsUrl)
        requires
            decodable(bytes@),
        ensures
            ({
                let nodes = html_nodes(shift_jis_text(bytes@));
                &&& views(r.main_urls@) == match page_link(nodes, body_label()) {
                    Some(x) => seq![x],
                    None => Seq::<Seq<char>>::empty(),
                }
                &&& views(r.diff_urls@) == match page_link(nodes, diff_label()) {
                    Some(x) => seq![x],
                    None => Seq::<Seq<char>>::empty(),
                }
                &&& r.unknown_urls@.len() == 0
                &&& r.target_type == if page_link(nodes, diff_label()) is Some {
                    BmsFileType::Diff
                } else {
                    BmsFileType::Unknown
                }
            }),
    {
        let text = decode_shift_jis(bytes);
        let nodes = parse_html(text.as_str());
        Self::urls_from_page(&nodes)
    }
}

} // verus!
