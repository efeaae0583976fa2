//! Event pages: pages listing the songs entered in a BMS event together
//! with their download URLs. The Manbow event site is supported.

use vstd::prelude::*;
use crate::download::contains_string;
use crate::html::{
    inner_text, node_attr, select, selected, subtree_end, subtree_end_of, attr_of, HtmlNode,
};
use crate::html::{html_nodes, parse_html};
use crate::path::{lemma_views_push, views};
use crate::sjis::{decodable, decode_shift_jis, shift_jis_text};
use crate::url::{
    first_value, fits, fits_with_pairs, join_url, opt_view, pair_views, pairs_chars, query_value,
    url_joined, url_parsed, url_parts, url_set_path, url_set_query_pairs, url_with_path,
    url_with_query_pairs, UrlParts, UrlPartsView,
};
use crate::text::{chars_eq, chars_of};

verus! {

/// One entry of an event: the download URLs given for it.
#[derive(Debug)]
pub struct EventEntry {
    pub urls: Vec<String>,
}

/// Why an event page could not be read.
#[derive(PartialEq, Eq, Structural, Clone, Copy, Debug)]
pub enum EventError {
    /// The page URL does not parse.
    InvalidUrl,
    /// The page URL carries no `event` query parameter.
    EventIdNotFound,
    /// The URL list page has no `table#list` or `table#dllist`.
    TableNotFound,
    /// The URL is too long to rebuild.
    UrlTooLong,
}

/// The event sites the library can read.
#[derive(PartialEq, Eq, Structural, Clone, Copy, Debug)]
pub enum ScraperKind {
    Manbow,
}

/// `s` with later repeats removed, first occurrences kept in order.
pub open spec fn dedup(s: Seq<Seq<char>>) -> Seq<Seq<char>>
    decreases s.len(),
{
    if s.len() == 0 {
        Seq::empty()
    } else if dedup(s.drop_last()).contains(s.last()) {
        dedup(s.drop_last())
    } else {
        dedup(s.drop_last()).push(s.last())
    }
}

/// The event id in a Manbow event URL.
pub open spec fn event_id_of(url: UrlPartsView) -> Option<Seq<char>> {
    first_value(url.query_pairs, "event"@)
}

/// The parts of a Manbow event page: host `manbow.nothing.sh`, path
/// `/event/event.cgi`, an `event` parameter.
pub open spec fn is_event_page(p: UrlPartsView) -> bool {
    p.host == Some("manbow.nothing.sh"@) && p.path == "/event/event.cgi"@ && event_id_of(p) is Some
}

/// A Manbow event page URL (see `is_event_page`).
pub open spec fn is_manbow_event(url: Seq<char>) -> bool {
    match url_parsed(url) {
        Some(p) => is_event_page(p),
        None => false,
    }
}

/// The query of the URL list page of event `event`.
pub open spec fn url_list_query(event: Seq<char>) -> Seq<(Seq<char>, Seq<char>)> {
    seq![("action"@, "URLList"@), ("event"@, event), ("end"@, "999"@)]
}

/// The URL list page of the event at `url`.
pub open spec fn url_list_of(url: Seq<char>) -> Result<Seq<char>, EventError> {
    match url_parsed(url) {
        None => Err(EventError::InvalidUrl),
        Some(p) => match event_id_of(p) {
            None => Err(EventError::EventIdNotFound),
            Some(e) => if !fits(url.len() + 16) {
                Err(EventError::UrlTooLong)
            } else {
                match url_with_path(url, "/event/event.cgi"@) {
                    None => Err(EventError::InvalidUrl),
                    Some(u) => if !fits((u.len() + pairs_chars(url_list_query(e))) as nat) {
                        Err(EventError::UrlTooLong)
                    } else {
                        match url_with_query_pairs(u, url_list_query(e)) {
                            None => Err(EventError::InvalidUrl),
                            Some(v) => Ok(v),
                        }
                    },
                }
            },
        },
    }
}

/// The index of the URL list table: the first `table#list`, else the first `table#dllist`.
pub open spec fn url_list_table(nodes: Seq<HtmlNode>) -> Option<int> {
    let l = selected(nodes, 0, nodes.len() as int, "table"@, Some(("id"@, "list"@)));
    let d = selected(nodes, 0, nodes.len() as int, "table"@, Some(("id"@, "dllist"@)));
    if l.len() > 0 {
        Some(l[0])
    } else if d.len() > 0 {
        Some(d[0])
    } else {
        None
    }
}

/// The URL, serialized, when its scheme is `http` or `https`.
pub open spec fn web_url(u: UrlPartsView) -> Option<Seq<char>> {
    if u.scheme == "http"@ || u.scheme == "https"@ {
        Some(u.serialization)
    } else {
        None
    }
}

/// The absolute http(s) URL an anchor links to, relative to `base`.
pub open spec fn anchor_link(n: HtmlNode, base: Seq<char>) -> Option<Seq<char>> {
    match node_attr(n, "href"@) {
        None => None,
        Some(h) => match url_joined(base, h) {
            None => None,
            Some(u) => web_url(u),
        },
    }
}

/// The URLs of a row: the links of the anchors in its last cell, each once.
pub open spec fn row_urls(nodes: Seq<HtmlNode>, row: int, base: Seq<char>) -> Seq<Seq<char>> {
    let cells = selected(nodes, row + 1, subtree_end(nodes, row), "td"@, None);
    if cells.len() == 0 {
        Seq::empty()
    } else {
        let c = cells.last();
        let anchors = selected(nodes, c + 1, subtree_end(nodes, c), "a"@, None);
        dedup(anchors.filter_map(|a: int| anchor_link(nodes[a], base)))
    }
}

/// The entries of the URL list: one per row of the table that has URLs.
pub open spec fn url_list_entries(nodes: Seq<HtmlNode>, base: Seq<char>) -> Option<Seq<Seq<Seq<char>>>> {
    match url_list_table(nodes) {
        None => None,
        Some(t) => {
            let rows = selected(nodes, t + 1, subtree_end(nodes, t), "tr"@, None);
            Some(rows.filter_map(|r: int| if row_urls(nodes, r, base).len() > 0 {
                Some(row_urls(nodes, r, base))
            } else {
                None
            }))
        },
    }
}

/// The URLs of each entry.
pub open spec fn entry_views(v: Seq<EventEntry>) -> Seq<Seq<Seq<char>>> {
    v.map_values(|e: EventEntry| views(e.urls@))
}

/// One more element through `filter_map`.
pub proof fn lemma_filter_map_step<A, B>(s: Seq<A>, f: spec_fn(A) -> Option<B>, i: int)
    requires
        0 <= i < s.len(),
    ensures
        s.take(i + 1).filter_map(f) == match f(s[i]) {
            Some(x) => s.take(i).filter_map(f) + seq![x],
            None => s.take(i).filter_map(f),
        },
{
    let t = s.take(i + 1);
    assert(t.drop_last() =~= s.take(i));
    assert(t.last() == s[i]);
}

/// The Manbow event site.
pub struct ManbowEventScraper;

impl ManbowEventScraper {
    /// Whether `url` is a Manbow event page.
    pub fn can_handle(&self, url: &str) -> (r: bool)
        ensures
            r == is_manbow_event(url@),
    {
        match url_parts(url) {
            None => false,
            Some(p) => Self::is_event(&p),
        }
    }

    /// Whether parsed URL parts are those of a Manbow event page.
    pub fn is_event(p: &UrlParts) -> (r: bool)
        ensures
            r == is_event_page(p@),
    {
        let host_ok = match &p.host {
            Some(h) => {
                let hc = chars_of(h.as_str());
                let want = chars_of("manbow.nothing.sh");
                chars_eq(&hc, &want)
            },
            None => false,
        };
        let pc = chars_of(p.path.as_str());
        let want_path = chars_of("/event/event.cgi");
        host_ok && chars_eq(&pc, &want_path) && event_id(p).is_some()
    }
}

/// The event id in a Manbow event URL (its `event` query parameter).
pub fn event_id(url: &UrlParts) -> (r: Option<String>)
    ensures
        opt_view(r) == event_id_of(url@),
{
    query_value(url, "event")
}

/// The URL list page of the event at `url`: path `/event/event.cgi` and
/// query `action=URLList&event=<id>&end=999`.
pub fn url_list_url(url: &str) -> (r: Result<String, EventError>)
    ensures
        match r {
            Ok(s) => url_list_of(url@) == Ok::<Seq<char>, EventError>(s@),
            Err(e) => url_list_of(url@) == Err::<Seq<char>, EventError>(e),
        },
{
    let parts = match url_parts(url) {
        None => {
            return Err(EventError::InvalidUrl);
        },
        Some(p) => p,
    };
    let event = match event_id(&parts) {
        None => {
            return Err(EventError::EventIdNotFound);
        },
        Some(e) => e,
    };
    let n = chars_of(url).len();
    if n > 300_000_000 - 16 {
        return Err(EventError::UrlTooLong);
    }
    let path = "/event/event.cgi";
    proof {
        reveal_strlit("/event/event.cgi");
    }
    let with_path = match url_set_path(url, path) {
        None => {
            return Err(EventError::InvalidUrl);
        },
        Some(u) => u,
    };
    let mut pairs: Vec<(String, String)> = Vec::new();
    pairs.push(("action".to_string(), "URLList".to_string()));
    pairs.push(("event".to_string(), event));
    pairs.push(("end".to_string(), "999".to_string()));
    assert(pair_views(pairs@) =~= url_list_query(event@));
    if !fits_with_pairs(with_path.as_str(), &pairs) {
        return Err(EventError::UrlTooLong);
    }
    match url_set_query_pairs(with_path.as_str(), &pairs) {
        None => Err(EventError::InvalidUrl),
        Some(v) => Ok(v),
    }
}

/// The URL list table: the first `table#list`, else the first `table#dllist`.
pub fn find_url_list_table(nodes: &Vec<HtmlNode>) -> (r: Option<usize>)
    ensures
        match r {
            Some(t) => url_list_table(nodes@) == Some(t as int) && t < nodes@.len(),
            None => url_list_table(nodes@) is None,
        },
{
    let list = select(nodes, 0, nodes.len(), "table", &Some(("id".to_string(), "list".to_string())));
    let ghost lv = list@.map_values(|k: usize| k as int);
    if list.len() > 0 {
        assert(lv[0] == list@[0] as int);
        return Some(list[0]);
    }
    let dl = select(nodes, 0, nodes.len(), "table", &Some(("id".to_string(), "dllist".to_string())));
    let ghost dv = dl@.map_values(|k: usize| k as int);
    if dl.len() > 0 {
        assert(dv[0] == dl@[0] as int);
        return Some(dl[0]);
    }
    None
}

/// The absolute http(s) URL an anchor links to, relative to `base`.
pub fn anchor_link_of(n: &HtmlNode, base: &str) -> (r: Option<String>)
    ensures
        opt_view(r) == anchor_link(*n, base@),
{
    let href = match attr_of(n, "href") {
        None => {
            return None;
        },
        Some(h) => h,
    };
    let joined = match join_url(base, href.as_str()) {
        None => {
            return None;
        },
        Some(u) => u,
    };
    web_link(joined)
}

/// The serialized URL, when its scheme is `http` or `https` (see `web_url`).
pub fn web_link(u: UrlParts) -> (r: Option<String>)
    ensures
        opt_view(r) == web_url(u@),
{
    let sc = chars_of(u.scheme.as_str());
    let http = chars_of("http");
    let https = chars_of("https");
    if chars_eq(&sc, &http) || chars_eq(&sc, &https) {
        Some(u.serialization)
    } else {
        None
    }
}

/// Appends `x` unless it is already in `urls`.
pub fn push_unique(urls: &mut Vec<String>, x: String)
    ensures
        views(final(urls)@) == if views(old(urls)@).contains(x@) {
            views(old(urls)@)
        } else {
            views(old(urls)@).push(x@)
        },
{
    if !contains_string(urls, &x) {
        proof {
            lemma_views_push(urls@, x);
        }
        urls.push(x);
    }
}

/// The URLs of a row (see `row_urls`).
pub fn row_urls_of(nodes: &Vec<HtmlNode>, row: usize, base: &str) -> (r: Vec<String>)
    requires
        row < nodes@.len(),
    ensures
        views(r@) == row_urls(nodes@, row as int, base@),
{
    let end = subtree_end_of(nodes, row);
    let cells = select(nodes, row + 1, end, "td", &None);
    let mut urls: Vec<String> = Vec::new();
    if cells.len() == 0 {
        assert(views(urls@) =~= Seq::<Seq<char>>::empty());
        return urls;
    }
    let ghost cv = cells@.map_values(|k: usize| k as int);
    let c = cells[cells.len() - 1];
    assert(cv.last() == c as int);
    let cend = subtree_end_of(nodes, c);
    let anchors = select(nodes, c + 1, cend, "a", &None);
    let ghost av = anchors@.map_values(|k: usize| k as int);
    let ghost f = |a: int| anchor_link(nodes@[a], base@);
    let mut i: usize = 0;
    while i < anchors.len()
        invariant
            0 <= i <= anchors@.len(),
            av == anchors@.map_values(|k: usize| k as int),
            forall|j: int| 0 <= j < anchors@.len() ==> #[trigger] anchors@[j] < nodes@.len(),
            f == (|a: int| anchor_link(nodes@[a], base@)),
            views(urls@) == dedup(av.take(i as int).filter_map(f)),
        decreases anchors.len() - i,
    {
        let a = anchors[i];
        proof {
            lemma_filter_map_step(av, f, i as int);
            assert(av[i as int] == a as int);
        }
        match anchor_link_of(&nodes[a], base) {
            Some(x) => {
                proof {
                    let fm = av.take(i as int).filter_map(f);
                    assert((fm + seq![x@]).drop_last() =~= fm);
                    assert((fm + seq![x@]).last() == x@);
                }
                push_unique(&mut urls, x);
            },
            None => {},
        }
        i = i + 1;
    }
    assert(av.take(i as int) =~= av);
    urls
}

/// Reads the entries of a Manbow URL list page: for each row of the URL
/// list table, the http(s) links in its last cell, resolved against
/// `base_url` and each kept once; rows without links are skipped.
pub fn parse_url_list(nodes: &Vec<HtmlNode>, base_url: &str) -> (r: Result<Vec<EventEntry>, EventError>)
    ensures
        match url_list_entries(nodes@, base_url@) {
            None => r == Err::<Vec<EventEntry>, EventError>(EventError::TableNotFound),
            Some(es) => r matches Ok(v) && entry_views(v@) == es,
        },
{
    let t = match find_url_list_table(nodes) {
        None => {
            return Err(EventError::TableNotFound);
        },
        Some(t) => t,
    };
    let end = subtree_end_of(nodes, t);
    let rows = select(nodes, t + 1, end, "tr", &None);
    let ghost rv = rows@.map_values(|k: usize| k as int);
    let ghost g = |r: int| if row_urls(nodes@, r, base_url@).len() > 0 {
        Some(row_urls(nodes@, r, base_url@))
    } else {
        None
    };
    let mut entries: Vec<EventEntry> = Vec::new();
    let mut i: usize = 0;
    while i < rows.len()
        invariant
            0 <= i <= rows@.len(),
            rv == rows@.map_values(|k: usize| k as int),
            forall|j: int| 0 <= j < rows@.len() ==> #[trigger] rows@[j] < nodes@.len(),
            g == (|r: int| if row_urls(nodes@, r, base_url@).len() > 0 {
                Some(row_urls(nodes@, r, base_url@))
            } else {
                None
            }),
            entry_views(entries@) == rv.take(i as int).filter_map(g),
        decreases rows.len() - i,
    {
        let row = rows[i];
        proof {
            lemma_filter_map_step(rv, g, i as int);
            assert(rv[i as int] == row as int);
        }
        let urls = row_urls_of(nodes, row, base_url);
        if urls.len() > 0 {
            let ghost before = entries@;
            let e = EventEntry { urls };
            entries.push(e);
            assert(entry_views(entries@) =~= entry_views(before) + seq![views(e.urls@)]);
        }
        i = i + 1;
    }
    assert(rv.take(i as int) =~= rv);
    Ok(entries)
}

/// The scraper for an event page URL, if the site is supported.
pub fn get_scraper(url: &str) -> (r: Option<ScraperKind>)
    ensures
        r == if is_manbow_event(url@) {
            Some(ScraperKind::Manbow)
        } else {
            None::<ScraperKind>
        },
{
    let manbow = ManbowEventScraper;
    if manbow.can_handle(url) {
        Some(ScraperKind::Manbow)
    } else {
        None
    }
}

impl ManbowEventScraper {
    /// Reads an event's URL list page, as fetched (Shift_JIS bytes) from
    /// `url_list_url` (see `parse_url_list`).
    pub fn entries_from_page(bytes: &[u8], url_list_url: &str) -> (r: Result<Vec<EventEntry>, EventError>)
        requires
            decodable(bytes@),
        ensures
            match url_list_entries(html_nodes(shift_jis_text(bytes@)), url_list_url@) {
                None => r == Err::<Vec<EventEntry>, EventError>(EventError::TableNotFound),
                Some(es) => r matches Ok(v) && entry_views(v@) == es,
            },
    {
        let text = decode_shift_jis(bytes);
        let nodes = parse_html(text.as_str());
        parse_url_list(&nodes, url_list_url)
    }
}

/// `dedup` keeps each element once and loses none.
pub proof fn lemma_dedup(s: Seq<Seq<char>>)
    ensures
        dedup(s).no_duplicates(),
        forall|x: Seq<char>| #[trigger] dedup(s).contains(x) <==> s.contains(x),
    decreases s.len(),
{
    if s.len() > 0 {
        let t = s.drop_last();
        lemma_dedup(t);
        assert forall|x: Seq<char>| #[trigger] s.contains(x) <==> (t.contains(x) || x == s.last()) by {
            if s.contains(x) {
                let w = choose|w: int| 0 <= w < s.len() && s[w] == x;
                if w < t.len() {
                    assert(t[w] == x);
                }
            }
            if t.contains(x) {
                let w = choose|w: int| 0 <= w < t.len() && t[w] == x;
                assert(s[w] == x);
            }
            if x == s.last() {
                assert(s[s.len() - 1] == x);
            }
        }
        if !dedup(t).contains(s.last()) {
            let d = dedup(t);
            let g = d.push(s.last());
            assert forall|a: int, b: int| 0 <= a < g.len() && 0 <= b < g.len() && a != b implies g[a] != g[b] by {
                if a < d.len() && b < d.len() {
                    assert(g[a] == d[a] && g[b] == d[b]);
                } else if a < d.len() {
                    assert(d.contains(g[a]));
                } else {
                    assert(d.contains(g[b]));
                }
            }
            assert forall|x: Seq<char>| #[trigger] g.contains(x) <==> (d.contains(x) || x == s.last()) by {
                if g.contains(x) {
                    let w = choose|w: int| 0 <= w < g.len() && g[w] == x;
                    if w < d.len() {
                        assert(d[w] == x);
                    }
                }
                if d.contains(x) {
                    let w = choose|w: int| 0 <= w < d.len() && d[w] == x;
                    assert(g[w] == x);
                }
                if x == s.last() {
                    assert(g[g.len() - 1] == x);
                }
            }
        }
    }
}

/// Every entry read from a URL list names at least one URL, and none twice.
pub proof fn lemma_entries_nonempty_and_unique(nodes: Seq<HtmlNode>, base: Seq<char>, k: int)
    requires
        url_list_entries(nodes, base) is Some,
        0 <= k < url_list_entries(nodes, base)->0.len(),
    ensures
        url_list_entries(nodes, base)->0[k].len() > 0,
        url_list_entries(nodes, base)->0[k].no_duplicates(),
{
    let t = url_list_table(nodes)->0;
    let rows = selected(nodes, t + 1, subtree_end(nodes, t), "tr"@, None);
    let g = |r: int| if row_urls(nodes, r, base).len() > 0 {
        Some(row_urls(nodes, r, base))
    } else {
        None
    };
    let e = rows.filter_map(g)[k];
    assert(rows.filter_map(g).contains(e));
    rows.lemma_filter_map_contains(g, e);
    let r = choose|r: int| #[trigger] rows.contains(r) && g(r) == Some(e);
    let cells = selected(nodes, r + 1, subtree_end(nodes, r), "td"@, None);
    if cells.len() > 0 {
        let c = cells.last();
        let anchors = selected(nodes, c + 1, subtree_end(nodes, c), "a"@, None);
        lemma_dedup(anchors.filter_map(|a: int| anchor_link(nodes[a], base)));
    }
}

} // verus!
