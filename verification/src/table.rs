//! Difficulty tables: a page whose `bmstable` meta tag points to a header,
//! whose `data_url` points to the list of charts.
//!
//! The caller fetches the page, the header and the data; the functions here
//! find the header, resolve the URLs and assemble the table.

use vstd::prelude::*;
use crate::html::{
    attr_of, html_nodes, is_element, node_attr, parent_index, parent_of, parse_html, select,
    selected, HtmlNode,
};
use crate::url::{join_url, opt_view, url_joined};

verus! {

/// One chart of a difficulty table.
#[derive(Debug)]
pub struct BmsData {
    pub md5: String,
    pub level: String,
    pub title: Option<String>,
    pub artist: Option<String>,
    pub main_url: Option<String>,
    pub diff_url: Option<String>,
}

/// A difficulty table: its name, its level symbol and its charts.
#[derive(Debug)]
pub struct Table {
    pub name: String,
    pub symbol: String,
    pub bms_data: Vec<BmsData>,
}

/// Why a table could not be read.
#[derive(PartialEq, Eq, Structural, Clone, Copy, Debug)]
pub enum TableError {
    /// The page has no `<meta name="bmstable">` in its head.
    BmsTableNotFound,
    /// A URL does not parse or resolve.
    InvalidUrl,
}

/// `<meta name="bmstable">` elements whose parent is `head`, in document order.
pub open spec fn bmstable_metas(nodes: Seq<HtmlNode>) -> Seq<int> {
    selected(nodes, 0, nodes.len() as int, "meta"@, Some(("name"@, "bmstable"@))).filter(
        |k: int| parent_of(nodes, k) >= 0 && is_element(nodes[parent_of(nodes, k)], "head"@),
    )
}

/// The header path the page gives: the `content` of its first
/// `head > meta[name='bmstable']`.
pub open spec fn header_path_of(nodes: Seq<HtmlNode>) -> Option<Seq<char>> {
    let m = bmstable_metas(nodes);
    if m.len() == 0 {
        None
    } else {
        node_attr(nodes[m[0]], "content"@)
    }
}

/// The URL resolved against `base`, serialized.
pub open spec fn resolved_url(base: Seq<char>, input: Seq<char>) -> Result<Seq<char>, TableError> {
    match url_joined(base, input) {
        Some(u) => Ok(u.serialization),
        None => Err(TableError::InvalidUrl),
    }
}

/// The header path a table page gives (see `header_path_of`).
pub fn bmstable_header_path(nodes: &Vec<HtmlNode>) -> (r: Option<String>)
    ensures
        opt_view(r) == header_path_of(nodes@),
{
    let metas = select(nodes, 0, nodes.len(), "meta", &Some(("name".to_string(), "bmstable".to_string())));
    let ghost mv = metas@.map_values(|k: usize| k as int);
    let ghost p = |k: int| parent_of(nodes@, k) >= 0 && is_element(nodes@[parent_of(nodes@, k)], "head"@);
    let head = crate::text::chars_of("head");
    let mut i: usize = 0;
    while i < metas.len()
        invariant
            0 <= i <= metas@.len(),
            mv == metas@.map_values(|k: usize| k as int),
            mv == selected(nodes@, 0, nodes@.len() as int, "meta"@, Some(("name"@, "bmstable"@))),
            forall|j: int| 0 <= j < metas@.len() ==> #[trigger] metas@[j] < nodes@.len(),
            p == (|k: int| parent_of(nodes@, k) >= 0 && is_element(nodes@[parent_of(nodes@, k)], "head"@)),
            head@ == "head"@,
            mv.take(i as int).filter(p).len() == 0,
        decreases metas.len() - i,
    {
        let k = metas[i];
        proof {
            crate::organize::lemma_filter_step(mv, p, i as int);
            assert(mv[i as int] == k as int);
        }
        let under_head = match parent_index(nodes, k) {
            None => false,
            Some(j) => match &nodes[j].kind {
                crate::html::NodeKind::Element { name, .. } => {
                    let c = crate::text::chars_of(name.as_str());
                    crate::text::chars_eq(&c, &head)
                },
                _ => false,
            },
        };
        if under_head {
            proof {
                crate::parser::lemma_first_of_filter(mv, p, i as int);
            }
            return attr_of(&nodes[k], "content");
        }
        i = i + 1;
    }
    assert(mv.take(i as int) =~= mv);
    None
}

/// The header URL: the header path resolved against the table page's URL.
pub fn header_url(table_url: &str, header_path: &str) -> (r: Result<String, TableError>)
    ensures
        match r {
            Ok(s) => resolved_url(table_url@, header_path@) == Ok::<Seq<char>, TableError>(s@),
            Err(e) => resolved_url(table_url@, header_path@) == Err::<Seq<char>, TableError>(e),
        },
{
    match join_url(table_url, header_path) {
        Some(u) => Ok(u.serialization),
        None => Err(TableError::InvalidUrl),
    }
}

/// The data URL: the header's `data_url` resolved against the header URL.
pub fn data_url(header_url: &str, data_path: &str) -> (r: Result<String, TableError>)
    ensures
        match r {
            Ok(s) => resolved_url(header_url@, data_path@) == Ok::<Seq<char>, TableError>(s@),
            Err(e) => resolved_url(header_url@, data_path@) == Err::<Seq<char>, TableError>(e),
        },
{
    match join_url(header_url, data_path) {
        Some(u) => Ok(u.serialization),
        None => Err(TableError::InvalidUrl),
    }
}

impl Table {
    /// A table with the header's name and symbol and the listed charts.
    pub fn new(name: String, symbol: String, bms_data: Vec<BmsData>) -> (r: Table)
        ensures
            r.name == name,
            r.symbol == symbol,
            r.bms_data == bms_data,
    {
        Table { name, symbol, bms_data }
    }
}

/// The header URL a table page leads to: its header path (see
/// `header_path_of`) resolved against the page's URL.
pub open spec fn table_header(table_url: Seq<char>, nodes: Seq<HtmlNode>) -> Result<Seq<char>, TableError> {
    match header_path_of(nodes) {
        None => Err(TableError::BmsTableNotFound),
        Some(p) => resolved_url(table_url, p),
    }
}

/// Reads a table page fetched from `table_url`: the URL of its header.
pub fn table_header_url(table_url: &str, page: &str) -> (r: Result<String, TableError>)
    ensures
        match r {
            Ok(s) => table_header(table_url@, html_nodes(page@)) == Ok::<Seq<char>, TableError>(s@),
            Err(e) => table_header(table_url@, html_nodes(page@)) == Err::<Seq<char>, TableError>(e),
        },
{
    let nodes = parse_html(page);
    match bmstable_header_path(&nodes) {
        None => Err(TableError::BmsTableNotFound),
        Some(p) => header_url(table_url, p.as_str()),
    }
}

} // verus!
