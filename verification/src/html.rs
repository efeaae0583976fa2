//! HTML documents as the list of their nodes in document order, each with
//! its depth in the tree (the document itself has depth 0).
//!
//! The descendants of a node are the nodes after it up to the next node at
//! its depth or shallower; element selection, attribute lookup and text
//! extraction follow from that.

use vstd::prelude::*;
use crate::organize::lemma_filter_step;
use crate::text::{chars_eq, chars_of, concat_chars};

verus! {

/// An attribute: its qualified name (prefix, namespace URL, local name)
/// and its value. Attributes written in plain HTML have no prefix and the
/// empty namespace; adjusted foreign ones (such as SVG's `xlink:href`) keep
/// theirs.
#[derive(Debug)]
pub struct HtmlAttr {
    pub prefix: Option<String>,
    pub namespace: String,
    pub name: String,
    pub value: String,
}

/// What a node is.
#[derive(Debug)]
pub enum NodeKind {
    Element { name: String, attrs: Vec<HtmlAttr> },
    Text { text: String },
    /// The document, a comment, a doctype or a processing instruction.
    Other,
}

/// A node and its depth in the tree.
#[derive(Debug)]
pub struct HtmlNode {
    pub depth: usize,
    pub kind: NodeKind,
}

/// The nodes of the document `scraper::Html::parse_document` builds from `text`.
pub uninterp spec fn html_nodes(text: Seq<char>) -> Seq<HtmlNode>;

/// Parses an HTML document with `scraper::Html::parse_document` and lists
/// its nodes in document order (`descendants()` of the tree's root), each
/// with its number of ancestors, element name and qualified attributes, or
/// text.
///
/// The parse (HTML5 tree construction) is named, not restated.
#[verifier::external_body]
pub(crate) fn parse_html(text: &str) -> (r: Vec<HtmlNode>)
    ensures
        r@ == html_nodes(text@),
{
    let doc = scraper::Html::parse_document(text);
    doc.tree.root().descendants().map(|n| HtmlNode {
        depth: n.ancestors().count(),
        kind: match n.value() {
            scraper::Node::Element(e) => NodeKind::Element {
                name: e.name().to_string(),
                attrs: e.attrs.iter().map(|(k, v)| HtmlAttr { prefix: k.prefix.as_ref().map(|p| p.to_string()),
                    namespace: k.ns.to_string(), name: k.local.to_string(), value: v.to_string() }).collect(),
            },
            scraper::Node::Text(t) => NodeKind::Text { text: t.to_string() },
            _ => NodeKind::Other,
        },
    }).collect()
}

/// First index at or after `j` whose node is no deeper than node `i`.
pub open spec fn end_from(nodes: Seq<HtmlNode>, i: int, j: int) -> int
    decreases nodes.len() - j,
{
    if j >= nodes.len() || j < 0 {
        nodes.len() as int
    } else if nodes[j].depth <= nodes[i].depth {
        j
    } else {
        end_from(nodes, i, j + 1)
    }
}

/// One past the last descendant of node `i`.
pub open spec fn subtree_end(nodes: Seq<HtmlNode>, i: int) -> int {
    end_from(nodes, i, i + 1)
}

/// The node is the element `name`.
pub open spec fn is_element(n: HtmlNode, name: Seq<char>) -> bool {
    n.kind matches NodeKind::Element { name: nm, .. } && nm@ == name
}

/// The attribute is the plain (unprefixed, namespace-less) attribute `key`,
/// as `Element::attr(key)` looks it up.
pub open spec fn is_plain_attr(a: HtmlAttr, key: Seq<char>) -> bool {
    a.prefix is None && a.namespace@.len() == 0 && a.name@ == key
}

/// Value of the first plain attribute named `key`.
pub open spec fn attr_in(attrs: Seq<HtmlAttr>, key: Seq<char>) -> Option<Seq<char>>
    decreases attrs.len(),
{
    if attrs.len() == 0 {
        None
    } else if is_plain_attr(attrs[0], key) {
        Some(attrs[0].value@)
    } else {
        attr_in(attrs.drop_first(), key)
    }
}

/// Value of the node's attribute `key` (`None` for non-elements).
pub open spec fn node_attr(n: HtmlNode, key: Seq<char>) -> Option<Seq<char>> {
    match n.kind {
        NodeKind::Element { attrs, .. } => attr_in(attrs@, key),
        _ => None,
    }
}

/// The node's own text (empty for non-text nodes).
pub open spec fn node_text(n: HtmlNode) -> Seq<char> {
    match n.kind {
        NodeKind::Text { text } => text@,
        _ => Seq::empty(),
    }
}

/// An element selector: a name, and optionally an attribute that must have a value.
pub open spec fn selects(n: HtmlNode, name: Seq<char>, attr: Option<(Seq<char>, Seq<char>)>) -> bool {
    is_element(n, name) && match attr {
        Some((k, v)) => node_attr(n, k) == Some(v),
        None => true,
    }
}

/// The indices `from`, `from + 1`, ..., `to - 1`.
pub open spec fn indices(from: int, to: int) -> Seq<int> {
    Seq::new((if to > from { to - from } else { 0 }) as nat, |k: int| from + k)
}

/// Indices in `[from, to)` of the nodes the selector picks, in document order.
pub open spec fn selected(
    nodes: Seq<HtmlNode>,
    from: int,
    to: int,
    name: Seq<char>,
    attr: Option<(Seq<char>, Seq<char>)>,
) -> Seq<int> {
    indices(from, to).filter(|k: int| selects(nodes[k], name, attr))
}

/// The text of the nodes in `[from, to)`, concatenated in document order.
pub open spec fn text_between(nodes: Seq<HtmlNode>, from: int, to: int) -> Seq<char>
    decreases to - from,
{
    if to <= from {
        Seq::empty()
    } else {
        text_between(nodes, from, to - 1) + node_text(nodes[to - 1])
    }
}

/// The text inside node `i` (`ElementRef::text` concatenated).
pub open spec fn inner_text(nodes: Seq<HtmlNode>, i: int) -> Seq<char> {
    text_between(nodes, i + 1, subtree_end(nodes, i))
}

/// Index of the nearest node before `k` that is shallower than it (its
/// parent), or -1.
pub open spec fn parent_from(nodes: Seq<HtmlNode>, k: int, j: int) -> int
    decreases j + 1,
{
    if j < 0 {
        -1
    } else if nodes[j].depth < nodes[k].depth {
        j
    } else {
        parent_from(nodes, k, j - 1)
    }
}

/// Index of the parent of node `k` (the nearest earlier, shallower node), or -1.
pub open spec fn parent_of(nodes: Seq<HtmlNode>, k: int) -> int {
    parent_from(nodes, k, k - 1)
}

/// The end of a subtree lies between where the search starts and the end.
pub proof fn lemma_end_from(nodes: Seq<HtmlNode>, i: int, j: int)
    requires
        0 <= i < j <= nodes.len(),
    ensures
        j <= end_from(nodes, i, j) <= nodes.len(),
    decreases nodes.len() - j,
{
    if j < nodes.len() && nodes[j].depth > nodes[i].depth {
        lemma_end_from(nodes, i, j + 1);
    }
}

/// One past the last descendant of node `i`.
pub fn subtree_end_of(nodes: &Vec<HtmlNode>, i: usize) -> (r: usize)
    requires
        i < nodes@.len(),
    ensures
        r as int == subtree_end(nodes@, i as int),
        i < r <= nodes@.len(),
{
    let len = nodes.len();
    let mut j: usize = i + 1;
    while j < len && nodes[j].depth > nodes[i].depth
        invariant
            i < j <= nodes@.len(),
            len == nodes@.len(),
            end_from(nodes@, i as int, j as int) == subtree_end(nodes@, i as int),
        decreases nodes.len() - j,
    {
        j = j + 1;
    }
    j
}

fn element_name_is(n: &HtmlNode, name: &[char]) -> (r: bool)
    ensures
        r == is_element(*n, name@),
{
    match &n.kind {
        NodeKind::Element { name: nm, .. } => {
            let c = chars_of(nm.as_str());
            chars_eq(&c, name)
        },
        _ => false,
    }
}

/// Value of the node's attribute `key`.
pub fn attr_of(n: &HtmlNode, key: &str) -> (r: Option<String>)
    ensures
        match r {
            Some(v) => node_attr(*n, key@) == Some(v@),
            None => node_attr(*n, key@) is None,
        },
{
    match &n.kind {
        NodeKind::Element { attrs, .. } => {
            assert(node_attr(*n, key@) == attr_in(attrs@, key@));
            assert(attrs@.skip(0) =~= attrs@);
            let mut i: usize = 0;
            while i < attrs.len()
                invariant
                    0 <= i <= attrs@.len(),
                    attr_in(attrs@, key@) == attr_in(attrs@.skip(i as int), key@),
                    node_attr(*n, key@) == attr_in(attrs@, key@),
                decreases attrs.len() - i,
            {
                proof {
                    assert(attrs@.skip(i as int).drop_first() =~= attrs@.skip(i + 1));
                    assert(attrs@.skip(i as int)[0] == attrs@[i as int]);
                }
                let a = &attrs[i];
                let k = chars_of(a.name.as_str());
                let want = chars_of(key);
                let ns = chars_of(a.namespace.as_str());
                if a.prefix.is_none() && ns.len() == 0 && chars_eq(&k, &want) {
                    assert(is_plain_attr(attrs@[i as int], key@));
                    assert(attr_in(attrs@.skip(i as int), key@) == Some(attrs@[i as int].value@));
                    let v = a.value.clone();
                    assert(v@ == attrs@[i as int].value@);
                    return Some(v);
                }
                i = i + 1;
            }
            None
        },
        _ => None,
    }
}

fn selects_node(n: &HtmlNode, name: &[char], attr: &Option<(String, String)>) -> (r: bool)
    ensures
        r == selects(*n, name@, sel_attr_view(*attr)),
{
    if !element_name_is(n, name) {
        return false;
    }
    match attr {
        None => true,
        Some((k, v)) => match attr_of(n, k.as_str()) {
            Some(x) => x == *v,
            None => false,
        },
    }
}

/// The attribute condition of a selector, as values.
pub open spec fn sel_attr_view(a: Option<(String, String)>) -> Option<(Seq<char>, Seq<char>)> {
    match a {
        Some((k, v)) => Some((k@, v@)),
        None => None,
    }
}

/// Indices in `[from, to)` of the nodes the selector picks, in document order.
pub fn select(
    nodes: &Vec<HtmlNode>,
    from: usize,
    to: usize,
    name: &str,
    attr: &Option<(String, String)>,
) -> (r: Vec<usize>)
    requires
        from <= to <= nodes@.len(),
    ensures
        r@.map_values(|k: usize| k as int) == selected(nodes@, from as int, to as int, name@, sel_attr_view(*attr)),
        forall|j: int| 0 <= j < r@.len() ==> from <= #[trigger] r@[j] < to,
{
    let n = chars_of(name);
    let ghost idx = indices(from as int, to as int);
    let ghost pred = |k: int| selects(nodes@[k], name@, sel_attr_view(*attr));
    let mut r: Vec<usize> = Vec::new();
    let mut k: usize = from;
    while k < to
        invariant
            from <= k <= to <= nodes@.len(),
            n@ == name@,
            idx == indices(from as int, to as int),
            pred == (|k: int| selects(nodes@[k], name@, sel_attr_view(*attr))),
            r@.map_values(|k: usize| k as int) == idx.take(k - from).filter(pred),
            forall|j: int| 0 <= j < r@.len() ==> from <= #[trigger] r@[j] < to,
        decreases to - k,
    {
        proof {
            lemma_filter_step(idx, pred, k - from);
            assert(idx[k - from] == k as int);
        }
        if selects_node(&nodes[k], &n, attr) {
            let ghost before = r@;
            r.push(k);
            assert(r@.map_values(|k: usize| k as int) =~= before.map_values(|k: usize| k as int).push(k as int));
        }
        k = k + 1;
    }
    proof {
        assert(idx.take(k - from) =~= idx);
    }
    r
}

/// The text of the nodes in `[from, to)`, concatenated.
pub fn text_of_range(nodes: &Vec<HtmlNode>, from: usize, to: usize) -> (r: Vec<char>)
    requires
        from <= to <= nodes@.len(),
    ensures
        r@ == text_between(nodes@, from as int, to as int),
{
    let mut r: Vec<char> = Vec::new();
    let mut k: usize = from;
    while k < to
        invariant
            from <= k <= to <= nodes@.len(),
            r@ == text_between(nodes@, from as int, k as int),
        decreases to - k,
    {
        match &nodes[k].kind {
            NodeKind::Text { text } => {
                let t = chars_of(text.as_str());
                r = concat_chars(&r, &t);
            },
            _ => {
                assert(node_text(nodes@[k as int]) =~= Seq::<char>::empty());
                assert(r@ + Seq::<char>::empty() =~= r@);
            },
        }
        k = k + 1;
    }
    r
}

/// The text inside node `i`.
pub fn inner_text_of(nodes: &Vec<HtmlNode>, i: usize) -> (r: Vec<char>)
    requires
        i < nodes@.len(),
    ensures
        r@ == inner_text(nodes@, i as int),
{
    let end = subtree_end_of(nodes, i);
    text_of_range(nodes, i + 1, end)
}

/// The parent of node `k` (the nearest shallower node before it).
pub fn parent_index(nodes: &Vec<HtmlNode>, k: usize) -> (r: Option<usize>)
    requires
        k < nodes@.len(),
    ensures
        match r {
            Some(j) => j as int == parent_of(nodes@, k as int) && j < k,
            None => parent_of(nodes@, k as int) == -1,
        },
{
    let mut j: usize = k;
    while j > 0
        invariant
            j <= k < nodes@.len(),
            parent_from(nodes@, k as int, j - 1) == parent_of(nodes@, k as int),
        decreases j,
    {
        if nodes[j - 1].depth < nodes[k].depth {
            return Some(j - 1);
        }
        j = j - 1;
    }
    None
}

} // verus!
