//! URLs, through the `url` crate (as re-exported by `reqwest`).
//!
//! A URL travels through the library as its serialization; each operation
//! parses it, applies one change and serializes the result. What the crate
//! computes is named, not restated: the contracts here tie each result to
//! the operation's inputs.

use vstd::prelude::*;
use crate::path::views;

verus! {

/// The parts of a parsed URL.
#[derive(Debug)]
pub struct UrlParts {
    /// The whole URL, serialized (`Url::as_str`).
    pub serialization: String,
    pub scheme: String,
    pub host: Option<String>,
    pub path: String,
    pub query: Option<String>,
    pub fragment: Option<String>,
    /// The query decoded as `application/x-www-form-urlencoded` pairs (`Url::query_pairs`).
    pub query_pairs: Vec<(String, String)>,
}

/// The value of `UrlParts`.
pub struct UrlPartsView {
    pub serialization: Seq<char>,
    pub scheme: Seq<char>,
    pub host: Option<Seq<char>>,
    pub path: Seq<char>,
    pub query: Option<Seq<char>>,
    pub fragment: Option<Seq<char>>,
    pub query_pairs: Seq<(Seq<char>, Seq<char>)>,
}

/// The value of an optional string.
pub open spec fn opt_view(o: Option<String>) -> Option<Seq<char>> {
    match o {
        Some(s) => Some(s@),
        None => None,
    }
}

/// The values of a list of string pairs.
pub open spec fn pair_views(v: Seq<(String, String)>) -> Seq<(Seq<char>, Seq<char>)> {
    v.map_values(|p: (String, String)| (p.0@, p.1@))
}

impl View for UrlParts {
    type V = UrlPartsView;

    open spec fn view(&self) -> UrlPartsView {
        UrlPartsView {
            serialization: self.serialization@,
            scheme: self.scheme@,
            host: opt_view(self.host),
            path: self.path@,
            query: opt_view(self.query),
            fragment: opt_view(self.fragment),
            query_pairs: pair_views(self.query_pairs@),
        }
    }
}

/// The value of optional URL parts.
pub open spec fn parts_view(o: Option<UrlParts>) -> Option<UrlPartsView> {
    match o {
        Some(p) => Some(p@),
        None => None,
    }
}

/// Total characters of a list of pairs.
pub open spec fn pairs_chars(v: Seq<(Seq<char>, Seq<char>)>) -> int
    decreases v.len(),
{
    if v.len() == 0 {
        0
    } else {
        pairs_chars(v.drop_last()) + v.last().0.len() + v.last().1.len() + 2
    }
}

/// Inputs small enough that no serialization reaches the 4 GiB at which the
/// `url` crate's offsets (`u32`) overflow and it panics: each character
/// takes at most 12 bytes once percent-encoded.
pub open spec fn fits(chars: nat) -> bool {
    chars <= 300_000_000
}

/// `Url::parse(input)`, as parts; `None` when it does not parse.
pub uninterp spec fn url_parsed(input: Seq<char>) -> Option<UrlPartsView>;

/// `Url::parse(base)` then `join(input)`, as parts; `None` when either fails.
pub uninterp spec fn url_joined(base: Seq<char>, input: Seq<char>) -> Option<UrlPartsView>;

/// `Url::parse(url)` then `set_scheme(scheme)` (whose refusal leaves the URL
/// unchanged), serialized; `None` when `url` does not parse.
pub uninterp spec fn url_with_scheme(url: Seq<char>, scheme: Seq<char>) -> Option<Seq<char>>;

/// `Url::parse(url)` then `set_host(Some(host))`, serialized; `None` when
/// `url` does not parse or the host is refused.
pub uninterp spec fn url_with_host(url: Seq<char>, host: Seq<char>) -> Option<Seq<char>>;

/// `Url::parse(url)` then `set_fragment(None)`, serialized.
pub uninterp spec fn url_without_fragment(url: Seq<char>) -> Option<Seq<char>>;

/// `Url::parse(url)` then `set_path(path)`, serialized.
pub uninterp spec fn url_with_path(url: Seq<char>, path: Seq<char>) -> Option<Seq<char>>;

/// `Url::parse(url)` then `query_pairs_mut().clear()` and `append_pair` for
/// each pair in order, serialized.
pub uninterp spec fn url_with_query_pairs(url: Seq<char>, pairs: Seq<(Seq<char>, Seq<char>)>) -> Option<Seq<char>>;

/// `Url::parse(url)` then `query_pairs_mut().append_pair` for each pair in
/// order (after the existing query), serialized.
pub uninterp spec fn url_with_added_pairs(url: Seq<char>, pairs: Seq<(Seq<char>, Seq<char>)>) -> Option<Seq<char>>;

/// `Url::parse(input)` and the parts of the result (`as_str`, `scheme`,
/// `host_str`, `path`, `query`, `fragment`, `query_pairs`).
#[verifier::external_body]
pub(crate) fn url_parts(input: &str) -> (r: Option<UrlParts>)
    ensures
        parts_view(r) == url_parsed(input@),
{
    reqwest::Url::parse(input).ok().map(|u| UrlParts {
        serialization: u.as_str().to_string(),
        scheme: u.scheme().to_string(),
        host: u.host_str().map(|h| h.to_string()),
        path: u.path().to_string(),
        query: u.query().map(|q| q.to_string()),
        fragment: u.fragment().map(|f| f.to_string()),
        query_pairs: u.query_pairs().map(|(k, v)| (k.into_owned(), v.into_owned())).collect(),
    })
}

/// `Url::parse(base)` then `Url::join(input)`, and the parts of the result.
#[verifier::external_body]
pub(crate) fn join_url(base: &str, input: &str) -> (r: Option<UrlParts>)
    ensures
        parts_view(r) == url_joined(base@, input@),
{
    reqwest::Url::parse(base).and_then(|b| b.join(input)).ok().map(|u| UrlParts {
        serialization: u.as_str().to_string(),
        scheme: u.scheme().to_string(),
        host: u.host_str().map(|h| h.to_string()),
        path: u.path().to_string(),
        query: u.query().map(|q| q.to_string()),
        fragment: u.fragment().map(|f| f.to_string()),
        query_pairs: u.query_pairs().map(|(k, v)| (k.into_owned(), v.into_owned())).collect(),
    })
}

/// `Url::set_scheme` on the parsed `url`; a refused scheme leaves it as it was.
#[verifier::external_body]
pub(crate) fn url_set_scheme(url: &str, scheme: &str) -> (r: Option<String>)
    requires
        fits(url@.len() + scheme@.len()),
    ensures
        opt_view(r) == url_with_scheme(url@, scheme@),
{
    let mut u = reqwest::Url::parse(url).ok()?;
    let _ = u.set_scheme(scheme);
    Some(u.to_string())
}

/// `Url::set_host(Some(host))` on the parsed `url`.
#[verifier::external_body]
pub(crate) fn url_set_host(url: &str, host: &str) -> (r: Option<String>)
    requires
        fits(url@.len() + host@.len()),
    ensures
        opt_view(r) == url_with_host(url@, host@),
{
    let mut u = reqwest::Url::parse(url).ok()?;
    u.set_host(Some(host)).ok()?;
    Some(u.to_string())
}

/// `Url::set_fragment(None)` on the parsed `url`.
#[verifier::external_body]
pub(crate) fn url_clear_fragment(url: &str) -> (r: Option<String>)
    requires
        fits(url@.len()),
    ensures
        opt_view(r) == url_without_fragment(url@),
{
    let mut u = reqwest::Url::parse(url).ok()?;
    u.set_fragment(None);
    Some(u.to_string())
}

/// `Url::set_path(path)` on the parsed `url`.
#[verifier::external_body]
pub(crate) fn url_set_path(url: &str, path: &str) -> (r: Option<String>)
    requires
        fits(url@.len() + path@.len()),
    ensures
        opt_view(r) == url_with_path(url@, path@),
{
    let mut u = reqwest::Url::parse(url).ok()?;
    u.set_path(path);
    Some(u.to_string())
}

/// `query_pairs_mut().clear()` then `append_pair` for each pair, on the parsed `url`.
#[verifier::external_body]
pub(crate) fn url_set_query_pairs(url: &str, pairs: &Vec<(String, String)>) -> (r: Option<String>)
    requires
        fits((url@.len() + pairs_chars(pair_views(pairs@))) as nat),
    ensures
        opt_view(r) == url_with_query_pairs(url@, pair_views(pairs@)),
{
    let mut u = reqwest::Url::parse(url).ok()?;
    u.query_pairs_mut().clear().extend_pairs(pairs.iter().map(|(k, v)| (k.as_str(), v.as_str())));
    Some(u.to_string())
}

/// `query_pairs_mut().append_pair` for each pair, on the parsed `url`.
#[verifier::external_body]
pub(crate) fn url_append_query_pairs(url: &str, pairs: &Vec<(String, String)>) -> (r: Option<
    String,
>)
    requires
        fits((url@.len() + pairs_chars(pair_views(pairs@))) as nat),
    ensures
        opt_view(r) == url_with_added_pairs(url@, pair_views(pairs@)),
{
    let mut u = reqwest::Url::parse(url).ok()?;
    u.query_pairs_mut().extend_pairs(pairs.iter().map(|(k, v)| (k.as_str(), v.as_str())));
    Some(u.to_string())
}

/// Value of the first pair whose key is `key`.
pub open spec fn first_value(pairs: Seq<(Seq<char>, Seq<char>)>, key: Seq<char>) -> Option<Seq<char>>
    decreases pairs.len(),
{
    if pairs.len() == 0 {
        None
    } else if pairs[0].0 == key {
        Some(pairs[0].1)
    } else {
        first_value(pairs.drop_first(), key)
    }
}

/// Value of the first query pair of `url` whose key is `key` (`query_pairs().find(..)`).
pub fn query_value(url: &UrlParts, key: &str) -> (r: Option<String>)
    ensures
        opt_view(r) == first_value(url@.query_pairs, key@),
{
    let pairs = &url.query_pairs;
    let ghost pv = pair_views(pairs@);
    assert(pv.skip(0) =~= pv);
    let mut i: usize = 0;
    while i < pairs.len()
        invariant
            0 <= i <= pairs@.len(),
            pv == pair_views(pairs@),
            pv == url@.query_pairs,
            first_value(pv, key@) == first_value(pv.skip(i as int), key@),
        decreases pairs.len() - i,
    {
        proof {
            assert(pv.skip(i as int).drop_first() =~= pv.skip(i + 1));
            assert(pv.skip(i as int)[0] == pv[i as int]);
            assert(pv[i as int] == (pairs@[i as int].0@, pairs@[i as int].1@));
        }
        let k = crate::text::chars_of(pairs[i].0.as_str());
        let want = crate::text::chars_of(key);
        if crate::text::chars_eq(&k, &want) {
            let v = pairs[i].1.clone();
            return Some(v);
        }
        i = i + 1;
    }
    None
}

/// Whether `url` with `pairs` added stays within `fits`.
pub fn fits_with_pairs(url: &str, pairs: &Vec<(String, String)>) -> (r: bool)
    ensures
        r == fits((url@.len() + pairs_chars(pair_views(pairs@))) as nat),
{
    let limit: usize = 300_000_000;
    let n = crate::text::chars_of(url).len();
    if n > limit {
        proof {
            lemma_pairs_chars_nonneg(pair_views(pairs@));
        }
        return false;
    }
    let mut total: usize = n;
    let mut i: usize = 0;
    while i < pairs.len()
        invariant
            0 <= i <= pairs@.len(),
            total <= limit,
            limit == 300_000_000,
            total == url@.len() + pairs_chars(pair_views(pairs@).take(i as int)),
        decreases pairs.len() - i,
    {
        let a = crate::text::chars_of(pairs[i].0.as_str()).len();
        let b = crate::text::chars_of(pairs[i].1.as_str()).len();
        proof {
            assert(pair_views(pairs@).take(i + 1).drop_last() =~= pair_views(pairs@).take(i as int));
        }
        if a > limit || b > limit || a + b + 2 > limit - total {
            proof {
                lemma_pairs_chars_prefix(pair_views(pairs@), i + 1);
            }
            return false;
        }
        total = total + a + b + 2;
        i = i + 1;
    }
    assert(pair_views(pairs@).take(i as int) =~= pair_views(pairs@));
    true
}

proof fn lemma_pairs_chars_nonneg(v: Seq<(Seq<char>, Seq<char>)>)
    ensures
        pairs_chars(v) >= 0,
    decreases v.len(),
{
    if v.len() > 0 {
        lemma_pairs_chars_nonneg(v.drop_last());
    }
}

proof fn lemma_pairs_chars_prefix(v: Seq<(Seq<char>, Seq<char>)>, k: int)
    requires
        0 <= k <= v.len(),
    ensures
        pairs_chars(v.take(k)) <= pairs_chars(v),
    decreases v.len() - k,
{
    if k < v.len() {
        lemma_pairs_chars_prefix(v.drop_last(), k);
        assert(v.drop_last().take(k) =~= v.take(k));
    } else {
        assert(v.take(k) =~= v);
    }
}

} // verus!
