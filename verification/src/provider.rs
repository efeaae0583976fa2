//! Where download URLs for a chart come from: the table entry itself (the
//! seed), the BMS SEARCH API, and the LR2IR archive. Each provider yields
//! URLs of full packages ("main") and of additional charts ("diff").
//!
//! The requests are made by the caller; this module builds the request
//! URLs and turns the replies into URL lists.

use vstd::prelude::*;
use crate::path::views;
use crate::text::{chars_of, concat_chars, string_of};

verus! {

/// URLs for a chart: full packages and additional charts.
#[derive(Debug)]
pub struct BmsUrl {
    pub main_urls: Vec<String>,
    pub diff_urls: Vec<String>,
}

/// The value of a `BmsUrl`: its full-package and additional-chart URLs.
pub struct BmsUrlView {
    pub main: Seq<Seq<char>>,
    pub diff: Seq<Seq<char>>,
}

impl View for BmsUrl {
    type V = BmsUrlView;

    open spec fn view(&self) -> BmsUrlView {
        BmsUrlView { main: views(self.main_urls@), diff: views(self.diff_urls@) }
    }
}

impl Default for BmsUrl {
    fn default() -> (r: BmsUrl)
        ensures
            r@.main.len() == 0,
            r@.diff.len() == 0,
    {
        BmsUrl { main_urls: Vec::new(), diff_urls: Vec::new() }
    }
}

/// A copy of a list of strings.
pub fn copy_strings(v: &Vec<String>) -> (r: Vec<String>)
    ensures
        views(r@) == views(v@),
{
    let mut r: Vec<String> = Vec::new();
    let mut i: usize = 0;
    while i < v.len()
        invariant
            0 <= i <= v@.len(),
            views(r@) == views(v@).take(i as int),
        decreases v.len() - i,
    {
        let x = v[i].clone();
        proof {
            crate::path::lemma_views_push(r@, x);
        }
        r.push(x);
        i = i + 1;
        assert(views(r@) =~= views(v@).take(i as int));
    }
    assert(views(v@).take(i as int) =~= views(v@));
    r
}

/// A list holding `s` if there is one.
pub fn singleton_or_empty(s: Option<String>) -> (r: Vec<String>)
    ensures
        views(r@) == match s {
            Some(x) => seq![x@],
            None => Seq::<Seq<char>>::empty(),
        },
{
    let mut r: Vec<String> = Vec::new();
    match s {
        Some(x) => {
            proof {
                crate::path::lemma_views_push(r@, x);
            }
            r.push(x);
            assert(views(r@) =~= seq![x@]);
        },
        None => {
            assert(views(r@) =~= Seq::<Seq<char>>::empty());
        },
    }
    r
}

/// `a` followed by `b`.
pub fn concat_str(a: &str, b: &str) -> (r: String)
    ensures
        r@ == a@ + b@,
{
    let x = chars_of(a);
    let y = chars_of(b);
    string_of(&concat_chars(&x, &y))
}

impl BmsUrl {
    /// A copy of these URLs.
    pub fn duplicate(&self) -> (r: BmsUrl)
        ensures
            r@ == self@,
    {
        BmsUrl { main_urls: copy_strings(&self.main_urls), diff_urls: copy_strings(&self.diff_urls) }
    }
}

/// The providers asked for URLs, in the order they are asked.
#[derive(PartialEq, Eq, Structural, Clone, Copy, Debug)]
pub enum ProviderKind {
    Seed,
    BmsSearch,
    Lr2IrArchive,
}

/// The provider asked in position `i` (0, 1, 2).
pub open spec fn provider_at(i: nat) -> ProviderKind {
    if i == 0 {
        ProviderKind::Seed
    } else if i == 1 {
        ProviderKind::BmsSearch
    } else {
        ProviderKind::Lr2IrArchive
    }
}

/// Number of providers.
pub const PROVIDER_COUNT: usize = 3;

/// The provider asked in position `i`.
pub fn provider_kind(i: usize) -> (r: ProviderKind)
    requires
        i < PROVIDER_COUNT,
    ensures
        r == provider_at(i as nat),
{
    if i == 0 {
        ProviderKind::Seed
    } else if i == 1 {
        ProviderKind::BmsSearch
    } else {
        ProviderKind::Lr2IrArchive
    }
}

impl ProviderKind {
    /// The name shown while searching.
    pub fn name(&self) -> (r: &'static str)
        ensures
            r@ == match self {
                ProviderKind::Seed => "Seed"@,
                ProviderKind::BmsSearch => "BMS SEARCH API"@,
                ProviderKind::Lr2IrArchive => "LR2IR Archive"@,
            },
    {
        match self {
            ProviderKind::Seed => "Seed",
            ProviderKind::BmsSearch => "BMS SEARCH API",
            ProviderKind::Lr2IrArchive => "LR2IR Archive",
        }
    }
}

/// Provider that returns the URLs it was made with (those of a table entry).
pub struct SeedProvider {
    pub urls: BmsUrl,
}

impl SeedProvider {
    /// A provider returning `urls`.
    pub fn new(urls: BmsUrl) -> (r: SeedProvider)
        ensures
            r.urls@ == urls@,
    {
        SeedProvider { urls }
    }

    /// The provider's name.
    pub fn name(&self) -> (r: &'static str)
        ensures
            r@ == "Seed"@,
    {
        "Seed"
    }

    /// The URLs the provider was made with.
    pub fn find_urls(&self) -> (r: BmsUrl)
        ensures
            r@ == self.urls@,
    {
        self.urls.duplicate()
    }
}

/// Why a provider found no URLs.
#[derive(PartialEq, Eq, Structural, Clone, Copy, Debug)]
pub enum ProviderError {
    /// The pattern is not linked to a BMS entry.
    BmsIdNotFound,
    /// The BMS entry lists no downloads.
    UrlNotFound,
}

/// The BMS SEARCH API.
pub struct BmsSearchProvider;

/// The values among `v` that are present, in order.
pub open spec fn present(v: Seq<Option<String>>) -> Seq<Seq<char>>
    decreases v.len(),
{
    if v.len() == 0 {
        Seq::empty()
    } else {
        match v.last() {
            Some(s) => present(v.drop_last()).push(s@),
            None => present(v.drop_last()),
        }
    }
}

impl BmsSearchProvider {
    /// The provider's name.
    pub fn name(&self) -> (r: &'static str)
        ensures
            r@ == "BMS SEARCH API"@,
    {
        "BMS SEARCH API"
    }

    /// The API URL describing the pattern (chart) with MD5 `md5`.
    pub fn pattern_url(md5: &str) -> (r: String)
        ensures
            r@ == "https://api.bmssearch.net/v1/patterns/"@ + md5@,
    {
        concat_str("https://api.bmssearch.net/v1/patterns/", md5)
    }

    /// The API URL describing the BMS entry `id`.
    pub fn bms_url(id: &str) -> (r: String)
        ensures
            r@ == "https://api.bmssearch.net/v1/bmses/"@ + id@,
    {
        concat_str("https://api.bmssearch.net/v1/bmses/", id)
    }

    /// The BMS entry a pattern belongs to; an error when it names none.
    pub fn bms_id(id: Option<String>) -> (r: Result<String, ProviderError>)
        ensures
            match id {
                Some(s) => r == Ok::<String, ProviderError>(s),
                None => r == Err::<String, ProviderError>(ProviderError::BmsIdNotFound),
            },
    {
        match id {
            Some(s) => Ok(s),
            None => Err(ProviderError::BmsIdNotFound),
        }
    }

    /// The URLs of a BMS entry's downloads: every download that has a URL,
    /// in order, as full packages; an error when the entry lists no downloads.
    pub fn urls_from_downloads(downloads: Option<Vec<Option<String>>>) -> (r: Result<
        BmsUrl,
        ProviderError,
    >)
        ensures
            match downloads {
                Some(d) => r matches Ok(u) && u@.main == present(d@) && u@.diff.len() == 0,
                None => r matches Err(e) && e == ProviderError::UrlNotFound,
            },
    {
        match downloads {
            None => Err(ProviderError::UrlNotFound),
            Some(d) => {
                let mut urls: Vec<String> = Vec::new();
                let mut i: usize = 0;
                while i < d.len()
                    invariant
                        0 <= i <= d@.len(),
                        views(urls@) == present(d@.take(i as int)),
                    decreases d.len() - i,
                {
                    proof {
                        assert(d@.take(i + 1).drop_last() =~= d@.take(i as int));
                        assert(d@.take(i + 1).last() == d@[i as int]);
                    }
                    match &d[i] {
                        Some(u) => {
                            let x = u.clone();
                            proof {
                                crate::path::lemma_views_push(urls@, x);
                            }
                            urls.push(x);
                        },
                        None => {},
                    }
                    i = i + 1;
                }
                assert(d@.take(i as int) =~= d@);
                Ok(BmsUrl { main_urls: urls, diff_urls: Vec::new() })
            },
        }
    }
}

/// The LR2IR archive.
pub struct Lr2IrArchiveProvider;

impl Lr2IrArchiveProvider {
    /// The provider's name.
    pub fn name(&self) -> (r: &'static str)
        ensures
            r@ == "LR2IR Archive"@,
    {
        "LR2IR Archive"
    }

    /// The archive URL describing the chart with MD5 `md5`.
    pub fn chart_url(md5: &str) -> (r: String)
        ensures
            r@ == "https://lr2ir.com/api/charts/"@ + md5@,
    {
        concat_str("https://lr2ir.com/api/charts/", md5)
    }

    /// Whether a reply status means the archive does not know the chart
    /// (HTTP 404); such a reply yields no URLs.
    pub fn is_unknown_chart(status: u16) -> (r: bool)
        ensures
            r == (status == 404),
    {
        status == 404
    }

    /// The URLs the archive lists for a chart: its body (full package) URL
    /// and its diff URL, each when present.
    pub fn urls_from_chart(body_url: Option<String>, diff_url: Option<String>) -> (r: BmsUrl)
        ensures
            r@.main == match body_url {
                Some(x) => seq![x@],
                None => Seq::<Seq<char>>::empty(),
            },
            r@.diff == match diff_url {
                Some(x) => seq![x@],
                None => Seq::<Seq<char>>::empty(),
            },
    {
        BmsUrl { main_urls: singleton_or_empty(body_url), diff_urls: singleton_or_empty(diff_url) }
    }
}

} // verus!
