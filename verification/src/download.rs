//! The download procedures, as state machines.
//!
//! Finding a chart by MD5 asks each provider for URLs (first for additional
//! charts, then for full packages), resolves each URL to files, fetches and
//! installs them, and stops once the chart and most of its files are
//! present. The caller performs each action the machine returns (asking a
//! provider, resolving or fetching a URL, installing an archive) and reports
//! the outcome back; the machine decides what to do next.

use vstd::prelude::*;
use crate::event::EventEntry;
use crate::parser::ParseResult;
use crate::path::{lemma_views_push, views, BmsPath};
use crate::provider::{
    copy_strings, provider_at, provider_kind, singleton_or_empty, BmsUrl, ProviderKind,
    PROVIDER_COUNT,
};
use crate::table::BmsData;

verus! {

/// A queue of URLs to resolve, with the URLs already tried. A URL is tried
/// at most once, however often it is queued.
pub struct UrlWalker {
    pub queue: Vec<String>,
    pub head: usize,
    pub attempted: Vec<String>,
}

/// The URL at position `k` of `pending` is the first not yet tried.
pub open spec fn first_fresh(pending: Seq<Seq<char>>, tried: Seq<Seq<char>>, k: int) -> bool {
    &&& 0 <= k < pending.len()
    &&& !tried.contains(pending[k])
    &&& forall|j: int| 0 <= j < k ==> tried.contains(#[trigger] pending[j])
}

/// Every URL of `pending` has been tried.
pub open spec fn all_tried(pending: Seq<Seq<char>>, tried: Seq<Seq<char>>) -> bool {
    forall|j: int| 0 <= j < pending.len() ==> tried.contains(#[trigger] pending[j])
}

impl UrlWalker {
    pub open spec fn wf(&self) -> bool {
        &&& self.head <= self.queue@.len()
        &&& views(self.attempted@).no_duplicates()
    }

    /// The URLs still queued.
    pub open spec fn pending(&self) -> Seq<Seq<char>> {
        views(self.queue@).skip(self.head as int)
    }

    /// The URLs already tried, in order.
    pub open spec fn tried(&self) -> Seq<Seq<char>> {
        views(self.attempted@)
    }

    /// A walker over `urls` with nothing tried yet.
    pub fn new(urls: &Vec<String>) -> (r: UrlWalker)
        ensures
            r.wf(),
            r.pending() == views(urls@),
            r.tried().len() == 0,
    {
        let r = UrlWalker { queue: copy_strings(urls), head: 0, attempted: Vec::new() };
        assert(r.pending() =~= views(urls@));
        r
    }

    /// Replaces the queue by `urls`, keeping what was tried.
    pub fn reset(&mut self, urls: &Vec<String>)
        requires
            old(self).wf(),
        ensures
            final(self).wf(),
            final(self).pending() == views(urls@),
            final(self).tried() == old(self).tried(),
    {
        self.queue = copy_strings(urls);
        self.head = 0;
        assert(self.pending() =~= views(urls@));
    }

    /// Takes the first queued URL not tried yet and marks it tried;
    /// `None` (with the queue emptied) when every queued URL was tried.
    pub fn next_to_parse(&mut self) -> (r: Option<String>)
        requires
            old(self).wf(),
        ensures
            final(self).wf(),
            match r {
                Some(u) => exists|k: int|
                    #[trigger] first_fresh(old(self).pending(), old(self).tried(), k) && old(
                        self,
                    ).pending()[k] == u@ && final(self).pending() == old(self).pending().skip(k + 1)
                        && final(self).tried() == old(self).tried().push(u@),
                None => all_tried(old(self).pending(), old(self).tried()) && final(self).pending().len()
                    == 0 && final(self).tried() == old(self).tried(),
            },
    {
        let ghost p0 = self.pending();
        let ghost h0 = self.head as int;
        while self.head < self.queue.len()
            invariant
                self.wf(),
                h0 <= self.head <= self.queue@.len(),
                self.tried() == old(self).tried(),
                self.queue@ == old(self).queue@,
                p0 == old(self).pending(),
                h0 == old(self).head,
                forall|j: int| 0 <= j < self.head - h0 ==> self.tried().contains(#[trigger] p0[j]),
            decreases self.queue.len() - self.head,
        {
            let i = self.head;
            let url = self.queue[i].clone();
            assert(p0[i - h0] == url@);
            self.head = i + 1;
            if !contains_string(&self.attempted, &url) {
                let ghost t0 = self.tried();
                proof {
                    lemma_views_push(self.attempted@, url);
                    lemma_push_no_dup(t0, url@);
                }
                self.attempted.push(url.clone());
                assert(first_fresh(p0, t0, i - h0));
                assert(self.pending() =~= p0.skip(i - h0 + 1));
                return Some(url);
            }
        }
        assert(self.pending().len() == 0);
        None
    }

    /// Queues `links` after the URLs already queued.
    pub fn add_links(&mut self, links: Vec<String>)
        requires
            old(self).wf(),
        ensures
            final(self).wf(),
            final(self).pending() == old(self).pending() + views(links@),
            final(self).tried() == old(self).tried(),
    {
        let mut i: usize = 0;
        while i < links.len()
            invariant
                0 <= i <= links@.len(),
                self.wf(),
                self.head == old(self).head,
                self.pending() == old(self).pending() + views(links@).take(i as int),
                self.tried() == old(self).tried(),
            decreases links.len() - i,
        {
            let x = links[i].clone();
            let ghost q0 = self.queue@;
            let ghost p0 = self.pending();
            proof {
                lemma_views_push(self.queue@, x);
            }
            self.queue.push(x);
            proof {
                assert(views(self.queue@) == views(q0).push(x@));
                assert(self.pending() =~= p0.push(x@));
                assert(views(links@).take(i + 1) =~= views(links@).take(i as int).push(x@));
            }
            i = i + 1;
            assert(self.pending() =~= old(self).pending() + views(links@).take(i as int));
        }
        assert(views(links@).take(i as int) =~= views(links@));
    }
}

proof fn lemma_push_no_dup(t: Seq<Seq<char>>, u: Seq<char>)
    requires
        t.no_duplicates(),
        !t.contains(u),
    ensures
        t.push(u).no_duplicates(),
{
    let s = t.push(u);
    assert forall|a: int, b: int| 0 <= a < s.len() && 0 <= b < s.len() && a != b implies s[a]
        != s[b] by {
        if a < t.len() && b < t.len() {
            assert(s[a] == t[a] && s[b] == t[b]);
        } else if a < t.len() {
            assert(t.contains(s[a]));
        } else {
            assert(t.contains(s[b]));
        }
    }
}

/// `v` holds a string equal to `s`.
pub fn contains_string(v: &Vec<String>, s: &String) -> (r: bool)
    ensures
        r == views(v@).contains(s@),
{
    let mut i: usize = 0;
    while i < v.len()
        invariant
            0 <= i <= v@.len(),
            forall|j: int| 0 <= j < i ==> #[trigger] v@[j]@ != s@,
        decreases v.len() - i,
    {
        if v[i] == *s {
            assert(views(v@)[i as int] == s@);
            return true;
        }
        i = i + 1;
    }
    proof {
        if views(v@).contains(s@) {
            let j = choose|j: int| 0 <= j < views(v@).len() && views(v@)[j] == s@;
            assert(v@[j]@ == s@);
        }
    }
    false
}

/// Which kind of URL a search phase looks for.
#[derive(PartialEq, Eq, Structural, Clone, Copy, Debug)]
pub enum Need {
    /// URLs of additional charts (searched first).
    Diff,
    /// URLs of full packages.
    Main,
}

/// What a machine waits to be told.
#[derive(PartialEq, Eq, Structural, Clone, Copy, Debug)]
pub enum Waiting {
    Urls,
    Parse,
    Fetch,
    Install,
    Done,
}

/// The next thing the caller does.
#[derive(Debug)]
pub enum DownloadAction {
    /// Ask `provider` for the chart's URLs; report with `on_urls`.
    FindUrls { provider: ProviderKind },
    /// Resolve `url`; report with `on_parsed`.
    ParseUrl { url: String },
    /// Fetch `url` into the output directory; report with `on_fetched`.
    Fetch { url: String },
    /// Extract `archive` and merge it into the output directory, then (for a
    /// chart download) check it; report with `on_installed` or `on_install_failed`.
    Install { archive: BmsPath },
    /// Stop: `complete` tells whether the download succeeded.
    Finished { complete: bool },
    /// Stop: installing failed, which ends the download with that error.
    Failed,
}

/// `a` asks to resolve `u`.
pub open spec fn asks_parse(a: DownloadAction, u: Seq<char>) -> bool {
    a matches DownloadAction::ParseUrl { url } && url@ == u
}

/// One step, from the URLs tried `before` to those tried `after`, with
/// action `a`: a request to resolve a URL names one not tried before and
/// records it; any other action leaves the tried URLs as they were.
pub open spec fn tries_once(before: Seq<Seq<char>>, after: Seq<Seq<char>>, a: DownloadAction) -> bool {
    match a {
        DownloadAction::ParseUrl { url } => !before.contains(url@) && after == before.push(url@),
        _ => after == before,
    }
}

/// A step that takes the next untried URL, or finds none, resolves each
/// URL at most once.
proof fn lemma_fresh_step(
    pending: Seq<Seq<char>>,
    tried: Seq<Seq<char>>,
    new_tried: Seq<Seq<char>>,
    a: DownloadAction,
)
    requires
        (exists|k: int| #[trigger]
            first_fresh(pending, tried, k) && asks_parse(a, pending[k]) && new_tried == tried.push(
                pending[k],
            )) || (!(a is ParseUrl) && new_tried == tried),
    ensures
        tries_once(tried, new_tried, a),
{
    if exists|k: int| #[trigger]
        first_fresh(pending, tried, k) && asks_parse(a, pending[k]) && new_tried == tried.push(
            pending[k],
        ) {
        let k = choose|k: int| #[trigger]
            first_fresh(pending, tried, k) && asks_parse(a, pending[k]) && new_tried == tried.push(
                pending[k],
            );
        assert(first_fresh(pending, tried, k));
    }
}

/// Resolving is never asked twice for one URL: once a step has asked to
/// resolve `u`, no later step does, however many steps lie between, since
/// the URLs tried only grow.
pub proof fn lemma_never_resolved_twice(
    t0: Seq<Seq<char>>,
    t1: Seq<Seq<char>>,
    t2: Seq<Seq<char>>,
    t3: Seq<Seq<char>>,
    first: DownloadAction,
    later: DownloadAction,
    u: Seq<char>,
)
    requires
        tries_once(t0, t1, first),
        t1.is_prefix_of(t2),
        tries_once(t2, t3, later),
        asks_parse(first, u),
    ensures
        !asks_parse(later, u),
{
    assert(t1[t0.len() as int] == u);
    assert(t2[t0.len() as int] == u);
    assert(t2.contains(u));
}

/// The URLs tried after a step begin with those tried before it.
pub proof fn lemma_tried_only_grow(before: Seq<Seq<char>>, after: Seq<Seq<char>>, a: DownloadAction)
    requires
        tries_once(before, after, a),
    ensures
        before.is_prefix_of(after),
{
    match a {
        DownloadAction::ParseUrl { url } => {
            assert(after.take(before.len() as int) =~= before);
        },
        _ => {
            assert(after.take(before.len() as int) =~= before);
        },
    }
}

/// Downloading the chart with a given MD5.
pub struct Md5Download {
    pub md5: String,
    pub seed: BmsUrl,
    pub need: Need,
    pub provider: usize,
    pub walker: UrlWalker,
    pub waiting: Waiting,
}

impl Md5Download {
    pub open spec fn wf(&self) -> bool {
        &&& self.walker.wf()
        &&& self.provider < PROVIDER_COUNT
    }

    /// Position of the search: phase (additional charts first) and then
    /// provider; it never goes back.
    pub open spec fn rank(self) -> int {
        (if self.need == Need::Diff {
            0int
        } else {
            PROVIDER_COUNT as int
        }) + self.provider
    }

    /// One step from `old` to `new` with action `a`: it resolves at most one
    /// URL, not tried before; asking a provider moves the search strictly
    /// forward, to that provider; any other action keeps phase and provider.
    pub open spec fn step_ok(old: Md5Download, new: Md5Download, a: DownloadAction) -> bool {
        &&& tries_once(old.walker.tried(), new.walker.tried(), a)
        &&& match a {
            DownloadAction::FindUrls { provider } => provider == provider_at(new.provider as nat)
                && new.rank() > old.rank(),
            _ => new.need == old.need && new.provider == old.provider,
        }
    }

    /// The URLs offered by a provider's reply for the current phase.
    pub open spec fn wanted(need: Need, urls: crate::provider::BmsUrlView) -> Seq<Seq<char>> {
        match need {
            Need::Diff => urls.diff,
            Need::Main => urls.main,
        }
    }

    /// The machine ended a phase: after additional charts comes the search
    /// for full packages from the first provider; after that, the download
    /// fails.
    pub open spec fn phase_ended(
        tried: Seq<Seq<char>>,
        need: Need,
        new: Md5Download,
        a: DownloadAction,
    ) -> bool {
        &&& new.walker.tried() == tried
        &&& match need {
            Need::Diff => {
                &&& new.need == Need::Main
                &&& new.provider == 0
                &&& new.waiting == Waiting::Urls
                &&& a == (DownloadAction::FindUrls { provider: ProviderKind::Seed })
            },
            Need::Main => {
                &&& new.need == Need::Main
                &&& new.waiting == Waiting::Done
                &&& a == (DownloadAction::Finished { complete: false })
            },
        }
    }

    /// The machine left provider `provider`: on to the next provider, or
    /// the phase ends after the last one.
    pub open spec fn moved_on(
        tried: Seq<Seq<char>>,
        need: Need,
        provider: nat,
        new: Md5Download,
        a: DownloadAction,
    ) -> bool {
        if provider + 1 < PROVIDER_COUNT {
            &&& new.walker.tried() == tried
            &&& new.need == need
            &&& new.provider == provider + 1
            &&& new.waiting == Waiting::Urls
            &&& a == (DownloadAction::FindUrls { provider: provider_at(provider + 1) })
        } else {
            Self::phase_ended(tried, need, new, a)
        }
    }

    /// The machine took the next untried URL of `pending` to resolve, or,
    /// when there is none, left the provider.
    pub open spec fn advanced(
        pending: Seq<Seq<char>>,
        tried: Seq<Seq<char>>,
        need: Need,
        provider: nat,
        new: Md5Download,
        a: DownloadAction,
    ) -> bool {
        ||| exists|k: int| #[trigger]
            first_fresh(pending, tried, k) && asks_parse(a, pending[k]) && new.walker.pending()
                == pending.skip(k + 1) && new.walker.tried() == tried.push(pending[k]) && new.need
                == need && new.provider == provider && new.waiting == Waiting::Parse
        ||| all_tried(pending, tried) && Self::moved_on(tried, need, provider, new, a)
    }

    /// Starts a download seeded with `seed` (URLs known beforehand).
    pub fn start(md5: &str, seed: BmsUrl) -> (r: (Md5Download, DownloadAction))
        ensures
            r.0.wf(),
            r.0.md5@ == md5@,
            r.0.seed@ == seed@,
            r.0.need == Need::Diff,
            r.0.provider == 0,
            r.0.walker.tried().len() == 0,
            r.0.waiting == Waiting::Urls,
            r.1 == (DownloadAction::FindUrls { provider: ProviderKind::Seed }),
    {
        let empty: Vec<String> = Vec::new();
        let m = Md5Download {
            md5: md5.to_string(),
            seed,
            need: Need::Diff,
            provider: 0,
            walker: UrlWalker::new(&empty),
            waiting: Waiting::Urls,
        };
        (m, DownloadAction::FindUrls { provider: ProviderKind::Seed })
    }

    fn end_phase(&mut self) -> (r: DownloadAction)
        requires
            old(self).wf(),
        ensures
            final(self).wf(),
            tries_once(old(self).walker.tried(), final(self).walker.tried(), r),
            Self::step_ok(*old(self), *final(self), r),
            Self::phase_ended(old(self).walker.tried(), old(self).need, *final(self), r),
            final(self).md5 == old(self).md5,
            final(self).seed == old(self).seed,
    {
        match self.need {
            Need::Diff => {
                self.need = Need::Main;
                self.provider = 0;
                self.waiting = Waiting::Urls;
                DownloadAction::FindUrls { provider: ProviderKind::Seed }
            },
            Need::Main => {
                self.waiting = Waiting::Done;
                DownloadAction::Finished { complete: false }
            },
        }
    }

    fn move_on(&mut self) -> (r: DownloadAction)
        requires
            old(self).wf(),
        ensures
            final(self).wf(),
            tries_once(old(self).walker.tried(), final(self).walker.tried(), r),
            Self::step_ok(*old(self), *final(self), r),
            Self::moved_on(
                old(self).walker.tried(),
                old(self).need,
                old(self).provider as nat,
                *final(self),
                r,
            ),
            final(self).md5 == old(self).md5,
            final(self).seed == old(self).seed,
    {
        if self.provider + 1 < PROVIDER_COUNT {
            self.provider = self.provider + 1;
            self.waiting = Waiting::Urls;
            DownloadAction::FindUrls { provider: provider_kind(self.provider) }
        } else {
            self.end_phase()
        }
    }

    fn advance(&mut self) -> (r: DownloadAction)
        requires
            old(self).wf(),
        ensures
            final(self).wf(),
            tries_once(old(self).walker.tried(), final(self).walker.tried(), r),
            Self::step_ok(*old(self), *final(self), r),
            Self::advanced(
                old(self).walker.pending(),
                old(self).walker.tried(),
                old(self).need,
                old(self).provider as nat,
                *final(self),
                r,
            ),
            final(self).md5 == old(self).md5,
            final(self).seed == old(self).seed,
    {
        let ghost p0 = self.walker.pending();
        let ghost t0 = self.walker.tried();
        match self.walker.next_to_parse() {
            Some(u) => {
                self.waiting = Waiting::Parse;
                let a = DownloadAction::ParseUrl { url: u };
                proof {
                    lemma_fresh_step(p0, t0, self.walker.tried(), a);
                }
                a
            },
            None => self.move_on(),
        }
    }

    /// A provider answered (`Some`) or failed (`None`). Its URLs for the
    /// current phase replace the queue.
    pub fn on_urls(&mut self, found: Option<BmsUrl>) -> (r: DownloadAction)
        requires
            old(self).wf(),
            old(self).waiting == Waiting::Urls,
        ensures
            !(r matches DownloadAction::Finished { complete: true }),
            old(self).need == Need::Main ==> final(self).need == Need::Main,
            final(self).wf(),
            tries_once(old(self).walker.tried(), final(self).walker.tried(), r),
            Self::step_ok(*old(self), *final(self), r),
            final(self).md5 == old(self).md5,
            final(self).seed == old(self).seed,
            match found {
                Some(u) => Self::advanced(
                    Self::wanted(old(self).need, u@),
                    old(self).walker.tried(),
                    old(self).need,
                    old(self).provider as nat,
                    *final(self),
                    r,
                ),
                None => Self::moved_on(
                    old(self).walker.tried(),
                    old(self).need,
                    old(self).provider as nat,
                    *final(self),
                    r,
                ),
            },
    {
        match found {
            None => self.move_on(),
            Some(u) => {
                match self.need {
                    Need::Diff => self.walker.reset(&u.diff_urls),
                    Need::Main => self.walker.reset(&u.main_urls),
                }
                self.advance()
            },
        }
    }

    /// A URL was resolved (`Some`) or failed to resolve (`None`). New links
    /// are queued after the pending URLs; a file is fetched next.
    pub fn on_parsed(&mut self, result: Option<ParseResult>) -> (r: DownloadAction)
        requires
            old(self).wf(),
            old(self).waiting == Waiting::Parse,
        ensures
            !(r matches DownloadAction::Finished { complete: true }),
            old(self).need == Need::Main ==> final(self).need == Need::Main,
            final(self).wf(),
            tries_once(old(self).walker.tried(), final(self).walker.tried(), r),
            Self::step_ok(*old(self), *final(self), r),
            final(self).md5 == old(self).md5,
            final(self).seed == old(self).seed,
            match result {
                Some(ParseResult::Links(l)) => Self::advanced(
                    old(self).walker.pending() + views(l@),
                    old(self).walker.tried(),
                    old(self).need,
                    old(self).provider as nat,
                    *final(self),
                    r,
                ),
                Some(ParseResult::File(f)) => {
                    &&& r == (DownloadAction::Fetch { url: f })
                    &&& final(self).waiting == Waiting::Fetch
                    &&& final(self).walker == old(self).walker
                    &&& final(self).need == old(self).need
                    &&& final(self).provider == old(self).provider
                },
                None => Self::advanced(
                    old(self).walker.pending(),
                    old(self).walker.tried(),
                    old(self).need,
                    old(self).provider as nat,
                    *final(self),
                    r,
                ),
            },
    {
        match result {
            Some(ParseResult::Links(l)) => {
                self.walker.add_links(l);
                self.advance()
            },
            Some(ParseResult::File(f)) => {
                self.waiting = Waiting::Fetch;
                DownloadAction::Fetch { url: f }
            },
            None => self.advance(),
        }
    }

    /// A fetch succeeded with the saved file (`Some`) or failed (`None`).
    pub fn on_fetched(&mut self, saved: Option<BmsPath>) -> (r: DownloadAction)
        requires
            old(self).wf(),
            old(self).waiting == Waiting::Fetch,
        ensures
            !(r matches DownloadAction::Finished { complete: true }),
            old(self).need == Need::Main ==> final(self).need == Need::Main,
            final(self).wf(),
            tries_once(old(self).walker.tried(), final(self).walker.tried(), r),
            Self::step_ok(*old(self), *final(self), r),
            final(self).md5 == old(self).md5,
            final(self).seed == old(self).seed,
            match saved {
                Some(p) => {
                    &&& r == (DownloadAction::Install { archive: p })
                    &&& final(self).waiting == Waiting::Install
                    &&& final(self).walker == old(self).walker
                    &&& final(self).need == old(self).need
                    &&& final(self).provider == old(self).provider
                },
                None => Self::advanced(
                    old(self).walker.pending(),
                    old(self).walker.tried(),
                    old(self).need,
                    old(self).provider as nat,
                    *final(self),
                    r,
                ),
            },
    {
        match saved {
            Some(p) => {
                self.waiting = Waiting::Install;
                DownloadAction::Install { archive: p }
            },
            None => self.advance(),
        }
    }

    /// An archive was installed; `md5_valid` tells whether the chart is now
    /// present, `refs_valid` whether most of its files are (checked only
    /// when the chart is). A complete chart ends the download; a chart
    /// lacking files ends the phase; no chart goes on with the next URL.
    pub fn on_installed(&mut self, md5_valid: bool, refs_valid: bool) -> (r: DownloadAction)
        requires
            old(self).wf(),
            old(self).waiting == Waiting::Install,
        ensures
            (r matches DownloadAction::Finished { complete: true }) <==> md5_valid && refs_valid,
            old(self).need == Need::Main ==> final(self).need == Need::Main,
            final(self).wf(),
            tries_once(old(self).walker.tried(), final(self).walker.tried(), r),
            Self::step_ok(*old(self), *final(self), r),
            final(self).md5 == old(self).md5,
            final(self).seed == old(self).seed,
            !md5_valid ==> Self::advanced(
                old(self).walker.pending(),
                old(self).walker.tried(),
                old(self).need,
                old(self).provider as nat,
                *final(self),
                r,
            ),
            md5_valid && refs_valid ==> r == (DownloadAction::Finished { complete: true })
                && final(self).waiting == Waiting::Done,
            md5_valid && !refs_valid ==> Self::phase_ended(
                old(self).walker.tried(),
                old(self).need,
                *final(self),
                r,
            ),
    {
        if !md5_valid {
            self.advance()
        } else if refs_valid {
            self.waiting = Waiting::Done;
            DownloadAction::Finished { complete: true }
        } else {
            self.end_phase()
        }
    }

    /// Installing failed: the download ends with that error.
    pub fn on_install_failed(&mut self) -> (r: DownloadAction)
        requires
            old(self).waiting == Waiting::Install,
        ensures
            !(r matches DownloadAction::Finished { complete: true }),
            old(self).need == Need::Main ==> final(self).need == Need::Main,
            r == DownloadAction::Failed,
            final(self).waiting == Waiting::Done,
            final(self).walker == old(self).walker,
            tries_once(old(self).walker.tried(), final(self).walker.tried(), r),
            Self::step_ok(*old(self), *final(self), r),
    {
        self.waiting = Waiting::Done;
        DownloadAction::Failed
    }
}

/// The steps of `actions` lead from each of `states` to the next.
pub open spec fn md5_run(states: Seq<Md5Download>, actions: Seq<DownloadAction>) -> bool {
    &&& states.len() == actions.len() + 1
    &&& forall|k: int| 0 <= k < states.len() ==> #[trigger] states[k].wf()
    &&& forall|k: int|
        0 <= k < actions.len() ==> Md5Download::step_ok(states[k], states[k + 1], #[trigger] actions[k])
}

/// Along a run, the URLs tried only grow and the search only moves forward.
proof fn lemma_run_monotone(states: Seq<Md5Download>, actions: Seq<DownloadAction>, j: int, k: int)
    requires
        md5_run(states, actions),
        0 <= j <= k < states.len(),
    ensures
        states[j].walker.tried().is_prefix_of(states[k].walker.tried()),
        states[j].rank() <= states[k].rank(),
    decreases k - j,
{
    if j < k {
        lemma_run_monotone(states, actions, j, k - 1);
        assert(Md5Download::step_ok(states[k - 1], states[k], actions[k - 1]));
        lemma_tried_only_grow(states[k - 1].walker.tried(), states[k].walker.tried(), actions[k - 1]);
        let a = states[j].walker.tried();
        let b = states[k - 1].walker.tried();
        let c = states[k].walker.tried();
        assert(a =~= c.subrange(0, a.len() as int)) by {
            assert forall|i: int| 0 <= i < a.len() implies a[i] == c[i] by {
                assert(a[i] == b[i]);
                assert(b[i] == c[i]);
            }
        }
    }
}

/// The whole-run law of a chart download: over any run of steps, no URL
/// is resolved twice (across providers and both phases); the search only
/// moves forward, so providers are asked in the order Seed, BMS SEARCH API,
/// LR2IR Archive, each at most once per phase, the additional-chart phase
/// before the full-package phase, which is never left again.
pub proof fn lemma_md5_run(states: Seq<Md5Download>, actions: Seq<DownloadAction>)
    requires
        md5_run(states, actions),
    ensures
        forall|j: int, k: int, u: Seq<char>|
            0 <= j < k < actions.len() && #[trigger] asks_parse(actions[j], u) ==> !#[trigger] asks_parse(
                actions[k],
                u,
            ),
        forall|j: int, k: int|
            0 <= j <= k < states.len() ==> #[trigger] states[j].rank() <= #[trigger] states[k].rank(),
        forall|j: int, k: int|
            0 <= j <= k < states.len() && #[trigger] states[j].need == Need::Main ==> #[trigger] states[k].need
                == Need::Main,
        forall|k: int|
            0 <= k < actions.len() ==> match #[trigger] actions[k] {
                DownloadAction::FindUrls { provider } => provider == provider_at(states[k + 1].provider as nat),
                _ => true,
            },
        forall|j: int, k: int|
            0 <= j < k < actions.len() && #[trigger] actions[j] is FindUrls && #[trigger] actions[k] is FindUrls
                ==> states[j + 1].rank() < states[k + 1].rank(),
{
    assert forall|j: int, k: int, u: Seq<char>|
        0 <= j < k < actions.len() && #[trigger] asks_parse(actions[j], u) implies !#[trigger] asks_parse(
            actions[k],
            u,
        ) by {
        assert(Md5Download::step_ok(states[j], states[j + 1], actions[j]));
        assert(Md5Download::step_ok(states[k], states[k + 1], actions[k]));
        lemma_run_monotone(states, actions, j + 1, k);
        lemma_never_resolved_twice(
            states[j].walker.tried(),
            states[j + 1].walker.tried(),
            states[k].walker.tried(),
            states[k + 1].walker.tried(),
            actions[j],
            actions[k],
            u,
        );
    }
    assert forall|j: int, k: int| 0 <= j <= k < states.len() implies #[trigger] states[j].rank()
        <= #[trigger] states[k].rank() by {
        lemma_run_monotone(states, actions, j, k);
    }
    assert forall|j: int, k: int|
        0 <= j <= k < states.len() && #[trigger] states[j].need == Need::Main implies #[trigger] states[k].need
            == Need::Main by {
        lemma_run_monotone(states, actions, j, k);
        assert(states[k].wf());
    }
    assert forall|k: int| 0 <= k < actions.len() implies match #[trigger] actions[k] {
        DownloadAction::FindUrls { provider } => provider == provider_at(states[k + 1].provider as nat),
        _ => true,
    } by {
        assert(Md5Download::step_ok(states[k], states[k + 1], actions[k]));
    }
    assert forall|j: int, k: int|
        0 <= j < k < actions.len() && #[trigger] actions[j] is FindUrls && #[trigger] actions[k] is FindUrls
            implies states[j + 1].rank() < states[k + 1].rank() by {
        assert(Md5Download::step_ok(states[k], states[k + 1], actions[k]));
        lemma_run_monotone(states, actions, j + 1, k);
    }
}

/// Starts downloading the chart with MD5 `md5`, with no URLs known beforehand.
pub fn download_md5(md5: &str) -> (r: (Md5Download, DownloadAction))
    ensures
        r.0.wf(),
        r.0.md5@ == md5@,
        r.0.seed@.main.len() == 0,
        r.0.seed@.diff.len() == 0,
        r.0.need == Need::Diff,
        r.0.provider == 0,
        r.0.walker.tried().len() == 0,
        r.0.waiting == Waiting::Urls,
        r.1 == (DownloadAction::FindUrls { provider: ProviderKind::Seed }),
{
    Md5Download::start(md5, BmsUrl::default())
}

/// The URLs a table entry gives: its package URL and its diff URL, each
/// when present.
pub fn seed_of(bms: &BmsData) -> (r: BmsUrl)
    ensures
        r@.main == match bms.main_url {
            Some(x) => seq![x@],
            None => Seq::<Seq<char>>::empty(),
        },
        r@.diff == match bms.diff_url {
            Some(x) => seq![x@],
            None => Seq::<Seq<char>>::empty(),
        },
{
    BmsUrl {
        main_urls: singleton_or_empty(bms.main_url.clone()),
        diff_urls: singleton_or_empty(bms.diff_url.clone()),
    }
}

/// Starts downloading a table entry's chart, seeded with the entry's URLs.
pub fn download_table_entry(bms: &BmsData) -> (r: (Md5Download, DownloadAction))
    ensures
        r.0.wf(),
        r.0.md5@ == bms.md5@,
        r.0.seed@ == seed_of_spec(bms),
        r.0.need == Need::Diff,
        r.0.provider == 0,
        r.0.walker.tried().len() == 0,
        r.0.waiting == Waiting::Urls,
        r.1 == (DownloadAction::FindUrls { provider: ProviderKind::Seed }),
{
    let seed = seed_of(bms);
    Md5Download::start(bms.md5.as_str(), seed)
}

/// The URLs a table entry gives.
pub open spec fn seed_of_spec(bms: &BmsData) -> crate::provider::BmsUrlView {
    crate::provider::BmsUrlView {
        main: match bms.main_url {
            Some(x) => seq![x@],
            None => Seq::<Seq<char>>::empty(),
        },
        diff: match bms.diff_url {
            Some(x) => seq![x@],
            None => Seq::<Seq<char>>::empty(),
        },
    }
}

/// Downloading every file an event entry links to.
pub struct EventDownload {
    pub walker: UrlWalker,
    pub downloaded: bool,
    pub waiting: Waiting,
}

impl EventDownload {
    pub open spec fn wf(&self) -> bool {
        self.walker.wf()
    }

    /// The machine took the next untried URL of `pending` to resolve, or,
    /// when there is none, finished: successfully when something was installed.
    pub open spec fn advanced(
        pending: Seq<Seq<char>>,
        tried: Seq<Seq<char>>,
        downloaded: bool,
        new: EventDownload,
        a: DownloadAction,
    ) -> bool {
        &&& new.downloaded == downloaded
        &&& {
            ||| exists|k: int| #[trigger]
                first_fresh(pending, tried, k) && asks_parse(a, pending[k])
                    && new.walker.pending() == pending.skip(k + 1) && new.walker.tried()
                    == tried.push(pending[k]) && new.waiting == Waiting::Parse
            ||| all_tried(pending, tried) && new.waiting == Waiting::Done && a
                == (DownloadAction::Finished { complete: downloaded })
        }
    }

    fn advance(&mut self) -> (r: DownloadAction)
        requires
            old(self).wf(),
        ensures
            final(self).wf(),
            tries_once(old(self).walker.tried(), final(self).walker.tried(), r),
            Self::advanced(
                old(self).walker.pending(),
                old(self).walker.tried(),
                old(self).downloaded,
                *final(self),
                r,
            ),
    {
        let ghost p0 = self.walker.pending();
        let ghost t0 = self.walker.tried();
        match self.walker.next_to_parse() {
            Some(u) => {
                self.waiting = Waiting::Parse;
                let a = DownloadAction::ParseUrl { url: u };
                proof {
                    lemma_fresh_step(p0, t0, self.walker.tried(), a);
                }
                a
            },
            None => {
                self.waiting = Waiting::Done;
                DownloadAction::Finished { complete: self.downloaded }
            },
        }
    }

    /// A URL was resolved (`Some`) or failed to resolve (`None`).
    pub fn on_parsed(&mut self, result: Option<ParseResult>) -> (r: DownloadAction)
        requires
            old(self).wf(),
            old(self).waiting == Waiting::Parse,
        ensures
            final(self).wf(),
            tries_once(old(self).walker.tried(), final(self).walker.tried(), r),
            match result {
                Some(ParseResult::Links(l)) => Self::advanced(
                    old(self).walker.pending() + views(l@),
                    old(self).walker.tried(),
                    old(self).downloaded,
                    *final(self),
                    r,
                ),
                Some(ParseResult::File(f)) => {
                    &&& r == (DownloadAction::Fetch { url: f })
                    &&& final(self).waiting == Waiting::Fetch
                    &&& final(self).walker == old(self).walker
                    &&& final(self).downloaded == old(self).downloaded
                },
                None => Self::advanced(
                    old(self).walker.pending(),
                    old(self).walker.tried(),
                    old(self).downloaded,
                    *final(self),
                    r,
                ),
            },
    {
        match result {
            Some(ParseResult::Links(l)) => {
                self.walker.add_links(l);
                self.advance()
            },
            Some(ParseResult::File(f)) => {
                self.waiting = Waiting::Fetch;
                DownloadAction::Fetch { url: f }
            },
            None => self.advance(),
        }
    }

    /// A fetch succeeded with the saved file (`Some`) or failed (`None`).
    pub fn on_fetched(&mut self, saved: Option<BmsPath>) -> (r: DownloadAction)
        requires
            old(self).wf(),
            old(self).waiting == Waiting::Fetch,
        ensures
            final(self).wf(),
            tries_once(old(self).walker.tried(), final(self).walker.tried(), r),
            match saved {
                Some(p) => {
                    &&& r == (DownloadAction::Install { archive: p })
                    &&& final(self).waiting == Waiting::Install
                    &&& final(self).walker == old(self).walker
                    &&& final(self).downloaded == old(self).downloaded
                },
                None => Self::advanced(
                    old(self).walker.pending(),
                    old(self).walker.tried(),
                    old(self).downloaded,
                    *final(self),
                    r,
                ),
            },
    {
        match saved {
            Some(p) => {
                self.waiting = Waiting::Install;
                DownloadAction::Install { archive: p }
            },
            None => self.advance(),
        }
    }

    /// An archive was extracted and merged; the next URL follows.
    pub fn on_installed(&mut self) -> (r: DownloadAction)
        requires
            old(self).wf(),
            old(self).waiting == Waiting::Install,
        ensures
            final(self).wf(),
            tries_once(old(self).walker.tried(), final(self).walker.tried(), r),
            Self::advanced(old(self).walker.pending(), old(self).walker.tried(), true, *final(self), r),
    {
        self.downloaded = true;
        self.advance()
    }

    /// Installing failed: the download ends with that error.
    pub fn on_install_failed(&mut self) -> (r: DownloadAction)
        requires
            old(self).waiting == Waiting::Install,
        ensures
            r == DownloadAction::Failed,
            final(self).waiting == Waiting::Done,
            final(self).walker == old(self).walker,
            tries_once(old(self).walker.tried(), final(self).walker.tried(), r),
    {
        self.waiting = Waiting::Done;
        DownloadAction::Failed
    }
}

/// Starts downloading an event entry: its URLs are resolved in turn.
pub fn download_event_entry(entry: &EventEntry) -> (r: (EventDownload, DownloadAction))
    ensures
        r.0.wf(),
        EventDownload::advanced(views(entry.urls@), Seq::empty(), false, r.0, r.1),
{
    let mut d = EventDownload { walker: UrlWalker::new(&entry.urls), downloaded: false, waiting: Waiting::Parse };
    assert(d.walker.tried() =~= Seq::<Seq<char>>::empty());
    let a = d.advance();
    (d, a)
}

/// Counts of a batch of downloads.
pub struct BatchTally {
    pub succeeded: usize,
    pub failed: usize,
}

impl BatchTally {
    /// No download counted yet.
    pub fn new() -> (r: BatchTally)
        ensures
            r.succeeded == 0,
            r.failed == 0,
    {
        BatchTally { succeeded: 0, failed: 0 }
    }

    /// Counts one download.
    pub fn record(&mut self, ok: bool)
        requires
            old(self).succeeded + old(self).failed < usize::MAX,
        ensures
            ok ==> final(self).succeeded == old(self).succeeded + 1 && final(self).failed == old(
                self,
            ).failed,
            !ok ==> final(self).failed == old(self).failed + 1 && final(self).succeeded == old(
                self,
            ).succeeded,
    {
        if ok {
            self.succeeded = self.succeeded + 1;
        } else {
            self.failed = self.failed + 1;
        }
    }

    /// The batch's outcome: an error carrying the number of failures when
    /// any download failed.
    pub fn outcome(&self) -> (r: Result<(), usize>)
        ensures
            self.failed == 0 ==> r is Ok,
            self.failed > 0 ==> r == Err::<(), usize>(self.failed),
    {
        if self.failed > 0 {
            Err(self.failed)
        } else {
            Ok(())
        }
    }
}

/// A table entry's download is seeded with exactly the entry's URLs: its
/// `url` as the one full-package URL and its `url_diff` as the one
/// additional-chart URL, each when present.
pub proof fn lemma_table_seed(bms: BmsData)
    ensures
        seed_of_spec(&bms).main.len() == (if bms.main_url is Some { 1int } else { 0int }),
        seed_of_spec(&bms).diff.len() == (if bms.diff_url is Some { 1int } else { 0int }),
        forall|u: Seq<char>| #[trigger] seed_of_spec(&bms).main.contains(u) <==> (bms.main_url matches Some(x) && x@ == u),
        forall|u: Seq<char>| #[trigger] seed_of_spec(&bms).diff.contains(u) <==> (bms.diff_url matches Some(x) && x@ == u),
{
    match bms.main_url {
        Some(x) => assert(seed_of_spec(&bms).main[0] == x@),
        None => {},
    }
    match bms.diff_url {
        Some(x) => assert(seed_of_spec(&bms).diff[0] == x@),
        None => {},
    }
}

} // verus!
