//! Checking a download: the chart with the wanted MD5 is present, and
//! enough of the files it refers to are there too.

use vstd::prelude::*;
use crate::analyze::{chart_matches, chart_refs, find_chart, position_of, refers_to, ChartFile};
use crate::extract::{lemma_path_views_push, path_views};
use crate::path::{BmsPath, PathView};
use crate::text::{chars_eq_ignore_case, chars_of, decode_utf8_lossy, eq_ignore_case, utf8_lossy};

verus! {

/// Share of referenced files that must be present, in percent.
pub const MIN_REF_MATCH_PERCENT: u128 = 90;

/// The file that satisfies a reference to `path`: `path` itself when it
/// exists, else for a `.wav` reference (any ASCII case) the `.ogg` file of
/// the same name when that exists.
pub open spec fn resolves(path: PathView, existing: Seq<PathView>) -> Option<PathView> {
    if existing.contains(path) {
        Some(path)
    } else if is_wav(path) && existing.contains(path.with_extension("ogg"@)) {
        Some(path.with_extension("ogg"@))
    } else {
        None
    }
}

/// The path has the extension `wav`, in any ASCII case.
pub open spec fn is_wav(path: PathView) -> bool {
    path.extension() matches Some(e) && eq_ignore_case(e, "wav"@)
}

/// `q` is a path the reference check asks about for the reference `p` in
/// `dir`: the referenced file, or for a `.wav` reference its `.ogg` twin.
pub open spec fn looked_up(dir: PathView, p: PathView, q: PathView) -> bool {
    q == dir.join(p) || (is_wav(dir.join(p)) && q == dir.join(p).with_extension("ogg"@))
}

/// Every path whose existence the reference check of chart text `text`
/// in `dir` can depend on.
pub open spec fn lookups(text: Seq<char>, dir: PathView) -> Set<PathView> {
    Set::new(|q: PathView| exists|p: PathView| #[trigger] refers_to(text, p) && looked_up(dir, p, q))
}

/// The paths the reference check of chart file `f` can ask about.
pub open spec fn chart_lookups(f: ChartFile) -> Set<PathView> {
    lookups(utf8_lossy(f.data@), chart_dir(f.path@))
}

/// The directory a chart's references are relative to.
pub open spec fn chart_dir(p: PathView) -> PathView {
    match p.parent() {
        Some(q) => q,
        None => p,
    }
}

/// The files the chart text refers to.
pub open spec fn referenced(text: Seq<char>) -> Set<PathView> {
    Set::new(|p: PathView| refers_to(text, p))
}

/// The references that resolve below `dir`.
pub open spec fn resolved(text: Seq<char>, dir: PathView, existing: Seq<PathView>) -> Set<PathView> {
    referenced(text).filter(|p: PathView| resolves(dir.join(p), existing) is Some)
}

/// At least 90% of the chart's references resolve.
pub open spec fn refs_complete(f: ChartFile, existing: Seq<PathView>) -> bool {
    let text = utf8_lossy(f.data@);
    let dir = chart_dir(f.path@);
    resolved(text, dir, existing).len() * 100 >= referenced(text).len() * 90
}

/// `i` is the first file of `files` that is the chart `md5` names.
pub open spec fn is_first_chart(files: Seq<ChartFile>, md5: Seq<char>, i: int) -> bool {
    &&& 0 <= i < files.len()
    &&& chart_matches(files[i], md5)
    &&& forall|j: int| 0 <= j < i ==> !chart_matches(#[trigger] files[j], md5)
}

/// Finds the file that satisfies a reference to `path` (see `resolves`).
pub fn resolve_ref_path(path: &BmsPath, existing: &Vec<BmsPath>) -> (r: Option<BmsPath>)
    ensures
        match r {
            Some(p) => resolves(path@, path_views(existing@)) == Some(p@),
            None => resolves(path@, path_views(existing@)) is None,
        },
{
    if let Some(i) = position_of(existing, path) {
        assert(path_views(existing@)[i as int] == path@);
        return Some(path.duplicate());
    }
    if wav_path(path) {
        let ogg = path.with_extension("ogg");
        if let Some(i) = position_of(existing, &ogg) {
            assert(path_views(existing@)[i as int] == ogg@);
            return Some(ogg);
        }
    }
    None
}

/// Whether the path has the extension `wav`, in any ASCII case.
fn wav_path(path: &BmsPath) -> (r: bool)
    ensures
        r == is_wav(path@),
{
    match path.extension() {
        Some(ext) => {
            let e = chars_of(ext.as_str());
            let wav = chars_of("wav");
            chars_eq_ignore_case(&e, &wav)
        },
        None => false,
    }
}

/// The paths whose existence decides the reference check of the chart
/// `md5` names among `files` (see `lookups`); empty when no file is that
/// chart. The caller answers the check by passing, as `existing` to
/// `validate_ref`, those of them that exist.
pub fn ref_lookups(md5: &str, files: &Vec<ChartFile>) -> (r: Vec<BmsPath>)
    ensures
        forall|i: int| #[trigger]
            is_first_chart(files@, md5@, i) ==> forall|q: PathView|
                path_views(r@).contains(q) <==> chart_lookups(files@[i]).contains(q),
        (forall|i: int| !#[trigger] is_first_chart(files@, md5@, i)) ==> r@.len() == 0,
{
    let i = match find_chart(files, md5) {
        None => {
            return Vec::new();
        },
        Some(i) => i,
    };
    assert(is_first_chart(files@, md5@, i as int));
    let chart = &files[i];
    let text = decode_utf8_lossy(&chart.data);
    let refs = chart_refs(text.as_str());
    let dir = chart_directory(&chart.path);
    let mut r: Vec<BmsPath> = Vec::new();
    let mut k: usize = 0;
    while k < refs.len()
        invariant
            0 <= k <= refs@.len(),
            forall|q: PathView| #[trigger]
                path_views(r@).contains(q) <==> exists|j: int|
                    0 <= j < k && #[trigger] looked_up(dir@, refs@[j]@, q),
        decreases refs.len() - k,
    {
        let ghost before = path_views(r@);
        let full = dir.join(&refs[k]);
        let twin = wav_path(&full);
        let x = full.duplicate();
        proof {
            lemma_path_views_push(r@, x);
        }
        r.push(x);
        if twin {
            let ogg = full.with_extension("ogg");
            proof {
                lemma_path_views_push(r@, ogg);
            }
            r.push(ogg);
        }
        proof {
            let now = path_views(r@);
            assert forall|q: PathView| #[trigger] now.contains(q) <==> exists|j: int|
                0 <= j < k + 1 && #[trigger] looked_up(dir@, refs@[j]@, q) by {
                if now.contains(q) {
                    if before.contains(q) {
                        let j = choose|j: int| 0 <= j < k && #[trigger] looked_up(dir@, refs@[j]@, q);
                        assert(looked_up(dir@, refs@[j]@, q));
                    } else {
                        let w = choose|w: int| 0 <= w < now.len() && now[w] == q;
                        assert(w >= before.len());
                        assert(looked_up(dir@, refs@[k as int]@, q));
                    }
                }
                if exists|j: int| 0 <= j < k + 1 && #[trigger] looked_up(dir@, refs@[j]@, q) {
                    let j = choose|j: int| 0 <= j < k + 1 && #[trigger] looked_up(dir@, refs@[j]@, q);
                    if j < k {
                        assert(before.contains(q));
                        let w = choose|w: int| 0 <= w < before.len() && before[w] == q;
                        assert(now[w] == q);
                    } else if q == dir@.join(refs@[k as int]@) {
                        assert(now[before.len() as int] == q);
                    } else {
                        assert(now[before.len() as int + 1] == q);
                    }
                }
            }
        }
        k = k + 1;
    }
    proof {
        let text_v = utf8_lossy(chart.data@);
        assert forall|q: PathView| path_views(r@).contains(q) <==> chart_lookups(files@[i as int]).contains(q) by {
            if path_views(r@).contains(q) {
                let j = choose|j: int| 0 <= j < refs@.len() && #[trigger] looked_up(dir@, refs@[j]@, q);
                assert(path_views(refs@)[j] == refs@[j]@);
                assert(path_views(refs@).contains(refs@[j]@));
                assert(refers_to(text_v, refs@[j]@));
            }
            if chart_lookups(files@[i as int]).contains(q) {
                let p = choose|p: PathView| #[trigger] refers_to(text_v, p) && looked_up(dir@, p, q);
                assert(path_views(refs@).contains(p));
                let j = choose|j: int| 0 <= j < path_views(refs@).len() && path_views(refs@)[j] == p;
                assert(refs@[j]@ == p);
                assert(looked_up(dir@, refs@[j]@, q));
            }
        }
        assert forall|j: int| #[trigger] is_first_chart(files@, md5@, j) implies j == i by {
            if j < i {
                assert(!chart_matches(files@[j], md5@));
            } else if j > i {
                assert(!chart_matches(files@[i as int], md5@));
            }
        }
    }
    r
}

/// The directory holding `p`, or `p` when it has none.
pub fn chart_directory(p: &BmsPath) -> (r: BmsPath)
    ensures
        r@ == chart_dir(p@),
{
    match p.parent() {
        Some(q) => q,
        None => p.duplicate(),
    }
}

/// Filtering a sequence without duplicates keeps it without duplicates.
proof fn lemma_filter_no_dup<A>(s: Seq<A>, pred: spec_fn(A) -> bool)
    requires
        s.no_duplicates(),
    ensures
        s.filter(pred).no_duplicates(),
    decreases s.len(),
{
    reveal_with_fuel(Seq::filter, 1);
    if s.len() > 0 {
        let t = s.drop_last();
        assert(t.no_duplicates()) by {
            assert forall|a: int, b: int| 0 <= a < t.len() && 0 <= b < t.len() && a != b implies t[a] != t[b] by {
                assert(t[a] == s[a] && t[b] == s[b]);
            }
        }
        lemma_filter_no_dup(t, pred);
        if pred(s.last()) {
            let f = t.filter(pred);
            if f.contains(s.last()) {
                t.lemma_filter_contains_rev(pred, s.last());
                let w = choose|w: int| 0 <= w < t.len() && t[w] == s.last();
                assert(s[w] == s[s.len() - 1]);
            }
            let g = f.push(s.last());
            assert forall|a: int, b: int| 0 <= a < g.len() && 0 <= b < g.len() && a != b implies g[a] != g[b] by {
                if a < f.len() && b < f.len() {
                    assert(g[a] == f[a] && g[b] == f[b]);
                } else if a < f.len() {
                    assert(f.contains(g[a]));
                } else {
                    assert(f.contains(g[b]));
                }
            }
        }
    }
}

/// The set of a filtered sequence is the filtered set of the sequence.
proof fn lemma_filter_to_set<A>(s: Seq<A>, pred: spec_fn(A) -> bool)
    ensures
        s.filter(pred).to_set() == s.to_set().filter(pred),
{
    broadcast use vstd::seq_lib::group_filter_ensures;

    assert forall|x: A| #[trigger] s.filter(pred).to_set().contains(x) <==> s.to_set().filter(
        pred,
    ).contains(x) by {
        if s.filter(pred).contains(x) {
            s.lemma_filter_contains_rev(pred, x);
            let w = choose|w: int| 0 <= w < s.filter(pred).len() && s.filter(pred)[w] == x;
            assert(pred(s.filter(pred)[w]));
        }
        if s.contains(x) && pred(x) {
            let w = choose|w: int| 0 <= w < s.len() && s[w] == x;
            assert(s.filter(pred).contains(s[w]));
        }
    }
    assert(s.filter(pred).to_set() =~= s.to_set().filter(pred));
}

/// Whether one of `files` is the chart `md5` names.
pub fn validate_md5(md5: &str, files: &Vec<ChartFile>) -> (r: bool)
    ensures
        r == exists|i: int| 0 <= i < files@.len() && chart_matches(#[trigger] files@[i], md5@),
{
    match find_chart(files, md5) {
        Some(i) => true,
        None => false,
    }
}

/// Whether at least 90% of the files referred to by the chart `md5` names
/// exist (a `.wav` reference also accepts the `.ogg` file of the same name).
/// `false` when no file is that chart.
pub fn validate_ref(md5: &str, files: &Vec<ChartFile>, existing: &Vec<BmsPath>) -> (r: bool)
    ensures
        r == exists|i: int| #[trigger] is_first_chart(files@, md5@, i) && refs_complete(
            files@[i],
            path_views(existing@),
        ),
{
    let i = match find_chart(files, md5) {
        None => {
            return false;
        },
        Some(i) => i,
    };
    assert(is_first_chart(files@, md5@, i as int));
    let chart = &files[i];
    let text = decode_utf8_lossy(&chart.data);
    let refs = chart_refs(text.as_str());
    let dir = chart_directory(&chart.path);
    let ghost ex = path_views(existing@);
    let ghost v = path_views(refs@);
    let ghost pred = |p: PathView| resolves(dir@.join(p), ex) is Some;
    let mut found: usize = 0;
    let mut k: usize = 0;
    while k < refs.len()
        invariant
            0 <= k <= refs@.len(),
            v == path_views(refs@),
            ex == path_views(existing@),
            pred == (|p: PathView| resolves(dir@.join(p), ex) is Some),
            found == v.take(k as int).filter(pred).len(),
        decreases refs.len() - k,
    {
        proof {
            crate::organize::lemma_filter_step(v, pred, k as int);
            assert(v[k as int] == refs@[k as int]@);
        }
        let joined = dir.join(&refs[k]);
        if resolve_ref_path(&joined, existing).is_some() {
            proof {
                v.take(k as int).lemma_filter_len(pred);
            }
            found = found + 1;
        }
        k = k + 1;
    }
    proof {
        assert(v.take(k as int) =~= v);
        let text_v = utf8_lossy(chart.data@);
        assert(v.to_set() =~= referenced(text_v)) by {
            assert forall|p: PathView| #[trigger] v.to_set().contains(p) <==> referenced(text_v).contains(p) by {}
        }
        v.unique_seq_to_set();
        lemma_filter_no_dup(v, pred);
        lemma_filter_to_set(v, pred);
        v.filter(pred).unique_seq_to_set();
        assert(resolved(text_v, chart_dir(chart.path@), ex) =~= v.to_set().filter(pred));
        if exists|j: int| #[trigger] is_first_chart(files@, md5@, j) && j != i {
            let j = choose|j: int| #[trigger] is_first_chart(files@, md5@, j) && j != i;
            if j < i {
                assert(!chart_matches(files@[j], md5@));
            } else {
                assert(!chart_matches(files@[i as int], md5@));
            }
        }
    }
    let total: u128 = refs.len() as u128;
    let hits: u128 = found as u128;
    hits * 100 >= total * MIN_REF_MATCH_PERCENT
}

/// Whatever passes the reference check passes the chart check: when at
/// least 90% of the chart's files are found, the chart itself is there.
pub proof fn lemma_refs_valid_implies_md5_valid(
    files: Seq<ChartFile>,
    md5: Seq<char>,
    existing: Seq<PathView>,
)
    requires
        exists|i: int| #[trigger] is_first_chart(files, md5, i) && refs_complete(files[i], existing),
    ensures
        exists|i: int| 0 <= i < files.len() && chart_matches(#[trigger] files[i], md5),
{
    let i = choose|i: int| #[trigger] is_first_chart(files, md5, i) && refs_complete(files[i], existing);
    assert(chart_matches(files[i], md5));
}

/// The reference check reads the file system only through its lookups:
/// two views of which paths exist that agree on every path of
/// `chart_lookups(f)` give the same verdict.
pub proof fn lemma_refs_check_reads_only_lookups(
    f: ChartFile,
    ex1: Seq<PathView>,
    ex2: Seq<PathView>,
)
    requires
        forall|q: PathView| #[trigger] chart_lookups(f).contains(q) ==> (ex1.contains(q) <==> ex2.contains(q)),
    ensures
        refs_complete(f, ex1) == refs_complete(f, ex2),
{
    let text = utf8_lossy(f.data@);
    let dir = chart_dir(f.path@);
    assert(resolved(text, dir, ex1) =~= resolved(text, dir, ex2)) by {
        assert forall|p: PathView| referenced(text).contains(p) implies (resolves(dir.join(p), ex1) is Some
            <==> resolves(dir.join(p), ex2) is Some) by {
            assert(refers_to(text, p));
            assert(looked_up(dir, p, dir.join(p)));
            assert(chart_lookups(f).contains(dir.join(p)));
            if is_wav(dir.join(p)) {
                assert(looked_up(dir, p, dir.join(p).with_extension("ogg"@)));
                assert(chart_lookups(f).contains(dir.join(p).with_extension("ogg"@)));
            }
        }
    }
}

} // verus!
