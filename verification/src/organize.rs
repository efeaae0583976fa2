//! Organising extracted archives into one bundle directory.
//!
//! The root of an extraction is the directory that holds its charts: the
//! directory of the first shallowest chart, popped until every other
//! shallowest chart lies in it (or, without charts, the same for audio
//! files). For paths that are all absolute or all relative that is their
//! deepest common directory. The first extraction fixes the bundle root;
//! later ones are merged into it.

use vstd::prelude::*;
use crate::extract::{lemma_path_views_push, path_views, ExtractResult};
use crate::path::{BmsPath, PathView};
use crate::text::{chars_eq_ignore_case, chars_of, eq_ignore_case};

verus! {

/// Extensions of chart files.
pub open spec fn chart_exts() -> Seq<Seq<char>> {
    seq!["bms"@, "bme"@, "bml"@, "pms"@]
}

/// Extensions of audio files.
pub open spec fn audio_exts() -> Seq<Seq<char>> {
    seq!["wav"@, "ogg"@, "mp3"@]
}

/// The values of a list of character vectors.
pub open spec fn char_views(v: Seq<Vec<char>>) -> Seq<Seq<char>> {
    v.map_values(|c: Vec<char>| c@)
}

/// The path has one of `exts` as extension, ignoring ASCII case.
pub open spec fn has_ext(p: PathView, exts: Seq<Seq<char>>) -> bool {
    match p.extension() {
        Some(e) => exists|i: int| 0 <= i < exts.len() && eq_ignore_case(e, #[trigger] exts[i]),
        None => false,
    }
}

/// The directory holding `p`; `target` when `p` has no parent.
pub open spec fn root_of(p: PathView, target: PathView) -> PathView {
    match p.parent() {
        Some(q) => q,
        None => target,
    }
}

/// Components of `r` below `target`; `usize::MAX` when `r` is not inside it.
pub open spec fn depth_of(r: PathView, target: PathView) -> int {
    match r.strip_prefix(target) {
        Some(x) => x.count() as int,
        None => usize::MAX as int,
    }
}

/// Roots of the extracted paths that carry one of `exts`, in order.
pub open spec fn selected_roots(
    paths: Seq<PathView>,
    target: PathView,
    exts: Seq<Seq<char>>,
) -> Seq<PathView> {
    paths.filter(|p: PathView| has_ext(p, exts)).map_values(|p: PathView| root_of(p, target))
}

/// `r` is no deeper than any of `roots`.
pub open spec fn is_shallowest(r: PathView, roots: Seq<PathView>, target: PathView) -> bool {
    forall|k: int| 0 <= k < roots.len() ==> depth_of(r, target) <= depth_of(#[trigger] roots[k], target)
}

/// The roots of the least deep matching files, in order.
pub open spec fn shallowest_candidates(
    paths: Seq<PathView>,
    target: PathView,
    exts: Seq<Seq<char>>,
) -> Seq<PathView> {
    let roots = selected_roots(paths, target, exts);
    roots.filter(|r: PathView| is_shallowest(r, roots, target))
}

/// Every path of `ps` lies at or below `b`.
pub open spec fn is_common_ancestor(b: PathView, ps: Seq<PathView>) -> bool {
    forall|i: int| 0 <= i < ps.len() ==> #[trigger] ps[i].starts_with(b)
}

/// `PathBuf::pop` applied to `a` until `p` starts with it: the first of
/// `a`, its parent, its grandparent, ... that `p` starts with; `None` when
/// none does (popping ran out).
pub open spec fn shrink_to(a: PathView, p: PathView) -> Option<PathView>
    decreases a.parts.len(),
{
    if p.starts_with(a) {
        Some(a)
    } else if a.parts.len() == 0 {
        None
    } else {
        shrink_to(PathView { absolute: a.absolute, parts: a.parts.drop_last() }, p)
    }
}

/// Starting from `a`, shrinks to each path of `ps` in turn; `None` as soon
/// as one shrink runs out.
pub open spec fn fold_ancestor(a: PathView, ps: Seq<PathView>) -> Option<PathView>
    decreases ps.len(),
{
    if ps.len() == 0 {
        Some(a)
    } else {
        match shrink_to(a, ps[0]) {
            None => None,
            Some(b) => fold_ancestor(b, ps.drop_first()),
        }
    }
}

/// What `common_ancestor` gives for `ps`: the first path, shrunk in turn
/// to each later one; `None` for no paths. For paths that are all absolute
/// or all relative this is their deepest common ancestor; for a mix it
/// depends on the order, as the popping does.
pub open spec fn common_ancestor_of(ps: Seq<PathView>) -> Option<PathView> {
    if ps.len() == 0 {
        None
    } else {
        fold_ancestor(ps[0], ps.drop_first())
    }
}

/// The root `shallowest_root` finds among the paths carrying one of `exts`.
pub open spec fn shallowest_root_of(
    paths: Seq<PathView>,
    target: PathView,
    exts: Seq<Seq<char>>,
) -> Option<PathView> {
    common_ancestor_of(shallowest_candidates(paths, target, exts))
}

/// The root of an extraction: the root of its charts, else of its audio
/// files, else the target directory.
pub open spec fn inferred_root(e_paths: Seq<PathView>, target: PathView) -> PathView {
    match shallowest_root_of(e_paths, target, chart_exts()) {
        Some(r) => r,
        None => match shallowest_root_of(e_paths, target, audio_exts()) {
            Some(r) => r,
            None => target,
        },
    }
}

/// Every path starts with itself.
pub proof fn lemma_starts_with_refl(a: PathView)
    ensures
        a.starts_with(a),
{
    assert(a.parts.take(a.parts.len() as int) =~= a.parts);
}

/// `starts_with` is transitive.
pub proof fn lemma_starts_with_trans(a: PathView, b: PathView, c: PathView)
    requires
        a.starts_with(b),
        b.starts_with(c),
    ensures
        a.starts_with(c),
{
    assert(a.parts.take(c.parts.len() as int) =~= b.parts.take(c.parts.len() as int));
}

/// A path starts with its parent.
pub proof fn lemma_parent_starts_with(a: PathView)
    requires
        a.parent() is Some,
    ensures
        a.starts_with(a.parent().unwrap()),
{
    assert(a.parts.take(a.parts.len() - 1) =~= a.parts.drop_last());
}

/// A strict descendant of `b` that has a parent keeps `b` as ancestor when
/// cut to it.
pub proof fn lemma_parent_keeps_ancestor(a: PathView, b: PathView)
    requires
        a.starts_with(b),
        a != b,
        a.parent() is Some,
    ensures
        a.parent().unwrap().starts_with(b),
{
    if !b.is_empty() {
        if a.parts.len() == b.parts.len() {
            assert(a.parts =~= b.parts);
        }
        assert(a.parts.drop_last().take(b.parts.len() as int) =~= a.parts.take(b.parts.len() as int));
    }
}

/// What shrinking gives is an ancestor of both the start and the path.
proof fn lemma_shrink_to(a: PathView, p: PathView)
    requires
        shrink_to(a, p) is Some,
    ensures
        p.starts_with(shrink_to(a, p).unwrap()),
        a.starts_with(shrink_to(a, p).unwrap()),
    decreases a.parts.len(),
{
    if p.starts_with(a) {
        lemma_starts_with_refl(a);
    } else {
        let q = PathView { absolute: a.absolute, parts: a.parts.drop_last() };
        lemma_shrink_to(q, p);
        assert(a.parent() == Some(q));
        lemma_parent_starts_with(a);
        lemma_starts_with_trans(a, q, shrink_to(q, p).unwrap());
    }
}

/// The result of `common_ancestor` is a common ancestor of all the paths.
pub proof fn lemma_fold_ancestor(a: PathView, ps: Seq<PathView>)
    requires
        fold_ancestor(a, ps) is Some,
    ensures
        is_common_ancestor(fold_ancestor(a, ps).unwrap(), ps),
        a.starts_with(fold_ancestor(a, ps).unwrap()),
    decreases ps.len(),
{
    if ps.len() == 0 {
        lemma_starts_with_refl(a);
    } else {
        let b = shrink_to(a, ps[0]).unwrap();
        lemma_shrink_to(a, ps[0]);
        let rest = ps.drop_first();
        lemma_fold_ancestor(b, rest);
        let r = fold_ancestor(b, rest).unwrap();
        lemma_starts_with_trans(a, b, r);
        lemma_starts_with_trans(ps[0], b, r);
        assert forall|i: int| 0 <= i < ps.len() implies #[trigger] ps[i].starts_with(r) by {
            if i > 0 {
                assert(ps[i] == rest[i - 1]);
            }
        }
    }
}

/// The paths `common_ancestor` gets all lie in the directory it returns.
pub proof fn lemma_common_ancestor_of(ps: Seq<PathView>)
    requires
        common_ancestor_of(ps) is Some,
    ensures
        is_common_ancestor(common_ancestor_of(ps).unwrap(), ps),
{
    lemma_fold_ancestor(ps[0], ps.drop_first());
    lemma_starts_with_refl(ps[0]);
    let r = common_ancestor_of(ps).unwrap();
    assert forall|i: int| 0 <= i < ps.len() implies #[trigger] ps[i].starts_with(r) by {
        if i > 0 {
            assert(ps[i] == ps.drop_first()[i - 1]);
        }
    }
}

/// Shrinking a path inside `t` to another path inside `t` stays inside `t`.
proof fn lemma_shrink_within(a: PathView, p: PathView, t: PathView)
    requires
        a.starts_with(t),
        p.starts_with(t),
        shrink_to(a, p) is Some,
    ensures
        shrink_to(a, p).unwrap().starts_with(t),
    decreases a.parts.len(),
{
    if !p.starts_with(a) {
        let q = PathView { absolute: a.absolute, parts: a.parts.drop_last() };
        assert(a.parent() == Some(q));
        assert(a != t);
        lemma_parent_keeps_ancestor(a, t);
        lemma_shrink_within(q, p, t);
    }
}

/// Folding paths that all lie inside `t`, from a start inside `t`, stays inside `t`.
proof fn lemma_fold_within(a: PathView, ps: Seq<PathView>, t: PathView)
    requires
        a.starts_with(t),
        is_common_ancestor(t, ps),
        fold_ancestor(a, ps) is Some,
    ensures
        fold_ancestor(a, ps).unwrap().starts_with(t),
    decreases ps.len(),
{
    if ps.len() > 0 {
        assert(ps[0].starts_with(t));
        lemma_shrink_within(a, ps[0], t);
        let rest = ps.drop_first();
        assert forall|i: int| 0 <= i < rest.len() implies #[trigger] rest[i].starts_with(t) by {
            assert(rest[i] == ps[i + 1]);
        }
        lemma_fold_within(shrink_to(a, ps[0]).unwrap(), rest, t);
    }
}

/// Shrinking toward a path inside `b`, from a start inside `b`, stops at
/// `b` or deeper, unless `b` is the empty relative path and the start is
/// absolute (popping an absolute path ends at the root, not at the empty
/// path).
proof fn lemma_shrink_deepest(a: PathView, p: PathView, b: PathView)
    requires
        a.starts_with(b),
        p.starts_with(b),
        !(a.absolute && b.is_empty()),
    ensures
        shrink_to(a, p) is Some,
        shrink_to(a, p).unwrap().starts_with(b),
        shrink_to(a, p).unwrap().absolute == a.absolute,
    decreases a.parts.len(),
{
    if !p.starts_with(a) {
        let q = PathView { absolute: a.absolute, parts: a.parts.drop_last() };
        if a == b {
            assert(false);
        }
        if b.is_empty() {
            assert(a.parts.len() > 0);
        } else {
            if a.parts.len() == b.parts.len() {
                assert(a.parts =~= b.parts);
            }
        }
        assert(a.parent() == Some(q));
        lemma_parent_keeps_ancestor(a, b);
        lemma_shrink_deepest(q, p, b);
    }
}

/// Folding paths inside `b` from a start inside `b` ends at `b` or deeper
/// (with the same exception as `lemma_shrink_deepest`).
proof fn lemma_fold_deepest(a: PathView, ps: Seq<PathView>, b: PathView)
    requires
        a.starts_with(b),
        is_common_ancestor(b, ps),
        !(a.absolute && b.is_empty()),
    ensures
        fold_ancestor(a, ps) is Some,
        fold_ancestor(a, ps).unwrap().starts_with(b),
    decreases ps.len(),
{
    if ps.len() > 0 {
        assert(ps[0].starts_with(b));
        lemma_shrink_deepest(a, ps[0], b);
        let rest = ps.drop_first();
        assert forall|i: int| 0 <= i < rest.len() implies #[trigger] rest[i].starts_with(b) by {
            assert(rest[i] == ps[i + 1]);
        }
        lemma_fold_deepest(shrink_to(a, ps[0]).unwrap(), rest, b);
    }
}

/// For paths that are all absolute or all relative, `common_ancestor`
/// gives their deepest common ancestor, and always finds one.
pub proof fn lemma_common_ancestor_deepest(ps: Seq<PathView>)
    requires
        ps.len() > 0,
        forall|i: int| 0 <= i < ps.len() ==> (#[trigger] ps[i]).absolute == ps[0].absolute,
    ensures
        common_ancestor_of(ps) is Some,
        is_common_ancestor(common_ancestor_of(ps).unwrap(), ps),
        forall|b: PathView| #[trigger]
            is_common_ancestor(b, ps) ==> common_ancestor_of(ps).unwrap().starts_with(b),
{
    let rest = ps.drop_first();
    let b0 = PathView { absolute: ps[0].absolute, parts: Seq::empty() };
    assert forall|i: int| 0 <= i < ps.len() implies #[trigger] ps[i].starts_with(b0) by {
        assert(ps[i].parts.take(0) =~= b0.parts);
    }
    assert forall|i: int| 0 <= i < rest.len() implies #[trigger] rest[i].starts_with(b0) by {
        assert(rest[i] == ps[i + 1]);
    }
    lemma_fold_deepest(ps[0], rest, b0);
    lemma_common_ancestor_of(ps);
    assert forall|b: PathView| #[trigger] is_common_ancestor(b, ps) implies common_ancestor_of(
        ps,
    ).unwrap().starts_with(b) by {
        if !b.is_empty() {
            assert(ps[0].starts_with(b));
            assert forall|i: int| 0 <= i < rest.len() implies #[trigger] rest[i].starts_with(b) by {
                assert(rest[i] == ps[i + 1]);
            }
            lemma_fold_deepest(ps[0], rest, b);
        }
    }
}

/// Two filters agree when their predicates agree on every element.
pub proof fn lemma_filter_congruent<A>(s: Seq<A>, p1: spec_fn(A) -> bool, p2: spec_fn(A) -> bool)
    requires
        forall|i: int| 0 <= i < s.len() ==> p1(#[trigger] s[i]) == p2(s[i]),
    ensures
        s.filter(p1) == s.filter(p2),
    decreases s.len(),
{
    reveal_with_fuel(Seq::filter, 1);
    if s.len() > 0 {
        let t = s.drop_last();
        assert forall|i: int| 0 <= i < t.len() implies p1(#[trigger] t[i]) == p2(t[i]) by {
            assert(t[i] == s[i]);
        }
        lemma_filter_congruent(t, p1, p2);
        assert(p1(s[s.len() - 1]) == p2(s[s.len() - 1]));
    }
}

/// One more element of `s` through a filter.
pub proof fn lemma_filter_step<A>(s: Seq<A>, pred: spec_fn(A) -> bool, i: int)
    requires
        0 <= i < s.len(),
    ensures
        s.take(i + 1).filter(pred) == if pred(s[i]) {
            s.take(i).filter(pred).push(s[i])
        } else {
            s.take(i).filter(pred)
        },
{
    reveal_with_fuel(Seq::filter, 1);
    let t = s.take(i + 1);
    assert(t.drop_last() =~= s.take(i));
    assert(t.last() == s[i]);
}

/// Every shallowest candidate lies inside `target` when every path does.
proof fn lemma_candidates_within(ps: Seq<PathView>, target: PathView, exts: Seq<Seq<char>>)
    requires
        forall|i: int| 0 <= i < ps.len() ==> (#[trigger] ps[i]).starts_with(target) && ps[i] != target,
    ensures
        is_common_ancestor(target, shallowest_candidates(ps, target, exts)),
{
    let h = |p: PathView| has_ext(p, exts);
    let f = |p: PathView| root_of(p, target);
    let sel = ps.filter(h);
    let roots = sel.map_values(f);
    assert(roots == selected_roots(ps, target, exts));
    assert forall|m: int| 0 <= m < roots.len() implies #[trigger] roots[m].starts_with(target) by {
        assert(sel.contains(sel[m]));
        ps.lemma_filter_contains_rev(h, sel[m]);
        let w = choose|w: int| 0 <= w < ps.len() && ps[w] == sel[m];
        assert(ps[w].starts_with(target) && ps[w] != target);
        if ps[w].parent() is Some {
            lemma_parent_keeps_ancestor(ps[w], target);
        } else {
            lemma_starts_with_refl(target);
        }
    }
    let shallow = |r: PathView| is_shallowest(r, roots, target);
    let cands = roots.filter(shallow);
    assert forall|i: int| 0 <= i < cands.len() implies #[trigger] cands[i].starts_with(target) by {
        assert(cands.contains(cands[i]));
        roots.lemma_filter_contains_rev(shallow, cands[i]);
        let w = choose|w: int| 0 <= w < roots.len() && roots[w] == cands[i];
        assert(roots[w].starts_with(target));
    }
}

/// When every extracted path lies strictly inside the target directory, so
/// does the inferred root (it starts with the target directory).
pub proof fn lemma_root_within_target(ps: Seq<PathView>, target: PathView)
    requires
        forall|i: int| 0 <= i < ps.len() ==> (#[trigger] ps[i]).starts_with(target) && ps[i] != target,
    ensures
        inferred_root(ps, target).starts_with(target),
{
    lemma_candidates_within(ps, target, chart_exts());
    lemma_candidates_within(ps, target, audio_exts());
    let cc = shallowest_candidates(ps, target, chart_exts());
    let ac = shallowest_candidates(ps, target, audio_exts());
    if common_ancestor_of(cc) is Some {
        assert(cc[0].starts_with(target));
        assert forall|i: int| 0 <= i < cc.drop_first().len() implies #[trigger] cc.drop_first()[i].starts_with(target) by {
            assert(cc.drop_first()[i] == cc[i + 1]);
        }
        lemma_fold_within(cc[0], cc.drop_first(), target);
    } else if common_ancestor_of(ac) is Some {
        assert(ac[0].starts_with(target));
        assert forall|i: int| 0 <= i < ac.drop_first().len() implies #[trigger] ac.drop_first()[i].starts_with(target) by {
            assert(ac.drop_first()[i] == ac[i + 1]);
        }
        lemma_fold_within(ac[0], ac.drop_first(), target);
    } else {
        lemma_starts_with_refl(target);
    }
}

/// Chart extensions as character vectors.
pub(crate) fn chart_extensions() -> (r: Vec<Vec<char>>)
    ensures
        char_views(r@) == chart_exts(),
{
    let mut r: Vec<Vec<char>> = Vec::new();
    r.push(chars_of("bms"));
    r.push(chars_of("bme"));
    r.push(chars_of("bml"));
    r.push(chars_of("pms"));
    assert(char_views(r@) =~= chart_exts());
    r
}

/// Audio extensions as character vectors.
fn audio_extensions() -> (r: Vec<Vec<char>>)
    ensures
        char_views(r@) == audio_exts(),
{
    let mut r: Vec<Vec<char>> = Vec::new();
    r.push(chars_of("wav"));
    r.push(chars_of("ogg"));
    r.push(chars_of("mp3"));
    assert(char_views(r@) =~= audio_exts());
    r
}

/// The path's extension is one of `extensions`, ignoring ASCII case.
pub fn has_extension(path: &BmsPath, extensions: &Vec<Vec<char>>) -> (r: bool)
    ensures
        r == has_ext(path@, char_views(extensions@)),
{
    match path.extension() {
        None => false,
        Some(ext) => {
            let e = chars_of(ext.as_str());
            assert(path@.extension() == Some(e@));
            let mut i: usize = 0;
            while i < extensions.len()
                invariant
                    0 <= i <= extensions@.len(),
                    path@.extension() == Some(e@),
                    forall|j: int|
                        0 <= j < i ==> !eq_ignore_case(e@, #[trigger] char_views(extensions@)[j]),
                decreases extensions.len() - i,
            {
                if chars_eq_ignore_case(&e, &extensions[i]) {
                    assert(char_views(extensions@)[i as int] == extensions@[i as int]@);
                    return true;
                }
                i = i + 1;
            }
            false
        },
    }
}

/// Number of components of a path (`Path::components().count()`).
pub fn component_depth(path: &BmsPath) -> (r: usize)
    requires
        path@.count() <= usize::MAX,
    ensures
        r == path@.count(),
{
    if path.absolute {
        path.parts.len() + 1
    } else {
        path.parts.len()
    }
}

/// The directory every path of `paths` lies in that popping the first path
/// until each later one starts with it reaches (see `common_ancestor_of`);
/// `None` when `paths` is empty or popping runs out.
pub fn common_ancestor(paths: Vec<BmsPath>) -> (r: Option<BmsPath>)
    ensures
        match r {
            Some(a) => common_ancestor_of(path_views(paths@)) == Some(a@),
            None => common_ancestor_of(path_views(paths@)) is None,
        },
{
    let ghost ps = path_views(paths@);
    if paths.len() == 0 {
        return None;
    }
    let mut ancestor = paths[0].duplicate();
    assert(ps.drop_first() =~= ps.skip(1));
    let mut j: usize = 1;
    while j < paths.len()
        invariant
            1 <= j <= paths@.len(),
            ps == path_views(paths@),
            common_ancestor_of(ps) == fold_ancestor(ancestor@, ps.skip(j as int)),
        decreases paths.len() - j,
    {
        assert(paths@[j as int]@ == ps[j as int]);
        let ghost start = ancestor@;
        let ghost p = ps[j as int];
        proof {
            assert(ps.skip(j as int)[0] == p);
            assert(ps.skip(j as int).drop_first() =~= ps.skip(j + 1));
        }
        while !paths[j].starts_with(&ancestor)
            invariant
                1 <= j < paths@.len(),
                ps == path_views(paths@),
                paths@[j as int]@ == p,
                ps.skip(j as int)[0] == p,
                ps.skip(j as int).len() > 0,
                ps.skip(j as int).drop_first() == ps.skip(j + 1),
                common_ancestor_of(ps) == fold_ancestor(start, ps.skip(j as int)),
                shrink_to(ancestor@, p) == shrink_to(start, p),
            decreases ancestor.parts.len(),
        {
            let ghost before = ancestor@;
            if !ancestor.pop() {
                return None;
            }
            assert(ancestor@ == PathView { absolute: before.absolute, parts: before.parts.drop_last() });
        }
        j = j + 1;
    }
    assert(ps.skip(j as int).len() == 0);
    Some(ancestor)
}

/// The root of each path carrying one of `extensions`, with its depth
/// below `target`.
fn matching_roots(paths: &Vec<BmsPath>, target: &BmsPath, extensions: &Vec<Vec<char>>) -> (r: (
    Vec<BmsPath>,
    Vec<usize>,
))
    ensures
        path_views(r.0@) == selected_roots(path_views(paths@), target@, char_views(extensions@)),
        r.1@.len() == r.0@.len(),
        forall|k: int| 0 <= k < r.0@.len() ==> #[trigger] r.1@[k] == depth_of(r.0@[k]@, target@),
{
    let ghost ps = path_views(paths@);
    let ghost exts = char_views(extensions@);
    let ghost h = |p: PathView| has_ext(p, exts);
    let ghost f = |p: PathView| root_of(p, target@);
    let mut roots: Vec<BmsPath> = Vec::new();
    let mut depths: Vec<usize> = Vec::new();
    let mut i: usize = 0;
    while i < paths.len()
        invariant
            0 <= i <= paths@.len(),
            ps == path_views(paths@),
            exts == char_views(extensions@),
            h == (|p: PathView| has_ext(p, exts)),
            f == (|p: PathView| root_of(p, target@)),
            path_views(roots@) == ps.take(i as int).filter(h).map_values(f),
            depths@.len() == roots@.len(),
            forall|k: int| 0 <= k < roots@.len() ==> #[trigger] depths@[k] == depth_of(roots@[k]@, target@),
        decreases paths.len() - i,
    {
        let path = &paths[i];
        assert(path@ == ps[i as int]);
        proof {
            lemma_filter_step(ps, h, i as int);
        }
        if has_extension(path, extensions) {
            let root = match path.parent() {
                Some(q) => q,
                None => target.duplicate(),
            };
            let path_len = path.parts.len();
            let depth: usize = match root.strip_prefix(target) {
                Some(rest) => if rest.absolute {
                    proof {
                        assert(target@.is_empty());
                        assert(rest@ == root@);
                        assert(rest.parts@.len() == rest@.parts.len());
                        assert(root.parts@.len() == root@.parts.len());
                        assert(path.parts@.len() == path@.parts.len());
                        assert(root@.parts.len() < path@.parts.len());
                        assert(rest.parts@.len() < path_len);
                    }
                    rest.parts.len() + 1
                } else {
                    rest.parts.len()
                },
                None => usize::MAX,
            };
            proof {
                lemma_path_views_push(roots@, root);
                assert(ps.take(i as int).filter(h).push(ps[i as int]).map_values(f) =~= ps.take(
                    i as int,
                ).filter(h).map_values(f).push(f(ps[i as int])));
            }
            roots.push(root);
            depths.push(depth);
        }
        i = i + 1;
    }
    proof {
        assert(ps.take(i as int) =~= ps);
    }
    (roots, depths)
}

/// The common ancestor (see `common_ancestor`) of the roots of the least
/// deep paths that carry one of `extensions`, in their order.
pub fn shallowest_root(extracted: &ExtractResult, extensions: &Vec<Vec<char>>) -> (r: Option<
    BmsPath,
>)
    ensures
        match r {
            Some(a) => shallowest_root_of(
                path_views(extracted.extracted_paths@),
                extracted.target_dir@,
                char_views(extensions@),
            ) == Some(a@),
            None => shallowest_root_of(
                path_views(extracted.extracted_paths@),
                extracted.target_dir@,
                char_views(extensions@),
            ) is None,
        },
{
    let target = &extracted.target_dir;
    let (roots, depths) = matching_roots(&extracted.extracted_paths, target, extensions);
    let ghost rv = path_views(roots@);
    let ghost cands_spec = shallowest_candidates(
        path_views(extracted.extracted_paths@),
        target@,
        char_views(extensions@),
    );
    if roots.len() == 0 {
        proof {
            reveal_with_fuel(Seq::filter, 1);
            assert(cands_spec.len() == 0);
        }
        return None;
    }
    let mut min: usize = depths[0];
    let mut k: usize = 1;
    while k < depths.len()
        invariant
            1 <= k <= depths@.len(),
            depths@.len() == roots@.len(),
            exists|j: int| 0 <= j < k && depths@[j] == min,
            forall|j: int| 0 <= j < k ==> min <= #[trigger] depths@[j],
        decreases depths.len() - k,
    {
        if depths[k] < min {
            min = depths[k];
        }
        k = k + 1;
    }
    let ghost at_min = |x: PathView| depth_of(x, target@) == min as int;
    let mut candidates: Vec<BmsPath> = Vec::new();
    let mut i: usize = 0;
    while i < roots.len()
        invariant
            0 <= i <= roots@.len(),
            depths@.len() == roots@.len(),
            rv == path_views(roots@),
            forall|j: int| 0 <= j < roots@.len() ==> #[trigger] depths@[j] == depth_of(roots@[j]@, target@),
            at_min == (|x: PathView| depth_of(x, target@) == min as int),
            k == depths@.len(),
            exists|j: int| 0 <= j < k && depths@[j] == min,
            forall|j: int| 0 <= j < k ==> min <= #[trigger] depths@[j],
            path_views(candidates@) == rv.take(i as int).filter(at_min),
        decreases roots.len() - i,
    {
        proof {
            lemma_filter_step(rv, at_min, i as int);
            assert(rv[i as int] == roots@[i as int]@);
        }
        if depths[i] == min {
            let c = roots[i].duplicate();
            proof {
                lemma_path_views_push(candidates@, c);
            }
            candidates.push(c);
        }
        i = i + 1;
    }
    proof {
        assert(rv.take(i as int) =~= rv);
        assert(rv == selected_roots(path_views(extracted.extracted_paths@), target@, char_views(extensions@)));
        let shallow = |x: PathView| is_shallowest(x, rv, target@);
        assert forall|j: int| 0 <= j < rv.len() implies at_min(#[trigger] rv[j]) == shallow(rv[j]) by {
            assert(rv[j] == roots@[j]@);
            if at_min(rv[j]) {
                assert forall|m: int| 0 <= m < rv.len() implies depth_of(rv[j], target@) <= depth_of(
                    #[trigger] rv[m],
                    target@,
                ) by {
                    assert(rv[m] == roots@[m]@);
                    assert(depths@[m] >= min);
                }
            } else {
                let w = choose|w: int| 0 <= w < k && depths@[w] == min;
                assert(rv[w] == roots@[w]@);
                assert(depths@[j] >= min);
                assert(depth_of(rv[j], target@) > depth_of(rv[w], target@));
            }
        }
        lemma_filter_congruent(rv, at_min, shallow);
        assert(cands_spec == rv.filter(shallow));
    }
    common_ancestor(candidates)
}

/// The root of an extraction.
pub fn infer_root(extracted: &ExtractResult) -> (r: BmsPath)
    ensures
        r@ == inferred_root(path_views(extracted.extracted_paths@), extracted.target_dir@),
{
    if let Some(root) = shallowest_root(extracted, &chart_extensions()) {
        return root;
    }
    if let Some(root) = shallowest_root(extracted, &audio_extensions()) {
        return root;
    }
    extracted.target_dir.duplicate()
}

/// What the caller does after an extraction has been folded into the bundle.
#[derive(Debug)]
pub enum MergeAction {
    /// The extraction's root became the bundle root; only the archive is removed.
    Adopted,
    /// The extraction's root is already the bundle root; only the archive is removed.
    SameRoot,
    /// Move the contents of `source` into `target`, then remove the
    /// extraction directory and the archive.
    Merge { source: BmsPath, target: BmsPath },
}

/// Folds one extraction into the bundle whose root is `bundle_root`.
///
/// The first extraction fixes the bundle root; later ones keep it and are
/// merged into it unless their root already is the bundle root.
pub fn merge_extract(bundle_root: &mut Option<BmsPath>, extracted: &ExtractResult) -> (r:
    MergeAction)
    ensures
        ({
            let ps = path_views(extracted.extracted_paths@);
            let t = extracted.target_dir@;
            match *old(bundle_root) {
                None => {
                    &&& r is Adopted
                    &&& *final(bundle_root) is Some
                    &&& (*final(bundle_root)).unwrap()@ == inferred_root(ps, t)
                },
                Some(b) => {
                    &&& *final(bundle_root) == *old(bundle_root)
                    &&& (r is SameRoot <==> b@ == inferred_root(ps, t))
                    &&& (r is SameRoot || r is Merge)
                    &&& r matches MergeAction::Merge { source, target } ==> {
                        &&& target@ == b@
                        &&& source@ == inferred_root(ps, t)
                        &&& source@ != b@
                    }
                },
            }
        }),
{
    let source_root = infer_root(extracted);
    match bundle_root {
        None => {
            *bundle_root = Some(source_root);
            MergeAction::Adopted
        },
        Some(target_root) => {
            if source_root.same_as(target_root) {
                MergeAction::SameRoot
            } else {
                MergeAction::Merge { source: source_root, target: target_root.duplicate() }
            }
        },
    }
}

/// Charts decide the root: when the extraction holds a chart (`bms`,
/// `bme`, `bml` or `pms`, any ASCII case) and its shallowest chart
/// directories have a common ancestor, that is the root, whatever audio
/// files are present. Audio files (`wav`, `ogg`, `mp3`) decide only when
/// the charts give none, and the target directory when neither does.
pub proof fn lemma_charts_decide_root(ps: Seq<PathView>, target: PathView)
    ensures
        ({
            let charts = shallowest_candidates(ps, target, seq!["bms"@, "bme"@, "bml"@, "pms"@]);
            let audio = shallowest_candidates(ps, target, seq!["wav"@, "ogg"@, "mp3"@]);
            &&& common_ancestor_of(charts) matches Some(r) ==> inferred_root(ps, target) == r
            &&& common_ancestor_of(charts) is None ==> (common_ancestor_of(audio) matches Some(r)
                ==> inferred_root(ps, target) == r)
            &&& common_ancestor_of(charts) is None && common_ancestor_of(audio) is None
                ==> inferred_root(ps, target) == target
        }),
{
    assert(chart_exts() == seq!["bms"@, "bme"@, "bml"@, "pms"@]);
    assert(audio_exts() == seq!["wav"@, "ogg"@, "mp3"@]);
}

} // verus!
