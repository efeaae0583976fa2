//! A model of file-system paths with the component semantics of
//! `std::path::Path` on Unix.
//!
//! A path is a flag for a leading root (`/`) and a list of components.
//! Components are normal names, `..`, or a leading `.` (which `Path` keeps
//! only at the start of a relative path). Two paths are equal exactly when
//! their components are, as for `Path`.

use vstd::prelude::*;
use crate::text::{
    chars_eq, chars_of, concat_chars, lemma_split_on_nonempty, split_chars, split_on, string_of,
    sub_chars,
};

verus! {

/// The mathematical value of a path.
pub struct PathView {
    pub absolute: bool,
    pub parts: Seq<Seq<char>>,
}

/// A path, held as its components.
#[derive(Debug)]
pub struct BmsPath {
    pub absolute: bool,
    pub parts: Vec<String>,
}

/// The values of a list of strings.
pub open spec fn views(v: Seq<String>) -> Seq<Seq<char>> {
    v.map_values(|s: String| s@)
}

impl View for BmsPath {
    type V = PathView;

    open spec fn view(&self) -> PathView {
        PathView { absolute: self.absolute, parts: views(self.parts@) }
    }
}

/// The component `.`.
pub open spec fn dot() -> Seq<char> {
    seq!['.']
}

/// The component `..`.
pub open spec fn dot_dot() -> Seq<char> {
    seq!['.', '.']
}

/// A component that names a file or directory (not `.` or `..`).
pub open spec fn is_normal(part: Seq<char>) -> bool {
    part != dot() && part != dot_dot()
}

impl PathView {
    /// Number of components, counting the root (`Path::components().count()`).
    pub open spec fn count(self) -> nat {
        (if self.absolute { 1nat } else { 0nat }) + self.parts.len()
    }

    /// `Path::parent`.
    pub open spec fn parent(self) -> Option<PathView> {
        if self.parts.len() == 0 {
            None
        } else {
            Some(PathView { absolute: self.absolute, parts: self.parts.drop_last() })
        }
    }

    /// `Path::file_name`.
    pub open spec fn file_name(self) -> Option<Seq<char>> {
        if self.parts.len() > 0 && is_normal(self.parts.last()) {
            Some(self.parts.last())
        } else {
            None
        }
    }

    /// `Path::extension`.
    pub open spec fn extension(self) -> Option<Seq<char>> {
        match self.file_name() {
            Some(name) => name_extension(name),
            None => None,
        }
    }

    /// `Path::with_extension`.
    pub open spec fn with_extension(self, ext: Seq<char>) -> PathView {
        match self.file_name() {
            Some(name) => PathView {
                absolute: self.absolute,
                parts: self.parts.drop_last().push(
                    if ext.len() == 0 { name_stem(name) } else { name_stem(name) + dot() + ext },
                ),
            },
            None => self,
        }
    }

    /// `Path::join`.
    pub open spec fn join(self, other: PathView) -> PathView {
        if other.absolute {
            other
        } else if (self.absolute || self.parts.len() > 0) && other.parts.len() > 0
            && other.parts[0] == dot() {
            PathView { absolute: self.absolute, parts: self.parts + other.parts.drop_first() }
        } else {
            PathView { absolute: self.absolute, parts: self.parts + other.parts }
        }
    }

    /// The empty relative path, which has no components.
    pub open spec fn is_empty(self) -> bool {
        !self.absolute && self.parts.len() == 0
    }

    /// `Path::starts_with`: `base`'s components (the root first, for an
    /// absolute path) are a leading run of this path's. The empty relative
    /// path has none, so every path starts with it.
    pub open spec fn starts_with(self, base: PathView) -> bool {
        ||| base.is_empty()
        ||| {
            &&& self.absolute == base.absolute
            &&& base.parts.len() <= self.parts.len()
            &&& self.parts.take(base.parts.len() as int) == base.parts
        }
    }

    /// `Path::strip_prefix`: the components after `base`'s; stripping the
    /// empty relative path leaves the path as it is.
    pub open spec fn strip_prefix(self, base: PathView) -> Option<PathView> {
        if base.is_empty() {
            Some(self)
        } else if self.starts_with(base) {
            Some(PathView { absolute: false, parts: self.parts.skip(base.parts.len() as int) })
        } else {
            None
        }
    }
}

/// Index of the last `.` in `name`, or -1.
pub open spec fn last_dot(name: Seq<char>) -> int
    decreases name.len(),
{
    if name.len() == 0 {
        -1
    } else if name.last() == '.' {
        name.len() - 1
    } else {
        last_dot(name.drop_last())
    }
}

/// The extension of a file name: what follows its last `.`, unless that
/// `.` is the first character.
pub open spec fn name_extension(name: Seq<char>) -> Option<Seq<char>> {
    if last_dot(name) <= 0 {
        None
    } else {
        Some(name.skip(last_dot(name) + 1))
    }
}

/// The stem of a file name: the name without its extension and that `.`.
pub open spec fn name_stem(name: Seq<char>) -> Seq<char> {
    if last_dot(name) <= 0 {
        name
    } else {
        name.take(last_dot(name))
    }
}

/// The components of a path string, as `Path::new(s).components()`.
pub open spec fn parse_path(s: Seq<char>) -> PathView {
    let pieces = split_on(s, '/');
    let absolute = s.len() > 0 && s[0] == '/';
    let kept = pieces.filter(|p: Seq<char>| p.len() > 0 && p != dot());
    PathView {
        absolute,
        parts: if !absolute && pieces[0] == dot() {
            seq![dot()] + kept
        } else {
            kept
        },
    }
}

/// Pushing a string pushes its value.
pub proof fn lemma_views_push(s: Seq<String>, x: String)
    ensures
        views(s.push(x)) == views(s).push(x@),
{
    assert(views(s.push(x)) =~= views(s).push(x@));
}

/// `last_dot` is the position of the last `.`, or -1 when there is none.
pub proof fn lemma_last_dot(name: Seq<char>)
    ensures
        -1 <= last_dot(name) < name.len(),
        last_dot(name) >= 0 ==> name[last_dot(name)] == '.',
        forall|j: int| last_dot(name) < j < name.len() ==> name[j] != '.',
    decreases name.len(),
{
    if name.len() > 0 && name.last() != '.' {
        let t = name.drop_last();
        lemma_last_dot(t);
        assert forall|j: int| last_dot(name) < j < name.len() implies name[j] != '.' by {
            if j < t.len() {
                assert(name[j] == t[j]);
            }
        }
    }
}

/// Builds a `String` component from characters.
fn part_of(v: &[char]) -> (r: String)
    ensures
        r@ == v@,
{
    string_of(v)
}

fn dot_chars() -> (r: Vec<char>)
    ensures
        r@ == dot(),
{
    let mut r: Vec<char> = Vec::new();
    r.push('.');
    r
}

fn is_normal_part(part: &String) -> (r: bool)
    ensures
        r == is_normal(part@),
{
    let c = chars_of(part.as_str());
    let d = dot_chars();
    let mut dd = dot_chars();
    dd.push('.');
    assert(dd@ =~= dot_dot());
    !chars_eq(&c, &d) && !chars_eq(&c, &dd)
}

/// Index of the last `.` in `name`, or `None`.
fn find_last_dot(name: &[char]) -> (r: Option<usize>)
    ensures
        match r {
            Some(k) => k as int == last_dot(name@),
            None => last_dot(name@) == -1,
        },
{
    let mut k: usize = name.len();
    proof {
        assert(name@.take(k as int) =~= name@);
    }
    while k > 0
        invariant
            k <= name@.len(),
            last_dot(name@) == last_dot(name@.take(k as int)),
        decreases k,
    {
        let ghost t = name@.take(k as int);
        proof {
            assert(t.drop_last() =~= name@.take(k - 1));
        }
        if name[k - 1] == '.' {
            return Some(k - 1);
        }
        k = k - 1;
    }
    None
}

impl BmsPath {
    /// Number of components, counting the root.
    pub fn component_count(&self) -> (r: usize)
        requires
            self.parts@.len() < usize::MAX,
        ensures
            r == self@.count(),
    {
        if self.absolute {
            self.parts.len() + 1
        } else {
            self.parts.len()
        }
    }

    /// A copy of this path.
    pub fn duplicate(&self) -> (r: BmsPath)
        ensures
            r@ == self@,
    {
        let mut parts: Vec<String> = Vec::new();
        let mut i: usize = 0;
        while i < self.parts.len()
            invariant
                0 <= i <= self.parts@.len(),
                views(parts@) == views(self.parts@).take(i as int),
            decreases self.parts.len() - i,
        {
            let x = self.parts[i].clone();
            proof {
                lemma_views_push(parts@, x);
            }
            parts.push(x);
            i = i + 1;
            assert(views(parts@) =~= views(self.parts@).take(i as int));
        }
        assert(views(self.parts@).take(i as int) =~= views(self.parts@));
        BmsPath { absolute: self.absolute, parts }
    }

    /// `Path::parent`.
    pub fn parent(&self) -> (r: Option<BmsPath>)
        ensures
            match r {
                Some(p) => self@.parent() == Some(p@),
                None => self@.parent() is None,
            },
    {
        if self.parts.len() == 0 {
            return None;
        }
        let mut parts: Vec<String> = Vec::new();
        let mut i: usize = 0;
        let n: usize = self.parts.len() - 1;
        while i < n
            invariant
                0 <= i <= n,
                n == self.parts@.len() - 1,
                views(parts@) == views(self.parts@).take(i as int),
            decreases n - i,
        {
            let x = self.parts[i].clone();
            proof {
                lemma_views_push(parts@, x);
            }
            parts.push(x);
            i = i + 1;
            assert(views(parts@) =~= views(self.parts@).take(i as int));
        }
        assert(views(self.parts@).take(n as int) =~= views(self.parts@).drop_last());
        Some(BmsPath { absolute: self.absolute, parts })
    }

    /// `Path::file_name`.
    pub fn file_name(&self) -> (r: Option<String>)
        ensures
            match r {
                Some(s) => self@.file_name() == Some(s@),
                None => self@.file_name() is None,
            },
    {
        if self.parts.len() == 0 {
            return None;
        }
        let last = &self.parts[self.parts.len() - 1];
        assert(last@ == self@.parts.last());
        if is_normal_part(last) {
            Some(last.clone())
        } else {
            None
        }
    }

    /// `Path::extension`.
    pub fn extension(&self) -> (r: Option<String>)
        ensures
            match r {
                Some(s) => self@.extension() == Some(s@),
                None => self@.extension() is None,
            },
    {
        match self.file_name() {
            None => None,
            Some(name) => {
                let c = chars_of(name.as_str());
                proof {
                    lemma_last_dot(c@);
                }
                match find_last_dot(&c) {
                    None => None,
                    Some(k) => {
                        if k == 0 {
                            None
                        } else {
                            let ext = sub_chars(&c, k + 1, c.len());
                            assert(ext@ =~= c@.skip(k + 1));
                            Some(part_of(&ext))
                        }
                    },
                }
            },
        }
    }

    /// `Path::with_extension`.
    pub fn with_extension(&self, ext: &str) -> (r: BmsPath)
        ensures
            r@ == self@.with_extension(ext@),
    {
        match self.file_name() {
            None => self.duplicate(),
            Some(name) => {
                let c = chars_of(name.as_str());
                proof {
                    lemma_last_dot(c@);
                }
                let stem = match find_last_dot(&c) {
                    None => c,
                    Some(k) => {
                        if k == 0 {
                            c
                        } else {
                            sub_chars(&c, 0, k)
                        }
                    },
                };
                assert(stem@ =~= name_stem(name@));
                let e = chars_of(ext);
                let new_name = if e.len() == 0 {
                    stem
                } else {
                    let with_dot = concat_chars(&stem, &dot_chars());
                    concat_chars(&with_dot, &e)
                };
                let mut p = self.parent().unwrap();
                let x = part_of(&new_name);
                proof {
                    lemma_views_push(p.parts@, x);
                }
                p.parts.push(x);
                assert(views(p.parts@) =~= self@.parts.drop_last().push(new_name@));
                p
            },
        }
    }

    /// `Path::join`.
    pub fn join(&self, other: &BmsPath) -> (r: BmsPath)
        ensures
            r@ == self@.join(other@),
    {
        if other.absolute {
            return other.duplicate();
        }
        let mut r = self.duplicate();
        let mut i: usize = 0;
        if (self.absolute || self.parts.len() > 0) && other.parts.len() > 0 && !is_normal_part(
            &other.parts[0],
        ) {
            let c = chars_of(other.parts[0].as_str());
            let d = dot_chars();
            if chars_eq(&c, &d) {
                i = 1;
            }
        }
        let ghost start = i;
        proof {
            assert(views(r.parts@) =~= views(self.parts@) + views(other.parts@).subrange(
                start as int,
                i as int,
            ));
        }
        while i < other.parts.len()
            invariant
                start <= i <= other.parts@.len(),
                start <= 1,
                r.absolute == self.absolute,
                views(r.parts@) == views(self.parts@) + views(other.parts@).subrange(
                    start as int,
                    i as int,
                ),
            decreases other.parts.len() - i,
        {
            let x = other.parts[i].clone();
            proof {
                lemma_views_push(r.parts@, x);
            }
            r.parts.push(x);
            i = i + 1;
            assert(views(r.parts@) =~= views(self.parts@) + views(other.parts@).subrange(
                start as int,
                i as int,
            ));
        }
        proof {
            if start == 1 {
                assert(views(other.parts@).subrange(1, i as int) =~= views(
                    other.parts@,
                ).drop_first());
            } else {
                assert(views(other.parts@).subrange(0, i as int) =~= views(other.parts@));
            }
        }
        r
    }

    /// `Path::starts_with`.
    pub fn starts_with(&self, base: &BmsPath) -> (r: bool)
        ensures
            r == self@.starts_with(base@),
    {
        if !base.absolute && base.parts.len() == 0 {
            return true;
        }
        if self.absolute != base.absolute || base.parts.len() > self.parts.len() {
            return false;
        }
        let mut i: usize = 0;
        while i < base.parts.len()
            invariant
                0 <= i <= base.parts@.len() <= self.parts@.len(),
                forall|j: int| 0 <= j < i ==> self.parts@[j]@ == base.parts@[j]@,
            decreases base.parts.len() - i,
        {
            if self.parts[i] != base.parts[i] {
                assert(views(self.parts@).take(base.parts@.len() as int)[i as int] != views(
                    base.parts@,
                )[i as int]);
                return false;
            }
            i = i + 1;
        }
        assert(views(self.parts@).take(base.parts@.len() as int) =~= views(base.parts@));
        true
    }

    /// `Path::strip_prefix`.
    pub fn strip_prefix(&self, base: &BmsPath) -> (r: Option<BmsPath>)
        ensures
            match r {
                Some(p) => self@.strip_prefix(base@) == Some(p@),
                None => self@.strip_prefix(base@) is None,
            },
    {
        if !base.absolute && base.parts.len() == 0 {
            return Some(self.duplicate());
        }
        if !self.starts_with(base) {
            return None;
        }
        let mut parts: Vec<String> = Vec::new();
        let mut i: usize = base.parts.len();
        let ghost b = base.parts@.len() as int;
        while i < self.parts.len()
            invariant
                b <= i <= self.parts@.len(),
                b == base.parts@.len(),
                views(parts@) == views(self.parts@).subrange(b, i as int),
            decreases self.parts.len() - i,
        {
            let x = self.parts[i].clone();
            proof {
                lemma_views_push(parts@, x);
            }
            parts.push(x);
            i = i + 1;
            assert(views(parts@) =~= views(self.parts@).subrange(b, i as int));
        }
        assert(views(self.parts@).subrange(b, i as int) =~= views(self.parts@).skip(b));
        Some(BmsPath { absolute: false, parts })
    }

    /// `PathBuf::pop`: truncates to the parent; `false` when there is none.
    pub fn pop(&mut self) -> (r: bool)
        ensures
            r == old(self)@.parent() is Some,
            r ==> final(self)@ == old(self)@.parent().unwrap(),
            !r ==> final(self)@ == old(self)@,
    {
        if self.parts.len() == 0 {
            return false;
        }
        self.parts.pop();
        assert(views(self.parts@) =~= views(old(self).parts@).drop_last());
        true
    }

    /// Path equality (component-wise, as `Path`'s `==`).
    pub fn same_as(&self, other: &BmsPath) -> (r: bool)
        ensures
            r == (self@ == other@),
    {
        if self.parts.len() != other.parts.len() {
            proof {
                if self@ == other@ {
                    assert(views(self.parts@).len() == views(other.parts@).len());
                }
            }
            return false;
        }
        let r = self.absolute == other.absolute && self.starts_with(other);
        proof {
            assert(views(self.parts@).take(other.parts@.len() as int) =~= views(self.parts@));
            if r {
                assert(self@.parts =~= other@.parts);
            }
            if self@ == other@ {
                assert(self@.starts_with(other@));
            }
        }
        r
    }

    /// The components of the path string `s`, as `Path::new(s)`.
    pub fn parse(s: &str) -> (r: BmsPath)
        ensures
            r@ == parse_path(s@),
    {
        let c = chars_of(s);
        let absolute = c.len() > 0 && c[0] == '/';
        let pieces = split_chars(&c, '/');
        let ghost sp = split_on(s@, '/');
        proof {
            lemma_split_on_nonempty(s@, '/');
        }
        let d = dot_chars();
        let mut parts: Vec<String> = Vec::new();
        let lead_dot = !absolute && chars_eq(&pieces[0], &d);
        if lead_dot {
            let x = part_of(&d);
            proof {
                lemma_views_push(parts@, x);
            }
            parts.push(x);
        }
        let ghost pred = |p: Seq<char>| p.len() > 0 && p != dot();
        let ghost head: Seq<Seq<char>> = if lead_dot { seq![dot()] } else { Seq::empty() };
        proof {
            assert(views(parts@) =~= head + sp.take(0).filter(pred));
        }
        let mut i: usize = 0;
        while i < pieces.len()
            invariant
                0 <= i <= pieces@.len(),
                pieces@.len() == sp.len(),
                forall|k: int| 0 <= k < pieces@.len() ==> #[trigger] pieces@[k]@ == sp[k],
                d@ == dot(),
                pred == (|p: Seq<char>| p.len() > 0 && p != dot()),
                views(parts@) == head + sp.take(i as int).filter(pred),
            decreases pieces.len() - i,
        {
            assert(pieces@[i as int]@ == sp[i as int]);
            let nonempty = pieces[i].len() > 0;
            let is_dot = chars_eq(&pieces[i], &d);
            assert(nonempty == (sp[i as int].len() > 0));
            assert(is_dot == (sp[i as int] == dot()));
            let keep = nonempty && !is_dot;
            proof {
                let t = sp.take(i + 1);
                assert(t.drop_last() =~= sp.take(i as int));
                assert(t.last() == sp[i as int]);
                assert(keep == pred(sp[i as int]));
                reveal_with_fuel(Seq::filter, 1);
                assert(t.filter(pred) == if pred(sp[i as int]) {
                    sp.take(i as int).filter(pred).push(sp[i as int])
                } else {
                    sp.take(i as int).filter(pred)
                });
            }
            if keep {
                let x = part_of(&pieces[i]);
                proof {
                    lemma_views_push(parts@, x);
                }
                parts.push(x);
            }
            i = i + 1;
            proof {
                assert(views(parts@) =~= head + sp.take(i as int).filter(pred));
            }
        }
        proof {
            assert(sp.take(i as int) =~= sp);
            assert(pieces@[0]@ == sp[0]);
            assert(views(parts@) =~= parse_path(s@).parts);
        }
        BmsPath { absolute, parts }
    }
}

} // verus!
