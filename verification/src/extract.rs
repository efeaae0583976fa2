//! Choosing an extractor for a downloaded file and planning where its
//! contents go. The unpacking itself (zip, rar, moving a chart) is done by
//! the caller; this module decides which extractor applies, where the
//! extracted files land, and which archive entries are safe.

use vstd::prelude::*;
use crate::path::{dot, dot_dot, lemma_views_push, views, BmsPath, PathView};
use crate::text::{ascii_lower, chars_eq, chars_of};

verus! {

/// What an extraction produced: the archive, the directory it was unpacked
/// into, and the paths of the unpacked entries.
#[derive(Debug)]
pub struct ExtractResult {
    pub archive_path: BmsPath,
    pub target_dir: BmsPath,
    pub extracted_paths: Vec<BmsPath>,
}

/// The values of a list of paths.
pub open spec fn path_views(v: Seq<BmsPath>) -> Seq<PathView> {
    v.map_values(|p: BmsPath| p@)
}

/// Pushing a path pushes its value.
pub proof fn lemma_path_views_push(s: Seq<BmsPath>, x: BmsPath)
    ensures
        path_views(s.push(x)) == path_views(s).push(x@),
{
    assert(path_views(s.push(x)) =~= path_views(s).push(x@));
}

/// `str::to_lowercase` of `s`.
pub uninterp spec fn lowercase(s: Seq<char>) -> Seq<char>;

/// `str::to_lowercase`: the Unicode lower-case form of `s`. The contract
/// names it and states what holds for ASCII text (each letter lowered,
/// everything else kept).
#[verifier::external_body]
pub(crate) fn to_lowercase(s: &str) -> (r: String)
    ensures
        r@ == lowercase(s@),
        (forall|i: int| 0 <= i < s@.len() ==> #[trigger] s@[i] <= '\u{7f}') ==> r@ == s@.map_values(
            |c: char| ascii_lower(c),
        ),
{
    s.to_lowercase()
}

/// Why a file could not be extracted.
#[derive(PartialEq, Eq, Structural, Clone, Copy, Debug)]
pub enum ExtractError {
    /// The file has no extension.
    InvalidExtension,
    /// No extractor handles the extension.
    NoExtractorFound,
    /// The chart path has no file name.
    InvalidFilename,
    /// An archive entry is absolute or climbs out with `..`.
    UnsafeEntry,
}

/// The extractors, in the order they are consulted.
#[derive(PartialEq, Eq, Structural, Clone, Copy, Debug)]
pub enum ExtractorKind {
    Zip,
    Rar,
    Chart,
}

/// Extensions of files the chart extractor moves as they are.
pub open spec fn chart_file_exts() -> Seq<Seq<char>> {
    seq!["bms"@, "bme"@, "bml"@, "pms"@, "bmson"@]
}

/// Whether the extractor handles a (lower-case) extension.
pub open spec fn handles(kind: ExtractorKind, ext: Seq<char>) -> bool {
    match kind {
        ExtractorKind::Zip => ext == "zip"@,
        ExtractorKind::Rar => ext == "rar"@,
        ExtractorKind::Chart => chart_file_exts().contains(ext),
    }
}

/// The extractor for a file: the first of zip, rar, chart that handles the
/// lower-cased extension.
pub open spec fn extractor_for(path: PathView) -> Result<ExtractorKind, ExtractError> {
    match path.extension() {
        None => Err(ExtractError::InvalidExtension),
        Some(e) => {
            let l = lowercase(e);
            if handles(ExtractorKind::Zip, l) {
                Ok(ExtractorKind::Zip)
            } else if handles(ExtractorKind::Rar, l) {
                Ok(ExtractorKind::Rar)
            } else if handles(ExtractorKind::Chart, l) {
                Ok(ExtractorKind::Chart)
            } else {
                Err(ExtractError::NoExtractorFound)
            }
        },
    }
}

/// An archive entry that stays below the extraction directory: relative,
/// without `..`.
pub open spec fn is_safe_entry(p: PathView) -> bool {
    !p.absolute && forall|i: int| 0 <= i < p.parts.len() ==> #[trigger] p.parts[i] != dot_dot()
}

fn word_eq(s: &[char], w: &str) -> (r: bool)
    ensures
        r == (s@ == w@),
{
    let c = chars_of(w);
    chars_eq(s, &c)
}

/// Zip archives.
pub struct ZipExtractor;

/// Rar archives.
pub struct RarExtractor;

/// Single chart files, moved as they are.
pub struct ChartExtractor;

impl ZipExtractor {
    /// Whether the extractor handles the (lower-case) extension.
    pub fn can_handle(&self, ext: &str) -> (r: bool)
        ensures
            r == handles(ExtractorKind::Zip, ext@),
    {
        word_eq(&chars_of(ext), "zip")
    }
}

impl RarExtractor {
    /// Whether the extractor handles the (lower-case) extension.
    pub fn can_handle(&self, ext: &str) -> (r: bool)
        ensures
            r == handles(ExtractorKind::Rar, ext@),
    {
        word_eq(&chars_of(ext), "rar")
    }

    /// Where an archive entry is written: below `target_dir`. An error for
    /// an absolute entry or one with a `..` component.
    pub fn entry_path(target_dir: &BmsPath, entry: &BmsPath) -> (r: Result<BmsPath, ExtractError>)
        ensures
            is_safe_entry(entry@) ==> (r matches Ok(p) && p@ == target_dir@.join(entry@)),
            !is_safe_entry(entry@) ==> r == Err::<BmsPath, ExtractError>(ExtractError::UnsafeEntry),
    {
        if entry.absolute {
            return Err(ExtractError::UnsafeEntry);
        }
        let dd = chars_of("..");
        proof {
            reveal_strlit("..");
            assert(dd@ =~= dot_dot());
        }
        let mut i: usize = 0;
        while i < entry.parts.len()
            invariant
                0 <= i <= entry.parts@.len(),
                dd@ == dot_dot(),
                forall|j: int| 0 <= j < i ==> #[trigger] views(entry.parts@)[j] != dot_dot(),
            decreases entry.parts.len() - i,
        {
            let c = chars_of(entry.parts[i].as_str());
            if chars_eq(&c, &dd) {
                assert(entry@.parts[i as int] == dot_dot());
                return Err(ExtractError::UnsafeEntry);
            }
            i = i + 1;
        }
        Ok(target_dir.join(entry))
    }
}

impl ChartExtractor {
    /// Whether the extractor handles the (lower-case) extension.
    pub fn can_handle(&self, ext: &str) -> (r: bool)
        ensures
            r == handles(ExtractorKind::Chart, ext@),
    {
        let c = chars_of(ext);
        let r = word_eq(&c, "bms") || word_eq(&c, "bme") || word_eq(&c, "bml") || word_eq(&c, "pms")
            || word_eq(&c, "bmson");
        proof {
            let e = chart_file_exts();
            if r {
                if c@ == "bms"@ { assert(e[0] == c@); }
                if c@ == "bme"@ { assert(e[1] == c@); }
                if c@ == "bml"@ { assert(e[2] == c@); }
                if c@ == "pms"@ { assert(e[3] == c@); }
                if c@ == "bmson"@ { assert(e[4] == c@); }
            } else if e.contains(c@) {
                let k = choose|k: int| 0 <= k < e.len() && e[k] == c@;
                assert(0 <= k < 5);
            }
        }
        r
    }

    /// Where a chart file is moved: its file name inside `target_dir`.
    pub fn target_path(chart_path: &BmsPath, target_dir: &BmsPath) -> (r: Result<BmsPath, ExtractError>)
        ensures
            match chart_path@.file_name() {
                Some(n) => r matches Ok(p) && p@ == (PathView {
                    absolute: target_dir@.absolute,
                    parts: target_dir@.parts.push(n),
                }),
                None => r == Err::<BmsPath, ExtractError>(ExtractError::InvalidFilename),
            },
    {
        match chart_path.file_name() {
            None => Err(ExtractError::InvalidFilename),
            Some(n) => {
                let mut p = target_dir.duplicate();
                proof {
                    lemma_views_push(p.parts@, n);
                }
                p.parts.push(n);
                Ok(p)
            },
        }
    }
}

/// Chooses the extractor for a file (see `extractor_for`).
pub fn find_extractor(path: &BmsPath) -> (r: Result<ExtractorKind, ExtractError>)
    ensures
        r == extractor_for(path@),
        forall|e: Seq<char>|
            path@.extension() == Some(e) && (forall|i: int| 0 <= i < e.len() ==> #[trigger] e[i]
                <= '\u{7f}') ==> #[trigger] lowercase(e) == e.map_values(|c: char| ascii_lower(c)),
{
    let ext = match path.extension() {
        None => {
            return Err(ExtractError::InvalidExtension);
        },
        Some(e) => e,
    };
    let lower = to_lowercase(ext.as_str());
    if (ZipExtractor).can_handle(lower.as_str()) {
        Ok(ExtractorKind::Zip)
    } else if (RarExtractor).can_handle(lower.as_str()) {
        Ok(ExtractorKind::Rar)
    } else if (ChartExtractor).can_handle(lower.as_str()) {
        Ok(ExtractorKind::Chart)
    } else {
        Err(ExtractError::NoExtractorFound)
    }
}

/// The directory an archive is extracted into: its path without extension.
pub fn extract_target(path: &BmsPath) -> (r: BmsPath)
    ensures
        r@ == path@.with_extension(Seq::empty()),
{
    let r = path.with_extension("");
    assert(""@ =~= Seq::<char>::empty()) by {
        reveal_strlit("");
    }
    r
}

impl ExtractResult {
    /// The result of extracting `archive_path` into `target_dir`.
    pub fn new(archive_path: BmsPath, target_dir: BmsPath, extracted_paths: Vec<BmsPath>) -> (r: ExtractResult)
        ensures
            r.archive_path == archive_path,
            r.target_dir == target_dir,
            r.extracted_paths == extracted_paths,
    {
        ExtractResult { archive_path, target_dir, extracted_paths }
    }
}

/// An archive entry accepted by `RarExtractor::entry_path` is written
/// inside the extraction directory.
pub proof fn lemma_safe_entry_stays_inside(target_dir: PathView, entry: PathView)
    requires
        is_safe_entry(entry),
    ensures
        target_dir.join(entry).starts_with(target_dir),
{
    let j = target_dir.join(entry);
    assert(j.parts.take(target_dir.parts.len() as int) =~= target_dir.parts);
}

/// The chart extractor handles exactly the extensions `bms`, `bme`, `bml`,
/// `pms` and `bmson`, and a file whose lower-cased extension is one of them
/// is extracted as a chart.
pub proof fn lemma_chart_extensions(path: PathView, e: Seq<char>)
    ensures
        handles(ExtractorKind::Chart, e) <==> (e == "bms"@ || e == "bme"@ || e == "bml"@ || e == "pms"@
            || e == "bmson"@),
        path.extension() matches Some(x) && (lowercase(x) == "bms"@ || lowercase(x) == "bme"@
            || lowercase(x) == "bml"@ || lowercase(x) == "pms"@ || lowercase(x) == "bmson"@)
            ==> extractor_for(path) == Ok::<ExtractorKind, ExtractError>(ExtractorKind::Chart),
{
    reveal_strlit("bms");
    reveal_strlit("bme");
    reveal_strlit("bml");
    reveal_strlit("pms");
    reveal_strlit("bmson");
    reveal_strlit("zip");
    reveal_strlit("rar");
    let c = chart_file_exts();
    if c.contains(e) {
        let k = choose|k: int| 0 <= k < c.len() && c[k] == e;
        assert(0 <= k < 5);
    }
    if e == "bms"@ { assert(c[0] == e); }
    if e == "bme"@ { assert(c[1] == e); }
    if e == "bml"@ { assert(c[2] == e); }
    if e == "pms"@ { assert(c[3] == e); }
    if e == "bmson"@ { assert(c[4] == e); }
    if let Some(x) = path.extension() {
        let l = lowercase(x);
        if l == "bms"@ || l == "bme"@ || l == "bml"@ || l == "pms"@ || l == "bmson"@ {
            assert(l[0] == 'b' || l[0] == 'p');
            assert(l != "zip"@) by {
                assert("zip"@[0] == 'z');
            }
            assert(l != "rar"@) by {
                assert("rar"@[0] == 'r');
            }
            if l == "bms"@ { assert(c[0] == l); }
            if l == "bme"@ { assert(c[1] == l); }
            if l == "bml"@ { assert(c[2] == l); }
            if l == "pms"@ { assert(c[3] == l); }
            if l == "bmson"@ { assert(c[4] == l); }
            assert(handles(ExtractorKind::Chart, l));
        }
    }
}

} // verus!
