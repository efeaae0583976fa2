//! A content-addressed store: each file is kept once under the hex SHA-256
//! of its contents, and packages hard-link to the stored copies.

use vstd::prelude::*;
use crate::hashing::{hex_lower, sha256_hex, sha256_of};
use crate::path::{lemma_views_push, parse_path, BmsPath, PathView};

verus! {

/// What to do with a package file once its stored path is known.
#[derive(PartialEq, Eq, Structural, Clone, Copy, Debug)]
pub enum StoreStep {
    /// The store already holds these contents: delete the file, then link it.
    RemoveDuplicate,
    /// New contents: move the file into the store, then link it back.
    MoveIntoStore,
}

/// The stored copy of contents `data`: the hex SHA-256 of the contents as a
/// file name in `files_dir`.
pub open spec fn stored_at(files_dir: PathView, data: Seq<u8>) -> PathView {
    PathView { absolute: files_dir.absolute, parts: files_dir.parts.push(hex_lower(sha256_of(data))) }
}

/// Where contents `data` are stored (see `stored_at`).
pub fn stored_path(files_dir: &BmsPath, data: &[u8]) -> (r: BmsPath)
    ensures
        r@ == stored_at(files_dir@, data@),
{
    let name = sha256_hex(data);
    let mut p = files_dir.duplicate();
    proof {
        lemma_views_push(p.parts@, name);
    }
    p.parts.push(name);
    p
}

/// Whether a package file is a duplicate of stored contents.
pub fn store_step(stored_exists: bool) -> (r: StoreStep)
    ensures
        r == if stored_exists {
            StoreStep::RemoveDuplicate
        } else {
            StoreStep::MoveIntoStore
        },
{
    if stored_exists {
        StoreStep::RemoveDuplicate
    } else {
        StoreStep::MoveIntoStore
    }
}

/// Where a save puts things under `output`: the file store `output/files`
/// and the package directory `output/packages`.
pub fn store_dirs(output: &BmsPath) -> (r: (BmsPath, BmsPath))
    ensures
        r.0@ == output@.join(parse_path("files"@)),
        r.1@ == output@.join(parse_path("packages"@)),
{
    let files = BmsPath::parse("files");
    let packages = BmsPath::parse("packages");
    (output.join(&files), output.join(&packages))
}

/// Where the package `name` is moved once its files are stored:
/// `output/packages/name`.
pub fn package_path(output: &BmsPath, name: &BmsPath) -> (r: BmsPath)
    ensures
        r@ == output@.join(parse_path("packages"@)).join(name@),
{
    let (_files, packages) = store_dirs(output);
    packages.join(name)
}

/// Files with the same contents share one stored copy, directly inside
/// the store directory.
pub proof fn lemma_same_contents_same_copy(files_dir: PathView, a: Seq<u8>, b: Seq<u8>)
    requires
        a == b,
    ensures
        stored_at(files_dir, a) == stored_at(files_dir, b),
        stored_at(files_dir, a).parent() == Some(files_dir),
{
    assert(stored_at(files_dir, a).parts.drop_last() =~= files_dir.parts);
}

} // verus!
