use bms_get::extract::{
    extract_target, find_extractor, ChartExtractor, ExtractError, ExtractResult, ExtractorKind,
    RarExtractor, ZipExtractor,
};
use bms_get::merge::{merge_dir_step, merge_entry_step, source_root, MergeStep};
use bms_get::organize::{
    common_ancestor, component_depth, has_extension, infer_root, merge_extract, shallowest_root,
    MergeAction,
};
use bms_get::path::BmsPath;
use bms_get::store::{package_path, store_dirs, store_step, stored_path, StoreStep};
use bms_get::text::chars_of;

fn p(s: &str) -> BmsPath {
    BmsPath::parse(s)
}

fn exts(v: &[&str]) -> Vec<Vec<char>> {
    v.iter().map(|e| chars_of(e)).collect()
}

fn result(target: &str, paths: &[&str]) -> ExtractResult {
    ExtractResult::new(
        p(&format!("{}.zip", target)),
        p(target),
        paths.iter().map(|x| p(x)).collect(),
    )
}

#[test]
fn extractor_chosen_by_lowercased_extension() {
    assert_eq!(find_extractor(&p("/dl/a.ZIP")), Ok(ExtractorKind::Zip));
    assert_eq!(find_extractor(&p("/dl/a.rar")), Ok(ExtractorKind::Rar));
    assert_eq!(find_extractor(&p("/dl/a.bmson")), Ok(ExtractorKind::Chart));
    assert_eq!(find_extractor(&p("/dl/a.Bme")), Ok(ExtractorKind::Chart));
    assert_eq!(find_extractor(&p("/dl/a.txt")), Err(ExtractError::NoExtractorFound));
    assert_eq!(find_extractor(&p("/dl/noext")), Err(ExtractError::InvalidExtension));
}

#[test]
fn can_handle_takes_lowercase_extensions() {
    assert!(ZipExtractor.can_handle("zip"));
    assert!(!ZipExtractor.can_handle("ZIP"));
    assert!(RarExtractor.can_handle("rar"));
    assert!(ChartExtractor.can_handle("pms"));
    assert!(!ChartExtractor.can_handle("wav"));
}

#[test]
fn archive_unpacks_next_to_itself() {
    let t = extract_target(&p("/out/song.pack.zip"));
    assert_eq!(t.parts, vec!["out", "song.pack"]);
    assert!(t.absolute);
}

#[test]
fn rar_entries_must_stay_inside() {
    let target = p("/out/song");
    let ok = RarExtractor::entry_path(&target, &p("a/b.wav")).unwrap();
    assert_eq!(ok.parts, vec!["out", "song", "a", "b.wav"]);
    assert!(matches!(RarExtractor::entry_path(&target, &p("../x")), Err(ExtractError::UnsafeEntry)));
    assert!(matches!(RarExtractor::entry_path(&target, &p("a/../../x")), Err(ExtractError::UnsafeEntry)));
    assert!(matches!(RarExtractor::entry_path(&target, &p("/etc/x")), Err(ExtractError::UnsafeEntry)));
}

#[test]
fn chart_file_moves_into_target() {
    let t = ChartExtractor::target_path(&p("/dl/a.bms"), &p("/dl/a")).unwrap();
    assert_eq!(t.parts, vec!["dl", "a", "a.bms"]);
    assert!(matches!(
        ChartExtractor::target_path(&p("/"), &p("/dl/a")),
        Err(ExtractError::InvalidFilename)
    ));
}

#[test]
fn extension_matching_ignores_ascii_case() {
    let e = exts(&["wav", "ogg"]);
    assert!(has_extension(&p("x/k.WAV"), &e));
    assert!(has_extension(&p("k.ogg"), &e));
    assert!(!has_extension(&p("k.mp3"), &e));
    assert!(!has_extension(&p("wav"), &e));
}

#[test]
fn depth_counts_components() {
    assert_eq!(component_depth(&p("a/b/c")), 3);
    assert_eq!(component_depth(&p("")), 0);
    assert_eq!(component_depth(&p("/a")), 2);
}

#[test]
fn common_ancestor_is_deepest_shared_directory() {
    let a = common_ancestor(vec![p("/t/a/b"), p("/t/a/c/d"), p("/t/a")]).unwrap();
    assert_eq!(a.parts, vec!["t", "a"]);
    assert!(common_ancestor(vec![]).is_none());
    let root = common_ancestor(vec![p("/x"), p("/y")]).unwrap();
    assert!(root.absolute && root.parts.is_empty());
    let rel = common_ancestor(vec![p("a/x"), p("b/y")]).unwrap();
    assert!(!rel.absolute && rel.parts.is_empty());
    assert!(common_ancestor(vec![p("/x"), p("y")]).is_none());
}

#[test]
fn root_is_shallowest_chart_directory() {
    let r = result("/dl/p", &["/dl/p/Pack/a.bms", "/dl/p/Pack/sub/b.bms", "/dl/p/Pack/kick.wav"]);
    let root = shallowest_root(&r, &exts(&["bms"])).unwrap();
    assert_eq!(root.parts, vec!["dl", "p", "Pack"]);
    assert_eq!(infer_root(&r).parts, vec!["dl", "p", "Pack"]);
}

#[test]
fn root_of_charts_in_sibling_directories_is_their_parent() {
    let r = result("/dl/p", &["/dl/p/A/a.bms", "/dl/p/B/b.BME"]);
    assert_eq!(infer_root(&r).parts, vec!["dl", "p"]);
}

#[test]
fn root_falls_back_to_audio_then_target() {
    let audio = result("/dl/p", &["/dl/p/S/k.ogg", "/dl/p/S/x/y.txt"]);
    assert_eq!(infer_root(&audio).parts, vec!["dl", "p", "S"]);
    let none = result("/dl/p", &["/dl/p/readme.txt"]);
    assert_eq!(infer_root(&none).parts, vec!["dl", "p"]);
    assert!(shallowest_root(&none, &exts(&["bms"])).is_none());
}

#[test]
fn first_extraction_fixes_bundle_root() {
    let mut bundle: Option<BmsPath> = None;
    let first = result("/dl/p", &["/dl/p/Pack/a.bms"]);
    assert!(matches!(merge_extract(&mut bundle, &first), MergeAction::Adopted));
    assert_eq!(bundle.as_ref().unwrap().parts, vec!["dl", "p", "Pack"]);

    let same = result("/dl/p", &["/dl/p/Pack/b.bms"]);
    assert!(matches!(merge_extract(&mut bundle, &same), MergeAction::SameRoot));

    let other = result("/dl/q", &["/dl/q/Diff/c.bms"]);
    match merge_extract(&mut bundle, &other) {
        MergeAction::Merge { source, target } => {
            assert_eq!(source.parts, vec!["dl", "q", "Diff"]);
            assert_eq!(target.parts, vec!["dl", "p", "Pack"]);
        },
        a => panic!("unexpected {:?}", a),
    }
    assert_eq!(bundle.unwrap().parts, vec!["dl", "p", "Pack"]);
}

#[test]
fn merge_steps() {
    assert_eq!(merge_dir_step(true, true, true), MergeStep::Recurse);
    assert_eq!(merge_dir_step(false, false, false), MergeStep::Move);
    assert_eq!(merge_dir_step(false, true, true), MergeStep::Skip);
    assert_eq!(merge_entry_step(false, true, true), MergeStep::Move);
    assert_eq!(merge_entry_step(true, true, true), MergeStep::Recurse);
    assert_eq!(merge_entry_step(true, true, false), MergeStep::Skip);
}

#[test]
fn single_wrapping_directory_is_unwrapped() {
    let src = p("/tmp/x");
    let one = vec![(p("/tmp/x/Pack"), true)];
    assert_eq!(source_root(&src, &one).parts, vec!["tmp", "x", "Pack"]);
    let file = vec![(p("/tmp/x/a.bms"), false)];
    assert_eq!(source_root(&src, &file).parts, vec!["tmp", "x"]);
    let two = vec![(p("/tmp/x/A"), true), (p("/tmp/x/B"), true)];
    assert_eq!(source_root(&src, &two).parts, vec!["tmp", "x"]);
    assert_eq!(source_root(&src, &vec![]).parts, vec!["tmp", "x"]);
}

#[test]
fn store_is_content_addressed() {
    let out = p("/lib");
    let (files, packages) = store_dirs(&out);
    assert_eq!(files.parts, vec!["lib", "files"]);
    assert_eq!(packages.parts, vec!["lib", "packages"]);
    let s = stored_path(&files, b"abc");
    assert_eq!(
        s.parts,
        vec![
            "lib".to_string(),
            "files".to_string(),
            "ba7816bf8f01cfea414140de5dae2223b00361a396177a9cb410ff61f20015ad".to_string()
        ]
    );
    assert_eq!(stored_path(&files, b"abc").parts, s.parts);
    assert_ne!(stored_path(&files, b"abd").parts, s.parts);
    assert_eq!(package_path(&out, &p("Song")).parts, vec!["lib", "packages", "Song"]);
    assert_eq!(store_step(true), StoreStep::RemoveDuplicate);
    assert_eq!(store_step(false), StoreStep::MoveIntoStore);
}

#[test]
fn mixed_paths_follow_popping_order() {
    let r = common_ancestor(vec![p("a"), p("/")]).unwrap();
    assert!(!r.absolute && r.parts.is_empty());
    let r = common_ancestor(vec![p("a"), p("/b")]).unwrap();
    assert!(!r.absolute && r.parts.is_empty());
    let r = common_ancestor(vec![p("y"), p("/x")]).unwrap();
    assert!(!r.absolute && r.parts.is_empty());
    assert!(common_ancestor(vec![p("/x"), p("y")]).is_none());
}

#[test]
fn root_search_with_empty_target_counts_absolute_roots() {
    let r = ExtractResult::new(p("p.zip"), p(""), vec![p("a/x.bms"), p("/y.bms")]);
    let root = shallowest_root(&r, &exts(&["bms"])).unwrap();
    assert!(!root.absolute && root.parts.is_empty());
    assert!(!infer_root(&r).absolute && infer_root(&r).parts.is_empty());
}
