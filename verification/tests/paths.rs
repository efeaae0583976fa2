use bms_get::path::BmsPath;
use bms_get::text::{chars_of, split_chars, string_of, trim_chars, trim_end_matching};

fn p(s: &str) -> BmsPath {
    BmsPath::parse(s)
}

fn strs(v: &[&str]) -> Vec<String> {
    v.iter().map(|s| s.to_string()).collect()
}

#[test]
fn parse_keeps_components_like_std_path() {
    let a = p("/music/songs/a.bms");
    assert!(a.absolute);
    assert_eq!(a.parts, strs(&["music", "songs", "a.bms"]));

    let b = p("./x//y/");
    assert!(!b.absolute);
    assert_eq!(b.parts, strs(&[".", "x", "y"]));

    let c = p("a/./b/../c");
    assert_eq!(c.parts, strs(&["a", "b", "..", "c"]));

    let root = p("/");
    assert!(root.absolute);
    assert!(root.parts.is_empty());
    assert_eq!(root.component_count(), 1);
    assert_eq!(p("").component_count(), 0);
}

#[test]
fn parent_and_file_name() {
    let a = p("songs/pack/a.bms");
    let parent = a.parent().unwrap();
    assert_eq!(parent.parts, strs(&["songs", "pack"]));
    assert_eq!(a.file_name(), Some("a.bms".to_string()));
    assert!(p("/").parent().is_none());
    assert_eq!(p("x/..").file_name(), None);
}

#[test]
fn extension_rules() {
    assert_eq!(p("pack.tar.gz").extension(), Some("gz".to_string()));
    assert_eq!(p(".bashrc").extension(), None);
    assert_eq!(p("noext").extension(), None);
    assert_eq!(p("a.").extension(), Some("".to_string()));
}

#[test]
fn with_extension_replaces_or_drops() {
    let z = p("out/song.zip");
    assert_eq!(z.with_extension("").parts, strs(&["out", "song"]));
    assert_eq!(z.with_extension("ogg").parts, strs(&["out", "song.ogg"]));
    assert_eq!(p("kick.WAV").with_extension("ogg").parts, strs(&["kick.ogg"]));
}

#[test]
fn join_and_prefixes() {
    let base = p("/lib/bms");
    let j = base.join(&p("pack/a.bms"));
    assert!(j.absolute);
    assert_eq!(j.parts, strs(&["lib", "bms", "pack", "a.bms"]));
    let abs = base.join(&p("/etc/x"));
    assert_eq!(abs.parts, strs(&["etc", "x"]));
    assert!(j.starts_with(&base));
    assert!(!base.starts_with(&j));
    assert!(!p("lib/bms").starts_with(&base));
    let rest = j.strip_prefix(&base).unwrap();
    assert!(!rest.absolute);
    assert_eq!(rest.parts, strs(&["pack", "a.bms"]));
    assert!(base.strip_prefix(&j).is_none());
}

#[test]
fn pop_removes_last_component() {
    let mut a = p("/a/b");
    assert!(a.pop());
    assert_eq!(a.parts, strs(&["a"]));
    assert!(a.pop());
    assert!(a.parts.is_empty());
    assert!(!a.pop());
    assert!(a.same_as(&p("/")));
    assert!(!a.same_as(&p("")));
}

#[test]
fn char_helpers() {
    let c = chars_of("  héllo.. ");
    assert_eq!(string_of(&c), "  héllo.. ");
    let t = trim_chars(&c);
    assert_eq!(string_of(&t), "héllo..");
    let u = trim_end_matching(&t, '.');
    assert_eq!(string_of(&u), "héllo");
    let parts = split_chars(&chars_of("a/b//c"), '/');
    let got: Vec<String> = parts.iter().map(|v| string_of(v)).collect();
    assert_eq!(got, strs(&["a", "b", "", "c"]));
}

#[test]
fn empty_relative_path_prefixes_every_path() {
    let empty = p("");
    assert!(p("/x/y").starts_with(&empty));
    assert!(p("/").starts_with(&empty));
    assert!(p("a").starts_with(&empty));
    assert!(!p("/x").starts_with(&p("x")));
    assert!(!p("x").starts_with(&p("/")));
    let rest = p("/x/y").strip_prefix(&empty).unwrap();
    assert!(rest.absolute);
    assert_eq!(rest.parts, strs(&["x", "y"]));
    let rel = p("/x/y").strip_prefix(&p("/")).unwrap();
    assert!(!rel.absolute);
    assert_eq!(rel.parts, strs(&["x", "y"]));
}
