use bms_get::filename::{choose_filename, get_filename_from_header, get_filename_from_url, sanitize, save_path};
use bms_get::hashing::{md5_hex, sha256_hex};
use bms_get::path::BmsPath;

#[test]
fn sanitize_replaces_forbidden_characters() {
    assert_eq!(sanitize("a/b:c*d?.zip"), "a_b_c_d_.zip");
    assert_eq!(sanitize("x\u{7}y<>|\"\\.rar"), "x_y_____.rar");
}

#[test]
fn sanitize_trims_spaces_and_trailing_dots() {
    assert_eq!(sanitize("  song.zip...  "), "song.zip");
    assert_eq!(sanitize("name. . "), "name. ");
}

#[test]
fn sanitize_falls_back_when_nothing_is_left() {
    assert_eq!(sanitize(""), "downloaded_file");
    assert_eq!(sanitize("  ...  "), "downloaded_file");
    assert_eq!(sanitize(" "), "downloaded_file");
}

#[test]
fn filename_from_url_takes_last_segment() {
    assert_eq!(
        get_filename_from_url("https://example.com/files/song%20pack.zip?dl=1"),
        Some("song%20pack.zip".to_string())
    );
    assert_eq!(get_filename_from_url("https://example.com/download"), None);
    assert_eq!(get_filename_from_url("https://example.com/dir/"), None);
    assert_eq!(get_filename_from_url("a.b"), Some("a.b".to_string()));
}

#[test]
fn filename_from_url_limits_length() {
    let long = format!("https://h/{}.zip", "x".repeat(96));
    assert_eq!(get_filename_from_url(&long), None);
    let short = format!("https://h/{}.zip", "x".repeat(95));
    assert_eq!(get_filename_from_url(&short), Some(format!("{}.zip", "x".repeat(95))));
    let wide = format!("https://h/{}.z", "あ".repeat(33));
    assert_eq!(get_filename_from_url(&wide), None);
}

#[test]
fn filename_from_header_reads_disposition() {
    assert_eq!(
        get_filename_from_header("attachment; filename=\"track 01.zip\""),
        Some("track 01.zip".to_string())
    );
    assert_eq!(
        get_filename_from_header("attachment; filename=a:b.rar; size=3"),
        Some("a_b.rar".to_string())
    );
    assert_eq!(get_filename_from_header("inline"), None);
}

#[test]
fn header_wins_over_url() {
    assert_eq!(
        choose_filename(Some("attachment; filename=\"h.zip\""), "https://x/u.rar"),
        Some("h.zip".to_string())
    );
    assert_eq!(choose_filename(Some("inline"), "https://x/u.rar"), Some("u.rar".to_string()));
    assert_eq!(choose_filename(None, "https://x/u"), None);
}

#[test]
fn saved_under_output_dir() {
    let out = BmsPath::parse("/data/out");
    let p = save_path(&out, "song.zip");
    assert!(p.absolute);
    assert_eq!(p.parts, vec!["data".to_string(), "out".to_string(), "song.zip".to_string()]);
    assert!(p.starts_with(&out));
}

#[test]
fn digests_in_hex() {
    assert_eq!(md5_hex(b""), "d41d8cd98f00b204e9800998ecf8427e");
    assert_eq!(md5_hex(b"abc"), "900150983cd24fb0d6963f7d28e17f72");
    assert_eq!(
        sha256_hex(b"abc"),
        "ba7816bf8f01cfea414140de5dae2223b00361a396177a9cb410ff61f20015ad"
    );
}

#[test]
fn sanitized_name_is_one_plain_component() {
    assert_eq!(sanitize(".."), "downloaded_file");
    assert_eq!(sanitize("."), "downloaded_file");
    let name = sanitize("../../etc/passwd");
    assert_eq!(name, ".._.._etc_passwd");
    let out = BmsPath::parse("/data/out");
    let p = save_path(&out, &name);
    assert!(p.starts_with(&out));
    assert_eq!(p.parts.len(), out.parts.len() + 1);
}
