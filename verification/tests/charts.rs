use bms_get::analyze::{chart_refs, digest_matches, find_chart, is_chart, split_command, ChartFile};
use bms_get::hashing::md5_hex;
use bms_get::path::BmsPath;
use bms_get::validation::{chart_directory, ref_lookups, resolve_ref_path, validate_md5, validate_ref};

fn p(s: &str) -> BmsPath {
    BmsPath::parse(s)
}

fn file(path: &str, data: &[u8]) -> ChartFile {
    ChartFile { path: p(path), data: data.to_vec() }
}

fn names(v: &[BmsPath]) -> Vec<Vec<String>> {
    let mut n: Vec<Vec<String>> = v.iter().map(|x| x.parts.clone()).collect();
    n.sort();
    n
}

#[test]
fn split_command_takes_key_and_trimmed_value() {
    assert_eq!(
        split_command("#WAV01 kick.wav"),
        Some(("#WAV01".to_string(), "kick.wav".to_string()))
    );
    assert_eq!(
        split_command("#TITLE\t My Song  "),
        Some(("#TITLE".to_string(), "My Song".to_string()))
    );
    assert_eq!(split_command("#WAV01"), None);
    assert_eq!(split_command("#WAV01   "), None);
    assert_eq!(split_command(""), None);
}

#[test]
fn chart_refs_collects_wav_and_bmp_once() {
    let text = "#WAV01 kick.wav\r\n#wav02 x.wav\n  #BMP01   bg.bmp  \n#WAV03 kick.wav\n#TITLE t\n#WAV04\n#BMP02 sub/img.png";
    let refs = chart_refs(text);
    assert_eq!(refs.len(), 3);
    assert_eq!(
        names(&refs),
        vec![
            vec!["bg.bmp".to_string()],
            vec!["kick.wav".to_string()],
            vec!["sub".to_string(), "img.png".to_string()],
        ]
    );
    assert!(chart_refs("").is_empty());
}

#[test]
fn chart_extensions_are_case_sensitive() {
    assert!(is_chart(&p("a/b.bms")));
    assert!(is_chart(&p("b.bme")));
    assert!(is_chart(&p("b.bml")));
    assert!(is_chart(&p("b.pms")));
    assert!(!is_chart(&p("b.BMS")));
    assert!(!is_chart(&p("b.bmson")));
    assert!(!is_chart(&p("bms")));
}

#[test]
fn find_chart_matches_md5_ignoring_case() {
    let data = b"#WAV01 kick.wav\n".to_vec();
    let md5 = md5_hex(&data);
    let files = vec![
        file("/lib/readme.txt", &data),
        file("/lib/pack/other.bms", b"#TITLE other"),
        file("/lib/pack/a.bms", &data),
        file("/lib/pack/b.bme", &data),
    ];
    assert_eq!(find_chart(&files, &md5), Some(2));
    assert_eq!(find_chart(&files, &md5.to_uppercase()), Some(2));
    assert_eq!(find_chart(&files, "00000000000000000000000000000000"), None);
    assert!(validate_md5(&md5, &files));
    let no_chart = vec![file("/lib/readme.txt", &data), file("/lib/pack/other.bms", b"#TITLE other")];
    assert!(!validate_md5(&md5, &no_chart));
}

#[test]
fn digest_matches_needs_chart_extension() {
    let d = [0xd4u8, 0x1d, 0x8c, 0xd9];
    assert!(digest_matches(&p("a.bms"), &d, "D41D8CD9"));
    assert!(!digest_matches(&p("a.txt"), &d, "d41d8cd9"));
    assert!(!digest_matches(&p("a.bms"), &d, "d41d8cd8"));
}

#[test]
fn wav_reference_accepts_ogg() {
    let existing = vec![p("/lib/pack/kick.ogg"), p("/lib/pack/bg.bmp")];
    let r = resolve_ref_path(&p("/lib/pack/kick.wav"), &existing).unwrap();
    assert_eq!(r.parts, vec!["lib", "pack", "kick.ogg"]);
    let r = resolve_ref_path(&p("/lib/pack/kick.WAV"), &existing).unwrap();
    assert_eq!(r.parts, vec!["lib", "pack", "kick.ogg"]);
    let r = resolve_ref_path(&p("/lib/pack/bg.bmp"), &existing).unwrap();
    assert_eq!(r.parts, vec!["lib", "pack", "bg.bmp"]);
    assert!(resolve_ref_path(&p("/lib/pack/bg.png"), &existing).is_none());
    assert!(resolve_ref_path(&p("/lib/pack/snare.wav"), &existing).is_none());
}

#[test]
fn chart_directory_is_parent() {
    assert_eq!(chart_directory(&p("/lib/pack/a.bms")).parts, vec!["lib", "pack"]);
    assert!(chart_directory(&p("/")).absolute);
}

#[test]
fn validate_ref_needs_ninety_percent() {
    let data = b"#WAV01 kick.wav\n#WAV02 snare.wav\n#BMP01 bg.bmp\n".to_vec();
    let md5 = md5_hex(&data);
    let files = vec![file("/lib/pack/a.bms", &data)];
    let two = vec![p("/lib/pack/kick.ogg"), p("/lib/pack/bg.bmp")];
    assert!(!validate_ref(&md5, &files, &two));
    let three = vec![p("/lib/pack/kick.ogg"), p("/lib/pack/bg.bmp"), p("/lib/pack/snare.wav")];
    assert!(validate_ref(&md5, &files, &three));
    assert!(!validate_ref("ffffffffffffffffffffffffffffffff", &files, &three));
}

#[test]
fn validate_ref_boundary_at_ninety() {
    let mut text = String::new();
    for i in 0..10 {
        text.push_str(&format!("#WAV{:02} s{}.wav\n", i, i));
    }
    let data = text.into_bytes();
    let md5 = md5_hex(&data);
    let files = vec![file("/c/a.bms", &data)];
    let nine: Vec<BmsPath> = (0..9).map(|i| p(&format!("/c/s{}.wav", i))).collect();
    assert!(validate_ref(&md5, &files, &nine));
    let eight: Vec<BmsPath> = (0..8).map(|i| p(&format!("/c/s{}.wav", i))).collect();
    assert!(!validate_ref(&md5, &files, &eight));
}

#[test]
fn chart_without_refs_is_complete() {
    let data = b"#TITLE nothing".to_vec();
    let md5 = md5_hex(&data);
    let files = vec![file("/c/a.bms", &data)];
    assert!(validate_ref(&md5, &files, &vec![]));
}

#[test]
fn complete_references_imply_chart_present() {
    let data = b"#WAV01 a.wav\n".to_vec();
    let md5 = md5_hex(&data);
    let files = vec![file("/c/x.bms", &data)];
    let existing = vec![p("/c/a.wav")];
    assert!(validate_ref(&md5, &files, &existing));
    assert!(validate_md5(&md5, &files));
}

#[test]
fn lookups_cover_references_outside_the_chart_directory() {
    let data = b"#WAV01 kick.wav\n#BMP01 ../shared/bg.bmp\n#WAV02 /abs/s.WAV\n".to_vec();
    let md5 = md5_hex(&data);
    let files = vec![file("/lib/pack/a.bms", &data)];
    let looked = ref_lookups(&md5, &files);
    assert_eq!(
        names(&looked),
        vec![
            vec!["abs".to_string(), "s.WAV".to_string()],
            vec!["abs".to_string(), "s.ogg".to_string()],
            vec!["lib".to_string(), "pack".to_string(), "..".to_string(), "shared".to_string(), "bg.bmp".to_string()],
            vec!["lib".to_string(), "pack".to_string(), "kick.ogg".to_string()],
            vec!["lib".to_string(), "pack".to_string(), "kick.wav".to_string()],
        ]
    );
    let existing = vec![p("/lib/pack/../shared/bg.bmp"), p("/abs/s.ogg"), p("/lib/pack/kick.wav")];
    assert!(validate_ref(&md5, &files, &existing));
    assert!(!validate_ref(&md5, &files, &existing[..1].iter().map(|x| p(&format!("/{}", x.parts.join("/")))).collect()));
    assert!(ref_lookups("00", &files).is_empty());
}
