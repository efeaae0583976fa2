use bms_get::download::{
    download_event_entry, download_md5, download_table_entry, seed_of, BatchTally, DownloadAction,
    Md5Download, Need, UrlWalker, Waiting,
};
use bms_get::event::EventEntry;
use bms_get::parser::ParseResult;
use bms_get::path::BmsPath;
use bms_get::provider::{BmsUrl, ProviderKind, SeedProvider};
use bms_get::table::BmsData;

fn strs(v: &[&str]) -> Vec<String> {
    v.iter().map(|s| s.to_string()).collect()
}

fn urls(main: &[&str], diff: &[&str]) -> BmsUrl {
    BmsUrl { main_urls: strs(main), diff_urls: strs(diff) }
}

fn parse_url_of(a: &DownloadAction) -> String {
    match a {
        DownloadAction::ParseUrl { url } => url.clone(),
        other => panic!("expected ParseUrl, got {:?}", other),
    }
}

fn find_urls_of(a: &DownloadAction) -> ProviderKind {
    match a {
        DownloadAction::FindUrls { provider } => *provider,
        other => panic!("expected FindUrls, got {:?}", other),
    }
}

#[test]
fn walker_tries_each_url_once() {
    let mut w = UrlWalker::new(&strs(&["a", "b", "a"]));
    assert_eq!(w.next_to_parse(), Some("a".to_string()));
    w.add_links(strs(&["b", "c"]));
    assert_eq!(w.next_to_parse(), Some("b".to_string()));
    assert_eq!(w.next_to_parse(), Some("c".to_string()));
    assert_eq!(w.next_to_parse(), None);
    assert_eq!(w.attempted, strs(&["a", "b", "c"]));
    w.reset(&strs(&["c", "d"]));
    assert_eq!(w.next_to_parse(), Some("d".to_string()));
    assert_eq!(w.next_to_parse(), None);
}

#[test]
fn md5_download_searches_diff_then_main() {
    let (mut m, a) = download_md5("0123");
    assert_eq!(m.md5, "0123");
    assert!(m.seed.main_urls.is_empty() && m.seed.diff_urls.is_empty());
    assert_eq!(find_urls_of(&a), ProviderKind::Seed);
    assert_eq!(m.need, Need::Diff);

    let a = m.on_urls(Some(urls(&[], &[])));
    assert_eq!(find_urls_of(&a), ProviderKind::BmsSearch);
    let a = m.on_urls(None);
    assert_eq!(find_urls_of(&a), ProviderKind::Lr2IrArchive);

    let a = m.on_urls(Some(urls(&["m0"], &["u1", "u1", "u2"])));
    assert_eq!(parse_url_of(&a), "u1");
    assert_eq!(m.waiting, Waiting::Parse);

    let a = m.on_parsed(Some(ParseResult::Links(strs(&["u2", "u3"]))));
    assert_eq!(parse_url_of(&a), "u2");

    let a = m.on_parsed(Some(ParseResult::File("f2".to_string())));
    assert!(matches!(a, DownloadAction::Fetch { ref url } if url == "f2"));
    assert_eq!(m.waiting, Waiting::Fetch);

    let a = m.on_fetched(None);
    assert_eq!(parse_url_of(&a), "u3");

    let a = m.on_parsed(None);
    assert_eq!(find_urls_of(&a), ProviderKind::Seed);
    assert_eq!(m.need, Need::Main);
    assert_eq!(m.provider, 0);

    let a = m.on_urls(Some(urls(&["u1", "m1"], &[])));
    assert_eq!(parse_url_of(&a), "m1");

    let a = m.on_parsed(Some(ParseResult::File("m1".to_string())));
    assert!(matches!(a, DownloadAction::Fetch { .. }));
    let a = m.on_fetched(Some(BmsPath::parse("/out/m1.zip")));
    match &a {
        DownloadAction::Install { archive } => assert_eq!(archive.parts, strs(&["out", "m1.zip"])),
        other => panic!("expected Install, got {:?}", other),
    }
    let a = m.on_installed(true, false);
    assert!(matches!(a, DownloadAction::Finished { complete: false }));
    assert_eq!(m.waiting, Waiting::Done);
}

fn at_install(m: &mut Md5Download) {
    let a = m.on_urls(Some(urls(&[], &["d1", "d2"])));
    assert_eq!(parse_url_of(&a), "d1");
    m.on_parsed(Some(ParseResult::File("d1".to_string())));
    let a = m.on_fetched(Some(BmsPath::parse("/o/d1.zip")));
    assert!(matches!(a, DownloadAction::Install { .. }));
}

#[test]
fn complete_chart_finishes() {
    let (mut m, _) = download_md5("x");
    at_install(&mut m);
    let a = m.on_installed(true, true);
    assert!(matches!(a, DownloadAction::Finished { complete: true }));
}

#[test]
fn missing_chart_goes_on_with_next_url() {
    let (mut m, _) = download_md5("x");
    at_install(&mut m);
    let a = m.on_installed(false, true);
    assert_eq!(parse_url_of(&a), "d2");
    assert_eq!(m.need, Need::Diff);
}

#[test]
fn incomplete_diff_moves_to_main_phase() {
    let (mut m, _) = download_md5("x");
    at_install(&mut m);
    let a = m.on_installed(true, false);
    assert_eq!(find_urls_of(&a), ProviderKind::Seed);
    assert_eq!(m.need, Need::Main);
}

#[test]
fn install_failure_ends_download() {
    let (mut m, _) = download_md5("x");
    at_install(&mut m);
    assert!(matches!(m.on_install_failed(), DownloadAction::Failed));
    assert_eq!(m.waiting, Waiting::Done);
}

#[test]
fn nothing_found_anywhere_fails() {
    let (mut m, _) = download_md5("x");
    let mut a = m.on_urls(None);
    let mut steps = 0;
    while let DownloadAction::FindUrls { .. } = a {
        a = m.on_urls(None);
        steps += 1;
    }
    assert_eq!(steps, 5);
    assert!(matches!(a, DownloadAction::Finished { complete: false }));
}

#[test]
fn never_asks_twice_for_one_url() {
    let (mut m, mut a) = download_md5("x");
    let mut asked: Vec<String> = Vec::new();
    let mut round = 0;
    loop {
        a = match a {
            DownloadAction::FindUrls { .. } => m.on_urls(Some(urls(&["s", "t"], &["s", "u"]))),
            DownloadAction::ParseUrl { url } => {
                assert!(!asked.contains(&url));
                asked.push(url);
                round += 1;
                m.on_parsed(Some(ParseResult::Links(strs(&["s", "t", "u", "v"]))))
            },
            DownloadAction::Finished { complete } => {
                assert!(!complete);
                break;
            },
            other => panic!("unexpected {:?}", other),
        };
    }
    assert_eq!(round, 4);
}

#[test]
fn table_entry_is_seeded() {
    let bms = BmsData {
        md5: "abc".to_string(),
        level: "3".to_string(),
        title: Some("t".to_string()),
        artist: None,
        main_url: Some("https://x/main.zip".to_string()),
        diff_url: None,
    };
    let seed = seed_of(&bms);
    assert_eq!(seed.main_urls, strs(&["https://x/main.zip"]));
    assert!(seed.diff_urls.is_empty());
    let (mut m, a) = download_table_entry(&bms);
    assert_eq!(m.md5, "abc");
    assert_eq!(find_urls_of(&a), ProviderKind::Seed);
    let found = SeedProvider::new(m.seed.duplicate()).find_urls();
    assert_eq!(found.main_urls, strs(&["https://x/main.zip"]));
    let a = m.on_urls(Some(found));
    assert_eq!(find_urls_of(&a), ProviderKind::BmsSearch);
}

#[test]
fn event_entry_downloads_every_file() {
    let entry = EventEntry { urls: strs(&["a", "b", "a"]) };
    let (mut d, a) = download_event_entry(&entry);
    assert_eq!(parse_url_of(&a), "a");
    let a = d.on_parsed(Some(ParseResult::File("fa".to_string())));
    assert!(matches!(a, DownloadAction::Fetch { .. }));
    let a = d.on_fetched(Some(BmsPath::parse("/o/fa.zip")));
    assert!(matches!(a, DownloadAction::Install { .. }));
    let a = d.on_installed();
    assert_eq!(parse_url_of(&a), "b");
    let a = d.on_parsed(None);
    assert!(matches!(a, DownloadAction::Finished { complete: true }));
}

#[test]
fn event_entry_without_downloads_fails() {
    let (_d, a) = download_event_entry(&EventEntry { urls: vec![] });
    assert!(matches!(a, DownloadAction::Finished { complete: false }));
    let (mut d, a) = download_event_entry(&EventEntry { urls: strs(&["a"]) });
    assert_eq!(parse_url_of(&a), "a");
    let a = d.on_parsed(Some(ParseResult::File("fa".to_string())));
    assert!(matches!(a, DownloadAction::Fetch { .. }));
    let a = d.on_fetched(None);
    assert!(matches!(a, DownloadAction::Finished { complete: false }));
}

#[test]
fn batch_fails_when_any_entry_fails() {
    let mut t = BatchTally::new();
    t.record(true);
    t.record(true);
    assert_eq!(t.outcome(), Ok(()));
    t.record(false);
    assert_eq!(t.succeeded, 2);
    assert_eq!(t.failed, 1);
    assert_eq!(t.outcome(), Err(1));
}
