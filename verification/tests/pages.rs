use bms_get::event::{get_scraper, url_list_url, EventError, ManbowEventScraper, ScraperKind};
use bms_get::parser::{
    drive_download_url, get_drive_id, is_html_content, parser_for, unparsed, DropboxParser,
    GDriveParser, ManbowParser, ParseResult, ParserError, ParserKind,
};
use bms_get::provider::{BmsSearchProvider, BmsUrl, Lr2IrArchiveProvider, ProviderError, ProviderKind, SeedProvider};
use bms_get::song::{self, BmsFileType, Lr2IrProvider};
use bms_get::table::{data_url, table_header_url, BmsData, Table, TableError};

fn strs(v: &[&str]) -> Vec<String> {
    v.iter().map(|s| s.to_string()).collect()
}

fn sjis(text: &str) -> Vec<u8> {
    encoding_rs::SHIFT_JIS.encode(text).0.into_owned()
}

#[test]
fn manbow_event_pages_are_recognised() {
    let url = "https://manbow.nothing.sh/event/event.cgi?action=List_def&event=146";
    assert_eq!(get_scraper(url), Some(ScraperKind::Manbow));
    assert!(ManbowEventScraper.can_handle(url));
    assert_eq!(get_scraper("https://manbow.nothing.sh/event/event.cgi?action=List_def"), None);
    assert_eq!(get_scraper("https://example.com/event/event.cgi?event=1"), None);
    assert_eq!(get_scraper("not a url"), None);
}

#[test]
fn url_list_url_rewrites_query() {
    assert_eq!(
        url_list_url("https://manbow.nothing.sh/event/event.cgi?action=List_def&event=146#top"),
        Ok("https://manbow.nothing.sh/event/event.cgi?action=URLList&event=146&end=999#top".to_string())
    );
    assert_eq!(
        url_list_url("https://manbow.nothing.sh/event/other.cgi?event=5"),
        Ok("https://manbow.nothing.sh/event/event.cgi?action=URLList&event=5&end=999".to_string())
    );
    assert_eq!(url_list_url("https://manbow.nothing.sh/x?a=1"), Err(EventError::EventIdNotFound));
    assert_eq!(url_list_url("::"), Err(EventError::InvalidUrl));
}

#[test]
fn url_list_entries_are_read_from_last_cell() {
    let page = "<html><body><table id=\"list\">\
        <tr><th>No</th><th>URL</th></tr>\
        <tr><td>1</td><td><a href=\"http://a/x.zip\">x</a> <a href=\"/rel.zip\">r</a>\
        <a href=\"http://a/x.zip\">dup</a><a href=\"ftp://f/z\">f</a><a>none</a></td></tr>\
        <tr><td>2</td><td>準備中</td></tr>\
        <tr><td>3</td><td><a href=\"https://b/y.rar\">y</a></td></tr>\
        </table></body></html>";
    let base = "https://manbow.nothing.sh/event/event.cgi?action=URLList&event=146&end=999";
    let entries = ManbowEventScraper::entries_from_page(&sjis(page), base).unwrap();
    assert_eq!(entries.len(), 2);
    assert_eq!(entries[0].urls, strs(&["http://a/x.zip", "https://manbow.nothing.sh/rel.zip"]));
    assert_eq!(entries[1].urls, strs(&["https://b/y.rar"]));
}

#[test]
fn url_list_falls_back_to_dllist_and_reports_missing_table() {
    let page = "<table id=\"dllist\"><tr><td><a href=\"https://c/z.zip\">z</a></td></tr></table>";
    let entries = ManbowEventScraper::entries_from_page(page.as_bytes(), "https://m/").unwrap();
    assert_eq!(entries.len(), 1);
    assert_eq!(entries[0].urls, strs(&["https://c/z.zip"]));
    let missing = ManbowEventScraper::entries_from_page(b"<p>no table</p>", "https://m/");
    assert!(matches!(missing, Err(EventError::TableNotFound)));
}

#[test]
fn dropbox_links_become_direct() {
    let p = DropboxParser;
    assert!(p.can_parse("https://www.dropbox.com/s/abc/file.zip?dl=0"));
    assert!(p.can_parse("https://www.dropbox.com/scl/fi/abc/file.zip?rlkey=k"));
    assert!(!p.can_parse("https://dropbox.com/s/abc/file.zip"));
    assert!(!p.can_parse("https://www.dropbox.com/home"));
    assert_eq!(
        p.parse("http://www.dropbox.com/s/abc/file.zip?dl=0#frag"),
        Ok(strs(&["https://dl.dropboxusercontent.com/s/abc/file.zip?dl=0"]))
    );
    assert_eq!(p.parse("nope"), Err(ParserError::InvalidUrl));
}

#[test]
fn drive_ids_and_urls() {
    assert!(GDriveParser.can_parse("https://drive.google.com/file/d/X/view"));
    assert_eq!(parser_for("https://drive.google.com/file/d/X/view"), Some(ParserKind::GDrive));
    assert_eq!(parser_for("https://example.com/a.zip"), None);
    assert_eq!(
        get_drive_id("https://drive.google.com/file/d/1AbC_-x/view?usp=sharing"),
        Some("1AbC_-x".to_string())
    );
    assert_eq!(get_drive_id("https://drive.google.com/open?id=XYZ"), Some("XYZ".to_string()));
    assert_eq!(get_drive_id("https://drive.google.com/drive/folders"), None);
    assert_eq!(
        drive_download_url("XYZ"),
        "https://drive.usercontent.google.com/download?id=XYZ&export=download&authuser=0"
    );
    assert!(is_html_content("text/html; charset=utf-8"));
    assert!(!is_html_content("application/octet-stream"));
    assert!(matches!(unparsed("https://e/a.zip"), ParseResult::File(ref f) if f == "https://e/a.zip"));
}

#[test]
fn drive_warning_page_gives_form_target() {
    let page = "<html><body><form id=\"download-form\" action=\"https://drive.usercontent.google.com/download\">\
        <input type=\"hidden\" name=\"id\" value=\"XYZ\">\
        <input type=\"hidden\" name=\"confirm\" value=\"t\">\
        <input type=\"submit\" value=\"Download anyway\">\
        </form></body></html>";
    assert_eq!(
        GDriveParser::links_from_page(page),
        Ok(strs(&["https://drive.usercontent.google.com/download?id=XYZ&confirm=t"]))
    );
    assert_eq!(GDriveParser::links_from_page("<p>hi</p>"), Err(ParserError::DownloadLinkNotFound));
}

#[test]
fn manbow_song_page_lists_download_addresses() {
    let page = "<table><tr><td>Title</td><td>曲名</td></tr>\
        <tr><td>DownLoadAddress</td><td><a href=\"http://x/a.zip\">a</a><a>no</a><a href=\"b.rar\">b</a></td></tr>\
        </table>";
    assert!(ManbowParser.can_parse("https://manbow.nothing.sh/event/event.cgi?action=More_def&num=1"));
    assert_eq!(ManbowParser::links_from_page(&sjis(page)), Ok(strs(&["http://x/a.zip", "b.rar"])));
    assert_eq!(ManbowParser::links_from_page(b"<table></table>"), Err(ParserError::NoDownloadAddress));
}

#[test]
fn providers_in_order() {
    assert_eq!(ProviderKind::Seed.name(), "Seed");
    assert_eq!(ProviderKind::BmsSearch.name(), "BMS SEARCH API");
    assert_eq!(ProviderKind::Lr2IrArchive.name(), "LR2IR Archive");
    let seed = SeedProvider::new(BmsUrl { main_urls: strs(&["m"]), diff_urls: strs(&["d"]) });
    assert_eq!(seed.name(), "Seed");
    let found = seed.find_urls();
    assert_eq!(found.main_urls, strs(&["m"]));
    assert_eq!(found.diff_urls, strs(&["d"]));
    let empty = BmsUrl::default();
    assert!(empty.main_urls.is_empty() && empty.diff_urls.is_empty());
}

#[test]
fn bms_search_api() {
    assert_eq!(BmsSearchProvider.name(), "BMS SEARCH API");
    assert_eq!(BmsSearchProvider::pattern_url("ab12"), "https://api.bmssearch.net/v1/patterns/ab12");
    assert_eq!(BmsSearchProvider::bms_url("77"), "https://api.bmssearch.net/v1/bmses/77");
    assert_eq!(BmsSearchProvider::bms_id(Some("77".to_string())), Ok("77".to_string()));
    assert_eq!(BmsSearchProvider::bms_id(None), Err(ProviderError::BmsIdNotFound));
    let u = BmsSearchProvider::urls_from_downloads(Some(vec![
        Some("https://a/1.zip".to_string()),
        None,
        Some("https://a/2.zip".to_string()),
    ]))
    .unwrap();
    assert_eq!(u.main_urls, strs(&["https://a/1.zip", "https://a/2.zip"]));
    assert!(u.diff_urls.is_empty());
    assert!(matches!(BmsSearchProvider::urls_from_downloads(None), Err(ProviderError::UrlNotFound)));
}

#[test]
fn lr2ir_archive_api() {
    assert_eq!(Lr2IrArchiveProvider.name(), "LR2IR Archive");
    assert_eq!(Lr2IrArchiveProvider::chart_url("ab"), "https://lr2ir.com/api/charts/ab");
    assert!(Lr2IrArchiveProvider::is_unknown_chart(404));
    assert!(!Lr2IrArchiveProvider::is_unknown_chart(200));
    let u = Lr2IrArchiveProvider::urls_from_chart(Some("b".to_string()), None);
    assert_eq!(u.main_urls, strs(&["b"]));
    assert!(u.diff_urls.is_empty());
}

#[test]
fn pack_types_classify_urls() {
    let inc = song::BmsSearchProvider::classify(strs(&["u"]), Some("INCLUDED"));
    assert_eq!(inc.main_urls, strs(&["u"]));
    assert_eq!(inc.target_type, BmsFileType::Main);
    let add = song::BmsSearchProvider::classify(strs(&["u"]), Some("ADDITIONAL"));
    assert_eq!(add.main_urls, strs(&["u"]));
    assert_eq!(add.target_type, BmsFileType::Diff);
    let other = song::BmsSearchProvider::classify(strs(&["u"]), None);
    assert_eq!(other.unknown_urls, strs(&["u"]));
    assert!(other.main_urls.is_empty());
    assert_eq!(other.target_type, BmsFileType::Unknown);
    assert_eq!(BmsFileType::default(), BmsFileType::Unknown);
    assert_eq!(song::BmsUrl::default().target_type, BmsFileType::Unknown);
}

#[test]
fn lr2ir_ranking_page() {
    assert_eq!(Lr2IrProvider.name(), "LR2IR");
    assert_eq!(
        Lr2IrProvider::search_url("ff"),
        "http://www.dream-pro.info/~lavalse/LR2IR/search.cgi?mode=ranking&bmsmd5=ff"
    );
    let page = "<table><tr><th> 本体URL </th><td><a href=\"http://p/main.zip\">m</a></td></tr>\
        <tr><th>差分URL</th><td><a href=\"http://p/diff.zip\">d</a></td></tr>\
        <tr><th>その他</th><td><a href=\"http://p/x\">x</a></td></tr></table>";
    let u = Lr2IrProvider::urls_from_response(&sjis(page));
    assert_eq!(u.main_urls, strs(&["http://p/main.zip"]));
    assert_eq!(u.diff_urls, strs(&["http://p/diff.zip"]));
    assert!(u.unknown_urls.is_empty());
    assert_eq!(u.target_type, BmsFileType::Diff);
    let none = Lr2IrProvider::urls_from_response(b"<p>not found</p>");
    assert!(none.main_urls.is_empty() && none.diff_urls.is_empty());
    assert_eq!(none.target_type, BmsFileType::Unknown);
}

#[test]
fn table_header_and_data_urls() {
    let page = "<html><head><meta name=\"bmstable\" content=\"header.json\"></head><body></body></html>";
    assert_eq!(
        table_header_url("https://example.com/table/index.html", page),
        Ok("https://example.com/table/header.json".to_string())
    );
    assert_eq!(
        table_header_url("https://example.com/t/", "<html><head><title>x</title></head></html>"),
        Err(TableError::BmsTableNotFound)
    );
    assert_eq!(
        data_url("https://example.com/table/header.json", "data.json"),
        Ok("https://example.com/table/data.json".to_string())
    );
    assert_eq!(data_url("relative", "data.json"), Err(TableError::InvalidUrl));
    let t = Table::new(
        "Insane".to_string(),
        "★".to_string(),
        vec![BmsData {
            md5: "m".to_string(),
            level: "1".to_string(),
            title: None,
            artist: None,
            main_url: None,
            diff_url: None,
        }],
    );
    assert_eq!(t.name, "Insane");
    assert_eq!(t.symbol, "★");
    assert_eq!(t.bms_data.len(), 1);
}

fn parts(scheme: &str, host: Option<&str>, path: &str, pairs: &[(&str, &str)]) -> bms_get::url::UrlParts {
    bms_get::url::UrlParts {
        serialization: format!("{}://{}{}", scheme, host.unwrap_or(""), path),
        scheme: scheme.to_string(),
        host: host.map(|h| h.to_string()),
        path: path.to_string(),
        query: None,
        fragment: None,
        query_pairs: pairs.iter().map(|(k, v)| (k.to_string(), v.to_string())).collect(),
    }
}

#[test]
fn checks_on_parsed_parts() {
    assert!(DropboxParser::is_share(&parts("https", Some("www.dropbox.com"), "/scl/fi/x", &[])));
    assert!(!DropboxParser::is_share(&parts("https", Some("www.dropbox.com"), "/sc/x", &[])));
    assert!(ManbowEventScraper::is_event(&parts(
        "http",
        Some("manbow.nothing.sh"),
        "/event/event.cgi",
        &[("action", "x"), ("event", "7")]
    )));
    assert!(!ManbowEventScraper::is_event(&parts("http", Some("manbow.nothing.sh"), "/event/event.cgi", &[])));
    assert_eq!(
        bms_get::event::event_id(&parts("http", Some("h"), "/", &[("event", "1"), ("event", "2")])),
        Some("1".to_string())
    );
    assert_eq!(
        bms_get::event::web_link(parts("https", Some("a"), "/x", &[])),
        Some("https://a/x".to_string())
    );
    assert_eq!(bms_get::event::web_link(parts("ftp", Some("a"), "/x", &[])), None);
}

#[test]
fn namespaced_attributes_are_not_plain_href() {
    let page = "<table id=\"list\"><tr><td>1</td><td>\
        <svg><a xlink:href=\"http://svg/skip.zip\">s</a></svg>\
        <a href=\"http://a/keep.zip\">k</a></td></tr></table>";
    let entries = ManbowEventScraper::entries_from_page(page.as_bytes(), "https://m/").unwrap();
    assert_eq!(entries.len(), 1);
    assert_eq!(entries[0].urls, strs(&["http://a/keep.zip"]));
}
