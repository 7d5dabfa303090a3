use oreilly_epub::api::{cookie_pair, cookie_strings, epub_api_url, epub_file_name, first_existing, PageCollector};
use oreilly_epub::download::{category, progress_prefix, DownloadQueue, FileCategory};
use oreilly_epub::epub::{archive_layout, find_chapter, find_opf_entry, plan_epub_archive, ArchiveError, ArchiveSource, Compression, EntryTreatment};
use oreilly_epub::files::BookFiles;
use oreilly_epub::models::{ChapRelAssets, Chapter, FileEntry, Paginated};
use oreilly_epub::paths::chapter_dir_of;
use oreilly_epub::text::{decimal_string, has_prefix, right_align, str_eq, strip_suffix};
use oreilly_epub::xml::make_stylesheet_links;

fn entry(ourn: &str, url: &str, path: &str, media_type: &str, ext: &str) -> FileEntry {
    FileEntry {
        ourn: ourn.to_string(),
        url: url.to_string(),
        full_path: path.to_string(),
        media_type: media_type.to_string(),
        filename_ext: ext.to_string(),
    }
}

fn chapter(ourn: &str, title: &str) -> Chapter {
    Chapter { ourn: ourn.to_string(), title: title.to_string(), related_assets: ChapRelAssets { stylesheets: vec![] } }
}

fn href_from(dir: &str, target: &str) -> String {
    let url = format!("https://h/{target}");
    let files = BookFiles::new(vec![entry("s", &url, target, "text/css", ".css")]);
    let chapter = Chapter {
        ourn: "c".to_string(),
        title: "t".to_string(),
        related_assets: ChapRelAssets { stylesheets: vec![url] },
    };
    let links = make_stylesheet_links(&chapter, dir, &files);
    assert_eq!(links.len(), 1);
    links[0].href.clone()
}

#[test]
fn relative_paths() {
    assert_eq!(href_from("OEBPS/text", "OEBPS/images/a.png"), "../images/a.png");
    assert_eq!(href_from("OEBPS", "OEBPS/styles/s.css"), "styles/s.css");
    assert_eq!(href_from("", "OEBPS/a.css"), "OEBPS/a.css");
    assert_eq!(href_from("a/b/c/d", "a/b/e/f"), "../../e/f");
}

#[test]
fn chapter_directories() {
    assert_eq!(chapter_dir_of("OEBPS/text/ch01.html"), "OEBPS/text");
    assert_eq!(chapter_dir_of("OEBPS/ch01.html"), "OEBPS");
    assert_eq!(chapter_dir_of("ch01.html"), "");
    assert_eq!(chapter_dir_of(""), "");
}

#[test]
fn links_are_found_by_the_path_of_their_url() {
    let files = BookFiles::new(vec![
        entry("a", "https://learning.oreilly.com/api/v2/files/a.png?x=1", "OEBPS/a.png", "image/png", ".png"),
        entry("b", "not a url", "OEBPS/b.png", "image/png", ".png"),
        entry("c", "https://example.com", "OEBPS/index.html", "text/html", ".html"),
    ]);
    assert_eq!(files.local_path_for("/api/v2/files/a.png"), Some("OEBPS/a.png".to_string()));
    assert_eq!(files.local_path_for("/"), Some("OEBPS/index.html".to_string()));
    assert_eq!(files.local_path_for("https://learning.oreilly.com/api/v2/files/a.png?x=1"), None);
    assert_eq!(files.local_path_for("not a url"), None);
}

#[test]
fn text_comparisons() {
    assert!(str_eq("text/css", "text/css"));
    assert!(!str_eq("text/css", "text/cs"));
    assert!(has_prefix("image/png", "image/"));
    assert!(!has_prefix("imag", "image/"));
    assert!(has_prefix("é", ""));
}

#[test]
fn last_file_with_a_url_wins() {
    let files = BookFiles::new(vec![
        entry("a", "https://h/x/a.png", "first/a.png", "image/png", ".png"),
        entry("b", "https://h/y/b.png", "b.png", "image/png", ".png"),
        entry("c", "https://h/x/a.png", "second/a.png", "image/png", ".png"),
        entry("d", "https://other/x/a.png", "third/a.png", "image/png", ".png"),
    ]);
    assert_eq!(files.file_for_url("https://h/x/a.png"), Some(2));
    assert_eq!(files.file_for_url("https://h/y/b.png"), Some(1));
    assert_eq!(files.file_for_url("https://h/none"), None);
    // Two hosts give the same path: the last file with that path wins.
    assert_eq!(files.local_path_for("/x/a.png"), Some("third/a.png".to_string()));
    assert_eq!(files.local_path_for("/y/b.png"), Some("b.png".to_string()));
    assert_eq!(files.local_path_for("/none"), None);
    assert_eq!(files.entries_vec().len(), 4);
}

#[test]
fn opf_is_the_first_matching_file() {
    let files = vec![
        entry("x", "u1", "a.opf", "text/plain", ".opf"),
        entry("p1", "u2", "OEBPS/content.opf", "application/oebps-package+xml", ".opf"),
        entry("p2", "u3", "other.opf", "application/oebps-package+xml", ".opf"),
    ];
    assert_eq!(find_opf_entry(&files), Some(1));
    assert_eq!(find_opf_entry(&files[..1].to_vec()), None);
}

#[test]
fn archive_plan_treats_each_file() {
    let files = vec![
        entry("c1", "u1", "OEBPS/text/ch01.xhtml", "application/xhtml+xml", ".xhtml"),
        entry("opf", "u2", "OEBPS/content.opf", "application/oebps-package+xml", ".opf"),
        entry("img", "u3", "OEBPS/img.png", "image/png", ".png"),
        entry("c2", "u4", "ch02.xhtml", "application/xhtml+xml", ".xhtml"),
        entry("x", "u5", "OEBPS/toc.xhtml", "application/xhtml+xml", ".xhtml"),
    ];
    let chapters = vec![chapter("c1", "One"), chapter("c2", "Two"), chapter("c1", "One again")];
    let plan = plan_epub_archive(&files, &chapters).unwrap();
    assert_eq!(plan.opf, 1);
    assert_eq!(plan.entries.len(), 5);
    assert!(matches!(&plan.entries[0], EntryTreatment::Chapter { chapter: 2, chapter_dir } if chapter_dir == "OEBPS/text"));
    assert!(matches!(&plan.entries[1], EntryTreatment::PackageDocument));
    assert!(matches!(&plan.entries[2], EntryTreatment::Copy));
    assert!(matches!(&plan.entries[3], EntryTreatment::Chapter { chapter: 1, chapter_dir } if chapter_dir.is_empty()));
    assert!(matches!(&plan.entries[4], EntryTreatment::Sanitize));
    assert_eq!(plan.layout.len(), 7);
    assert_eq!(find_chapter(&chapters, "c2"), Some(1));
    assert_eq!(find_chapter(&chapters, "zz"), None);
}

#[test]
fn archive_without_package_document_is_refused() {
    let files = vec![entry("c1", "u1", "a.xhtml", "application/xhtml+xml", ".xhtml")];
    assert!(matches!(plan_epub_archive(&files, &vec![]), Err(ArchiveError::NoPackageDocument)));
}

#[test]
fn categories() {
    let f = |mt: &str| category(&entry("o", "u", "p", mt, ""));
    assert_eq!(f("application/xhtml+xml"), FileCategory::Page);
    assert_eq!(f("text/html"), FileCategory::Page);
    assert_eq!(f("text/css"), FileCategory::Style);
    assert_eq!(f("image/png"), FileCategory::Image);
    assert_eq!(f("image/"), FileCategory::Image);
    assert_eq!(f("application/x-dtbncx+xml"), FileCategory::Other);
    assert_eq!(f("imag"), FileCategory::Other);
}

#[test]
fn decimal_and_alignment() {
    assert_eq!(decimal_string(0), "0");
    assert_eq!(decimal_string(7), "7");
    assert_eq!(decimal_string(10), "10");
    assert_eq!(decimal_string(u64::MAX), u64::MAX.to_string());
    assert_eq!(right_align("7", 3), "  7");
    assert_eq!(right_align("1234", 2), "1234");
    assert_eq!(strip_suffix("abc.epub", ".epub"), Some("abc".to_string()));
    assert_eq!(strip_suffix("abc", ".epub"), None);
}

#[test]
fn progress_prefixes() {
    assert_eq!(progress_prefix(3, Some(120)), "  3/120");
    assert_eq!(progress_prefix(120, Some(120)), "120/120");
    assert_eq!(progress_prefix(5, None), "5/0");
    assert_eq!(progress_prefix(0, Some(9)), "0/9");
    // The width stays the same as the counter goes up.
    for p in 0..=120u64 {
        assert_eq!(progress_prefix(p, Some(120)).len(), 7);
    }
}

#[test]
fn download_queue_keeps_the_limit() {
    let (mut q, first) = DownloadQueue::start(5, 2);
    assert_eq!(first, vec![0, 1]);
    assert_eq!(q.in_flight(), 2);
    assert_eq!(q.finished(), Some(2));
    assert_eq!(q.finished(), Some(3));
    assert_eq!(q.finished(), Some(4));
    assert_eq!(q.in_flight(), 2);
    assert_eq!(q.finished(), None);
    assert_eq!(q.finished(), None);
    assert_eq!(q.in_flight(), 0);
}

#[test]
fn download_queue_edge_cases() {
    let (q, first) = DownloadQueue::start(2, 8);
    assert_eq!(first, vec![0, 1]);
    assert_eq!(q.in_flight(), 2);
    let (q, first) = DownloadQueue::start(3, 0);
    assert!(first.is_empty());
    assert_eq!(q.in_flight(), 0);
    let (q, first) = DownloadQueue::start(0, 4);
    assert!(first.is_empty());
    assert_eq!(q.in_flight(), 0);
}

#[test]
fn addresses_and_cookies() {
    assert_eq!(epub_api_url("9781787782204"), "https://learning.oreilly.com/api/v2/epubs/urn:orm:book:9781787782204/");
    assert_eq!(cookie_pair("orm-session", "abc=1"), "orm-session=abc=1");
    assert_eq!(epub_file_name("9781787782204"), "9781787782204.epub");
}

#[test]
fn cookie_files_are_tried_in_order() {
    assert_eq!(first_existing(&vec![false, true, true]), Some(1));
    assert_eq!(first_existing(&vec![false, false]), None);
    assert_eq!(first_existing(&vec![]), None);
}

#[test]
fn pages_are_collected_in_order() {
    let mut c: PageCollector<u32> = PageCollector::new();
    assert_eq!(c.absorb(Paginated { next: Some("p2".to_string()), results: vec![1, 2] }), Some("p2".to_string()));
    assert_eq!(c.absorb(Paginated { next: None, results: vec![3] }), None);
    assert_eq!(c.items, vec![1, 2, 3]);
}

#[test]
fn archive_layout_puts_the_mimetype_first() {
    let files = vec![
        entry("a", "u1", "OEBPS/content.opf", "application/oebps-package+xml", ".opf"),
        entry("b", "u2", "OEBPS/page.html", "text/html", ".html"),
    ];
    let layout = archive_layout(&files);
    let names: Vec<&str> = layout.iter().map(|e| e.name.as_str()).collect();
    assert_eq!(names, vec!["mimetype", "META-INF/container.xml", "OEBPS/content.opf", "OEBPS/page.html"]);
    assert_eq!(layout[0].compression, Compression::Stored);
    assert_eq!(layout[0].source, ArchiveSource::Mimetype);
    assert_eq!(layout[1].compression, Compression::Deflated);
    assert_eq!(layout[1].source, ArchiveSource::Container);
    assert_eq!(layout[3].source, ArchiveSource::File(1));
    assert_eq!(layout[3].compression, Compression::Deflated);
}

#[test]
fn cookies_files_are_parsed() {
    let cookies = cookie_strings(br#"{"orm-session": "abc", "another_cookie": "v=1"}"#).unwrap();
    assert_eq!(cookies, vec!["another_cookie=v=1".to_string(), "orm-session=abc".to_string()]);
    assert_eq!(cookie_strings(b"{}"), Some(vec![]));
    assert_eq!(cookie_strings(br#"{"a": 1}"#), None);
    assert_eq!(cookie_strings(b"[\"a\"]"), None);
    assert_eq!(cookie_strings(b"not json"), None);
}
