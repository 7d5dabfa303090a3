use oreilly_epub::files::BookFiles;
use oreilly_epub::models::{ChapRelAssets, Chapter, FileEntry};
use oreilly_epub::events::{OutAttribute, XmlAttribute, XmlEvent, XmlOutput, XmlTag};
use oreilly_epub::xml::{
    assemble_chapter, build_epub_chapter, is_html_void_tag, is_resource_link, make_stylesheet_links,
    modified_opf_events, rewrite_attributes, rewrite_chapter_body, wrapper_prefix, write_modified_opf,
    ChapterError, ChapterXhtml,
};
use quick_xml::events::{BytesEnd, BytesStart, BytesText, Event};

const BASE: &str = "https://learning.oreilly.com/api/v2/epubs/urn:orm:book:9781787782204/files/";

fn entry(ourn: &str, path: &str, media_type: &str, ext: &str) -> FileEntry {
    FileEntry {
        ourn: ourn.to_string(),
        url: format!("{BASE}{path}"),
        full_path: path.to_string(),
        media_type: media_type.to_string(),
        filename_ext: ext.to_string(),
    }
}

fn book() -> BookFiles {
    BookFiles::new(vec![
        entry("c1", "OEBPS/text/ch01.xhtml", "application/xhtml+xml", ".xhtml"),
        entry("img", "OEBPS/images/cover.png", "image/png", ".png"),
        entry("css", "OEBPS/styles/book.css", "text/css", ".css"),
        entry("opf", "OEBPS/content.opf", "application/oebps-package+xml", ".opf"),
    ])
}

fn tag(name: &str, attrs: &[(&str, &str)]) -> XmlTag {
    XmlTag {
        name: name.as_bytes().to_vec(),
        attributes: attrs
            .iter()
            .map(|(k, v)| XmlAttribute { key: k.as_bytes().to_vec(), value: v.as_bytes().to_vec() })
            .collect(),
    }
}

fn start(name: &str, attrs: &[(&str, &str)]) -> XmlEvent {
    XmlEvent::Start(tag(name, attrs), Event::Start(BytesStart::new(name.to_string())))
}

fn empty(name: &str, attrs: &[(&str, &str)]) -> XmlEvent {
    XmlEvent::Empty(tag(name, attrs), Event::Empty(BytesStart::new(name.to_string())))
}

fn end(name: &str) -> XmlEvent {
    XmlEvent::End(name.as_bytes().to_vec(), Event::End(BytesEnd::new(name.to_string())))
}

fn text(t: &str) -> XmlEvent {
    XmlEvent::Other(Event::Text(BytesText::new(t).into_owned()))
}

fn path_of(rel: &str) -> String {
    format!("/api/v2/epubs/urn:orm:book:9781787782204/files/{rel}")
}

fn escaped(a: &OutAttribute) -> Option<(String, String)> {
    match a {
        OutAttribute::Escaped { key, value } => Some((key.clone(), value.clone())),
        OutAttribute::Raw { .. } => None,
    }
}

fn raw(a: &OutAttribute) -> Option<(Vec<u8>, Vec<u8>)> {
    match a {
        OutAttribute::Raw { key, value } => Some((key.clone(), value.clone())),
        OutAttribute::Escaped { .. } => None,
    }
}

fn chapter(stylesheets: Vec<String>) -> Chapter {
    Chapter {
        ourn: "c1".to_string(),
        title: "One".to_string(),
        related_assets: ChapRelAssets { stylesheets },
    }
}

#[test]
fn void_tags_are_recognised() {
    for name in ["area", "base", "br", "col", "embed", "hr", "img", "input", "link", "meta", "param", "source", "track", "wbr"] {
        assert!(is_html_void_tag(name.as_bytes()), "{name}");
    }
    for name in ["p", "div", "a", "image", "IMG", "", "brr", "sourc"] {
        assert!(!is_html_void_tag(name.as_bytes()), "{name}");
    }
}

#[test]
fn resource_links_are_recognised() {
    assert!(is_resource_link(b"img", b"src"));
    assert!(is_resource_link(b"a", b"href"));
    assert!(is_resource_link(b"link", b"href"));
    assert!(is_resource_link(b"object", b"data"));
    assert!(is_resource_link(b"iframe", b"src"));
    assert!(is_resource_link(b"track", b"src"));
    assert!(!is_resource_link(b"a", b"src"));
    assert!(!is_resource_link(b"img", b"href"));
    assert!(!is_resource_link(b"div", b"src"));
    assert!(!is_resource_link(b"object", b"src"));
}

#[test]
fn image_link_becomes_relative_path() {
    let files = book();
    let img = tag("img", &[("src", &path_of("OEBPS/images/cover.png")), ("alt", "Cover")]);
    let out = rewrite_attributes(&img, &files, "OEBPS/text");
    assert_eq!(out.name, "img");
    assert_eq!(out.attributes.len(), 2);
    assert_eq!(escaped(&out.attributes[0]), Some(("src".to_string(), "../images/cover.png".to_string())));
    assert_eq!(raw(&out.attributes[1]), Some((b"alt".to_vec(), b"Cover".to_vec())));
}

#[test]
fn unknown_links_and_other_attributes_are_kept() {
    let files = book();
    let a = tag("a", &[("href", "https://example.com/x"), ("class", "ext")]);
    let out = rewrite_attributes(&a, &files, "OEBPS/text");
    assert_eq!(raw(&out.attributes[0]), Some((b"href".to_vec(), b"https://example.com/x".to_vec())));
    assert_eq!(raw(&out.attributes[1]), Some((b"class".to_vec(), b"ext".to_vec())));
    let p = tag("p", &[("src", &path_of("OEBPS/images/cover.png"))]);
    let out = rewrite_attributes(&p, &files, "OEBPS/text");
    assert_eq!(raw(&out.attributes[0]), Some((b"src".to_vec(), path_of("OEBPS/images/cover.png").into_bytes())));
}

#[test]
fn tag_names_are_read_lossily() {
    let files = book();
    let t = XmlTag { name: vec![b'p', 0xff], attributes: vec![] };
    let out = rewrite_attributes(&t, &files, "");
    assert_eq!(out.name, "p\u{fffd}");
    let t = XmlTag { name: "caf\u{e9}".as_bytes().to_vec(), attributes: vec![] };
    assert_eq!(rewrite_attributes(&t, &files, "").name, "caf\u{e9}");
}

#[test]
fn chapter_body_closes_void_elements() {
    let files = book();
    let events = vec![
        start("p", &[]),
        text("hi"),
        start("img", &[("src", &path_of("OEBPS/images/cover.png"))]),
        end("img"),
        empty("br", &[]),
        end("p"),
    ];
    let out = rewrite_chapter_body(&events, &files, "OEBPS/text");
    assert_eq!(out.len(), 5);
    assert!(matches!(&out[0], XmlOutput::Start(t) if t.name == "p"));
    assert!(matches!(&out[1], XmlOutput::Keep(1)));
    match &out[2] {
        XmlOutput::Empty(t) => {
            assert_eq!(t.name, "img");
            assert_eq!(escaped(&t.attributes[0]), Some(("src".to_string(), "../images/cover.png".to_string())));
        }
        _ => panic!("the img start tag must become an empty-element tag"),
    }
    assert!(matches!(&out[3], XmlOutput::Empty(t) if t.name == "br"));
    assert!(matches!(&out[4], XmlOutput::Keep(5)));
}

#[test]
fn chapter_bytes_are_rewritten() {
    let files = book();
    let fragment = format!(
        "<div class=\"c\"><p>Tom &amp; Jerry</p><img src=\"{}\" alt='x'></img><br><!-- note --></div>",
        path_of("OEBPS/images/cover.png")
    );
    let parts = build_epub_chapter(&chapter(vec![format!("{BASE}OEBPS/styles/book.css")]), "OEBPS/text", fragment.as_bytes(), &files);
    assert!(parts.complete);
    assert_eq!(parts.stylesheet_links.len(), 1);
    assert_eq!(parts.stylesheet_links[0].href, "../styles/book.css");
    assert_eq!(
        String::from_utf8(parts.body).unwrap(),
        "<div class=\"c\"><p>Tom &amp; Jerry</p><img src=\"../images/cover.png\" alt=\"x\"/><br/><!-- note --></div>"
    );
}

#[test]
fn malformed_chapter_keeps_what_was_read() {
    let files = book();
    let parts = build_epub_chapter(&chapter(vec![]), "", b"<p>a</p><p", &files);
    assert!(!parts.complete);
    assert_eq!(String::from_utf8(parts.body.clone()).unwrap(), "<p>a</p>");
    let (doc, outcome) = assemble_chapter("<html><body></body></html>", &parts);
    assert_eq!(String::from_utf8(doc).unwrap(), "<html><body>\n<p>a</p>");
    assert_eq!(outcome, Err(ChapterError::MalformedFragment));
}

#[test]
fn chapter_document_is_assembled() {
    let parts = ChapterXhtml { stylesheet_links: vec![], body: b"<p/>".to_vec(), complete: true };
    let (doc, outcome) = assemble_chapter("<html><body></body></html>", &parts);
    assert_eq!(String::from_utf8(doc).unwrap(), "<html><body>\n<p/>\n</body></html>");
    assert_eq!(outcome, Ok(()));
    let (doc, outcome) = assemble_chapter("<html><body/></html>", &parts);
    assert!(doc.is_empty());
    assert_eq!(outcome, Err(ChapterError::WrapperWithoutBody));
}

#[test]
fn empty_fragment_gives_empty_body() {
    let files = book();
    let out = rewrite_chapter_body(&Vec::new(), &files, "OEBPS");
    assert!(out.is_empty());
    let parts = build_epub_chapter(&chapter(vec![]), "OEBPS", b"", &files);
    assert!(parts.complete && parts.body.is_empty());
}

#[test]
fn stylesheet_links_follow_the_chapter() {
    let files = book();
    let c = chapter(vec![format!("{BASE}OEBPS/styles/book.css"), format!("{BASE}missing.css")]);
    let links = make_stylesheet_links(&c, "OEBPS/text", &files);
    assert_eq!(links.len(), 1);
    assert_eq!(links[0].media_type, "text/css");
    assert_eq!(links[0].href, "../styles/book.css");
    let links = make_stylesheet_links(&c, "OEBPS", &files);
    assert_eq!(links[0].href, "styles/book.css");
}

#[test]
fn wrapper_prefix_strips_the_closing_tags() {
    assert_eq!(wrapper_prefix("<html><head/><body></body></html>"), Some("<html><head/><body>".to_string()));
    assert_eq!(wrapper_prefix("</body></html>"), Some(String::new()));
    assert_eq!(wrapper_prefix("<html><body/></html>"), None);
    assert_eq!(wrapper_prefix(""), None);
}

fn opf_events(with_description: bool) -> Vec<XmlEvent> {
    let mut events = vec![text("\n"), start("metadata", &[]), start("dc:title", &[]), text("T"), end("dc:title")];
    if with_description {
        events.push(start("dc:description", &[]));
        events.push(text("D"));
        events.push(end("dc:description"));
    }
    events.push(end("metadata"));
    events.push(start("manifest", &[]));
    events.push(end("manifest"));
    events
}

#[test]
fn opf_without_description_gets_one() {
    let events = opf_events(false);
    let out = modified_opf_events(&events, "A book & more");
    assert_eq!(out.len(), events.len() + 3);
    for (k, o) in out[..5].iter().enumerate() {
        assert!(matches!(o, XmlOutput::Keep(i) if *i == k));
    }
    assert!(matches!(&out[5], XmlOutput::Start(t) if t.name == "dc:description" && t.attributes.is_empty()));
    assert!(matches!(&out[6], XmlOutput::Text(s) if s == "A book & more"));
    assert!(matches!(&out[7], XmlOutput::End(s) if s == "dc:description"));
    assert!(matches!(&out[8], XmlOutput::Keep(5)));
    assert!(matches!(&out[9], XmlOutput::Keep(6)));
    assert!(matches!(&out[10], XmlOutput::Keep(7)));
}

#[test]
fn opf_with_description_is_unchanged() {
    let events = opf_events(true);
    let out = modified_opf_events(&events, "ignored");
    assert_eq!(out.len(), events.len());
    for (k, o) in out.iter().enumerate() {
        assert!(matches!(o, XmlOutput::Keep(i) if *i == k));
    }
}

#[test]
fn opf_bytes_get_a_description() {
    let opf = "<?xml version=\"1.0\"?>\n<package><metadata><dc:title>T</dc:title></metadata><manifest/></package>";
    let (out, complete) = write_modified_opf(opf.as_bytes(), "Fish & chips");
    assert!(complete);
    let expected = "<?xml version=\"1.0\"?>\n<package><metadata><dc:title>T</dc:title><dc:description>Fish &amp; chips</dc:description></metadata><manifest/></package>";
    assert_eq!(String::from_utf8(out.clone()).unwrap(), expected);
    // A second pass adds nothing.
    let (again, complete) = write_modified_opf(&out, "Fish & chips");
    assert!(complete);
    assert_eq!(again, out);
}

#[test]
fn opf_bytes_with_mismatched_end_are_refused() {
    let (out, complete) = write_modified_opf(b"<package><metadata></package>", "d");
    assert!(!complete);
    assert_eq!(String::from_utf8(out).unwrap(), "<package><metadata>");
}

#[test]
fn empty_description_element_does_not_count() {
    let events = vec![empty("dc:description", &[]), end("metadata")];
    let out = modified_opf_events(&events, "d");
    assert_eq!(out.len(), 5);
    assert!(matches!(&out[2], XmlOutput::Text(s) if s == "d"));
}

#[test]
fn opf_without_metadata_is_unchanged() {
    let events = vec![text("x"), start("package", &[]), end("package")];
    let out = modified_opf_events(&events, "d");
    assert_eq!(out.len(), 3);
}

#[test]
fn every_undescribed_metadata_end_gets_a_description() {
    let events = vec![end("metadata"), end("metadata")];
    let out = modified_opf_events(&events, "d");
    assert_eq!(out.len(), 8);
    assert!(matches!(&out[3], XmlOutput::Keep(0)));
    assert!(matches!(&out[5], XmlOutput::Text(s) if s == "d"));
    assert!(matches!(&out[7], XmlOutput::Keep(1)));
}

#[test]
fn description_after_metadata_end_does_not_count() {
    let events = vec![end("metadata"), start("dc:description", &[]), end("metadata")];
    let out = modified_opf_events(&events, "d");
    assert_eq!(out.len(), 6);
    assert!(matches!(&out[4], XmlOutput::Keep(1)));
    assert!(matches!(&out[5], XmlOutput::Keep(2)));
}

#[test]
fn percent_encoded_links_are_found() {
    let files = BookFiles::new(vec![entry("x", "OEBPS/\u{fffd}.png", "image/png", ".png")]);
    let img = XmlTag {
        name: b"img".to_vec(),
        attributes: vec![XmlAttribute { key: b"src".to_vec(), value: [path_of("OEBPS/").as_bytes(), b"%EF%BF%BD.png"].concat() }],
    };
    let out = rewrite_attributes(&img, &files, "OEBPS");
    assert_eq!(escaped(&out.attributes[0]), Some(("src".to_string(), "\u{fffd}.png".to_string())));
}
