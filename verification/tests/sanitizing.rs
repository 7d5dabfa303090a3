use oreilly_epub::events::{OutAttribute, XmlAttribute, XmlEvent, XmlOutput, XmlTag};
use oreilly_epub::sanitize::{is_html_boolean_attribute, sanitize_events, sanitize_tag, sanitize_xhtml_file};
use quick_xml::events::{BytesEnd, BytesStart, BytesText, Event};

fn tag(name: &str, attrs: &[(&str, &str)]) -> XmlTag {
    XmlTag {
        name: name.as_bytes().to_vec(),
        attributes: attrs
            .iter()
            .map(|(k, v)| XmlAttribute { key: k.as_bytes().to_vec(), value: v.as_bytes().to_vec() })
            .collect(),
    }
}

fn start(name: &str) -> XmlEvent {
    XmlEvent::Start(tag(name, &[]), Event::Start(BytesStart::new(name.to_string())))
}

fn end(name: &str) -> XmlEvent {
    XmlEvent::End(name.as_bytes().to_vec(), Event::End(BytesEnd::new(name.to_string())))
}

fn text(t: &str) -> XmlEvent {
    XmlEvent::Other(Event::Text(BytesText::new(t).into_owned()))
}

#[test]
fn boolean_attributes_are_recognised() {
    for k in ["checked", "selected", "disabled", "readonly", "async", "defer", "hidden", "controls"] {
        assert!(is_html_boolean_attribute(k.as_bytes()), "{k}");
    }
    for k in ["class", "href", "check", ""] {
        assert!(!is_html_boolean_attribute(k.as_bytes()), "{k}");
    }
}

#[test]
fn boolean_attributes_get_their_name_as_value() {
    let t = sanitize_tag(&tag("input", &[("type", "checkbox"), ("checked", ""), ("title", "")]));
    assert_eq!(t.name, "input");
    let attrs: Vec<(Vec<u8>, Vec<u8>)> = t
        .attributes
        .iter()
        .map(|a| match a {
            OutAttribute::Raw { key, value } => (key.clone(), value.clone()),
            OutAttribute::Escaped { .. } => panic!("sanitized attributes are raw"),
        })
        .collect();
    assert_eq!(attrs, vec![
        (b"type".to_vec(), b"checkbox".to_vec()),
        (b"checked".to_vec(), b"checked".to_vec()),
        (b"title".to_vec(), Vec::new()),
    ]);
}

#[test]
fn script_elements_are_dropped() {
    let events = vec![start("p"), start("script"), text("x()"), end("p"), end("script"), text("after"), end("p"), end("script")];
    let out = sanitize_events(&events);
    assert_eq!(out.len(), 3);
    assert!(matches!(&out[0], XmlOutput::Start(t) if t.name == "p"));
    assert!(matches!(&out[1], XmlOutput::Keep(5)));
    assert!(matches!(&out[2], XmlOutput::Keep(6)));
}

#[test]
fn page_bytes_are_sanitized() {
    let page = "<html><head><script type=\"text/javascript\">var a = 1;</script><script src=\"x.js\"/></head><body><input type=checkbox checked><p>Hi</p></body></html>";
    let (out, complete) = sanitize_xhtml_file(page.as_bytes());
    assert!(complete);
    assert_eq!(
        String::from_utf8(out).unwrap(),
        "<html><head></head><body><input type=\"checkbox\" checked=\"checked\"><p>Hi</p></body></html>"
    );
}

#[test]
fn page_without_scripts_is_kept() {
    let page = "<?xml version=\"1.0\"?>\n<html><body><p class=\"a\">x &amp; y</p><!-- c --></body></html>";
    let (out, complete) = sanitize_xhtml_file(page.as_bytes());
    assert!(complete);
    assert_eq!(String::from_utf8(out).unwrap(), page);
}
