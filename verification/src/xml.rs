//! Rewriting of the XML event streams of chapter fragments and of the OPF
//! package document.
use vstd::prelude::*;
use vstd::slice::slice_to_vec;
use vstd::utf8::encode_utf8;
use crate::bytes::{ascii, is_word};
use crate::events::{
    keeps_read_event, keeps_read_events, read_xml_events, write_xml, xml_events_of, xml_text_of, outputs, AttributeModel, OutAttribute, OutTag, OutputModel, TagModel, XmlAttribute, XmlEvent,
    XmlOutput, XmlTag,
};
use crate::files::{file_index_for_url, local_path_of, BookFiles};
use crate::models::{Chapter, FileEntry};
use crate::paths::{relative_path, relative_path_of};
use crate::text::{lossy_text, strip_suffix, utf8_lossy};

verus! {

/// The HTML void elements: elements that never have content and so must be
/// written as self-closing tags in XHTML.
pub open spec fn is_void_tag_name(name: Seq<u8>) -> bool {
    ||| name == ascii(seq!['a', 'r', 'e', 'a'])
    ||| name == ascii(seq!['b', 'a', 's', 'e'])
    ||| name == ascii(seq!['b', 'r'])
    ||| name == ascii(seq!['c', 'o', 'l'])
    ||| name == ascii(seq!['e', 'm', 'b', 'e', 'd'])
    ||| name == ascii(seq!['h', 'r'])
    ||| name == ascii(seq!['i', 'm', 'g'])
    ||| name == ascii(seq!['i', 'n', 'p', 'u', 't'])
    ||| name == ascii(seq!['l', 'i', 'n', 'k'])
    ||| name == ascii(seq!['m', 'e', 't', 'a'])
    ||| name == ascii(seq!['p', 'a', 'r', 'a', 'm'])
    ||| name == ascii(seq!['s', 'o', 'u', 'r', 'c', 'e'])
    ||| name == ascii(seq!['t', 'r', 'a', 'c', 'k'])
    ||| name == ascii(seq!['w', 'b', 'r'])
}

/// Checks if a tag is a standard HTML void element that shouldn't have a closing tag.
pub fn is_html_void_tag(name: &[u8]) -> (r: bool)
    ensures
        r == is_void_tag_name(name@),
{
    is_word(name, &['a', 'r', 'e', 'a']) ||
        is_word(name, &['b', 'a', 's', 'e']) ||
        is_word(name, &['b', 'r']) ||
        is_word(name, &['c', 'o', 'l']) ||
        is_word(name, &['e', 'm', 'b', 'e', 'd']) ||
        is_word(name, &['h', 'r']) ||
        is_word(name, &['i', 'm', 'g']) ||
        is_word(name, &['i', 'n', 'p', 'u', 't']) ||
        is_word(name, &['l', 'i', 'n', 'k']) ||
        is_word(name, &['m', 'e', 't', 'a']) ||
        is_word(name, &['p', 'a', 'r', 'a', 'm']) ||
        is_word(name, &['s', 'o', 'u', 'r', 'c', 'e']) ||
        is_word(name, &['t', 'r', 'a', 'c', 'k']) ||
        is_word(name, &['w', 'b', 'r'])
}

/// The attributes through which an element links to a resource: the pairs of
/// element name and attribute key whose value may be the URL of a file of the
/// book.
pub open spec fn is_link_attribute(tag: Seq<u8>, key: Seq<u8>) -> bool {
    ||| tag == ascii(seq!['i', 'm', 'g']) && key == ascii(seq!['s', 'r', 'c'])
    ||| tag == ascii(seq!['s', 'o', 'u', 'r', 'c', 'e']) && key == ascii(seq!['s', 'r', 'c'])
    ||| tag == ascii(seq!['v', 'i', 'd', 'e', 'o']) && key == ascii(seq!['s', 'r', 'c'])
    ||| tag == ascii(seq!['a', 'u', 'd', 'i', 'o']) && key == ascii(seq!['s', 'r', 'c'])
    ||| tag == ascii(seq!['a']) && key == ascii(seq!['h', 'r', 'e', 'f'])
    ||| tag == ascii(seq!['l', 'i', 'n', 'k']) && key == ascii(seq!['h', 'r', 'e', 'f'])
    ||| tag == ascii(seq!['o', 'b', 'j', 'e', 'c', 't']) && key == ascii(seq!['d', 'a', 't', 'a'])
    ||| tag == ascii(seq!['e', 'm', 'b', 'e', 'd']) && key == ascii(seq!['s', 'r', 'c'])
    ||| tag == ascii(seq!['i', 'f', 'r', 'a', 'm', 'e']) && key == ascii(seq!['s', 'r', 'c'])
    ||| tag == ascii(seq!['t', 'r', 'a', 'c', 'k']) && key == ascii(seq!['s', 'r', 'c'])
}

/// Checks whether the attribute `key` of an element named `tag` links to a
/// resource.
pub fn is_resource_link(tag: &[u8], key: &[u8]) -> (r: bool)
    ensures
        r == is_link_attribute(tag@, key@),
{
    let src = is_word(key, &['s', 'r', 'c']);
    let href = is_word(key, &['h', 'r', 'e', 'f']);
    let data = is_word(key, &['d', 'a', 't', 'a']);
    let img = is_word(tag, &['i', 'm', 'g']);
    let source = is_word(tag, &['s', 'o', 'u', 'r', 'c', 'e']);
    let video = is_word(tag, &['v', 'i', 'd', 'e', 'o']);
    let audio = is_word(tag, &['a', 'u', 'd', 'i', 'o']);
    let anchor = tag.len() == 1 && tag[0] == 'a' as u8;
    proof {
        if tag@.len() == 1 && tag@[0] == 'a' as u8 {
            assert(tag@ =~= ascii(seq!['a']));
        }
    }
    let link = is_word(tag, &['l', 'i', 'n', 'k']);
    let object = is_word(tag, &['o', 'b', 'j', 'e', 'c', 't']);
    let embed = is_word(tag, &['e', 'm', 'b', 'e', 'd']);
    let iframe = is_word(tag, &['i', 'f', 'r', 'a', 'm', 'e']);
    let track = is_word(tag, &['t', 'r', 'a', 'c', 'k']);
    (img && src) || (source && src) || (video && src) || (audio && src) || (anchor && href)
        || (link && href) || (object && data) || (embed && src) || (iframe && src) || (track
        && src)
}

/// How an attribute of the element `tag` is written out: a link to a file of
/// the book (found by the path of its URL, the value read as UTF-8) is
/// replaced by the path of that file relative to the chapter's directory;
/// every other attribute is kept as it is.
pub open spec fn rewritten_attribute(
    tag: Seq<u8>,
    a: XmlAttribute,
    files: Seq<FileEntry>,
    chapter_dir: Seq<char>,
) -> AttributeModel {
    if is_link_attribute(tag, a.key@) {
        match local_path_of(files, lossy_text(a.value@)) {
            Some(local) => AttributeModel::Escaped(
                lossy_text(a.key@),
                relative_path_of(chapter_dir, local),
            ),
            None => AttributeModel::Raw(a.key@, a.value@),
        }
    } else {
        AttributeModel::Raw(a.key@, a.value@)
    }
}

/// How a tag of a chapter is written out: its name read as UTF-8, and each of
/// its attributes rewritten in turn.
pub open spec fn rewritten_tag(tag: XmlTag, files: Seq<FileEntry>, chapter_dir: Seq<char>) -> TagModel {
    TagModel {
        name: lossy_text(tag.name@),
        attributes: tag.attributes@.map_values(
            |a: XmlAttribute| rewritten_attribute(tag.name@, a, files, chapter_dir),
        ),
    }
}

/// Helper function to inspect tags and rewrite the elements' attributes.
pub fn rewrite_attributes(tag_data: &XmlTag, files: &BookFiles, chapter_dir: &str) -> (r: OutTag)
    ensures
        r@ == rewritten_tag(*tag_data, files.entries(), chapter_dir@),
{
    let name = utf8_lossy(tag_data.name.as_slice());
    let mut attributes: Vec<OutAttribute> = Vec::new();
    let n = tag_data.attributes.len();
    let mut i: usize = 0;
    while i < n
        invariant
            n == tag_data.attributes@.len(),
            i <= n,
            attributes@.map_values(|a: OutAttribute| a@) =~= tag_data.attributes@.take(
                i as int,
            ).map_values(
                |a: XmlAttribute| rewritten_attribute(tag_data.name@, a, files.entries(), chapter_dir@),
            ),
        decreases n - i,
    {
        let attr = &tag_data.attributes[i];
        let mut replaced: Option<OutAttribute> = None;
        // Intercept element attributes which could contain links to resources.
        if is_resource_link(tag_data.name.as_slice(), attr.key.as_slice()) {
            let url = utf8_lossy(attr.value.as_slice());
            // If we have a local path, inject it instead of the absolute URL.
            if let Some(local_path) = files.local_path_for(url.as_str()) {
                let key = utf8_lossy(attr.key.as_slice());
                let value = relative_path(chapter_dir, local_path.as_str());
                replaced = Some(OutAttribute::Escaped { key, value });
            }
        }
        let out = match replaced {
            Some(a) => a,
            // Keep all other attributes intact.
            None => OutAttribute::Raw { key: attr.key.clone(), value: attr.value.clone() },
        };
        assert(out@ == rewritten_attribute(tag_data.name@, *attr, files.entries(), chapter_dir@));
        let ghost before = attributes@;
        attributes.push(out);
        assert(tag_data.attributes@.take(i + 1) =~= tag_data.attributes@.take(i as int).push(*attr));
        assert(attributes@.map_values(|a: OutAttribute| a@) =~= before.map_values(
            |a: OutAttribute| a@,
        ).push(out@));
        i += 1;
    }
    assert(tag_data.attributes@.take(n as int) =~= tag_data.attributes@);
    OutTag { name, attributes }
}

/// What a chapter event becomes: a start tag of a void element becomes an
/// empty-element tag and the end tag of one is dropped; start and
/// empty-element tags have their attributes rewritten; everything else is
/// passed through unchanged.
pub open spec fn chapter_step(e: XmlEvent, i: int, files: Seq<FileEntry>, chapter_dir: Seq<char>) -> Seq<OutputModel> {
    match e {
        XmlEvent::Start(t, _) => if is_void_tag_name(t.name@) {
            seq![OutputModel::Empty(rewritten_tag(t, files, chapter_dir))]
        } else {
            seq![OutputModel::Start(rewritten_tag(t, files, chapter_dir))]
        },
        XmlEvent::Empty(t, _) => seq![OutputModel::Empty(rewritten_tag(t, files, chapter_dir))],
        XmlEvent::End(name, _) => if is_void_tag_name(name@) {
            Seq::empty()
        } else {
            seq![OutputModel::Keep(i)]
        },
        XmlEvent::Other(_) => seq![OutputModel::Keep(i)],
    }
}

/// The events written for the body of a chapter whose fragment reads as
/// `events`: each event's outputs, in order.
pub open spec fn chapter_body(events: Seq<XmlEvent>, files: Seq<FileEntry>, chapter_dir: Seq<char>) -> Seq<OutputModel>
    decreases events.len(),
{
    if events.len() == 0 {
        Seq::empty()
    } else {
        chapter_body(events.drop_last(), files, chapter_dir) + chapter_step(
            events.last(),
            events.len() - 1,
            files,
            chapter_dir,
        )
    }
}

/// Rewrites the events of a chapter fragment into the events of the body of
/// an EPUB-ready XHTML document.
pub fn rewrite_chapter_body(events: &Vec<XmlEvent>, files: &BookFiles, chapter_dir: &str) -> (r: Vec<XmlOutput>)
    ensures
        outputs(r@) == chapter_body(events@, files.entries(), chapter_dir@),
{
    let mut out: Vec<XmlOutput> = Vec::new();
    let n = events.len();
    let mut i: usize = 0;
    while i < n
        invariant
            n == events@.len(),
            i <= n,
            outputs(out@) == chapter_body(events@.take(i as int), files.entries(), chapter_dir@),
        decreases n - i,
    {
        let ghost before = out@;
        match &events[i] {
            XmlEvent::Start(tag_data, _) => {
                // If it is a void tag, convert it to a self-closing XML tag.
                let rewritten = rewrite_attributes(tag_data, files, chapter_dir);
                if is_html_void_tag(tag_data.name.as_slice()) {
                    out.push(XmlOutput::Empty(rewritten));
                } else {
                    out.push(XmlOutput::Start(rewritten));
                }
            },
            XmlEvent::Empty(tag_data, _) => {
                // If tags are already empty, leave them as-is.
                out.push(XmlOutput::Empty(rewrite_attributes(tag_data, files, chapter_dir)));
            },
            XmlEvent::End(name, _) => {
                // Silently drop closing tags for void elements if they exist (e.g. <img></img>).
                if !is_html_void_tag(name.as_slice()) {
                    out.push(XmlOutput::Keep(i));
                }
            },
            XmlEvent::Other(_) => {
                // Pass through text, comments, etc. unmodified.
                out.push(XmlOutput::Keep(i));
            },
        }
        proof {
            let step = chapter_step(events@[i as int], i as int, files.entries(), chapter_dir@);
            assert(outputs(out@) =~= outputs(before) + step);
            assert(events@.take(i + 1).drop_last() =~= events@.take(i as int));
        }
        i += 1;
    }
    assert(events@.take(n as int) =~= events@);
    out
}

/// A link element to put in the head of a chapter for one of its stylesheets.
pub struct StylesheetLink {
    pub media_type: String,
    pub href: String,
}

/// The media type and the address of a stylesheet link.
pub open spec fn link_views(links: Seq<StylesheetLink>) -> Seq<(Seq<char>, Seq<char>)> {
    links.map_values(|l: StylesheetLink| (l.media_type@, l.href@))
}

/// The link for the stylesheet at `url`: the file of the book with that URL,
/// by its media type and its path relative to the chapter's directory; none
/// where the book has no file with that URL.
pub open spec fn stylesheet_link_for(url: Seq<char>, files: Seq<FileEntry>, chapter_dir: Seq<char>) -> Seq<(Seq<char>, Seq<char>)> {
    match file_index_for_url(files, url) {
        Some(i) => seq![(files[i].media_type@, relative_path_of(chapter_dir, files[i].full_path@))],
        None => Seq::empty(),
    }
}

/// The links for a chapter's stylesheets, in the chapter's order.
pub open spec fn stylesheet_links_of(stylesheets: Seq<String>, files: Seq<FileEntry>, chapter_dir: Seq<char>) -> Seq<(Seq<char>, Seq<char>)>
    decreases stylesheets.len(),
{
    if stylesheets.len() == 0 {
        Seq::empty()
    } else {
        stylesheet_links_of(stylesheets.drop_last(), files, chapter_dir) + stylesheet_link_for(
            stylesheets.last()@,
            files,
            chapter_dir,
        )
    }
}

/// The link elements for the stylesheets of a chapter.
pub fn make_stylesheet_links(chapter: &Chapter, chapter_dir: &str, files: &BookFiles) -> (r: Vec<StylesheetLink>)
    ensures
        link_views(r@) == stylesheet_links_of(chapter.related_assets.stylesheets@, files.entries(), chapter_dir@),
{
    let stylesheets = &chapter.related_assets.stylesheets;
    let mut links: Vec<StylesheetLink> = Vec::new();
    let n = stylesheets.len();
    let mut i: usize = 0;
    while i < n
        invariant
            n == stylesheets@.len(),
            i <= n,
            link_views(links@) == stylesheet_links_of(stylesheets@.take(i as int), files.entries(), chapter_dir@),
        decreases n - i,
    {
        let ghost before = links@;
        if let Some(idx) = files.file_for_url(stylesheets[i].as_str()) {
            let entry = &files.entries_vec()[idx];
            let href = relative_path(chapter_dir, entry.full_path.as_str());
            links.push(StylesheetLink { media_type: entry.media_type.clone(), href });
        }
        proof {
            assert(stylesheets@.take(i + 1).drop_last() =~= stylesheets@.take(i as int));
            assert(link_views(links@) =~= link_views(before) + stylesheet_link_for(
                stylesheets@[i as int]@,
                files.entries(),
                chapter_dir@,
            ));
        }
        i += 1;
    }
    assert(stylesheets@.take(n as int) =~= stylesheets@);
    links
}

/// The end of the XHTML wrapper around a chapter's body.
pub open spec fn wrapper_suffix() -> Seq<char> {
    "</body></html>"@
}

/// The part of the XHTML wrapper that goes before a chapter's body: the
/// wrapper without its closing `</body></html>`, or nothing where the wrapper
/// does not end with it.
pub fn wrapper_prefix(wrapper_xhtml: &str) -> (r: Option<String>)
    ensures
        match r {
            Some(prefix) => wrapper_xhtml@ == prefix@ + wrapper_suffix(),
            None => !wrapper_suffix().is_suffix_of(wrapper_xhtml@),
        },
{
    strip_suffix(wrapper_xhtml, "</body></html>")
}

/// The name of the element that holds a book's description.
pub open spec fn description_tag() -> Seq<u8> {
    ascii(seq!['d', 'c', ':', 'd', 'e', 's', 'c', 'r', 'i', 'p', 't', 'i', 'o', 'n'])
}

/// The name of the element that holds a book's metadata.
pub open spec fn metadata_tag() -> Seq<u8> {
    ascii(seq!['m', 'e', 't', 'a', 'd', 'a', 't', 'a'])
}

/// A start tag of a description element.
pub open spec fn is_description_start(e: XmlEvent) -> bool {
    e matches XmlEvent::Start(t, _) && t.name@ == description_tag()
}

/// An end tag of the metadata element.
pub open spec fn is_metadata_end(e: XmlEvent) -> bool {
    e matches XmlEvent::End(name, _) && name@ == metadata_tag()
}

/// Whether a description element has started among the events.
pub open spec fn description_seen(events: Seq<XmlEvent>) -> bool {
    exists|j: int| 0 <= j < events.len() && is_description_start(#[trigger] events[j])
}

/// The description element that is added to a package document that lacks
/// one.
pub open spec fn description_element(description: Seq<char>) -> Seq<OutputModel> {
    seq![
        OutputModel::Start(TagModel { name: "dc:description"@, attributes: Seq::empty() }),
        OutputModel::Text(description),
        OutputModel::End("dc:description"@),
    ]
}

/// What an event of the package document becomes: the end of the metadata,
/// where no description has started before it, gets a description element in
/// front of it; every event is passed through unchanged.
pub open spec fn opf_step(e: XmlEvent, i: int, seen: bool, description: Seq<char>) -> Seq<OutputModel> {
    if is_metadata_end(e) && !seen {
        description_element(description).push(OutputModel::Keep(i))
    } else {
        seq![OutputModel::Keep(i)]
    }
}

/// The events written for a package document that reads as `events`.
pub open spec fn modified_opf(events: Seq<XmlEvent>, description: Seq<char>) -> Seq<OutputModel>
    decreases events.len(),
{
    if events.len() == 0 {
        Seq::empty()
    } else {
        modified_opf(events.drop_last(), description) + opf_step(
            events.last(),
            events.len() - 1,
            description_seen(events.drop_last()),
            description,
        )
    }
}

/// Rewrites the events of the OPF package document so that its metadata
/// holds a description.
pub fn modified_opf_events(opf: &Vec<XmlEvent>, description: &str) -> (r: Vec<XmlOutput>)
    ensures
        outputs(r@) == modified_opf(opf@, description@),
{
    let mut out: Vec<XmlOutput> = Vec::new();
    let mut desc_found = false;
    let n = opf.len();
    let mut i: usize = 0;
    while i < n
        invariant
            n == opf@.len(),
            i <= n,
            desc_found == description_seen(opf@.take(i as int)),
            outputs(out@) == modified_opf(opf@.take(i as int), description@),
        decreases n - i,
    {
        let ghost before = out@;
        let ghost seen = desc_found;
        match &opf[i] {
            XmlEvent::Start(tag_data, _) => {
                // Simply record if dc:description found.
                if is_word(tag_data.name.as_slice(), &['d', 'c', ':', 'd', 'e', 's', 'c', 'r', 'i', 'p', 't', 'i', 'o', 'n']) {
                    desc_found = true;
                }
            },
            XmlEvent::End(name, _) => {
                // Write description if end of metadata is reached without finding one.
                if is_word(name.as_slice(), &['m', 'e', 't', 'a', 'd', 'a', 't', 'a']) && !desc_found {
                    let no_attributes: Vec<OutAttribute> = Vec::new();
                    assert(no_attributes@.map_values(|a: OutAttribute| a@) =~= Seq::<AttributeModel>::empty());
                    let start = OutTag { name: String::from_str("dc:description"), attributes: no_attributes };
                    out.push(XmlOutput::Start(start));
                    out.push(XmlOutput::Text(String::from_str(description)));
                    out.push(XmlOutput::End(String::from_str("dc:description")));
                }
            },
            _ => {},
        }
        // Pass through unmodified.
        out.push(XmlOutput::Keep(i));
        proof {
            let prefix = opf@.take(i as int);
            let next = opf@.take(i + 1);
            assert(next.drop_last() =~= prefix);
            assert(outputs(out@) =~= outputs(before) + opf_step(opf@[i as int], i as int, seen, description@));
            if is_description_start(opf@[i as int]) {
                assert(next[i as int] == opf@[i as int]);
            }
            if seen {
                let j = choose|j: int| 0 <= j < prefix.len() && is_description_start(#[trigger] prefix[j]);
                assert(next[j] == prefix[j]);
            }
            if desc_found && !seen {
                assert(next[i as int] == opf@[i as int]);
            }
            if !desc_found {
                assert forall|j: int| 0 <= j < next.len() implies !is_description_start(#[trigger] next[j]) by {
                    if j < i {
                        assert(next[j] == prefix[j]);
                    }
                }
            }
        }
        i += 1;
    }
    assert(opf@.take(n as int) =~= opf@);
    out
}

proof fn lemma_keeps_concat(events: Seq<XmlEvent>, a: Seq<OutputModel>, b: Seq<OutputModel>)
    requires
        keeps_read_events(events, a),
        keeps_read_events(events, b),
    ensures
        keeps_read_events(events, a + b),
{
    assert forall|k: int| 0 <= k < (a + b).len() implies keeps_read_event(events, #[trigger] (a + b)[k]) by {
        if k < a.len() {
            assert((a + b)[k] == a[k]);
        } else {
            assert((a + b)[k] == b[k - a.len()]);
        }
    }
}

/// A chapter's body keeps only events that were read.
pub proof fn lemma_chapter_keeps_read_events(events: Seq<XmlEvent>, files: Seq<FileEntry>, chapter_dir: Seq<char>)
    ensures
        keeps_read_events(events, chapter_body(events, files, chapter_dir)),
    decreases events.len(),
{
    if events.len() > 0 {
        let prev = events.drop_last();
        lemma_chapter_keeps_read_events(prev, files, chapter_dir);
        let step = chapter_step(events.last(), events.len() - 1, files, chapter_dir);
        assert forall|k: int| 0 <= k < chapter_body(prev, files, chapter_dir).len() implies keeps_read_event(
            events,
            #[trigger] chapter_body(prev, files, chapter_dir)[k],
        ) by {
            assert(keeps_read_event(prev, chapter_body(prev, files, chapter_dir)[k]));
            if let OutputModel::Keep(i) = chapter_body(prev, files, chapter_dir)[k] {
                assert(prev[i] == events[i]);
            }
        }
        lemma_keeps_concat(events, chapter_body(prev, files, chapter_dir), step);
    }
}

/// The package document keeps only events that were read, and the
/// description element keeps none.
pub proof fn lemma_opf_keeps_read_events(events: Seq<XmlEvent>, description: Seq<char>)
    ensures
        keeps_read_events(events, modified_opf(events, description)),
    decreases events.len(),
{
    if events.len() > 0 {
        let prev = events.drop_last();
        lemma_opf_keeps_read_events(prev, description);
        let step = opf_step(events.last(), events.len() - 1, description_seen(prev), description);
        assert forall|k: int| 0 <= k < modified_opf(prev, description).len() implies keeps_read_event(
            events,
            #[trigger] modified_opf(prev, description)[k],
        ) by {
            assert(keeps_read_event(prev, modified_opf(prev, description)[k]));
            if let OutputModel::Keep(i) = modified_opf(prev, description)[k] {
                assert(prev[i] == events[i]);
            }
        }
        assert forall|k: int| 0 <= k < step.len() implies keeps_read_event(events, #[trigger] step[k]) by {}
        lemma_keeps_concat(events, modified_opf(prev, description), step);
    }
}

/// What is written for a chapter's body: the links for its stylesheets, the
/// bytes of its body as far as its fragment could be read, and whether the
/// whole fragment could be read.
pub struct ChapterXhtml {
    pub stylesheet_links: Vec<StylesheetLink>,
    pub body: Vec<u8>,
    pub complete: bool,
}

/// The bytes written for the body of a chapter whose fragment is `fragment`:
/// its events, as far as they could be read, rewritten.
pub open spec fn chapter_body_text(fragment: Seq<u8>, files: Seq<FileEntry>, chapter_dir: Seq<char>) -> Seq<u8> {
    let events = xml_events_of(fragment, false, false).0;
    xml_text_of(events, chapter_body(events, files, chapter_dir))
}

/// Processes the fragment and outputs the parts of a complete, EPUB-ready
/// XHTML document: the fragment is read leniently (end tags need not match),
/// its events rewritten and written back.
pub fn build_epub_chapter(chapter: &Chapter, chapter_dir: &str, fragment: &[u8], files: &BookFiles) -> (r: ChapterXhtml)
    ensures
        link_views(r.stylesheet_links@) == stylesheet_links_of(
            chapter.related_assets.stylesheets@,
            files.entries(),
            chapter_dir@,
        ),
        r.body@ == chapter_body_text(fragment@, files.entries(), chapter_dir@),
        r.complete == xml_events_of(fragment@, false, false).1,
{
    let stylesheet_links = make_stylesheet_links(chapter, chapter_dir, files);
    // Fragments could have unmatched tags - tell the parser not to fail if so.
    let (events, complete) = read_xml_events(fragment, false, false);
    let body = rewrite_chapter_body(&events, files, chapter_dir);
    proof {
        lemma_chapter_keeps_read_events(events@, files.entries(), chapter_dir@);
    }
    let body = write_xml(&events, &body);
    ChapterXhtml { stylesheet_links, body, complete }
}

/// Why a chapter's document cannot be made.
#[derive(Debug, PartialEq, Eq, Structural)]
pub enum ChapterError {
    /// The XHTML wrapper does not end with `</body></html>`.
    WrapperWithoutBody,
    /// The chapter's fragment is not well-formed.
    MalformedFragment,
}

/// The bytes of a chapter's document: the wrapper's bytes up to its closing
/// `</body></html>`, a line break, the body, a line break and the closing
/// tags.
pub open spec fn chapter_document(prefix: Seq<char>, body: Seq<u8>) -> Seq<u8> {
    encode_utf8(prefix) + seq![10u8] + body + seq![10u8] + encode_utf8(wrapper_suffix())
}

/// Puts a chapter's body into the XHTML wrapper. A wrapper without the
/// closing `</body></html>` is refused before anything is written; a body
/// whose fragment could not be read whole is written after the wrapper's
/// beginning, and refused then.
pub fn assemble_chapter(wrapper_xhtml: &str, chapter: &ChapterXhtml) -> (r: (Vec<u8>, Result<(), ChapterError>))
    ensures
        match wrapper_prefix_of(wrapper_xhtml@) {
            None => r.0@.len() == 0 && r.1 == Err::<(), ChapterError>(ChapterError::WrapperWithoutBody),
            Some(prefix) => if chapter.complete {
                r.0@ == chapter_document(prefix, chapter.body@) && r.1 is Ok
            } else {
                r.0@ == encode_utf8(prefix) + seq![10u8] + chapter.body@ && r.1 == Err::<
                    (),
                    ChapterError,
                >(ChapterError::MalformedFragment)
            },
        },
{
    let prefix = match wrapper_prefix(wrapper_xhtml) {
        Some(p) => p,
        None => {
            proof {
                assert(wrapper_prefix_of(wrapper_xhtml@) is None);
            }
            return (Vec::new(), Err(ChapterError::WrapperWithoutBody));
        },
    };
    proof {
        lemma_wrapper_prefix_unique(wrapper_xhtml@, prefix@);
    }
    let mut out = slice_to_vec(prefix.as_str().as_bytes());
    out.push(10u8);
    let mut i: usize = 0;
    let ghost start = out@;
    while i < chapter.body.len()
        invariant
            i <= chapter.body@.len(),
            out@ == start + chapter.body@.take(i as int),
        decreases chapter.body@.len() - i,
    {
        out.push(chapter.body[i]);
        i += 1;
        assert(out@ =~= start + chapter.body@.take(i as int));
    }
    assert(chapter.body@.take(chapter.body@.len() as int) =~= chapter.body@);
    if !chapter.complete {
        return (out, Err(ChapterError::MalformedFragment));
    }
    out.push(10u8);
    let suffix = "</body></html>".as_bytes();
    let ghost before = out@;
    let mut j: usize = 0;
    while j < suffix.len()
        invariant
            j <= suffix@.len(),
            out@ == before + suffix@.take(j as int),
        decreases suffix@.len() - j,
    {
        out.push(suffix[j]);
        j += 1;
        assert(out@ =~= before + suffix@.take(j as int));
    }
    assert(suffix@.take(suffix@.len() as int) =~= suffix@);
    assert(out@ =~= chapter_document(prefix@, chapter.body@));
    (out, Ok(()))
}

/// The part of a wrapper before its closing `</body></html>`, if it ends so.
pub open spec fn wrapper_prefix_of(wrapper_xhtml: Seq<char>) -> Option<Seq<char>> {
    if wrapper_suffix().is_suffix_of(wrapper_xhtml) {
        Some(wrapper_xhtml.subrange(0, wrapper_xhtml.len() - wrapper_suffix().len()))
    } else {
        None
    }
}

proof fn lemma_wrapper_prefix_unique(wrapper_xhtml: Seq<char>, prefix: Seq<char>)
    requires
        wrapper_xhtml == prefix + wrapper_suffix(),
    ensures
        wrapper_prefix_of(wrapper_xhtml) == Some(prefix),
{
    assert(wrapper_suffix().is_suffix_of(wrapper_xhtml)) by {
        assert(wrapper_xhtml.subrange(
            wrapper_xhtml.len() - wrapper_suffix().len(),
            wrapper_xhtml.len() as int,
        ) =~= wrapper_suffix());
    }
    assert(wrapper_xhtml.subrange(0, wrapper_xhtml.len() - wrapper_suffix().len()) =~= prefix);
}

/// The bytes written for a package document that is `opf`: its events, as far
/// as they could be read, with a description added where its metadata lacks
/// one.
pub open spec fn modified_opf_text(opf: Seq<u8>, description: Seq<char>) -> Seq<u8> {
    let events = xml_events_of(opf, true, false).0;
    xml_text_of(events, modified_opf(events, description))
}

/// Copies the OPF package document, adding the book's description to its
/// metadata where it lacks one. Gives the bytes to write, as far as the
/// document could be read, and whether it could be read whole.
pub fn write_modified_opf(opf: &[u8], description: &str) -> (r: (Vec<u8>, bool))
    ensures
        r.0@ == modified_opf_text(opf@, description@),
        r.1 == xml_events_of(opf@, true, false).1,
{
    let (events, complete) = read_xml_events(opf, true, false);
    let out = modified_opf_events(&events, description);
    proof {
        lemma_opf_keeps_read_events(events@, description@);
    }
    (write_xml(&events, &out), complete)
}

} // verus!
