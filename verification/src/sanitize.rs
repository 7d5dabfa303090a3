//! Sanitizing of the XHTML pages of a book that are not chapters: script
//! elements are removed and HTML boolean attributes are written in XML form.
use vstd::prelude::*;
use crate::bytes::{ascii, is_word};
use crate::events::{
    keeps_read_event, keeps_read_events, outputs, read_xml_events, write_xml, xml_events_of,
    xml_text_of, AttributeModel, OutAttribute, OutTag, OutputModel, TagModel, XmlAttribute,
    XmlEvent, XmlOutput, XmlTag,
};
use crate::text::{lossy_text, utf8_lossy};

verus! {

/// The name of the script element.
pub open spec fn is_script_tag(name: Seq<u8>) -> bool {
    name == ascii(seq!['s', 'c', 'r', 'i', 'p', 't'])
}

/// The boolean attributes of HTML: their presence alone means "true", so in
/// HTML they may stand without a value, which XML does not allow.
pub open spec fn is_boolean_attribute(key: Seq<u8>) -> bool {
    ||| key == ascii(seq!['a', 'l', 'l', 'o', 'w', 'f', 'u', 'l', 'l', 's', 'c', 'r', 'e', 'e', 'n'])
    ||| key == ascii(seq!['a', 's', 'y', 'n', 'c'])
    ||| key == ascii(seq!['a', 'u', 't', 'o', 'f', 'o', 'c', 'u', 's'])
    ||| key == ascii(seq!['a', 'u', 't', 'o', 'p', 'l', 'a', 'y'])
    ||| key == ascii(seq!['c', 'h', 'e', 'c', 'k', 'e', 'd'])
    ||| key == ascii(seq!['c', 'o', 'n', 't', 'r', 'o', 'l', 's'])
    ||| key == ascii(seq!['d', 'e', 'f', 'a', 'u', 'l', 't'])
    ||| key == ascii(seq!['d', 'e', 'f', 'e', 'r'])
    ||| key == ascii(seq!['d', 'i', 's', 'a', 'b', 'l', 'e', 'd'])
    ||| key == ascii(seq!['f', 'o', 'r', 'm', 'n', 'o', 'v', 'a', 'l', 'i', 'd', 'a', 't', 'e'])
    ||| key == ascii(seq!['h', 'i', 'd', 'd', 'e', 'n'])
    ||| key == ascii(seq!['i', 'n', 'e', 'r', 't'])
    ||| key == ascii(seq!['i', 's', 'm', 'a', 'p'])
    ||| key == ascii(seq!['i', 't', 'e', 'm', 's', 'c', 'o', 'p', 'e'])
    ||| key == ascii(seq!['l', 'o', 'o', 'p'])
    ||| key == ascii(seq!['m', 'u', 'l', 't', 'i', 'p', 'l', 'e'])
    ||| key == ascii(seq!['m', 'u', 't', 'e', 'd'])
    ||| key == ascii(seq!['n', 'o', 'm', 'o', 'd', 'u', 'l', 'e'])
    ||| key == ascii(seq!['n', 'o', 'v', 'a', 'l', 'i', 'd', 'a', 't', 'e'])
    ||| key == ascii(seq!['o', 'p', 'e', 'n'])
    ||| key == ascii(seq!['p', 'l', 'a', 'y', 's', 'i', 'n', 'l', 'i', 'n', 'e'])
    ||| key == ascii(seq!['r', 'e', 'a', 'd', 'o', 'n', 'l', 'y'])
    ||| key == ascii(seq!['r', 'e', 'q', 'u', 'i', 'r', 'e', 'd'])
    ||| key == ascii(seq!['r', 'e', 'v', 'e', 'r', 's', 'e', 'd'])
    ||| key == ascii(seq!['s', 'e', 'l', 'e', 'c', 't', 'e', 'd'])
}

/// Checks whether an attribute key is one of HTML's boolean attributes.
pub fn is_html_boolean_attribute(key: &[u8]) -> (r: bool)
    ensures
        r == is_boolean_attribute(key@),
{
    let b0 = is_word(key, &['a', 'l', 'l', 'o', 'w', 'f', 'u', 'l', 'l', 's', 'c', 'r', 'e', 'e', 'n']);
    let b1 = is_word(key, &['a', 's', 'y', 'n', 'c']);
    let b2 = is_word(key, &['a', 'u', 't', 'o', 'f', 'o', 'c', 'u', 's']);
    let b3 = is_word(key, &['a', 'u', 't', 'o', 'p', 'l', 'a', 'y']);
    let b4 = is_word(key, &['c', 'h', 'e', 'c', 'k', 'e', 'd']);
    let b5 = is_word(key, &['c', 'o', 'n', 't', 'r', 'o', 'l', 's']);
    let b6 = is_word(key, &['d', 'e', 'f', 'a', 'u', 'l', 't']);
    let b7 = is_word(key, &['d', 'e', 'f', 'e', 'r']);
    let b8 = is_word(key, &['d', 'i', 's', 'a', 'b', 'l', 'e', 'd']);
    let b9 = is_word(key, &['f', 'o', 'r', 'm', 'n', 'o', 'v', 'a', 'l', 'i', 'd', 'a', 't', 'e']);
    let b10 = is_word(key, &['h', 'i', 'd', 'd', 'e', 'n']);
    let b11 = is_word(key, &['i', 'n', 'e', 'r', 't']);
    let b12 = is_word(key, &['i', 's', 'm', 'a', 'p']);
    let b13 = is_word(key, &['i', 't', 'e', 'm', 's', 'c', 'o', 'p', 'e']);
    let b14 = is_word(key, &['l', 'o', 'o', 'p']);
    let b15 = is_word(key, &['m', 'u', 'l', 't', 'i', 'p', 'l', 'e']);
    let b16 = is_word(key, &['m', 'u', 't', 'e', 'd']);
    let b17 = is_word(key, &['n', 'o', 'm', 'o', 'd', 'u', 'l', 'e']);
    let b18 = is_word(key, &['n', 'o', 'v', 'a', 'l', 'i', 'd', 'a', 't', 'e']);
    let b19 = is_word(key, &['o', 'p', 'e', 'n']);
    let b20 = is_word(key, &['p', 'l', 'a', 'y', 's', 'i', 'n', 'l', 'i', 'n', 'e']);
    let b21 = is_word(key, &['r', 'e', 'a', 'd', 'o', 'n', 'l', 'y']);
    let b22 = is_word(key, &['r', 'e', 'q', 'u', 'i', 'r', 'e', 'd']);
    let b23 = is_word(key, &['r', 'e', 'v', 'e', 'r', 's', 'e', 'd']);
    let b24 = is_word(key, &['s', 'e', 'l', 'e', 'c', 't', 'e', 'd']);
    b0 || b1 || b2 || b3 || b4 || b5 || b6 || b7 || b8 || b9 || b10 || b11 || b12 || b13 || b14 || b15 || b16 || b17 || b18 || b19 || b20 || b21 || b22 || b23 || b24
}

/// How an attribute of a page is written: a boolean attribute without a value
/// gets its own name as value (`checked` becomes `checked="checked"`); every
/// other attribute is written with its value as read, in quotes.
pub open spec fn sanitized_attribute(a: XmlAttribute) -> AttributeModel {
    if a.value@.len() == 0 && is_boolean_attribute(a.key@) {
        AttributeModel::Raw(a.key@, a.key@)
    } else {
        AttributeModel::Raw(a.key@, a.value@)
    }
}

/// How a tag of a page is written: its name read as UTF-8, and its
/// attributes in XML form.
pub open spec fn sanitized_tag(t: XmlTag) -> TagModel {
    TagModel {
        name: lossy_text(t.name@),
        attributes: t.attributes@.map_values(|a: XmlAttribute| sanitized_attribute(a)),
    }
}

/// Writes the attributes of a tag in XML form.
pub fn sanitize_tag(tag_data: &XmlTag) -> (r: OutTag)
    ensures
        r@ == sanitized_tag(*tag_data),
{
    let name = utf8_lossy(tag_data.name.as_slice());
    let mut attributes: Vec<OutAttribute> = Vec::new();
    let n = tag_data.attributes.len();
    let mut i: usize = 0;
    while i < n
        invariant
            n == tag_data.attributes@.len(),
            i <= n,
            attributes@.map_values(|a: OutAttribute| a@) =~= tag_data.attributes@.take(i as int).map_values(
                |a: XmlAttribute| sanitized_attribute(a),
            ),
        decreases n - i,
    {
        let attr = &tag_data.attributes[i];
        let out = if attr.value.len() == 0 && is_html_boolean_attribute(attr.key.as_slice()) {
            OutAttribute::Raw { key: attr.key.clone(), value: attr.key.clone() }
        } else {
            OutAttribute::Raw { key: attr.key.clone(), value: attr.value.clone() }
        };
        let ghost before = attributes@;
        attributes.push(out);
        assert(tag_data.attributes@.take(i + 1) =~= tag_data.attributes@.take(i as int).push(*attr));
        assert(attributes@.map_values(|a: OutAttribute| a@) =~= before.map_values(|a: OutAttribute| a@).push(
            out@,
        ));
        i += 1;
    }
    assert(tag_data.attributes@.take(n as int) =~= tag_data.attributes@);
    OutTag { name, attributes }
}

/// How many script elements are open after the events: each script start tag
/// opens one, each script end tag closes one that is open.
pub open spec fn script_depth(events: Seq<XmlEvent>) -> nat
    decreases events.len(),
{
    if events.len() == 0 {
        0
    } else {
        let d = script_depth(events.drop_last());
        match events.last() {
            XmlEvent::Start(t, _) => if is_script_tag(t.name@) { d + 1 } else { d },
            XmlEvent::End(name, _) => if is_script_tag(name@) && d > 0 { (d - 1) as nat } else { d },
            _ => d,
        }
    }
}

/// What an event of a page becomes, given how many script elements are open
/// before it: inside a script element, and for the script element's own
/// tags, nothing; tags have their attributes written in XML form; everything
/// else is passed through unchanged.
pub open spec fn sanitize_step(e: XmlEvent, i: int, depth: nat) -> Seq<OutputModel> {
    match e {
        XmlEvent::Start(t, _) => if depth > 0 || is_script_tag(t.name@) {
            Seq::empty()
        } else {
            seq![OutputModel::Start(sanitized_tag(t))]
        },
        XmlEvent::Empty(t, _) => if depth > 0 || is_script_tag(t.name@) {
            Seq::empty()
        } else {
            seq![OutputModel::Empty(sanitized_tag(t))]
        },
        XmlEvent::End(name, _) => if depth > 0 || is_script_tag(name@) {
            Seq::empty()
        } else {
            seq![OutputModel::Keep(i)]
        },
        XmlEvent::Other(_) => if depth > 0 {
            Seq::empty()
        } else {
            seq![OutputModel::Keep(i)]
        },
    }
}

/// The events written for a page that reads as `events`.
pub open spec fn sanitized(events: Seq<XmlEvent>) -> Seq<OutputModel>
    decreases events.len(),
{
    if events.len() == 0 {
        Seq::empty()
    } else {
        sanitized(events.drop_last()) + sanitize_step(
            events.last(),
            events.len() - 1,
            script_depth(events.drop_last()),
        )
    }
}

/// Strips the script elements from the events of a page and writes its
/// boolean attributes in XML form.
pub fn sanitize_events(events: &Vec<XmlEvent>) -> (r: Vec<XmlOutput>)
    ensures
        outputs(r@) == sanitized(events@),
{
    let mut out: Vec<XmlOutput> = Vec::new();
    let mut depth: usize = 0;
    let n = events.len();
    let mut i: usize = 0;
    while i < n
        invariant
            n == events@.len(),
            i <= n,
            depth == script_depth(events@.take(i as int)),
            depth <= i,
            outputs(out@) == sanitized(events@.take(i as int)),
        decreases n - i,
    {
        let ghost before = out@;
        let ghost d = depth;
        match &events[i] {
            XmlEvent::Start(tag_data, _) => {
                if is_word(tag_data.name.as_slice(), &['s', 'c', 'r', 'i', 'p', 't']) {
                    depth += 1;
                } else if depth == 0 {
                    out.push(XmlOutput::Start(sanitize_tag(tag_data)));
                }
            },
            XmlEvent::Empty(tag_data, _) => {
                if depth == 0 && !is_word(tag_data.name.as_slice(), &['s', 'c', 'r', 'i', 'p', 't']) {
                    out.push(XmlOutput::Empty(sanitize_tag(tag_data)));
                }
            },
            XmlEvent::End(name, _) => {
                if is_word(name.as_slice(), &['s', 'c', 'r', 'i', 'p', 't']) {
                    if depth > 0 {
                        depth -= 1;
                    }
                } else if depth == 0 {
                    out.push(XmlOutput::Keep(i));
                }
            },
            XmlEvent::Other(_) => {
                if depth == 0 {
                    out.push(XmlOutput::Keep(i));
                }
            },
        }
        proof {
            assert(events@.take(i + 1).drop_last() =~= events@.take(i as int));
            assert(outputs(out@) =~= outputs(before) + sanitize_step(events@[i as int], i as int, d as nat));
        }
        i += 1;
    }
    assert(events@.take(n as int) =~= events@);
    out
}

/// A page keeps only events that were read.
pub proof fn lemma_sanitized_keeps_read_events(events: Seq<XmlEvent>)
    ensures
        keeps_read_events(events, sanitized(events)),
    decreases events.len(),
{
    if events.len() > 0 {
        let prev = events.drop_last();
        lemma_sanitized_keeps_read_events(prev);
        let a = sanitized(prev);
        let step = sanitize_step(events.last(), events.len() - 1, script_depth(prev));
        assert forall|k: int| 0 <= k < (a + step).len() implies keeps_read_event(events, #[trigger] (a + step)[k]) by {
            if k < a.len() {
                assert((a + step)[k] == a[k]);
                assert(keeps_read_event(prev, a[k]));
            } else {
                assert((a + step)[k] == step[k - a.len()]);
            }
        }
    }
}

/// The bytes written for a page that is `page`: its events, as far as they
/// could be read (leniently, attributes in HTML form), without scripts and
/// with boolean attributes in XML form.
pub open spec fn sanitized_text(page: Seq<u8>) -> Seq<u8> {
    let events = xml_events_of(page, false, true).0;
    xml_text_of(events, sanitized(events))
}

/// Runs an XHTML page through the sanitizer: strips its script elements and
/// writes HTML boolean attributes in XML-valid form. Gives the bytes to
/// write, as far as the page could be read, and whether it could be read
/// whole.
pub fn sanitize_xhtml_file(page: &[u8]) -> (r: (Vec<u8>, bool))
    ensures
        r.0@ == sanitized_text(page@),
        r.1 == xml_events_of(page@, false, true).1,
{
    let (events, complete) = read_xml_events(page, false, true);
    let out = sanitize_events(&events);
    proof {
        lemma_sanitized_keeps_read_events(events@);
    }
    (write_xml(&events, &out), complete)
}

/// No part of a script element survives: every event passed through lies
/// outside all script elements and is no script end tag (and, by
/// `sanitize_step`, no script tag is ever written).
pub proof fn lemma_sanitized_drops_scripts(events: Seq<XmlEvent>)
    ensures
        forall|k: int|
            0 <= k < sanitized(events).len() ==> (#[trigger] sanitized(events)[k] matches OutputModel::Keep(i)
                ==> 0 <= i < events.len() && script_depth(events.take(i)) == 0 && !(events[i] matches XmlEvent::End(
                name,
                _,
            ) && is_script_tag(name@))),
    decreases events.len(),
{
    if events.len() > 0 {
        let prev = events.drop_last();
        let n = events.len() - 1;
        lemma_sanitized_drops_scripts(prev);
        let a = sanitized(prev);
        let step = sanitize_step(events.last(), n, script_depth(prev));
        assert(events.take(n) =~= prev);
        assert forall|k: int| 0 <= k < (a + step).len() implies ((#[trigger] (a + step)[k]) matches OutputModel::Keep(i)
            ==> 0 <= i < events.len() && script_depth(events.take(i)) == 0 && !(events[i] matches XmlEvent::End(
            name,
            _,
        ) && is_script_tag(name@))) by {
            if k < a.len() {
                assert((a + step)[k] == a[k]);
                if let OutputModel::Keep(i) = a[k] {
                    assert(prev.take(i) =~= events.take(i));
                    assert(prev[i] == events[i]);
                }
            } else {
                assert((a + step)[k] == step[k - a.len()]);
            }
        }
    }
}

proof fn lemma_sanitize_take_step(events: Seq<XmlEvent>, i: int)
    requires
        0 <= i < events.len(),
    ensures
        sanitized(events.take(i + 1)) == sanitized(events.take(i)) + sanitize_step(
            events[i],
            i,
            script_depth(events.take(i)),
        ),
{
    assert(events.take(i + 1).drop_last() =~= events.take(i));
    assert(events.take(i + 1).last() == events[i]);
}

proof fn lemma_sanitize_prefix(events: Seq<XmlEvent>, j: int)
    requires
        0 <= j <= events.len(),
    ensures
        sanitized(events.take(j)).len() <= sanitized(events).len(),
        forall|k: int| 0 <= k < sanitized(events.take(j)).len() ==> sanitized(events.take(j))[k] == sanitized(events)[k],
    decreases events.len(),
{
    if j == events.len() {
        assert(events.take(j) =~= events);
    } else {
        let prev = events.drop_last();
        lemma_sanitize_prefix(prev, j);
        assert(prev.take(j) =~= events.take(j));
        let a = sanitized(prev);
        let step = sanitize_step(events.last(), events.len() - 1, script_depth(prev));
        assert(sanitized(events) == a + step);
        assert forall|k: int| 0 <= k < a.len() implies (a + step)[k] == a[k] by {}
    }
}

/// Outside script elements nothing but scripts is lost. The output of the
/// event at index `i` is written where the outputs of the events before it
/// end. Where no script element is open before it, a start or empty-element
/// tag of any element but `script` is written there, of the same kind, with
/// its attributes in XML form; an end tag of any element but `script` and
/// any event that is not a tag are kept there. Nothing is written for a
/// `script` tag, nor for any event inside a script element.
pub proof fn lemma_sanitize_keeps_all_but_scripts(events: Seq<XmlEvent>, i: int)
    requires
        0 <= i < events.len(),
    ensures
        ({
            let out = sanitized(events);
            let at = sanitized(events.take(i)).len() as int;
            let outside = script_depth(events.take(i)) == 0;
            let nothing = sanitized(events.take(i + 1)) == sanitized(events.take(i));
            &&& events[i] matches XmlEvent::Start(t, _) ==> if outside && t.name@ != ascii(seq!['s', 'c', 'r', 'i', 'p', 't']) {
                at < out.len() && out[at] == OutputModel::Start(sanitized_tag(t))
            } else {
                nothing
            }
            &&& events[i] matches XmlEvent::Empty(t, _) ==> if outside && t.name@ != ascii(seq!['s', 'c', 'r', 'i', 'p', 't']) {
                at < out.len() && out[at] == OutputModel::Empty(sanitized_tag(t))
            } else {
                nothing
            }
            &&& events[i] matches XmlEvent::End(name, _) ==> if outside && name@ != ascii(seq!['s', 'c', 'r', 'i', 'p', 't']) {
                at < out.len() && out[at] == OutputModel::Keep(i)
            } else {
                nothing
            }
            &&& events[i] is Other ==> if outside {
                at < out.len() && out[at] == OutputModel::Keep(i)
            } else {
                nothing
            }
        }),
{
    lemma_sanitize_take_step(events, i);
    lemma_sanitize_prefix(events, i + 1);
    let a = sanitized(events.take(i));
    let step = sanitize_step(events[i], i, script_depth(events.take(i)));
    if step.len() > 0 {
        assert((a + step)[a.len() as int] == step[0]);
    } else {
        assert(a + step =~= a);
    }
}

/// The boolean attributes are exactly HTML's: allowfullscreen, async,
/// autofocus, autoplay, checked, controls, default, defer, disabled,
/// formnovalidate, hidden, inert, ismap, itemscope, loop, multiple, muted,
/// nomodule, novalidate, open, playsinline, readonly, required, reversed and
/// selected. One of them without a value is written with its own name as
/// value; every other attribute is written with its value as read.
pub proof fn lemma_boolean_attributes_written_in_xml_form(a: XmlAttribute)
    ensures
        is_boolean_attribute(a.key@) <==> (a.key@ == ascii(seq!['a', 'l', 'l', 'o', 'w', 'f', 'u', 'l', 'l', 's', 'c', 'r', 'e', 'e', 'n'])
        || a.key@ == ascii(seq!['a', 's', 'y', 'n', 'c'])
        || a.key@ == ascii(seq!['a', 'u', 't', 'o', 'f', 'o', 'c', 'u', 's'])
        || a.key@ == ascii(seq!['a', 'u', 't', 'o', 'p', 'l', 'a', 'y'])
        || a.key@ == ascii(seq!['c', 'h', 'e', 'c', 'k', 'e', 'd'])
        || a.key@ == ascii(seq!['c', 'o', 'n', 't', 'r', 'o', 'l', 's'])
        || a.key@ == ascii(seq!['d', 'e', 'f', 'a', 'u', 'l', 't'])
        || a.key@ == ascii(seq!['d', 'e', 'f', 'e', 'r'])
        || a.key@ == ascii(seq!['d', 'i', 's', 'a', 'b', 'l', 'e', 'd'])
        || a.key@ == ascii(seq!['f', 'o', 'r', 'm', 'n', 'o', 'v', 'a', 'l', 'i', 'd', 'a', 't', 'e'])
        || a.key@ == ascii(seq!['h', 'i', 'd', 'd', 'e', 'n'])
        || a.key@ == ascii(seq!['i', 'n', 'e', 'r', 't'])
        || a.key@ == ascii(seq!['i', 's', 'm', 'a', 'p'])
        || a.key@ == ascii(seq!['i', 't', 'e', 'm', 's', 'c', 'o', 'p', 'e'])
        || a.key@ == ascii(seq!['l', 'o', 'o', 'p'])
        || a.key@ == ascii(seq!['m', 'u', 'l', 't', 'i', 'p', 'l', 'e'])
        || a.key@ == ascii(seq!['m', 'u', 't', 'e', 'd'])
        || a.key@ == ascii(seq!['n', 'o', 'm', 'o', 'd', 'u', 'l', 'e'])
        || a.key@ == ascii(seq!['n', 'o', 'v', 'a', 'l', 'i', 'd', 'a', 't', 'e'])
        || a.key@ == ascii(seq!['o', 'p', 'e', 'n'])
        || a.key@ == ascii(seq!['p', 'l', 'a', 'y', 's', 'i', 'n', 'l', 'i', 'n', 'e'])
        || a.key@ == ascii(seq!['r', 'e', 'a', 'd', 'o', 'n', 'l', 'y'])
        || a.key@ == ascii(seq!['r', 'e', 'q', 'u', 'i', 'r', 'e', 'd'])
        || a.key@ == ascii(seq!['r', 'e', 'v', 'e', 'r', 's', 'e', 'd'])
        || a.key@ == ascii(seq!['s', 'e', 'l', 'e', 'c', 't', 'e', 'd'])),
        a.value@.len() == 0 && (a.key@ == ascii(seq!['a', 'l', 'l', 'o', 'w', 'f', 'u', 'l', 'l', 's', 'c', 'r', 'e', 'e', 'n'])
        || a.key@ == ascii(seq!['a', 's', 'y', 'n', 'c'])
        || a.key@ == ascii(seq!['a', 'u', 't', 'o', 'f', 'o', 'c', 'u', 's'])
        || a.key@ == ascii(seq!['a', 'u', 't', 'o', 'p', 'l', 'a', 'y'])
        || a.key@ == ascii(seq!['c', 'h', 'e', 'c', 'k', 'e', 'd'])
        || a.key@ == ascii(seq!['c', 'o', 'n', 't', 'r', 'o', 'l', 's'])
        || a.key@ == ascii(seq!['d', 'e', 'f', 'a', 'u', 'l', 't'])
        || a.key@ == ascii(seq!['d', 'e', 'f', 'e', 'r'])
        || a.key@ == ascii(seq!['d', 'i', 's', 'a', 'b', 'l', 'e', 'd'])
        || a.key@ == ascii(seq!['f', 'o', 'r', 'm', 'n', 'o', 'v', 'a', 'l', 'i', 'd', 'a', 't', 'e'])
        || a.key@ == ascii(seq!['h', 'i', 'd', 'd', 'e', 'n'])
        || a.key@ == ascii(seq!['i', 'n', 'e', 'r', 't'])
        || a.key@ == ascii(seq!['i', 's', 'm', 'a', 'p'])
        || a.key@ == ascii(seq!['i', 't', 'e', 'm', 's', 'c', 'o', 'p', 'e'])
        || a.key@ == ascii(seq!['l', 'o', 'o', 'p'])
        || a.key@ == ascii(seq!['m', 'u', 'l', 't', 'i', 'p', 'l', 'e'])
        || a.key@ == ascii(seq!['m', 'u', 't', 'e', 'd'])
        || a.key@ == ascii(seq!['n', 'o', 'm', 'o', 'd', 'u', 'l', 'e'])
        || a.key@ == ascii(seq!['n', 'o', 'v', 'a', 'l', 'i', 'd', 'a', 't', 'e'])
        || a.key@ == ascii(seq!['o', 'p', 'e', 'n'])
        || a.key@ == ascii(seq!['p', 'l', 'a', 'y', 's', 'i', 'n', 'l', 'i', 'n', 'e'])
        || a.key@ == ascii(seq!['r', 'e', 'a', 'd', 'o', 'n', 'l', 'y'])
        || a.key@ == ascii(seq!['r', 'e', 'q', 'u', 'i', 'r', 'e', 'd'])
        || a.key@ == ascii(seq!['r', 'e', 'v', 'e', 'r', 's', 'e', 'd'])
        || a.key@ == ascii(seq!['s', 'e', 'l', 'e', 'c', 't', 'e', 'd'])) ==> sanitized_attribute(a) == AttributeModel::Raw(a.key@, a.key@),
        !(a.value@.len() == 0 && (a.key@ == ascii(seq!['a', 'l', 'l', 'o', 'w', 'f', 'u', 'l', 'l', 's', 'c', 'r', 'e', 'e', 'n'])
        || a.key@ == ascii(seq!['a', 's', 'y', 'n', 'c'])
        || a.key@ == ascii(seq!['a', 'u', 't', 'o', 'f', 'o', 'c', 'u', 's'])
        || a.key@ == ascii(seq!['a', 'u', 't', 'o', 'p', 'l', 'a', 'y'])
        || a.key@ == ascii(seq!['c', 'h', 'e', 'c', 'k', 'e', 'd'])
        || a.key@ == ascii(seq!['c', 'o', 'n', 't', 'r', 'o', 'l', 's'])
        || a.key@ == ascii(seq!['d', 'e', 'f', 'a', 'u', 'l', 't'])
        || a.key@ == ascii(seq!['d', 'e', 'f', 'e', 'r'])
        || a.key@ == ascii(seq!['d', 'i', 's', 'a', 'b', 'l', 'e', 'd'])
        || a.key@ == ascii(seq!['f', 'o', 'r', 'm', 'n', 'o', 'v', 'a', 'l', 'i', 'd', 'a', 't', 'e'])
        || a.key@ == ascii(seq!['h', 'i', 'd', 'd', 'e', 'n'])
        || a.key@ == ascii(seq!['i', 'n', 'e', 'r', 't'])
        || a.key@ == ascii(seq!['i', 's', 'm', 'a', 'p'])
        || a.key@ == ascii(seq!['i', 't', 'e', 'm', 's', 'c', 'o', 'p', 'e'])
        || a.key@ == ascii(seq!['l', 'o', 'o', 'p'])
        || a.key@ == ascii(seq!['m', 'u', 'l', 't', 'i', 'p', 'l', 'e'])
        || a.key@ == ascii(seq!['m', 'u', 't', 'e', 'd'])
        || a.key@ == ascii(seq!['n', 'o', 'm', 'o', 'd', 'u', 'l', 'e'])
        || a.key@ == ascii(seq!['n', 'o', 'v', 'a', 'l', 'i', 'd', 'a', 't', 'e'])
        || a.key@ == ascii(seq!['o', 'p', 'e', 'n'])
        || a.key@ == ascii(seq!['p', 'l', 'a', 'y', 's', 'i', 'n', 'l', 'i', 'n', 'e'])
        || a.key@ == ascii(seq!['r', 'e', 'a', 'd', 'o', 'n', 'l', 'y'])
        || a.key@ == ascii(seq!['r', 'e', 'q', 'u', 'i', 'r', 'e', 'd'])
        || a.key@ == ascii(seq!['r', 'e', 'v', 'e', 'r', 's', 'e', 'd'])
        || a.key@ == ascii(seq!['s', 'e', 'l', 'e', 'c', 't', 'e', 'd']))) ==> sanitized_attribute(a) == AttributeModel::Raw(a.key@, a.value@),
{
}

} // verus!
