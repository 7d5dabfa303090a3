//! What the rewriting of chapters and of the package document keeps, over
//! whole documents.
use vstd::prelude::*;
use crate::bytes::ascii;
use crate::files::{file_index_for_url, lemma_unique_url_path_finds_own};
use crate::models::FileEntry;
use crate::paths::{relative_path_of, url_path_of};
use crate::text::lossy_text;
use crate::events::{keeps_read_event, AttributeModel, OutputModel, TagModel, XmlAttribute, XmlEvent};
use crate::xml::{
    chapter_body, chapter_step, description_element, description_seen, is_description_start,
    is_metadata_end, lemma_opf_keeps_read_events,
    is_link_attribute, is_void_tag_name, modified_opf, opf_step, rewritten_attribute, rewritten_tag,
    stylesheet_link_for, stylesheet_links_of,
};

verus! {

/// The indices of the events that are written unchanged, in the order in
/// which they are written.
pub open spec fn kept_indices(out: Seq<OutputModel>) -> Seq<int>
    decreases out.len(),
{
    if out.len() == 0 {
        Seq::empty()
    } else {
        let prev = kept_indices(out.drop_last());
        match out.last() {
            OutputModel::Keep(i) => prev.push(i),
            _ => prev,
        }
    }
}

/// The tags that are written, in order, each with whether it is written as
/// an empty-element tag.
pub open spec fn written_tags(out: Seq<OutputModel>) -> Seq<(bool, TagModel)>
    decreases out.len(),
{
    if out.len() == 0 {
        Seq::empty()
    } else {
        let prev = written_tags(out.drop_last());
        match out.last() {
            OutputModel::Start(t) => prev.push((false, t)),
            OutputModel::Empty(t) => prev.push((true, t)),
            _ => prev,
        }
    }
}

proof fn lemma_kept_indices_single(x: OutputModel)
    ensures
        kept_indices(Seq::<OutputModel>::empty()) == Seq::<int>::empty(),
        kept_indices(seq![x]) == match x {
            OutputModel::Keep(i) => seq![i],
            _ => Seq::<int>::empty(),
        },
        written_tags(Seq::<OutputModel>::empty()) == Seq::<(bool, TagModel)>::empty(),
        written_tags(seq![x]) == match x {
            OutputModel::Start(t) => seq![(false, t)],
            OutputModel::Empty(t) => seq![(true, t)],
            _ => Seq::<(bool, TagModel)>::empty(),
        },
{
    assert(seq![x].drop_last() =~= Seq::<OutputModel>::empty());
    assert(seq![x].last() == x);
    assert(kept_indices(Seq::<OutputModel>::empty()) =~= Seq::<int>::empty());
    assert(written_tags(Seq::<OutputModel>::empty()) =~= Seq::<(bool, TagModel)>::empty());
    match x {
        OutputModel::Keep(i) => {
            assert(Seq::<int>::empty().push(i) =~= seq![i]);
            assert(written_tags(seq![x]) == written_tags(Seq::<OutputModel>::empty()));
        },
        OutputModel::Start(t) => {
            assert(Seq::<(bool, TagModel)>::empty().push((false, t)) =~= seq![(false, t)]);
            assert(kept_indices(seq![x]) == kept_indices(Seq::<OutputModel>::empty()));
        },
        OutputModel::Empty(t) => {
            assert(Seq::<(bool, TagModel)>::empty().push((true, t)) =~= seq![(true, t)]);
            assert(kept_indices(seq![x]) == kept_indices(Seq::<OutputModel>::empty()));
        },
        _ => {
            assert(kept_indices(seq![x]) == kept_indices(Seq::<OutputModel>::empty()));
            assert(written_tags(seq![x]) == written_tags(Seq::<OutputModel>::empty()));
        },
    }
}

proof fn lemma_kept_indices_concat(a: Seq<OutputModel>, b: Seq<OutputModel>)
    ensures
        kept_indices(a + b) == kept_indices(a) + kept_indices(b),
    decreases b.len(),
{
    if b.len() == 0 {
        assert(a + b =~= a);
        assert(kept_indices(a) + kept_indices(b) =~= kept_indices(a));
    } else {
        lemma_kept_indices_concat(a, b.drop_last());
        assert((a + b).drop_last() =~= a + b.drop_last());
        assert((a + b).last() == b.last());
        assert(kept_indices(a + b) =~= kept_indices(a) + kept_indices(b));
    }
}

proof fn lemma_written_tags_concat(a: Seq<OutputModel>, b: Seq<OutputModel>)
    ensures
        written_tags(a + b) == written_tags(a) + written_tags(b),
    decreases b.len(),
{
    if b.len() == 0 {
        assert(a + b =~= a);
        assert(written_tags(a) + written_tags(b) =~= written_tags(a));
    } else {
        lemma_written_tags_concat(a, b.drop_last());
        assert((a + b).drop_last() =~= a + b.drop_last());
        assert((a + b).last() == b.last());
        assert(written_tags(a + b) =~= written_tags(a) + written_tags(b));
    }
}

/// An event of a chapter that is written unchanged: an end tag of an element
/// that is not void, or anything that is not a tag.
pub open spec fn is_passed_through(e: XmlEvent) -> bool {
    match e {
        XmlEvent::End(name, _) => !is_void_tag_name(name@),
        XmlEvent::Other(_) => true,
        _ => false,
    }
}

/// The indices of the chapter events that are written unchanged.
pub open spec fn passed_through_indices(events: Seq<XmlEvent>) -> Seq<int>
    decreases events.len(),
{
    if events.len() == 0 {
        Seq::empty()
    } else {
        let prev = passed_through_indices(events.drop_last());
        if is_passed_through(events.last()) {
            prev.push(events.len() - 1)
        } else {
            prev
        }
    }
}

/// The tags of a chapter as they are to be written: the start and
/// empty-element tags of the fragment, in order, with their attributes
/// rewritten; empty-element tags and the start tags of void elements become
/// empty-element tags, other start tags stay start tags.
pub open spec fn chapter_tags(events: Seq<XmlEvent>, files: Seq<FileEntry>, chapter_dir: Seq<char>) -> Seq<(bool, TagModel)>
    decreases events.len(),
{
    if events.len() == 0 {
        Seq::empty()
    } else {
        let prev = chapter_tags(events.drop_last(), files, chapter_dir);
        match events.last() {
            XmlEvent::Start(t, _) => prev.push((is_void_tag_name(t.name@), rewritten_tag(t, files, chapter_dir))),
            XmlEvent::Empty(t, _) => prev.push((true, rewritten_tag(t, files, chapter_dir))),
            _ => prev,
        }
    }
}

/// A chapter's fragment loses nothing but the end tags of void elements, and
/// nothing is reordered: the events written unchanged are exactly the end
/// tags of the other elements and the events that are not tags, in their
/// order in the fragment.
pub proof fn lemma_chapter_passes_through(events: Seq<XmlEvent>, files: Seq<FileEntry>, chapter_dir: Seq<char>)
    ensures
        kept_indices(chapter_body(events, files, chapter_dir)) == passed_through_indices(events),
    decreases events.len(),
{
    if events.len() > 0 {
        let prev = events.drop_last();
        let n = events.len() - 1;
        lemma_chapter_passes_through(prev, files, chapter_dir);
        let step = chapter_step(events.last(), n, files, chapter_dir);
        lemma_kept_indices_concat(chapter_body(prev, files, chapter_dir), step);
        if step.len() == 1 {
            lemma_kept_indices_single(step[0]);
            assert(step =~= seq![step[0]]);
        } else {
            assert(step =~= Seq::<OutputModel>::empty());
            lemma_kept_indices_single(OutputModel::Keep(0));
        }
        assert(kept_indices(chapter_body(events, files, chapter_dir)) =~= passed_through_indices(events));
    }
}

/// The tags of a chapter are written in the order of the fragment, each with
/// its attributes rewritten, and every void element as an empty-element tag:
/// no void element is left open.
pub proof fn lemma_chapter_tags(events: Seq<XmlEvent>, files: Seq<FileEntry>, chapter_dir: Seq<char>)
    ensures
        written_tags(chapter_body(events, files, chapter_dir)) == chapter_tags(events, files, chapter_dir),
    decreases events.len(),
{
    if events.len() > 0 {
        let prev = events.drop_last();
        let n = events.len() - 1;
        lemma_chapter_tags(prev, files, chapter_dir);
        let step = chapter_step(events.last(), n, files, chapter_dir);
        lemma_written_tags_concat(chapter_body(prev, files, chapter_dir), step);
        if step.len() == 1 {
            lemma_kept_indices_single(step[0]);
            assert(step =~= seq![step[0]]);
        } else {
            assert(step =~= Seq::<OutputModel>::empty());
            lemma_kept_indices_single(OutputModel::Keep(0));
        }
        assert(written_tags(chapter_body(events, files, chapter_dir)) =~= chapter_tags(events, files, chapter_dir));
    }
}

/// Nothing new is written into a chapter's body but tags: every other event
/// written is one of the fragment's, unchanged.
pub proof fn lemma_chapter_adds_no_text(events: Seq<XmlEvent>, files: Seq<FileEntry>, chapter_dir: Seq<char>)
    ensures
        forall|k: int|
            0 <= k < chapter_body(events, files, chapter_dir).len() ==> !(#[trigger] chapter_body(
                events,
                files,
                chapter_dir,
            )[k] is Text) && !(chapter_body(events, files, chapter_dir)[k] is End),
    decreases events.len(),
{
    if events.len() > 0 {
        let prev = events.drop_last();
        lemma_chapter_adds_no_text(prev, files, chapter_dir);
        let a = chapter_body(prev, files, chapter_dir);
        let step = chapter_step(events.last(), events.len() - 1, files, chapter_dir);
        assert forall|k: int| 0 <= k < (a + step).len() implies !((a + step)[k] is Text) && !((a
            + step)[k] is End) by {
            if k < a.len() {
                assert((a + step)[k] == a[k]);
            } else {
                assert((a + step)[k] == step[k - a.len()]);
            }
        }
    }
}

/// The package document loses nothing and nothing in it is reordered: the
/// events written unchanged are all its events, in order.
pub proof fn lemma_opf_passes_through(events: Seq<XmlEvent>, description: Seq<char>)
    ensures
        kept_indices(modified_opf(events, description)) == Seq::new(events.len(), |i: int| i),
    decreases events.len(),
{
    if events.len() > 0 {
        let prev = events.drop_last();
        let n = events.len() - 1;
        lemma_opf_passes_through(prev, description);
        let step = opf_step(events.last(), n, description_seen(prev), description);
        lemma_kept_indices_concat(modified_opf(prev, description), step);
        let d = description_element(description);
        if step.len() == 1 {
            lemma_kept_indices_single(step[0]);
            assert(step =~= seq![step[0]]);
        } else {
            assert(step.drop_last() =~= d);
            let d2 = d.drop_last();
            let d1 = d2.drop_last();
            lemma_kept_indices_single(d[0]);
            assert(d1 =~= seq![d[0]]);
            assert(d2.drop_last() == d1);
            assert(kept_indices(d2) =~= Seq::<int>::empty());
            assert(kept_indices(d) =~= Seq::<int>::empty());
        }
        assert(kept_indices(modified_opf(events, description)) =~= Seq::new(events.len(), |i: int| i));
    }
}

/// A package document whose metadata already holds a description is written
/// unchanged: where a description starts before every end of the metadata,
/// every event is written as it was read, and nothing else.
pub proof fn lemma_opf_described_unchanged(events: Seq<XmlEvent>, description: Seq<char>)
    requires
        forall|i: int| 0 <= i < events.len() && is_metadata_end(#[trigger] events[i]) ==> description_seen(events.take(i)),
    ensures
        modified_opf(events, description) == Seq::new(events.len(), |i: int| OutputModel::Keep(i)),
    decreases events.len(),
{
    if events.len() > 0 {
        let prev = events.drop_last();
        let n = events.len() - 1;
        assert forall|i: int| 0 <= i < prev.len() && is_metadata_end(#[trigger] prev[i]) implies description_seen(prev.take(i)) by {
            assert(events[i] == prev[i]);
            assert(prev.take(i) =~= events.take(i));
        }
        lemma_opf_described_unchanged(prev, description);
        if is_metadata_end(events.last()) {
            assert(events.take(n) =~= prev);
        }
        assert(modified_opf(events, description) =~= Seq::new(events.len(), |i: int| OutputModel::Keep(i)));
    }
}

/// The description that the package document lacks is added where it
/// belongs: every end of the metadata before which no description has
/// started is written right after a description element holding the book's
/// description.
pub proof fn lemma_opf_description_added(events: Seq<XmlEvent>, description: Seq<char>, i: int)
    requires
        0 <= i < events.len(),
        is_metadata_end(events[i]),
        !description_seen(events.take(i)),
    ensures
        exists|k: int|
            0 <= k && k + 4 <= modified_opf(events, description).len() && #[trigger] modified_opf(
                events,
                description,
            ).subrange(k, k + 4) == description_element(description).push(OutputModel::Keep(i)),
    decreases events.len(),
{
    let prev = events.drop_last();
    let n = events.len() - 1;
    let out = modified_opf(events, description);
    let before = modified_opf(prev, description);
    let step = opf_step(events.last(), n, description_seen(prev), description);
    assert(out == before + step);
    if i < n {
        assert(prev[i] == events[i]);
        assert(prev.take(i) =~= events.take(i));
        lemma_opf_description_added(prev, description, i);
        let k = choose|k: int|
            0 <= k && k + 4 <= before.len() && #[trigger] before.subrange(k, k + 4) == description_element(
                description,
            ).push(OutputModel::Keep(i));
        assert(out.subrange(k, k + 4) =~= before.subrange(k, k + 4));
    } else {
        assert(events.take(i) =~= prev);
        let k = before.len() as int;
        assert(out.subrange(k, k + 4) =~= step);
    }
}

/// Every description that is added stands right before an end of the
/// metadata before which no description had started.
pub proof fn lemma_opf_adds_only_missing_descriptions(events: Seq<XmlEvent>, description: Seq<char>, k: int)
    requires
        0 <= k < modified_opf(events, description).len(),
        modified_opf(events, description)[k] is Text,
    ensures
        exists|i: int|
            0 <= i < events.len() && is_metadata_end(#[trigger] events[i]) && !description_seen(
                events.take(i),
            ) && 1 <= k && k + 3 <= modified_opf(events, description).len() && modified_opf(
                events,
                description,
            ).subrange(k - 1, k + 3) == description_element(description).push(OutputModel::Keep(i)),
    decreases events.len(),
{
    let prev = events.drop_last();
    let n = events.len() - 1;
    let out = modified_opf(events, description);
    let before = modified_opf(prev, description);
    let step = opf_step(events.last(), n, description_seen(prev), description);
    assert(out == before + step);
    if k < before.len() {
        assert(out[k] == before[k]);
        lemma_opf_adds_only_missing_descriptions(prev, description, k);
        let i = choose|i: int|
            0 <= i < prev.len() && is_metadata_end(#[trigger] prev[i]) && !description_seen(
                prev.take(i),
            ) && 1 <= k && k + 3 <= before.len() && before.subrange(k - 1, k + 3)
                == description_element(description).push(OutputModel::Keep(i));
        assert(prev[i] == events[i]);
        assert(prev.take(i) =~= events.take(i));
        assert(out.subrange(k - 1, k + 3) =~= before.subrange(k - 1, k + 3));
    } else {
        assert(out[k] == step[k - before.len()]);
        assert(step.len() == 4);
        assert(k == before.len() + 1);
        assert(events.take(n) =~= prev);
        assert(out.subrange(k - 1, k + 3) =~= step);
    }
}

/// A link from a chapter to a file of the book is made relative: where the
/// value of a link attribute reads as the path of the URL of exactly one file,
/// it is replaced by the path of that file relative to the chapter's
/// directory, under the same key.
pub proof fn lemma_link_to_book_file_made_relative(
    tag: Seq<u8>,
    a: XmlAttribute,
    files: Seq<FileEntry>,
    chapter_dir: Seq<char>,
    i: int,
)
    requires
        is_link_attribute(tag, a.key@),
        0 <= i < files.len(),
        url_path_of(files[i].url@) == Some(lossy_text(a.value@)),
        forall|j: int|
            0 <= j < files.len() && j != i ==> url_path_of(#[trigger] files[j].url@) != Some(
                lossy_text(a.value@),
            ),
    ensures
        rewritten_attribute(tag, a, files, chapter_dir) == AttributeModel::Escaped(
            lossy_text(a.key@),
            relative_path_of(chapter_dir, files[i].full_path@),
        ),
{
    lemma_unique_url_path_finds_own(files, i, lossy_text(a.value@));
}

/// Attributes that carry no link are never touched: they are written raw,
/// exactly as they were read.
pub proof fn lemma_other_attributes_kept(tag: Seq<u8>, a: XmlAttribute, files: Seq<FileEntry>, chapter_dir: Seq<char>)
    requires
        !is_link_attribute(tag, a.key@),
    ensures
        rewritten_attribute(tag, a, files, chapter_dir) == AttributeModel::Raw(a.key@, a.value@),
{
}

/// A written event that starts a description: a description start that was
/// read, or the one added.
pub open spec fn starts_description(events: Seq<XmlEvent>, o: OutputModel) -> bool {
    match o {
        OutputModel::Keep(i) => 0 <= i < events.len() && is_description_start(events[i]),
        OutputModel::Start(t) => t.name == "dc:description"@,
        _ => false,
    }
}

/// A written event that ends the metadata.
pub open spec fn ends_metadata(events: Seq<XmlEvent>, o: OutputModel) -> bool {
    o matches OutputModel::Keep(i) && 0 <= i < events.len() && is_metadata_end(events[i])
}

/// After one pass the package document is described: in what is written,
/// every end of the metadata comes after the start of a description, so
/// that a second pass over the events written finds no place to add one.
/// (Every description start that was read is written too.)
pub proof fn lemma_opf_output_described(events: Seq<XmlEvent>, description: Seq<char>)
    ensures
        forall|k: int|
            0 <= k < modified_opf(events, description).len() && ends_metadata(
                events,
                #[trigger] modified_opf(events, description)[k],
            ) ==> exists|m: int| 0 <= m < k && starts_description(events, #[trigger] modified_opf(events, description)[m]),
        forall|j: int|
            0 <= j < events.len() && is_description_start(#[trigger] events[j]) ==> exists|m: int|
                0 <= m < modified_opf(events, description).len() && modified_opf(events, description)[m]
                    == OutputModel::Keep(j),
    decreases events.len(),
{
    if events.len() > 0 {
        let prev = events.drop_last();
        let n = events.len() - 1;
        lemma_opf_output_described(prev, description);
        lemma_opf_keeps_read_events(prev, description);
        let a = modified_opf(prev, description);
        let step = opf_step(events.last(), n, description_seen(prev), description);
        let out = modified_opf(events, description);
        assert(out == a + step);
        assert forall|k: int| 0 <= k < out.len() && ends_metadata(events, #[trigger] out[k]) implies exists|m: int|
            0 <= m < k && starts_description(events, #[trigger] out[m]) by {
            if k < a.len() {
                assert(out[k] == a[k]);
                assert(keeps_read_event(prev, a[k]));
                if let OutputModel::Keep(i) = a[k] {
                    assert(prev[i] == events[i]);
                }
                assert(ends_metadata(prev, a[k]));
                let m = choose|m: int| 0 <= m < k && starts_description(prev, #[trigger] a[m]);
                assert(out[m] == a[m]);
                assert(keeps_read_event(prev, a[m]));
                if let OutputModel::Keep(i) = a[m] {
                    assert(prev[i] == events[i]);
                }
                assert(starts_description(events, out[m]));
            } else {
                assert(out[k] == step[k - a.len()]);
                if description_seen(prev) {
                    let j = choose|j: int| 0 <= j < prev.len() && is_description_start(#[trigger] prev[j]);
                    let m = choose|m: int| 0 <= m < a.len() && a[m] == OutputModel::Keep(j);
                    assert(out[m] == a[m]);
                    assert(prev[j] == events[j]);
                    assert(starts_description(events, out[m]));
                } else {
                    let m = a.len() as int;
                    assert(out[m] == step[0]);
                    assert(starts_description(events, out[m]));
                }
            }
        }
        assert forall|j: int| 0 <= j < events.len() && is_description_start(#[trigger] events[j]) implies exists|m: int|
            0 <= m < out.len() && out[m] == OutputModel::Keep(j) by {
            if j < n {
                assert(prev[j] == events[j]);
                let m = choose|m: int| 0 <= m < a.len() && a[m] == OutputModel::Keep(j);
                assert(out[m] == a[m]);
            } else {
                let m = out.len() - 1;
                assert(out[m] == step[step.len() - 1]);
            }
        }
    }
}

/// The void elements are exactly the fourteen void elements of HTML: area,
/// base, br, col, embed, hr, img, input, link, meta, param, source, track and
/// wbr.
pub proof fn lemma_void_elements_are_html_void_elements(name: Seq<u8>)
    ensures
        is_void_tag_name(name) <==> (name == ascii(seq!['a', 'r', 'e', 'a'])
        || name == ascii(seq!['b', 'a', 's', 'e'])
        || name == ascii(seq!['b', 'r'])
        || name == ascii(seq!['c', 'o', 'l'])
        || name == ascii(seq!['e', 'm', 'b', 'e', 'd'])
        || name == ascii(seq!['h', 'r'])
        || name == ascii(seq!['i', 'm', 'g'])
        || name == ascii(seq!['i', 'n', 'p', 'u', 't'])
        || name == ascii(seq!['l', 'i', 'n', 'k'])
        || name == ascii(seq!['m', 'e', 't', 'a'])
        || name == ascii(seq!['p', 'a', 'r', 'a', 'm'])
        || name == ascii(seq!['s', 'o', 'u', 'r', 'c', 'e'])
        || name == ascii(seq!['t', 'r', 'a', 'c', 'k'])
        || name == ascii(seq!['w', 'b', 'r'])),
{
}

proof fn lemma_chapter_take_step(events: Seq<XmlEvent>, files: Seq<FileEntry>, chapter_dir: Seq<char>, i: int)
    requires
        0 <= i < events.len(),
    ensures
        chapter_body(events.take(i + 1), files, chapter_dir) == chapter_body(events.take(i), files, chapter_dir)
            + chapter_step(events[i], i, files, chapter_dir),
{
    assert(events.take(i + 1).drop_last() =~= events.take(i));
    assert(events.take(i + 1).last() == events[i]);
}

proof fn lemma_chapter_prefix(events: Seq<XmlEvent>, files: Seq<FileEntry>, chapter_dir: Seq<char>, j: int)
    requires
        0 <= j <= events.len(),
    ensures
        chapter_body(events.take(j), files, chapter_dir).len() <= chapter_body(events, files, chapter_dir).len(),
        forall|k: int|
            0 <= k < chapter_body(events.take(j), files, chapter_dir).len() ==> chapter_body(
                events.take(j),
                files,
                chapter_dir,
            )[k] == chapter_body(events, files, chapter_dir)[k],
    decreases events.len(),
{
    if j == events.len() {
        assert(events.take(j) =~= events);
    } else {
        let prev = events.drop_last();
        lemma_chapter_prefix(prev, files, chapter_dir, j);
        assert(prev.take(j) =~= events.take(j));
        let a = chapter_body(prev, files, chapter_dir);
        let step = chapter_step(events.last(), events.len() - 1, files, chapter_dir);
        assert(chapter_body(events, files, chapter_dir) == a + step);
        assert forall|k: int| 0 <= k < a.len() implies (a + step)[k] == a[k] by {}
    }
}

/// Only the fourteen void elements of HTML change in a chapter: the output
/// of the event at index `i` is written at the place where the outputs of the
/// events before it end; there a start tag of any other element is written as
/// a start tag and a start tag of a void element as an empty-element tag,
/// both with their attributes rewritten; the end tag of any other element is
/// kept there, and the end tag of a void element is dropped (nothing is
/// written for it).
pub proof fn lemma_chapter_tags_by_name(events: Seq<XmlEvent>, files: Seq<FileEntry>, chapter_dir: Seq<char>, i: int)
    requires
        0 <= i < events.len(),
    ensures
        ({
            let body = chapter_body(events, files, chapter_dir);
            let at = chapter_body(events.take(i), files, chapter_dir).len() as int;
            &&& events[i] matches XmlEvent::Start(t, _) ==> at < body.len() && body[at] == if (t.name@ == ascii(seq!['a', 'r', 'e', 'a'])
                || t.name@ == ascii(seq!['b', 'a', 's', 'e'])
                || t.name@ == ascii(seq!['b', 'r'])
                || t.name@ == ascii(seq!['c', 'o', 'l'])
                || t.name@ == ascii(seq!['e', 'm', 'b', 'e', 'd'])
                || t.name@ == ascii(seq!['h', 'r'])
                || t.name@ == ascii(seq!['i', 'm', 'g'])
                || t.name@ == ascii(seq!['i', 'n', 'p', 'u', 't'])
                || t.name@ == ascii(seq!['l', 'i', 'n', 'k'])
                || t.name@ == ascii(seq!['m', 'e', 't', 'a'])
                || t.name@ == ascii(seq!['p', 'a', 'r', 'a', 'm'])
                || t.name@ == ascii(seq!['s', 'o', 'u', 'r', 'c', 'e'])
                || t.name@ == ascii(seq!['t', 'r', 'a', 'c', 'k'])
                || t.name@ == ascii(seq!['w', 'b', 'r'])) {
                OutputModel::Empty(rewritten_tag(t, files, chapter_dir))
            } else {
                OutputModel::Start(rewritten_tag(t, files, chapter_dir))
            }
            &&& events[i] matches XmlEvent::Empty(t, _) ==> at < body.len() && body[at] == OutputModel::Empty(
                rewritten_tag(t, files, chapter_dir),
            )
            &&& events[i] matches XmlEvent::End(name, _) ==> if (name@ == ascii(seq!['a', 'r', 'e', 'a'])
                || name@ == ascii(seq!['b', 'a', 's', 'e'])
                || name@ == ascii(seq!['b', 'r'])
                || name@ == ascii(seq!['c', 'o', 'l'])
                || name@ == ascii(seq!['e', 'm', 'b', 'e', 'd'])
                || name@ == ascii(seq!['h', 'r'])
                || name@ == ascii(seq!['i', 'm', 'g'])
                || name@ == ascii(seq!['i', 'n', 'p', 'u', 't'])
                || name@ == ascii(seq!['l', 'i', 'n', 'k'])
                || name@ == ascii(seq!['m', 'e', 't', 'a'])
                || name@ == ascii(seq!['p', 'a', 'r', 'a', 'm'])
                || name@ == ascii(seq!['s', 'o', 'u', 'r', 'c', 'e'])
                || name@ == ascii(seq!['t', 'r', 'a', 'c', 'k'])
                || name@ == ascii(seq!['w', 'b', 'r'])) {
                chapter_body(events.take(i + 1), files, chapter_dir) == chapter_body(events.take(i), files, chapter_dir)
            } else {
                at < body.len() && body[at] == OutputModel::Keep(i)
            }
            &&& events[i] is Other ==> at < body.len() && body[at] == OutputModel::Keep(i)
        }),
{
    lemma_chapter_take_step(events, files, chapter_dir, i);
    lemma_chapter_prefix(events, files, chapter_dir, i + 1);
    let a = chapter_body(events.take(i), files, chapter_dir);
    let step = chapter_step(events[i], i, files, chapter_dir);
    if step.len() > 0 {
        assert((a + step)[a.len() as int] == step[0]);
    }
    if events[i] is End {
        assert(step.len() == 0 ==> a + step =~= a);
    }
}

/// The attributes through which an element links to a resource are exactly
/// these ten pairs: img/src, source/src, video/src, audio/src, a/href,
/// link/href, object/data, embed/src, iframe/src and track/src. For each of
/// them a value that is the path of the URL of exactly one file of the book is
/// replaced by the path of that file relative to the chapter's directory;
/// every other attribute is written as it was read.
pub proof fn lemma_resource_links_are_the_ten_pairs(
    tag: Seq<u8>,
    a: XmlAttribute,
    files: Seq<FileEntry>,
    chapter_dir: Seq<char>,
    i: int,
)
    requires
        0 <= i < files.len(),
        url_path_of(files[i].url@) == Some(lossy_text(a.value@)),
        forall|j: int|
            0 <= j < files.len() && j != i ==> url_path_of(#[trigger] files[j].url@) != Some(
                lossy_text(a.value@),
            ),
    ensures
        ((tag == ascii(seq!['i', 'm', 'g']) && a.key@ == ascii(seq!['s', 'r', 'c']))
        || (tag == ascii(seq!['s', 'o', 'u', 'r', 'c', 'e']) && a.key@ == ascii(seq!['s', 'r', 'c']))
        || (tag == ascii(seq!['v', 'i', 'd', 'e', 'o']) && a.key@ == ascii(seq!['s', 'r', 'c']))
        || (tag == ascii(seq!['a', 'u', 'd', 'i', 'o']) && a.key@ == ascii(seq!['s', 'r', 'c']))
        || (tag == ascii(seq!['a']) && a.key@ == ascii(seq!['h', 'r', 'e', 'f']))
        || (tag == ascii(seq!['l', 'i', 'n', 'k']) && a.key@ == ascii(seq!['h', 'r', 'e', 'f']))
        || (tag == ascii(seq!['o', 'b', 'j', 'e', 'c', 't']) && a.key@ == ascii(seq!['d', 'a', 't', 'a']))
        || (tag == ascii(seq!['e', 'm', 'b', 'e', 'd']) && a.key@ == ascii(seq!['s', 'r', 'c']))
        || (tag == ascii(seq!['i', 'f', 'r', 'a', 'm', 'e']) && a.key@ == ascii(seq!['s', 'r', 'c']))
        || (tag == ascii(seq!['t', 'r', 'a', 'c', 'k']) && a.key@ == ascii(seq!['s', 'r', 'c']))) ==> rewritten_attribute(tag, a, files, chapter_dir) == AttributeModel::Escaped(
            lossy_text(a.key@),
            relative_path_of(chapter_dir, files[i].full_path@),
        ),
        !((tag == ascii(seq!['i', 'm', 'g']) && a.key@ == ascii(seq!['s', 'r', 'c']))
        || (tag == ascii(seq!['s', 'o', 'u', 'r', 'c', 'e']) && a.key@ == ascii(seq!['s', 'r', 'c']))
        || (tag == ascii(seq!['v', 'i', 'd', 'e', 'o']) && a.key@ == ascii(seq!['s', 'r', 'c']))
        || (tag == ascii(seq!['a', 'u', 'd', 'i', 'o']) && a.key@ == ascii(seq!['s', 'r', 'c']))
        || (tag == ascii(seq!['a']) && a.key@ == ascii(seq!['h', 'r', 'e', 'f']))
        || (tag == ascii(seq!['l', 'i', 'n', 'k']) && a.key@ == ascii(seq!['h', 'r', 'e', 'f']))
        || (tag == ascii(seq!['o', 'b', 'j', 'e', 'c', 't']) && a.key@ == ascii(seq!['d', 'a', 't', 'a']))
        || (tag == ascii(seq!['e', 'm', 'b', 'e', 'd']) && a.key@ == ascii(seq!['s', 'r', 'c']))
        || (tag == ascii(seq!['i', 'f', 'r', 'a', 'm', 'e']) && a.key@ == ascii(seq!['s', 'r', 'c']))
        || (tag == ascii(seq!['t', 'r', 'a', 'c', 'k']) && a.key@ == ascii(seq!['s', 'r', 'c']))) ==> rewritten_attribute(tag, a, files, chapter_dir) == AttributeModel::Raw(a.key@, a.value@),
{
    lemma_unique_url_path_finds_own(files, i, lossy_text(a.value@));
}

/// Every stylesheet of a chapter whose URL is the URL of a file of the book
/// gets a link, in the chapter's order, and no other does: the links are the
/// stylesheets that have a file, each with the media type of its file and the
/// path of the file relative to the chapter's directory.
pub proof fn lemma_stylesheet_links_are_the_found_stylesheets(
    stylesheets: Seq<String>,
    files: Seq<FileEntry>,
    chapter_dir: Seq<char>,
)
    ensures
        stylesheet_links_of(stylesheets, files, chapter_dir) == stylesheets.filter(
            |s: String| file_index_for_url(files, s@) is Some,
        ).map_values(
            |s: String|
                (
                    files[file_index_for_url(files, s@).unwrap()].media_type@,
                    relative_path_of(chapter_dir, files[file_index_for_url(files, s@).unwrap()].full_path@),
                ),
        ),
    decreases stylesheets.len(),
{
    let p = |s: String| file_index_for_url(files, s@) is Some;
    let g = |s: String|
        (
            files[file_index_for_url(files, s@).unwrap()].media_type@,
            relative_path_of(chapter_dir, files[file_index_for_url(files, s@).unwrap()].full_path@),
        );
    if stylesheets.len() > 0 {
        let prev = stylesheets.drop_last();
        lemma_stylesheet_links_are_the_found_stylesheets(prev, files, chapter_dir);
        let last = stylesheets.last();
        reveal_with_fuel(Seq::<String>::filter, 1);
        if p(last) {
            assert(stylesheets.filter(p) == prev.filter(p).push(last));
            assert(stylesheets.filter(p).map_values(g) =~= prev.filter(p).map_values(g).push(g(last)));
            assert(stylesheet_link_for(last@, files, chapter_dir) =~= seq![g(last)]);
        } else {
            assert(stylesheets.filter(p) == prev.filter(p));
            assert(stylesheet_link_for(last@, files, chapter_dir) =~= Seq::<(Seq<char>, Seq<char>)>::empty());
        }
        assert(stylesheet_links_of(stylesheets, files, chapter_dir) =~= stylesheets.filter(p).map_values(g));
    } else {
        assert(stylesheets.filter(p) =~= Seq::<String>::empty());
        assert(stylesheets.filter(p).map_values(g) =~= Seq::<(Seq<char>, Seq<char>)>::empty());
    }
}

} // verus!
