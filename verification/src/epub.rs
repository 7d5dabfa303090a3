//! The plan of an EPUB archive: which file of the book is the package
//! document, and how each file goes into the archive.
use vstd::prelude::*;
use crate::download::{category, category_of, FileCategory};
use crate::lookup::{last_index_where, lemma_last_index_where_is, lemma_last_index_where_none};
use crate::models::{Chapter, FileEntry};
use crate::paths::{chapter_dir_of, directory_of};
use crate::text::str_eq;

verus! {

/// The file is the OPF package document: it has the `.opf` extension and the
/// package document's media type.
pub open spec fn is_package_document(f: FileEntry) -> bool {
    &&& f.filename_ext@ == ".opf"@
    &&& f.media_type@ == "application/oebps-package+xml"@
}

/// Finds the first file that is the OPF package document.
pub fn find_opf_entry(file_entries: &Vec<FileEntry>) -> (r: Option<usize>)
    ensures
        match r {
            Some(i) => i < file_entries@.len() && is_package_document(file_entries@[i as int])
                && forall|j: int| 0 <= j < i ==> !is_package_document(#[trigger] file_entries@[j]),
            None => forall|j: int|
                0 <= j < file_entries@.len() ==> !is_package_document(#[trigger] file_entries@[j]),
        },
{
    let n = file_entries.len();
    let mut i: usize = 0;
    while i < n
        invariant
            n == file_entries@.len(),
            i <= n,
            forall|j: int| 0 <= j < i ==> !is_package_document(#[trigger] file_entries@[j]),
        decreases n - i,
    {
        let f = &file_entries[i];
        if str_eq(f.filename_ext.as_str(), ".opf") && str_eq(
            f.media_type.as_str(),
            "application/oebps-package+xml",
        ) {
            return Some(i);
        }
        i += 1;
    }
    None
}

/// Holds of a chapter with the given OURN.
pub open spec fn has_ourn(ourn: Seq<char>) -> spec_fn(Chapter) -> bool {
    |c: Chapter| c.ourn@ == ourn
}

/// The chapter with the given OURN; where several have it, the last one, as
/// in a map collected from the list of chapters.
pub open spec fn chapter_index_for(chapters: Seq<Chapter>, ourn: Seq<char>) -> Option<int> {
    last_index_where(chapters, has_ourn(ourn))
}

/// Finds the chapter with the given OURN.
pub fn find_chapter(chapters: &Vec<Chapter>, ourn: &str) -> (r: Option<usize>)
    ensures
        match r {
            Some(i) => chapter_index_for(chapters@, ourn@) == Some(i as int) && i < chapters@.len(),
            None => chapter_index_for(chapters@, ourn@) is None,
        },
{
    let ghost p = has_ourn(ourn@);
    let mut i = chapters.len();
    while i > 0
        invariant
            p == has_ourn(ourn@),
            i <= chapters@.len(),
            forall|j: int| i <= j < chapters@.len() ==> !p(#[trigger] chapters@[j]),
        decreases i,
    {
        i -= 1;
        if str_eq(chapters[i].ourn.as_str(), ourn) {
            proof {
                lemma_last_index_where_is(chapters@, p, i as int);
            }
            return Some(i);
        }
    }
    proof {
        lemma_last_index_where_none(chapters@, p);
    }
    None
}

/// How a file goes into the archive.
pub enum EntryTreatment {
    /// A chapter: its fragment is wrapped into a complete XHTML document, the
    /// links in it being made relative to the directory `chapter_dir`.
    Chapter { chapter: usize, chapter_dir: String },
    /// The package document: it gets a description if it lacks one.
    PackageDocument,
    /// Any other XHTML or HTML page: run through the sanitizer.
    Sanitize,
    /// Any other file: copied as it is.
    Copy,
}

/// The value of how a file goes into the archive.
pub enum TreatmentModel {
    Chapter(int, Seq<char>),
    PackageDocument,
    Sanitize,
    Copy,
}

impl View for EntryTreatment {
    type V = TreatmentModel;

    open spec fn view(&self) -> TreatmentModel {
        match self {
            EntryTreatment::Chapter { chapter, chapter_dir } => TreatmentModel::Chapter(
                *chapter as int,
                chapter_dir@,
            ),
            EntryTreatment::PackageDocument => TreatmentModel::PackageDocument,
            EntryTreatment::Sanitize => TreatmentModel::Sanitize,
            EntryTreatment::Copy => TreatmentModel::Copy,
        }
    }
}

/// How the file `f` goes into the archive: as a chapter where one of the
/// chapters has its OURN; else as the package document where it has the
/// package document's OURN; else through the sanitizer where it is an XHTML
/// or HTML page; else as it is.
pub open spec fn treatment_of(f: FileEntry, chapters: Seq<Chapter>, opf_ourn: Seq<char>) -> TreatmentModel {
    match chapter_index_for(chapters, f.ourn@) {
        Some(c) => TreatmentModel::Chapter(c, directory_of(f.full_path@)),
        None => if f.ourn@ == opf_ourn {
            TreatmentModel::PackageDocument
        } else if category_of(f.media_type@) == FileCategory::Page {
            TreatmentModel::Sanitize
        } else {
            TreatmentModel::Copy
        },
    }
}

/// How an entry of the archive is stored.
#[derive(Clone, Copy, Debug, PartialEq, Eq, Structural)]
pub enum Compression {
    Stored,
    Deflated,
}

/// What an entry of the archive holds.
#[derive(Clone, Copy, Debug, PartialEq, Eq, Structural)]
pub enum ArchiveSource {
    /// The text `application/epub+zip`.
    Mimetype,
    /// The container document, which names the package document.
    Container,
    /// The file of the book at this index, treated as the plan says.
    File(usize),
}

/// An entry of the archive: its name, how it is stored and what it holds.
pub struct ArchiveEntry {
    pub name: String,
    pub compression: Compression,
    pub source: ArchiveSource,
}

/// The entries of an EPUB archive, in order: the `mimetype` entry first and
/// stored uncompressed, as EPUB requires; then `META-INF/container.xml`;
/// then every file of the book once, in the order of the files, under its
/// path; all compressed but the first.
pub open spec fn is_epub_layout(layout: Seq<ArchiveEntry>, files: Seq<FileEntry>) -> bool {
    &&& layout.len() == files.len() + 2
    &&& layout[0].name@ == "mimetype"@
    &&& layout[0].compression == Compression::Stored
    &&& layout[0].source == ArchiveSource::Mimetype
    &&& layout[1].name@ == "META-INF/container.xml"@
    &&& layout[1].compression == Compression::Deflated
    &&& layout[1].source == ArchiveSource::Container
    &&& forall|i: int|
        0 <= i < files.len() ==> {
            &&& (#[trigger] layout[i + 2]).name@ == files[i].full_path@
            &&& layout[i + 2].compression == Compression::Deflated
            &&& layout[i + 2].source == ArchiveSource::File(i as usize)
        }
}

/// Lays out the entries of the archive for the given files.
pub fn archive_layout(file_entries: &Vec<FileEntry>) -> (r: Vec<ArchiveEntry>)
    ensures
        is_epub_layout(r@, file_entries@),
{
    let mut layout: Vec<ArchiveEntry> = Vec::new();
    layout.push(ArchiveEntry { name: String::from_str("mimetype"), compression: Compression::Stored, source: ArchiveSource::Mimetype });
    layout.push(ArchiveEntry { name: String::from_str("META-INF/container.xml"), compression: Compression::Deflated, source: ArchiveSource::Container });
    let n = file_entries.len();
    let mut i: usize = 0;
    while i < n
        invariant
            n == file_entries@.len(),
            i <= n,
            layout@.len() == i + 2,
            layout@[0].name@ == "mimetype"@,
            layout@[0].compression == Compression::Stored,
            layout@[0].source == ArchiveSource::Mimetype,
            layout@[1].name@ == "META-INF/container.xml"@,
            layout@[1].compression == Compression::Deflated,
            layout@[1].source == ArchiveSource::Container,
            forall|j: int|
                0 <= j < i ==> {
                    &&& (#[trigger] layout@[j + 2]).name@ == file_entries@[j].full_path@
                    &&& layout@[j + 2].compression == Compression::Deflated
                    &&& layout@[j + 2].source == ArchiveSource::File(j as usize)
                },
        decreases n - i,
    {
        layout.push(ArchiveEntry { name: file_entries[i].full_path.clone(), compression: Compression::Deflated, source: ArchiveSource::File(i) });
        i += 1;
    }
    layout
}

/// The plan of an archive: the index of the package document, how each file
/// goes in, in the order of the files, and the entries of the archive.
pub struct ArchivePlan {
    pub opf: usize,
    pub entries: Vec<EntryTreatment>,
    pub layout: Vec<ArchiveEntry>,
}

/// Why no archive can be made.
#[derive(Debug, PartialEq, Eq, Structural)]
pub enum ArchiveError {
    /// No OPF file with the correct MIME type was found.
    NoPackageDocument,
}

/// Decides how the files of a book go into its EPUB archive. The package
/// document is the first file with the `.opf` extension and its media type;
/// a book without one cannot be archived.
pub fn plan_epub_archive(file_entries: &Vec<FileEntry>, chapters: &Vec<Chapter>) -> (r: Result<ArchivePlan, ArchiveError>)
    ensures
        match r {
            Ok(plan) => {
                &&& plan.opf < file_entries@.len()
                &&& is_package_document(file_entries@[plan.opf as int])
                &&& forall|j: int| 0 <= j < plan.opf ==> !is_package_document(#[trigger] file_entries@[j])
                &&& plan.entries@.len() == file_entries@.len()
                &&& is_epub_layout(plan.layout@, file_entries@)
                &&& forall|j: int| 0 <= j < file_entries@.len() ==> (#[trigger] plan.entries@[j])@ == treatment_of(
                    file_entries@[j],
                    chapters@,
                    file_entries@[plan.opf as int].ourn@,
                )
            },
            Err(e) => {
                &&& e == ArchiveError::NoPackageDocument
                &&& forall|j: int| 0 <= j < file_entries@.len() ==> !is_package_document(#[trigger] file_entries@[j])
            },
        },
{
    // Find the OPF file entry to reference it in "container.xml".
    let opf = match find_opf_entry(file_entries) {
        Some(i) => i,
        None => return Err(ArchiveError::NoPackageDocument),
    };
    let opf_ourn = file_entries[opf].ourn.as_str();
    let mut entries: Vec<EntryTreatment> = Vec::new();
    let n = file_entries.len();
    let mut i: usize = 0;
    while i < n
        invariant
            n == file_entries@.len(),
            opf < n,
            opf_ourn@ == file_entries@[opf as int].ourn@,
            i <= n,
            entries@.len() == i,
            forall|j: int| 0 <= j < i ==> (#[trigger] entries@[j])@ == treatment_of(
                file_entries@[j],
                chapters@,
                opf_ourn@,
            ),
        decreases n - i,
    {
        let entry = &file_entries[i];
        let treatment = match find_chapter(chapters, entry.ourn.as_str()) {
            Some(c) => EntryTreatment::Chapter { chapter: c, chapter_dir: chapter_dir_of(entry.full_path.as_str()) },
            None => if str_eq(entry.ourn.as_str(), opf_ourn) {
                EntryTreatment::PackageDocument
            } else if category(entry) == FileCategory::Page {
                // Run XHTML files through the sanitizer to strip injected <script>
                // elements and normalize HTML5 boolean attributes for XML validity.
                EntryTreatment::Sanitize
            } else {
                EntryTreatment::Copy
            },
        };
        entries.push(treatment);
        i += 1;
    }
    Ok(ArchivePlan { opf, entries, layout: archive_layout(file_entries) })
}

/// How each file goes into the archive, by what it is: the file of a chapter
/// is rewritten as that chapter, in its own directory; else the file with
/// the package document's OURN is the package document; else a page (media
/// type `application/xhtml+xml` or `text/html`) is sanitized; anything else
/// is copied as it is.
pub proof fn lemma_treatment_by_kind(f: FileEntry, chapters: Seq<Chapter>, opf_ourn: Seq<char>)
    ensures
        chapter_index_for(chapters, f.ourn@) matches Some(c) ==> treatment_of(f, chapters, opf_ourn)
            == TreatmentModel::Chapter(c, directory_of(f.full_path@)),
        chapter_index_for(chapters, f.ourn@) is None && f.ourn@ == opf_ourn ==> treatment_of(
            f,
            chapters,
            opf_ourn,
        ) == TreatmentModel::PackageDocument,
        chapter_index_for(chapters, f.ourn@) is None && f.ourn@ != opf_ourn && (f.media_type@
            == "application/xhtml+xml"@ || f.media_type@ == "text/html"@) ==> treatment_of(
            f,
            chapters,
            opf_ourn,
        ) == TreatmentModel::Sanitize,
        chapter_index_for(chapters, f.ourn@) is None && f.ourn@ != opf_ourn && f.media_type@
            != "application/xhtml+xml"@ && f.media_type@ != "text/html"@ ==> treatment_of(
            f,
            chapters,
            opf_ourn,
        ) == TreatmentModel::Copy,
{
}

} // verus!
