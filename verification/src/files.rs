//! The files of a book, indexed by URL and by the path of their URL.
use vstd::prelude::*;
use crate::lookup::{last_index_where, lemma_last_index_where_is, lemma_last_index_where_none};
use crate::models::FileEntry;
use crate::paths::{url_path, url_path_of};
use crate::text::str_eq;

verus! {

/// The text of an optional string.
pub open spec fn opt_text(o: Option<String>) -> Option<Seq<char>> {
    match o {
        Some(s) => Some(s@),
        None => None,
    }
}

/// An optional index as an optional integer.
pub open spec fn opt_index(o: Option<usize>) -> Option<int> {
    match o {
        Some(i) => Some(i as int),
        None => None,
    }
}

/// Holds of a file whose URL has the given path.
pub open spec fn has_url_path(url_path: Seq<char>) -> spec_fn(FileEntry) -> bool {
    |f: FileEntry| url_path_of(f.url@) == Some(url_path)
}

/// Holds of a file with the given URL.
pub open spec fn has_url(url: Seq<char>) -> spec_fn(FileEntry) -> bool {
    |f: FileEntry| f.url@ == url
}

/// The local path of the file whose URL has the given path; where several
/// files have it, the last one's.
pub open spec fn local_path_of(files: Seq<FileEntry>, url_path: Seq<char>) -> Option<Seq<char>> {
    match last_index_where(files, has_url_path(url_path)) {
        Some(i) => Some(files[i].full_path@),
        None => None,
    }
}

/// The index of the file with the given URL; where several files have it,
/// the last one.
pub open spec fn file_index_for_url(files: Seq<FileEntry>, url: Seq<char>) -> Option<int> {
    last_index_where(files, has_url(url))
}

/// The files of a book, with the path of each one's URL worked out once.
pub struct BookFiles {
    files: Vec<FileEntry>,
    url_paths: Vec<Option<String>>,
}

impl BookFiles {
    #[verifier::type_invariant]
    spec fn paths_match(self) -> bool {
        &&& self.url_paths@.len() == self.files@.len()
        &&& forall|i: int|
            0 <= i < self.files@.len() ==> opt_text(#[trigger] self.url_paths@[i]) == url_path_of(
                self.files@[i].url@,
            )
    }

    /// The files, in the order in which the API listed them.
    pub closed spec fn entries(&self) -> Seq<FileEntry> {
        self.files@
    }

    /// Indexes the files of a book.
    pub fn new(files: Vec<FileEntry>) -> (r: Self)
        ensures
            r.entries() == files@,
    {
        let mut url_paths: Vec<Option<String>> = Vec::new();
        let n = files.len();
        let mut i: usize = 0;
        while i < n
            invariant
                n == files@.len(),
                i <= n,
                url_paths@.len() == i,
                forall|j: int|
                    0 <= j < i ==> opt_text(#[trigger] url_paths@[j]) == url_path_of(files@[j].url@),
            decreases n - i,
        {
            let p = url_path(files[i].url.as_str());
            url_paths.push(p);
            i += 1;
        }
        BookFiles { files, url_paths }
    }

    /// The files, in the order in which the API listed them.
    pub fn entries_vec(&self) -> (r: &Vec<FileEntry>)
        ensures
            r@ == self.entries(),
    {
        &self.files
    }

    /// The local path of the file whose URL has the given path (the last such
    /// file's, as in a map collected from the list of files).
    pub fn local_path_for(&self, url_path: &str) -> (r: Option<String>)
        ensures
            opt_text(r) == local_path_of(self.entries(), url_path@),
    {
        proof {
            use_type_invariant(self);
        }
        let ghost p = has_url_path(url_path@);
        let mut i = self.files.len();
        while i > 0
            invariant
                p == has_url_path(url_path@),
                i <= self.files@.len(),
                self.url_paths@.len() == self.files@.len(),
                forall|j: int|
                    0 <= j < self.files@.len() ==> opt_text(#[trigger] self.url_paths@[j])
                        == url_path_of(self.files@[j].url@),
                forall|j: int| i <= j < self.files@.len() ==> !p(#[trigger] self.files@[j]),
            decreases i,
        {
            i -= 1;
            let found = match &self.url_paths[i] {
                Some(q) => str_eq(q.as_str(), url_path),
                None => false,
            };
            assert(found == p(self.files@[i as int])) by {
                assert(opt_text(self.url_paths@[i as int]) == url_path_of(self.files@[i as int].url@));
            }
            if found {
                proof {
                    lemma_last_index_where_is(self.files@, p, i as int);
                }
                return Some(self.files[i].full_path.clone());
            }
        }
        proof {
            lemma_last_index_where_none(self.files@, p);
        }
        None
    }

    /// The index of the file with the given URL (the last such file, as in a
    /// map collected from the list of files).
    pub fn file_for_url(&self, url: &str) -> (r: Option<usize>)
        ensures
            opt_index(r) == file_index_for_url(self.entries(), url@),
            r matches Some(i) ==> i < self.entries().len(),
    {
        let ghost p = has_url(url@);
        let mut i = self.files.len();
        while i > 0
            invariant
                p == has_url(url@),
                i <= self.files@.len(),
                forall|j: int| i <= j < self.files@.len() ==> !p(#[trigger] self.files@[j]),
            decreases i,
        {
            i -= 1;
            let found = str_eq(self.files[i].url.as_str(), url);
            if found {
                proof {
                    lemma_last_index_where_is(self.files@, p, i as int);
                }
                return Some(i);
            }
        }
        proof {
            lemma_last_index_where_none(self.files@, p);
        }
        None
    }
}

/// Where no two files share a URL, looking up the URL of a file finds that
/// very file.
pub proof fn lemma_distinct_urls_find_own(files: Seq<FileEntry>, i: int)
    requires
        0 <= i < files.len(),
        forall|j: int, k: int| 0 <= j < k < files.len() ==> files[j].url@ != files[k].url@,
    ensures
        file_index_for_url(files, files[i].url@) == Some(i),
{
    let p = has_url(files[i].url@);
    assert forall|j: int| i < j < files.len() implies !p(#[trigger] files[j]) by {}
    lemma_last_index_where_is(files, p, i);
}

/// Where the path of a file's URL is the path of no other file's URL, a link
/// to that path leads to that very file.
pub proof fn lemma_unique_url_path_finds_own(files: Seq<FileEntry>, i: int, url_path: Seq<char>)
    requires
        0 <= i < files.len(),
        url_path_of(files[i].url@) == Some(url_path),
        forall|j: int| 0 <= j < files.len() && j != i ==> url_path_of(#[trigger] files[j].url@) != Some(url_path),
    ensures
        local_path_of(files, url_path) == Some(files[i].full_path@),
{
    let p = has_url_path(url_path);
    assert forall|j: int| i < j < files.len() implies !p(#[trigger] files[j]) by {}
    lemma_last_index_where_is(files, p, i);
}

} // verus!
