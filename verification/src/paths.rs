//! Paths inside the book and the paths of URLs: the calls into the
//! `relative-path` and `url` crates that the rewriting needs.
use relative_path::RelativePath;
use vstd::prelude::*;

verus! {

/// The text of the relative path that leads from the directory `from` to the
/// path `to`, as `relative_path::RelativePath::relative` computes it.
pub uninterp spec fn relative_path_of(from: Seq<char>, to: Seq<char>) -> Seq<char>;

/// The text of the parent of a non-empty relative path, as
/// `relative_path::RelativePath::parent` computes it.
pub uninterp spec fn parent_of(path: Seq<char>) -> Seq<char>;

/// The path component of a URL, as `url::Url::parse` followed by
/// `url::Url::path` gives it, or `None` where the text does not parse as a URL.
pub uninterp spec fn url_path_of(url: Seq<char>) -> Option<Seq<char>>;

/// Calls `relative_path::RelativePath::relative` on the two paths. Claimed:
/// the result's text is a function of the texts of the two paths alone
/// (`relative_path_of`); what that function is, is left unsaid.
#[verifier::external_body]
pub(crate) fn relative_path(from: &str, to: &str) -> (r: String)
    ensures
        r@ == relative_path_of(from@, to@),
{
    RelativePath::new(from).relative(RelativePath::new(to)).into_string()
}

/// Calls `relative_path::RelativePath::parent`. Claimed, as its source shows:
/// there is no parent exactly when the path is empty; otherwise the parent's
/// text is a function of the path's text (`parent_of`).
#[verifier::external_body]
pub(crate) fn path_parent(path: &str) -> (r: Option<String>)
    ensures
        r is None <==> path@.len() == 0,
        r matches Some(p) ==> p@ == parent_of(path@),
{
    match RelativePath::new(path).parent() {
        Some(p) => Some(p.as_str().to_string()),
        None => None,
    }
}

/// Parses the text with `url::Url::parse` and gives the path of the URL
/// (`url::Url::path`). Claimed: the result is a function of the text alone
/// (`url_path_of`), `None` standing for a parse error.
#[verifier::external_body]
pub(crate) fn url_path(url: &str) -> (r: Option<String>)
    ensures
        match r {
            Some(p) => url_path_of(url@) == Some(p@),
            None => url_path_of(url@) is None,
        },
{
    match url::Url::parse(url) {
        Ok(u) => Some(u.path().to_string()),
        Err(_) => None,
    }
}

/// The directory of a file inside the book: the parent of its path, or the
/// empty path for a path without one.
pub open spec fn directory_of(full_path: Seq<char>) -> Seq<char> {
    if full_path.len() == 0 {
        Seq::empty()
    } else {
        parent_of(full_path)
    }
}

/// The directory that holds the file at `full_path`.
pub fn chapter_dir_of(full_path: &str) -> (r: String)
    ensures
        r@ == directory_of(full_path@),
{
    match path_parent(full_path) {
        Some(p) => p,
        None => String::new(),
    }
}

} // verus!
