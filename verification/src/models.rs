//! Data models of the O'Reilly Learning API, as the library reads them.
//!
//! URLs are held by their serialization and relative paths by their text:
//! two URLs are equal exactly when their serializations are.
use vstd::prelude::*;

verus! {

/// Generic Model for paginated API.
#[derive(Clone, Debug)]
pub struct Paginated<T> {
    pub next: Option<String>,
    pub results: Vec<T>,
}

/// Model for the EPUB API.
#[derive(Clone, Debug)]
pub struct EpubResponse {
    pub publication_date: String,
    pub title: String,
    pub descriptions: Descriptions,
    pub chapters: String,
    pub files: String,
    pub language: String,
}

/// Sub-model of EpubResponse - descriptions.
#[derive(Clone, Debug)]
pub struct Descriptions {
    pub plain: String,
}

/// Model for chapters API.
#[derive(Clone, Debug)]
pub struct Chapter {
    pub ourn: String,
    pub title: String,
    pub related_assets: ChapRelAssets,
}

/// Sub-model of Chapter - related_assets.
#[derive(Clone, Debug)]
pub struct ChapRelAssets {
    pub stylesheets: Vec<String>,
}

/// Model for files API.
#[derive(Clone, Debug)]
pub struct FileEntry {
    pub ourn: String,
    pub url: String,
    pub full_path: String,
    pub media_type: String,
    pub filename_ext: String,
}

} // verus!
