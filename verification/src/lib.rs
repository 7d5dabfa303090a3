//! Verified core of a tool that turns a book published through O'Reilly
//! Learning into a self-contained EPUB archive: the rewriting of chapter
//! fragments and of the OPF package document, the bookkeeping of the files
//! that make up the book, and the decisions of the download loop.
pub mod api;
pub mod bytes;
pub mod download;
pub mod epub;
pub mod events;
pub mod files;
pub mod lookup;
pub mod models;
pub mod paths;
pub mod sanitize;
pub mod text;

pub mod xml;
pub mod xml_laws;
