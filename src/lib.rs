//! A file-backed personal wiki: pages, tags, wikilinks, backlinks and search
//! queries, with the index-keeping logic stated and proved.

pub mod config;
pub mod error;
pub mod export;
pub mod frontmatter;
pub mod keyed;
pub mod links;
pub mod page;
pub mod roundtrip;
pub mod search;
pub mod tags;
pub mod templates;
pub mod text;
pub mod wiki;

