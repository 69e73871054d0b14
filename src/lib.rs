//! A static blog generator's content pipeline: loading posts and drafts,
//! turning markdown into highlighted HTML with numbered footnotes, extracting
//! summaries and ordering posts for the index and the feed.
use vstd::prelude::*;

pub mod config;
pub mod document;
pub mod events;
pub mod footnote;
pub mod highlight;
pub mod markdown;
pub mod render;
pub mod summary;
pub mod templates;
pub mod text;
