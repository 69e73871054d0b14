//! The values that the page templates are filled with.
use vstd::prelude::*;

use crate::config::Themes;
use crate::render::RenderedPost;

verus! {

/// The body of a post's page.
pub struct PostTemplate<'a> {
    pub title: &'a str,
    pub date: &'a str,
    pub content: &'a str,
}

/// The body of a draft's page.
pub struct DraftTemplate<'a> {
    pub title: &'a str,
    pub content: &'a str,
}

/// The body of the index page, listing the posts.
pub struct IndexTemplate<'a> {
    pub blog_name: &'a str,
    pub blog_subtitle: &'a str,
    pub posts: &'a [RenderedPost],
}

/// A whole HTML page around a body.
pub struct PageTemplate<'a> {
    pub title: &'a str,
    pub og_type: &'a str,
    pub url: &'a str,
    pub blog_name: &'a str,
    pub og_description: &'a str,
    pub feed_file: &'a str,
    pub style: &'a str,
    pub body: &'a str,
    pub github_url: &'a str,
    pub year: &'a str,
    pub author: &'a str,
    pub analytics_tag: &'a str,
}

/// The main style sheet, coloured by the themes.
pub struct StyleTemplate<'a> {
    pub themes: &'a Themes,
}

} // verus!
