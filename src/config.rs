//! The site's configuration: its metadata and its colour themes.
use vstd::prelude::*;

verus! {

/// The whole configuration of a site.
#[derive(Debug, Clone)]
pub struct Config {
    pub metadata: Metadata,
    pub themes: Themes,
}

/// What the pages and the feed say about the site.
#[derive(Debug, Clone)]
pub struct Metadata {
    pub domain: String,
    pub blog_name: String,
    pub blog_subtitle: String,
    pub author: String,
}

/// The light and the dark colour theme.
#[derive(Debug, Clone)]
pub struct Themes {
    pub light: Theme,
    pub dark: Theme,
}

/// The colours of one theme, as CSS colour values.
#[derive(Debug, Clone)]
pub struct Theme {
    pub background_color: String,
    pub text_color: String,
    pub link_color: String,
    pub footer_color: String,
}

} // verus!
