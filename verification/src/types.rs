//! Plain data carried between the engine and its collaborators.

use vstd::prelude::*;

verus! {

/// One table-of-contents entry of a rendered document.
#[derive(Debug, Clone)]
pub struct TocEntry {
    pub level: u32,
    pub id: String,
    pub title: String,
}

/// A static asset: where it comes from and where it is written, as
/// slash-normalized relative paths.
#[derive(Debug, Clone)]
pub struct Asset {
    pub source: String,
    pub dest: String,
}

/// How the asset pipeline is configured.
#[derive(Debug, Clone)]
pub struct AssetConfig {
    pub minify: bool,
    pub fingerprint: bool,
    pub base_url: String,
}

/// The outcome of rendering one Markdown document.
#[derive(Debug, Clone)]
pub struct RenderedMarkdown {
    pub html: String,
    pub toc: Vec<TocEntry>,
}

/// The number of posts per pagination page when the configuration names
/// none.
pub fn default_posts_per_page() -> (r: usize)
    ensures
        r == 10,
{
    10
}

} // verus!
