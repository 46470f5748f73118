//! Core of a static-site generator: splits Markdown documents into YAML
//! frontmatter and body, decodes the frontmatter, rewrites an inline-footnote
//! dialect into standard reference footnotes, renders the body to HTML with
//! site-specific rewrites (heading demotion, link resolution, image asset
//! extraction), and assigns each post a URL slug.
use vstd::prelude::*;

pub mod config;
pub mod context;
pub mod deserialize;
pub mod events;
pub mod frontmatter;
pub mod markdown;
pub mod render;
pub mod resolve;
pub mod text;

verus! {

/// Errors that the document pipeline can report.
///
/// A document without the required frontmatter delimiters is
/// `MalformedDocument` (the caller skips the file); a frontmatter block that
/// does not decode to the expected structure is `InvalidFrontmatter` (fatal
/// for that file).
#[derive(Debug, Clone, Copy, PartialEq, Eq, Structural)]
pub enum SiteError {
    MalformedDocument,
    InvalidFrontmatter,
}

impl SiteError {
    /// A short human-readable description of the error.
    pub fn describe(&self) -> (r: &'static str)
        ensures
            *self == SiteError::MalformedDocument ==> r@ == "document lacks frontmatter delimiters"@,
            *self == SiteError::InvalidFrontmatter ==> r@ == "frontmatter failed to decode"@,
    {
        match self {
            SiteError::MalformedDocument => "document lacks frontmatter delimiters",
            SiteError::InvalidFrontmatter => "frontmatter failed to decode",
        }
    }
}

} // verus!
