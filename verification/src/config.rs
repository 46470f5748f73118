//! Site configuration: names, paths and the tag that marks publishable posts.
use vstd::prelude::*;

verus! {

/// Configuration of one site build.
#[derive(Debug, Clone)]
pub struct Config {
    pub name: String,
    pub title: String,
    pub author: String,
    pub require_tag: String,
    pub base_url: String,
    pub post_build_command: String,
    pub feed_path: String,
    pub paths: Paths,
}

impl Config {
    /// The display title of the site: the configured title, or the site name
    /// when no title was configured.
    pub fn title(&self) -> (r: String)
        ensures
            r@ == if self.title@.len() != 0 {
                self.title@
            } else {
                self.name@
            },
    {
        if !self.title.as_str().is_empty() {
            self.title.clone()
        } else {
            self.name.clone()
        }
    }
}

/// Filesystem locations used by a build, relative to the site directory.
#[derive(Debug, Clone)]
pub struct Paths {
    pub target: String,
    pub templates: String,
}

impl Default for Paths {
    /// The conventional output and template directories.
    fn default() -> (r: Paths)
        ensures
            r.target@ == "out"@,
            r.templates@ == "templates"@,
    {
        Paths { target: default_target_path(), templates: default_template_path() }
    }
}

/// The conventional template directory.
pub fn default_template_path() -> (r: String)
    ensures
        r@ == "templates"@,
{
    String::from_str("templates")
}

/// The conventional output directory.
pub fn default_target_path() -> (r: String)
    ensures
        r@ == "out"@,
{
    String::from_str("out")
}

/// The conventional feed file name.
pub fn default_feed_path() -> (r: String)
    ensures
        r@ == "feed.xml"@,
{
    String::from_str("feed.xml")
}

} // verus!
