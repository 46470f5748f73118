use campfire::config::{Config, Paths};
use campfire::context::{GeneratorContext, PostContext};
use campfire::markdown::{Frontmatter, MarkdownFile};
use campfire::resolve::{is_relative_url, rewrite_relative_url};

fn config(base_url: &str) -> Config {
    Config {
        name: "site".to_string(),
        title: String::new(),
        author: "Author".to_string(),
        require_tag: "publish".to_string(),
        base_url: base_url.to_string(),
        post_build_command: String::new(),
        feed_path: "feed.xml".to_string(),
        paths: Paths::default(),
    }
}

fn post_file(path: &str, body: &str) -> MarkdownFile {
    MarkdownFile {
        path: path.to_string(),
        frontmatter: Frontmatter {
            title: Some("T".to_string()),
            date: None,
            tags: vec!["publish".to_string()],
            author: None,
        },
        markdown: body.to_string(),
    }
}

fn post_context(name: &str, url: &str) -> PostContext {
    PostContext {
        title: "T".to_string(),
        tags: Vec::new(),
        author: "Author".to_string(),
        original_file_name: name.to_string(),
        relative_url: url.to_string(),
        date: "2023-01-01".to_string(),
        year: 2023,
        month: 1,
        day: 1,
        markdown: String::new(),
    }
}

fn ctx_with(base_url: &str, posts: Vec<(MarkdownFile, PostContext)>) -> GeneratorContext {
    GeneratorContext {
        config: config(base_url),
        base_dir: String::new(),
        output_dir: "out".to_string(),
        posts,
    }
}

#[test]
fn heading_demotion_level_one() {
    let ctx = ctx_with("https://site", Vec::new());
    let f = post_file("p.md", "# Hi");
    let (html, _) = f.render_to_html(&ctx);
    assert!(html.contains("<h2>Hi</h2>"), "html was: {html}");
    assert!(!html.contains("<h1>"));
}

#[test]
fn heading_demotion_level_six() {
    let ctx = ctx_with("https://site", Vec::new());
    let f = post_file("p.md", "###### Deep");
    let (html, _) = f.render_to_html(&ctx);
    assert!(html.contains("<h7>Deep</h7>"), "html was: {html}");
}

#[test]
fn footnote_numbering_is_sequential() {
    let ctx = ctx_with("https://site", Vec::new());
    let f = post_file("p.md", "A[^zeta] B[^alpha]\n[^zeta]: one\n[^alpha]: two");
    let (html, _) = f.render_to_html(&ctx);
    let first = "<sup class=\"fn\"><a id=\"zeta-back\" href=\"#zeta\">[1]</a></sup>";
    let second = "<sup class=\"fn\"><a id=\"alpha-back\" href=\"#alpha\">[2]</a></sup>";
    assert!(html.contains(first), "html was: {html}");
    assert!(html.contains(second), "html was: {html}");
    assert!(html.find(first).unwrap() < html.find(second).unwrap());
}

#[test]
fn inline_footnote_renders_numbered() {
    let ctx = ctx_with("https://site", Vec::new());
    let f = post_file("p.md", "Look.^[a note]");
    let (html, _) = f.render_to_html(&ctx);
    assert!(
        html.contains("<a id=\"fn-0-back\" href=\"#fn-0\">[1]</a>"),
        "html was: {html}"
    );
    assert!(html.contains("<li id=\"fn-0\">"), "html was: {html}");
    assert!(
        html.contains("<a class=\"fn-back\" href=\"#fn-0-back\">\u{21a9}</a>"),
        "html was: {html}"
    );
}

#[test]
fn image_asset_extraction() {
    let ctx = ctx_with("https://site", Vec::new());
    let f = post_file("p.md", "![x](diagram.png)");
    let (html, assets) = f.render_to_html(&ctx);
    assert!(
        html.contains("src=\"https://site/static/diagram.png\""),
        "html was: {html}"
    );
    assert_eq!(assets.len(), 1);
    assert_eq!(assets[0].source, "diagram.png");
    assert_eq!(assets[0].target, "static/diagram.png");
}

#[test]
fn absolute_image_passes_through() {
    let ctx = ctx_with("https://site", Vec::new());
    let f = post_file("p.md", "![x](https://elsewhere/pic.png)");
    let (html, assets) = f.render_to_html(&ctx);
    assert!(
        html.contains("src=\"https://elsewhere/pic.png\""),
        "html was: {html}"
    );
    assert!(assets.is_empty());
}

#[test]
fn unresolved_link_is_unchanged() {
    let ctx = ctx_with("https://site", Vec::new());
    let f = post_file("p.md", "[go](nope.md)");
    let (html, _) = f.render_to_html(&ctx);
    assert!(html.contains("href=\"nope.md\""), "html was: {html}");
}

#[test]
fn resolved_link_points_at_slug() {
    let target = post_file("Some Post.md", "");
    let pc = post_context("Some Post.md", "some-post/");
    let ctx = ctx_with("https://site", vec![(target, pc)]);
    let f = post_file("p.md", "[go](Some%20Post.md)");
    let (html, _) = f.render_to_html(&ctx);
    assert!(
        html.contains("href=\"https://site/some-post/\""),
        "html was: {html}"
    );
}

#[test]
fn backslash_paths_match_forward_slashes() {
    let target = post_file("dir\\note.md", "");
    let pc = post_context("dir\\note.md", "dir/note/");
    let ctx = ctx_with("https://site", vec![(target, pc)]);
    let out = rewrite_relative_url(&ctx, "dir/note.md");
    assert_eq!(out, "https://site/dir/note/");
}

#[test]
fn resolution_is_deterministic() {
    let target = post_file("a.md", "");
    let pc = post_context("a.md", "a/");
    let ctx = ctx_with("https://site", vec![(target, pc)]);
    let once = rewrite_relative_url(&ctx, "a.md");
    let again = rewrite_relative_url(&ctx, "a.md");
    assert_eq!(once, again);
    assert_eq!(once, "https://site/a/");
    let miss = rewrite_relative_url(&ctx, "missing.md");
    assert_eq!(miss, rewrite_relative_url(&ctx, "missing.md"));
    assert_eq!(miss, "missing.md");
}

#[test]
fn is_relative_url_checks_scheme() {
    assert!(is_relative_url("post.md".to_string()));
    assert!(is_relative_url("/rooted/path".to_string()));
    assert!(!is_relative_url("https://site/x".to_string()));
    assert!(!is_relative_url("ftp://site/x".to_string()));
}

#[test]
fn format_footnote_li_exact() {
    let line = "[^a]: some text".to_string();
    assert_eq!(
        MarkdownFile::format_footnote_li(&line),
        "1.  some text <a class=\"fn-back\" href=\"#a-back\">\u{21a9}</a>"
    );
}

#[test]
fn empty_footnotes_render_nothing_extra() {
    let ctx = ctx_with("https://site", Vec::new());
    let f = post_file("p.md", "just prose");
    let (html, _) = f.render_to_html(&ctx);
    assert!(!html.contains("<li"));
    assert!(!html.contains("<hr"));
}
