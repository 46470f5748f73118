use campfire::frontmatter::{join_document, split_document};
use campfire::markdown::{Frontmatter, MarkdownFile};
use campfire::SiteError;

fn file(path: &str, title: Option<&str>, body: &str) -> MarkdownFile {
    MarkdownFile {
        path: path.to_string(),
        frontmatter: Frontmatter {
            title: title.map(|t| t.to_string()),
            date: None,
            tags: Vec::new(),
            author: None,
        },
        markdown: body.to_string(),
    }
}

#[test]
fn split_document_basic() {
    let (fm, body) = split_document("---\ntitle: x\n---\nbody\n").unwrap();
    assert_eq!(fm, "title: x\n");
    assert_eq!(body, "body\n");
}

#[test]
fn split_document_crlf() {
    let (fm, body) = split_document("---\r\ntitle: x\r\n---\r\nbody").unwrap();
    assert_eq!(fm, "title: x\r\n");
    assert_eq!(body, "body");
}

#[test]
fn split_document_empty_parts() {
    let (fm, body) = split_document("---\n---\n").unwrap();
    assert_eq!(fm, "");
    assert_eq!(body, "");
}

#[test]
fn split_document_missing_close() {
    assert_eq!(
        split_document("---\ntitle: x\n"),
        Err(SiteError::MalformedDocument)
    );
    assert_eq!(
        split_document("no frontmatter here"),
        Err(SiteError::MalformedDocument)
    );
}

#[test]
fn split_document_leading_whitespace() {
    let (fm, body) = split_document("  \n---\na: b\n---\nrest").unwrap();
    assert_eq!(fm, "a: b\n");
    assert_eq!(body, "rest");
}

#[test]
fn split_then_rejoin_round_trip() {
    let doc = " \n---\ntitle: Hello\ntags: a, b\n---\nSome *body* text.\n";
    let (fm, body) = split_document(doc).unwrap();
    let rejoined = join_document(&fm, &body);
    let (fm2, body2) = split_document(&rejoined).unwrap();
    assert_eq!(fm, fm2);
    assert_eq!(body, body2);
}

#[test]
fn separate_inline_footnote_desugars() {
    let mut footnotes: Vec<String> = Vec::new();
    let line = MarkdownFile::separate_inline_footnote(
        "See this.^[a note] here.".to_string(),
        &mut footnotes,
    );
    assert_eq!(line, "See this.[^fn-0] here.");
    assert_eq!(footnotes, ["[^fn-0]: a note"]);
}

#[test]
fn desugar_numbers_continue_from_count() {
    let mut footnotes: Vec<String> = vec!["[^fn-0]: old".to_string()];
    let line =
        MarkdownFile::separate_inline_footnote("a^[x] b^[y]".to_string(), &mut footnotes);
    assert_eq!(line, "a[^fn-1] b[^fn-2]");
    assert_eq!(footnotes, ["[^fn-0]: old", "[^fn-1]: x", "[^fn-2]: y"]);
}

#[test]
fn desugar_is_idempotent_on_its_output() {
    let mut footnotes: Vec<String> = Vec::new();
    let once = MarkdownFile::separate_inline_footnote(
        "See this.^[a note] and that.^[more]".to_string(),
        &mut footnotes,
    );
    let count = footnotes.len();
    let twice = MarkdownFile::separate_inline_footnote(once.clone(), &mut footnotes);
    assert_eq!(once, twice);
    assert_eq!(footnotes.len(), count);
}

#[test]
fn unterminated_inline_footnote_is_text() {
    let mut footnotes: Vec<String> = Vec::new();
    let line =
        MarkdownFile::separate_inline_footnote("broken ^[no close".to_string(), &mut footnotes);
    assert_eq!(line, "broken ^[no close");
    assert!(footnotes.is_empty());
}

#[test]
fn split_content_and_footnotes_partitions() {
    let f = file("p.md", Some("t"), "A^[n]\n[^x]: d\nB");
    let (content, footnotes) = f.split_content_and_footnotes();
    assert_eq!(content, ["A[^fn-0]", "B"]);
    assert_eq!(footnotes, ["[^fn-0]: n", "[^x]: d"]);
}

#[test]
fn title_prefers_frontmatter() {
    let f = file("dir/Other Name.md", Some("My Title"), "");
    assert_eq!(f.title(), "My Title");
}

#[test]
fn title_falls_back_to_file_name() {
    let f = file("dir/My Post.md", None, "");
    assert_eq!(f.title(), "My Post");
    let f = file("a.md.md", None, "");
    assert_eq!(f.title(), "a");
}

#[test]
fn slug_from_path_and_title() {
    let f = file("blog/My Post.md", Some("My Post"), "");
    assert_eq!(f.slug(""), "blog/my-post");
}

#[test]
fn slug_strips_base_directory() {
    let f = file("site/notes/sub dir/A Note.md", Some("A Note"), "");
    assert_eq!(f.slug("site"), "notes/sub-dir/a-note");
}

#[test]
fn slugify_strips_apostrophes() {
    assert_eq!(MarkdownFile::slugify("Don't Panic"), "dont-panic");
    assert_eq!(MarkdownFile::slugify("Hello, World!"), "hello-world");
}

#[test]
fn from_text_reports_errors() {
    assert_eq!(
        MarkdownFile::from_text("p.md".to_string(), "plain text").unwrap_err(),
        SiteError::MalformedDocument
    );
    assert_eq!(
        MarkdownFile::from_text("p.md".to_string(), "---\ntitle: X\n---\n").unwrap_err(),
        SiteError::InvalidFrontmatter
    );
    let f = MarkdownFile::from_text(
        "p.md".to_string(),
        "---\ntitle: X\ntags: a, b\n---\nbody",
    )
    .unwrap();
    assert_eq!(f.frontmatter.title.unwrap(), "X");
    assert_eq!(f.frontmatter.tags, ["a", "b"]);
    assert_eq!(f.markdown, "body");
    assert_eq!(f.path, "p.md");
}
