use campfire::config::{default_feed_path, default_target_path, default_template_path, Config, Paths};
use campfire::context::{
    create_post_metadata, find_duplicate_url, is_allowed, sort_posts_by_date, GeneratorContext,
    PostContext,
};
use campfire::deserialize::Date;
use campfire::markdown::{Frontmatter, MarkdownFile};

fn bare_file(path: &str) -> MarkdownFile {
    MarkdownFile {
        path: path.to_string(),
        frontmatter: Frontmatter { title: None, date: None, tags: Vec::new(), author: None },
        markdown: String::new(),
    }
}

fn dated_post(date: &str, url: &str) -> (MarkdownFile, PostContext) {
    (
        bare_file("p.md"),
        PostContext {
            title: "T".to_string(),
            tags: Vec::new(),
            author: "A".to_string(),
            original_file_name: "p.md".to_string(),
            relative_url: url.to_string(),
            date: date.to_string(),
            year: 2023,
            month: 1,
            day: 1,
            markdown: String::new(),
        },
    )
}

fn config() -> Config {
    Config {
        name: "My Site".to_string(),
        title: String::new(),
        author: "Default Author".to_string(),
        require_tag: "publish".to_string(),
        base_url: "https://site".to_string(),
        post_build_command: String::new(),
        feed_path: default_feed_path(),
        paths: Paths::default(),
    }
}

fn ctx() -> GeneratorContext {
    GeneratorContext {
        config: config(),
        base_dir: "site".to_string(),
        output_dir: "out".to_string(),
        posts: Vec::new(),
    }
}

#[test]
fn post_metadata_fields() {
    let file = MarkdownFile {
        path: "site/blog/My Post.md".to_string(),
        frontmatter: Frontmatter {
            title: Some("My Post".to_string()),
            date: Some(Date { year: 2023, month: 4, day: 5 }),
            tags: vec!["publish".to_string(), "rust".to_string()],
            author: None,
        },
        markdown: String::new(),
    };
    let pc = create_post_metadata(&ctx(), &file);
    assert_eq!(pc.title, "My Post");
    assert_eq!(pc.tags, ["rust"]);
    assert_eq!(pc.author, "Default Author");
    assert_eq!(pc.date, "2023-04-05");
    assert_eq!(pc.year, 2023);
    assert_eq!(pc.month, 4);
    assert_eq!(pc.day, 5);
    assert_eq!(pc.original_file_name, "blog/My Post.md");
    assert_eq!(pc.relative_url, "blog/my-post/");
    assert_eq!(pc.markdown, "");
}

#[test]
fn post_metadata_keeps_post_author() {
    let file = MarkdownFile {
        path: "site/a.md".to_string(),
        frontmatter: Frontmatter {
            title: Some("A".to_string()),
            date: Some(Date { year: 2020, month: 1, day: 2 }),
            tags: Vec::new(),
            author: Some("Guest".to_string()),
        },
        markdown: String::new(),
    };
    let pc = create_post_metadata(&ctx(), &file);
    assert_eq!(pc.author, "Guest");
    assert!(pc.tags.is_empty());
}

#[test]
fn is_allowed_checks_required_tag() {
    let mut file = MarkdownFile {
        path: "site/a.md".to_string(),
        frontmatter: Frontmatter {
            title: None,
            date: None,
            tags: vec!["draft".to_string()],
            author: None,
        },
        markdown: String::new(),
    };
    assert!(!is_allowed(&file, &config()));
    file.frontmatter.tags.push("publish".to_string());
    assert!(is_allowed(&file, &config()));
}

#[test]
fn config_title_falls_back_to_name() {
    let mut c = config();
    assert_eq!(c.title(), "My Site");
    c.title = "Display Title".to_string();
    assert_eq!(c.title(), "Display Title");
}

#[test]
fn posts_sort_by_date_descending() {
    let mut posts = vec![
        dated_post("2021-06-01", "a/"),
        dated_post("2023-01-15", "b/"),
        dated_post("2022-12-31", "c/"),
        dated_post("2023-01-15", "d/"),
    ];
    sort_posts_by_date(&mut posts);
    let dates: Vec<&str> = posts.iter().map(|(_, pc)| pc.date.as_str()).collect();
    assert_eq!(dates, ["2023-01-15", "2023-01-15", "2022-12-31", "2021-06-01"]);
}

#[test]
fn duplicate_urls_are_detected() {
    let posts = vec![dated_post("2021-06-01", "same/"), dated_post("2022-06-01", "same/")];
    assert_eq!(find_duplicate_url(&posts), Some("same/".to_string()));
    let posts = vec![dated_post("2021-06-01", "a/"), dated_post("2022-06-01", "b/")];
    assert_eq!(find_duplicate_url(&posts), None);
}

#[test]
fn default_paths() {
    let p = Paths::default();
    assert_eq!(p.target, "out");
    assert_eq!(p.templates, "templates");
    assert_eq!(default_target_path(), "out");
    assert_eq!(default_template_path(), "templates");
    assert_eq!(default_feed_path(), "feed.xml");
}
