use campfire::deserialize::{deserialize, format_date, tags_from_string, Date};
use campfire::markdown::decode_frontmatter;
use campfire::SiteError;

#[test]
fn deserialize_frontmatter_list_tags() {
    let frontmatter = decode_frontmatter("title: Hello\ntags:\n- my\n- list\n- example").unwrap();
    assert_eq!(frontmatter.title.unwrap(), "Hello");
    assert_eq!(frontmatter.tags, ["my", "list", "example"]);
}

#[test]
fn deserialize_frontmatter_inline_tags() {
    let frontmatter = decode_frontmatter("title: Hello\ntags: my, inline, example").unwrap();
    assert_eq!(frontmatter.title.unwrap(), "Hello");
    assert_eq!(frontmatter.tags, ["my", "inline", "example"]);
}

#[test]
fn date_parses_iso() {
    assert_eq!(
        deserialize("2023-01-15"),
        Some(Date { year: 2023, month: 1, day: 15 })
    );
}

#[test]
fn date_soft_fails() {
    assert_eq!(deserialize("not-a-date"), None);
    assert_eq!(deserialize("2023-02-30"), None);
    assert_eq!(deserialize("2023-13-01"), None);
    assert_eq!(deserialize(""), None);
}

#[test]
fn date_leap_year() {
    assert_eq!(
        deserialize("2024-02-29"),
        Some(Date { year: 2024, month: 2, day: 29 })
    );
    assert_eq!(deserialize("2023-02-29"), None);
    assert_eq!(
        deserialize("2000-02-29"),
        Some(Date { year: 2000, month: 2, day: 29 })
    );
    assert_eq!(deserialize("1900-02-29"), None);
}

#[test]
fn format_date_pads() {
    assert_eq!(format_date(&Date { year: 7, month: 3, day: 4 }), "0007-03-04");
    assert_eq!(
        format_date(&Date { year: 2023, month: 11, day: 28 }),
        "2023-11-28"
    );
}

#[test]
fn tags_from_string_trims_segments() {
    assert_eq!(tags_from_string("a, b ,  c"), ["a", "b", "c"]);
    assert_eq!(tags_from_string(""), [""]);
}

#[test]
fn missing_tags_is_invalid() {
    assert_eq!(
        decode_frontmatter("title: X").unwrap_err(),
        SiteError::InvalidFrontmatter
    );
}

#[test]
fn non_string_title_is_invalid() {
    assert_eq!(
        decode_frontmatter("title:\n- a\ntags: x").unwrap_err(),
        SiteError::InvalidFrontmatter
    );
}

#[test]
fn null_title_decodes_to_none() {
    let fm = decode_frontmatter("title:\ntags: x").unwrap();
    assert_eq!(fm.title, None);
    assert_eq!(fm.tags, ["x"]);
}

#[test]
fn date_field_fails_softly() {
    let fm = decode_frontmatter("tags: a\ndate: garbage").unwrap();
    assert_eq!(fm.date, None);
    let fm = decode_frontmatter("tags: a\ndate: 2022-05-06").unwrap();
    assert_eq!(fm.date, Some(Date { year: 2022, month: 5, day: 6 }));
}

#[test]
fn non_mapping_frontmatter_is_invalid() {
    assert_eq!(
        decode_frontmatter("- just\n- a\n- list").unwrap_err(),
        SiteError::InvalidFrontmatter
    );
}

#[test]
fn author_is_optional() {
    let fm = decode_frontmatter("tags: a\nauthor: Sam").unwrap();
    assert_eq!(fm.author.unwrap(), "Sam");
    let fm = decode_frontmatter("tags: a").unwrap();
    assert_eq!(fm.author, None);
}
