//! The boundary to the Markdown parser and HTML writer: the event projection
//! that the renderer rewrites, the rewrite instructions it hands back, and
//! the trusted wrappers around the parse and the HTML push.
use vstd::prelude::*;

use pulldown_cmark::{Event, Options, Parser, Tag, TagEnd};

verus! {

/// The projection of one Markdown parse event that the renderer reads: the
/// event kinds it rewrites, with the fields it needs; everything else is
/// `Other`.
pub enum MdEvent {
    FootnoteRef(String),
    HeadingStart(u32),
    HeadingEnd(u32),
    LinkStart(String),
    ImageStart(String),
    ItemStart,
    Other,
}

/// The abstract value of an `MdEvent`.
pub enum MdEventSpec {
    FootnoteRef(Seq<char>),
    HeadingStart(u32),
    HeadingEnd(u32),
    LinkStart(Seq<char>),
    ImageStart(Seq<char>),
    ItemStart,
    Other,
}

pub open spec fn event_view(e: MdEvent) -> MdEventSpec {
    match e {
        MdEvent::FootnoteRef(n) => MdEventSpec::FootnoteRef(n@),
        MdEvent::HeadingStart(l) => MdEventSpec::HeadingStart(l),
        MdEvent::HeadingEnd(l) => MdEventSpec::HeadingEnd(l),
        MdEvent::LinkStart(d) => MdEventSpec::LinkStart(d@),
        MdEvent::ImageStart(d) => MdEventSpec::ImageStart(d@),
        MdEvent::ItemStart => MdEventSpec::ItemStart,
        MdEvent::Other => MdEventSpec::Other,
    }
}

pub open spec fn events_view(es: Seq<MdEvent>) -> Seq<MdEventSpec> {
    es.map_values(|e: MdEvent| event_view(e))
}

/// One rewrite instruction for one parse event: keep it, replace it by raw
/// HTML, or change its link or image destination.
pub enum Rewrite {
    Keep,
    Html(String),
    Dest(String),
}

/// The abstract value of a `Rewrite`.
pub enum RewriteSpec {
    Keep,
    Html(Seq<char>),
    Dest(Seq<char>),
}

pub open spec fn rewrite_view(r: Rewrite) -> RewriteSpec {
    match r {
        Rewrite::Keep => RewriteSpec::Keep,
        Rewrite::Html(h) => RewriteSpec::Html(h@),
        Rewrite::Dest(d) => RewriteSpec::Dest(d@),
    }
}

pub open spec fn rewrites_view(rs: Seq<Rewrite>) -> Seq<RewriteSpec> {
    rs.map_values(|r: Rewrite| rewrite_view(r))
}

/// The event stream that the Markdown parser produces for a text, projected
/// to `MdEventSpec`, with tables, strikethrough and smart punctuation
/// enabled, and the older footnote syntax when `footnotes` is set.
pub uninterp spec fn events_of(content: Seq<char>, footnotes: bool) -> Seq<MdEventSpec>;

/// The HTML that the writer produces for a text parsed with the same
/// extensions, after each event is replaced according to its rewrite
/// instruction.
pub uninterp spec fn rendered_of(
    content: Seq<char>,
    footnotes: bool,
    rewrites: Seq<RewriteSpec>,
) -> Seq<char>;

#[verifier::external_type_specification]
#[verifier::external_body]
pub struct ExOptions(Options);

/// Relies on `pulldown_cmark::Options`: the extension set used for every
/// parse of this pipeline — tables, strikethrough and smart punctuation, plus
/// the older footnote syntax (dangling references stay links) when asked.
#[verifier::external_body]
fn parser_options(enable_footnotes: bool) -> Options {
    let mut options = Options::empty();
    options.insert(Options::ENABLE_STRIKETHROUGH);
    options.insert(Options::ENABLE_TABLES);
    options.insert(Options::ENABLE_SMART_PUNCTUATION);
    if enable_footnotes {
        options.insert(Options::ENABLE_OLD_FOOTNOTES);
    }
    options
}

/// Relies on `pulldown_cmark::Parser::new_ext`: the event stream is a pure
/// function of the text and the enabled extensions, projected here one to
/// one; heading levels are the parser's `h1` through `h6`.
#[verifier::external_body]
pub fn scan_markdown_events(content: &str, footnotes: bool) -> (r: Vec<MdEvent>)
    ensures
        events_view(r@) == events_of(content@, footnotes),
        forall|i: int|
            0 <= i < r@.len() ==> match #[trigger] r@[i] {
                MdEvent::HeadingStart(l) => 1 <= l <= 6,
                MdEvent::HeadingEnd(l) => 1 <= l <= 6,
                _ => true,
            },
{
    Parser::new_ext(content, parser_options(footnotes)).map(|e| match e {
        Event::FootnoteReference(n) => MdEvent::FootnoteRef(n.into_string()),
        Event::Start(Tag::Heading { level, .. }) => MdEvent::HeadingStart(level as u32),
        Event::End(TagEnd::Heading(level)) => MdEvent::HeadingEnd(level as u32),
        Event::Start(Tag::Link { dest_url, .. }) => MdEvent::LinkStart(dest_url.into_string()),
        Event::Start(Tag::Image { dest_url, .. }) => MdEvent::ImageStart(dest_url.into_string()),
        Event::Start(Tag::Item) => MdEvent::ItemStart,
        _ => MdEvent::Other,
    }).collect()
}

#[verifier::external_type_specification]
#[verifier::external_body]
pub struct ExEvent<'a>(Event<'a>);

/// Relies on the shape of `pulldown_cmark::Event`: applies one rewrite
/// instruction to one event — raw HTML replaces the event, a destination
/// replaces a link's or image's target with every other field kept, and
/// `Keep` hands the event through.
#[verifier::external_body]
fn apply_rewrite<'a>(e: Event<'a>, rw: &Rewrite) -> Event<'a> {
    match rw {
        Rewrite::Html(h) => Event::Html(h.clone().into()),
        Rewrite::Dest(d) => match e {
            Event::Start(Tag::Link { link_type, title, id, .. }) => Event::Start(
                Tag::Link { link_type, dest_url: d.clone().into(), title, id },
            ),
            Event::Start(Tag::Image { link_type, title, id, .. }) => Event::Start(
                Tag::Image { link_type, dest_url: d.clone().into(), title, id },
            ),
            other => other,
        },
        Rewrite::Keep => e,
    }
}

/// Relies on `pulldown_cmark::html::push_html`: the HTML written is a pure
/// function of the event stream, here the same parse with each event
/// replaced according to its rewrite instruction.
#[verifier::external_body]
pub fn render_markdown_with_rewrites(content: &str, footnotes: bool, rewrites: &Vec<Rewrite>) -> (r:
    String)
    requires
        rewrites_view(rewrites@).len() == events_of(content@, footnotes).len(),
    ensures
        r@ == rendered_of(content@, footnotes, rewrites_view(rewrites@)),
{
    let mut out = String::new();
    let events = Parser::new_ext(content, parser_options(footnotes)).zip(rewrites.iter()).map(
        |(e, rw)| apply_rewrite(e, rw),
    );
    pulldown_cmark::html::push_html(&mut out, events);
    out
}

} // verus!
