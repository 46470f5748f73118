//! The event rewrite pass: what each Markdown parse event becomes in the
//! output — sequential footnote numbering, heading demotion, link resolution
//! and image asset extraction — and the rendering of the footnote list.
use vstd::prelude::*;

use crate::context::GeneratorContext;
use crate::events::{
    event_view, events_of, events_view, MdEvent, MdEventSpec, rendered_of, Rewrite, rewrite_view,
    rewrites_view, RewriteSpec,
};
use crate::markdown::Asset;
use crate::resolve::{
    file_name, is_relative_chars, rewrite_relative_url, spec_file_name, spec_is_relative,
    spec_post_keys, spec_resolve,
};
use crate::text::{
    chars_vec, dec_chars, spec_dec, string_from_chars, strings_view, subvec,
};

verus! {

/// Appends the characters of `src` to `dst`.
pub fn append_chars(dst: &mut Vec<char>, src: &Vec<char>)
    ensures
        final(dst)@ == old(dst)@ + src@,
{
    let mut i: usize = 0;
    while i < src.len()
        invariant
            0 <= i <= src@.len(),
            dst@ =~= old(dst)@ + src@.take(i as int),
        decreases src@.len() - i,
    {
        dst.push(src[i]);
        i = i + 1;
        proof {
            assert(dst@ =~= old(dst)@ + src@.take(i as int));
        }
    }
    proof {
        assert(dst@ =~= old(dst)@ + src@);
    }
}

// ------------------------------------------------------------------
// The content pass
// ------------------------------------------------------------------
/// The superscript anchor that replaces a footnote reference: the anchor id
/// encodes the footnote's name for back-linking, and the visible label is the
/// 1-based sequential number `no`.
pub open spec fn spec_sup_html(name: Seq<char>, no: nat) -> Seq<char> {
    "<sup class=\"fn\"><a id=\""@ + name + "-back\" href=\"#"@ + name + "\">["@ + spec_dec(no)
        + "]</a></sup>"@
}

fn build_sup_html(name: &String, no: usize) -> (r: String)
    ensures
        r@ == spec_sup_html(name@, no as nat),
{
    let mut out = chars_vec("<sup class=\"fn\"><a id=\"");
    let nv = chars_vec(name.as_str());
    append_chars(&mut out, &nv);
    let mut p = chars_vec("-back\" href=\"#");
    out.append(&mut p);
    append_chars(&mut out, &nv);
    let mut q = chars_vec("\">[");
    out.append(&mut q);
    let mut d = dec_chars(no);
    out.append(&mut d);
    let mut t = chars_vec("]</a></sup>");
    out.append(&mut t);
    proof {
        assert(out@ =~= spec_sup_html(name@, no as nat));
    }
    string_from_chars(&out)
}

/// The demoted opening tag for a heading of parser level `l`.
pub open spec fn spec_heading_open(l: u32) -> Seq<char> {
    seq!['<', 'h'] + spec_dec((l + 1) as nat) + seq!['>']
}

/// The demoted closing tag for a heading of parser level `l`.
pub open spec fn spec_heading_close(l: u32) -> Seq<char> {
    seq!['<', '/', 'h'] + spec_dec((l + 1) as nat) + seq!['>']
}

fn build_heading_tag(l: u32, close: bool) -> (r: String)
    requires
        l <= 6,
    ensures
        !close ==> r@ == spec_heading_open(l),
        close ==> r@ == spec_heading_close(l),
{
    let mut out: Vec<char> = Vec::new();
    out.push('<');
    if close {
        out.push('/');
    }
    out.push('h');
    let mut d = dec_chars((l as usize) + 1);
    out.append(&mut d);
    out.push('>');
    proof {
        if close {
            assert(out@ =~= spec_heading_close(l));
        } else {
            assert(out@ =~= spec_heading_open(l));
        }
    }
    string_from_chars(&out)
}

/// Where a relative image destination points after rewriting: the site base
/// url, `/static/`, and the file's base name. Anything absolute, or without a
/// base name, passes through unchanged.
pub open spec fn spec_image_dest(d: Seq<char>, base: Seq<char>) -> Seq<char> {
    if spec_is_relative(d) && spec_file_name(d) is Some {
        base + seq!['/'] + "static/"@ + spec_file_name(d)->Some_0
    } else {
        d
    }
}

/// The asset record a relative image reference contributes: the destination
/// as the source path, and `static/<basename>` as the target path.
pub open spec fn spec_image_asset(d: Seq<char>) -> Option<(Seq<char>, Seq<char>)> {
    if spec_is_relative(d) && spec_file_name(d) is Some {
        Some((d, "static/"@ + spec_file_name(d)->Some_0))
    } else {
        None
    }
}

/// The views of a sequence of assets.
pub open spec fn assets_view(s: Seq<Asset>) -> Seq<(Seq<char>, Seq<char>)> {
    s.map_values(|a: Asset| (a.source@, a.target@))
}

pub open spec fn is_fn_ref(e: MdEventSpec) -> bool {
    e is FootnoteRef
}

/// How many footnote references a stream holds.
pub open spec fn count_refs(es: Seq<MdEventSpec>) -> nat
    decreases es.len(),
{
    if es.len() == 0 {
        0
    } else {
        (if is_fn_ref(es[0]) {
            1nat
        } else {
            0nat
        }) + count_refs(es.drop_first())
    }
}

/// The rewrite of one event, where `n` footnote references came before it:
/// the `n+1`-st reference becomes its numbered superscript anchor; headings
/// are demoted one level; link destinations are resolved against the post
/// set; relative image destinations move under the static prefix; everything
/// else is kept.
pub open spec fn spec_event_rewrite(
    e: MdEventSpec,
    n: nat,
    keys: Seq<(Seq<char>, Seq<char>)>,
    base: Seq<char>,
) -> RewriteSpec {
    match e {
        MdEventSpec::FootnoteRef(name) => RewriteSpec::Html(spec_sup_html(name, n + 1)),
        MdEventSpec::HeadingStart(l) => RewriteSpec::Html(spec_heading_open(l)),
        MdEventSpec::HeadingEnd(l) => RewriteSpec::Html(spec_heading_close(l)),
        MdEventSpec::LinkStart(d) => RewriteSpec::Dest(spec_resolve(d, keys, base)),
        MdEventSpec::ImageStart(d) => RewriteSpec::Dest(spec_image_dest(d, base)),
        MdEventSpec::ItemStart => RewriteSpec::Keep,
        MdEventSpec::Other => RewriteSpec::Keep,
    }
}

/// The rewrites of a whole content stream, threading the footnote counter.
pub open spec fn spec_content_rewrites(
    es: Seq<MdEventSpec>,
    n: nat,
    keys: Seq<(Seq<char>, Seq<char>)>,
    base: Seq<char>,
) -> Seq<RewriteSpec>
    decreases es.len(),
{
    if es.len() == 0 {
        Seq::empty()
    } else {
        seq![spec_event_rewrite(es[0], n, keys, base)] + spec_content_rewrites(
            es.drop_first(),
            n + if is_fn_ref(es[0]) {
                1nat
            } else {
                0nat
            },
            keys,
            base,
        )
    }
}

/// The assets of a whole content stream, in encounter order.
pub open spec fn spec_content_assets(es: Seq<MdEventSpec>, base: Seq<char>) -> Seq<
    (Seq<char>, Seq<char>),
>
    decreases es.len(),
{
    if es.len() == 0 {
        Seq::empty()
    } else {
        (match es[0] {
            MdEventSpec::ImageStart(d) => match spec_image_asset(d) {
                Some(a) => seq![a],
                None => Seq::empty(),
            },
            _ => Seq::empty(),
        }) + spec_content_assets(es.drop_first(), base)
    }
}

pub proof fn lemma_content_rewrites_len(
    es: Seq<MdEventSpec>,
    n: nat,
    keys: Seq<(Seq<char>, Seq<char>)>,
    base: Seq<char>,
)
    ensures
        spec_content_rewrites(es, n, keys, base).len() == es.len(),
    decreases es.len(),
{
    if es.len() > 0 {
        lemma_content_rewrites_len(
            es.drop_first(),
            n + if is_fn_ref(es[0]) {
                1nat
            } else {
                0nat
            },
            keys,
            base,
        );
    }
}

/// The rewrite at position `i` is the rewrite of the event there, counting
/// the footnote references before it.
pub proof fn lemma_rewrite_at(
    es: Seq<MdEventSpec>,
    n: nat,
    keys: Seq<(Seq<char>, Seq<char>)>,
    base: Seq<char>,
    i: int,
)
    requires
        0 <= i < es.len(),
    ensures
        spec_content_rewrites(es, n, keys, base)[i] == spec_event_rewrite(
            es[i],
            n + count_refs(es.take(i)),
            keys,
            base,
        ),
    decreases es.len(),
{
    lemma_content_rewrites_len(es, n, keys, base);
    if i == 0 {
        assert(es.take(0) =~= Seq::<MdEventSpec>::empty());
    } else {
        let n2: nat = n + if is_fn_ref(es[0]) {
            1nat
        } else {
            0nat
        };
        lemma_rewrite_at(es.drop_first(), n2, keys, base, i - 1);
        lemma_content_rewrites_len(es.drop_first(), n2, keys, base);
        assert(spec_content_rewrites(es, n, keys, base)[i] == spec_content_rewrites(
            es.drop_first(),
            n2,
            keys,
            base,
        )[i - 1]);
        assert(es.drop_first().take(i - 1) =~= es.take(i).drop_first());
        assert(es.take(i)[0] == es[0]);
        assert(es.drop_first()[i - 1] == es[i]);
    }
}

/// Footnote reference numbering is strictly sequential starting at 1 within
/// one post: the `i`-th event, when it is a footnote reference, renders with
/// the visible number `count_refs(es.take(i)) + 1` — one more than the
/// references before it — whatever its original label.
pub proof fn lemma_footnote_numbering(
    es: Seq<MdEventSpec>,
    keys: Seq<(Seq<char>, Seq<char>)>,
    base: Seq<char>,
    i: int,
)
    requires
        0 <= i < es.len(),
        es[i] is FootnoteRef,
    ensures
        spec_content_rewrites(es, 0, keys, base)[i] == RewriteSpec::Html(
            spec_sup_html(es[i]->FootnoteRef_0, count_refs(es.take(i)) + 1),
        ),
{
    lemma_rewrite_at(es, 0, keys, base, i);
}

/// Heading demotion: an input heading of level `l` renders as an output tag
/// of level `l + 1` — a level-1 heading as `<h2>`, a level-6 heading as
/// `<h7>` — at the start and at the end of the heading alike.
pub proof fn lemma_heading_demotion(
    es: Seq<MdEventSpec>,
    keys: Seq<(Seq<char>, Seq<char>)>,
    base: Seq<char>,
    i: int,
)
    requires
        0 <= i < es.len(),
    ensures
        es[i] matches MdEventSpec::HeadingStart(l) ==> spec_content_rewrites(es, 0, keys, base)[i]
            == RewriteSpec::Html(seq!['<', 'h'] + spec_dec((l + 1) as nat) + seq!['>']),
        es[i] matches MdEventSpec::HeadingEnd(l) ==> spec_content_rewrites(es, 0, keys, base)[i]
            == RewriteSpec::Html(seq!['<', '/', 'h'] + spec_dec((l + 1) as nat) + seq!['>']),
{
    lemma_rewrite_at(es, 0, keys, base, i);
}

/// Computes the rewrite instruction for every event of a content stream and
/// collects the asset records of its relative images.
pub fn compute_rewrites(events: &Vec<MdEvent>, ctx: &GeneratorContext) -> (r: (
    Vec<Rewrite>,
    Vec<Asset>,
))
    requires
        forall|i: int|
            0 <= i < events@.len() ==> match #[trigger] events@[i] {
                MdEvent::HeadingStart(l) => 1 <= l <= 6,
                MdEvent::HeadingEnd(l) => 1 <= l <= 6,
                _ => true,
            },
    ensures
        rewrites_view(r.0@) == spec_content_rewrites(
            events_view(events@),
            0,
            spec_post_keys(ctx.posts@),
            ctx.config.base_url@,
        ),
        r.0@.len() == events@.len(),
        assets_view(r.1@) == spec_content_assets(events_view(events@), ctx.config.base_url@),
{
    let ghost es = events_view(events@);
    let ghost keys = spec_post_keys(ctx.posts@);
    let ghost base = ctx.config.base_url@;
    let mut out: Vec<Rewrite> = Vec::new();
    let mut assets: Vec<Asset> = Vec::new();
    let mut n: usize = 0;
    let mut i: usize = 0;
    proof {
        assert(es.skip(0) =~= es);
        assert(rewrites_view(out@) =~= Seq::<RewriteSpec>::empty());
        assert(assets_view(assets@) =~= Seq::<(Seq<char>, Seq<char>)>::empty());
    }
    while i < events.len()
        invariant
            0 <= i <= events@.len(),
            n <= i,
            es == events_view(events@),
            es.len() == events@.len(),
            keys == spec_post_keys(ctx.posts@),
            base == ctx.config.base_url@,
            out@.len() == i,
            forall|x: int|
                0 <= x < events@.len() ==> match #[trigger] events@[x] {
                    MdEvent::HeadingStart(l) => 1 <= l <= 6,
                    MdEvent::HeadingEnd(l) => 1 <= l <= 6,
                    _ => true,
                },
            spec_content_rewrites(es, 0, keys, base) =~= rewrites_view(out@)
                + spec_content_rewrites(es.skip(i as int), n as nat, keys, base),
            spec_content_assets(es, base) =~= assets_view(assets@) + spec_content_assets(
                es.skip(i as int),
                base,
            ),
        decreases events@.len() - i,
    {
        proof {
            assert(es[i as int] == event_view(events@[i as int]));
            assert(es.skip(i as int)[0] == es[i as int]);
            assert(es.skip(i as int).drop_first() =~= es.skip(i + 1));
        }
        let rw: Rewrite = match &events[i] {
            MdEvent::FootnoteRef(name) => {
                let h = build_sup_html(name, n + 1);
                n = n + 1;
                Rewrite::Html(h)
            },
            MdEvent::HeadingStart(l) => Rewrite::Html(build_heading_tag(*l, false)),
            MdEvent::HeadingEnd(l) => Rewrite::Html(build_heading_tag(*l, true)),
            MdEvent::LinkStart(d) => Rewrite::Dest(rewrite_relative_url(ctx, d.as_str())),
            MdEvent::ImageStart(d) => {
                let dv = chars_vec(d.as_str());
                if is_relative_chars(&dv) {
                    match file_name(&dv) {
                        Some(b) => {
                            let mut target = chars_vec("static/");
                            append_chars(&mut target, &b);
                            let mut absolute = chars_vec(ctx.config.base_url.as_str());
                            absolute.push('/');
                            append_chars(&mut absolute, &target);
                            proof {
                                assert(target@ =~= "static/"@ + spec_file_name(dv@)->Some_0);
                                assert(absolute@ =~= spec_image_dest(dv@, base));
                            }
                            assets.push(
                                Asset { source: d.clone(), target: string_from_chars(&target) },
                            );
                            proof {
                                assert(assets_view(assets@) =~= assets_view(assets@.drop_last())
                                    + seq![spec_image_asset(dv@)->Some_0]);
                            }
                            Rewrite::Dest(string_from_chars(&absolute))
                        },
                        None => Rewrite::Dest(d.clone()),
                    }
                } else {
                    Rewrite::Dest(d.clone())
                }
            },
            MdEvent::ItemStart => Rewrite::Keep,
            MdEvent::Other => Rewrite::Keep,
        };
        out.push(rw);
        i = i + 1;
        proof {
            assert(rewrites_view(out@) =~= rewrites_view(out@.drop_last()) + seq![
                rewrite_view(out@.last()),
            ]);
        }
    }
    proof {
        assert(es.skip(i as int) =~= Seq::<MdEventSpec>::empty());
    }
    (out, assets)
}

// ------------------------------------------------------------------
// The footnote list pass
// ------------------------------------------------------------------
/// Index of the first `]:` separator in `s`, if any.
pub open spec fn first_sep(s: Seq<char>) -> Option<int>
    decreases s.len(),
{
    if s.len() < 2 {
        None
    } else if s[0] == ']' && s[1] == ':' {
        Some(0int)
    } else {
        match first_sep(s.drop_first()) {
            Some(i) => Some(i + 1),
            None => None,
        }
    }
}

pub proof fn lemma_first_sep(s: Seq<char>)
    ensures
        match first_sep(s) {
            Some(i) => 0 <= i && i + 1 < s.len() && s[i] == ']' && s[i + 1] == ':' && forall|j: int|
                0 <= j < i ==> !(#[trigger] s[j] == ']' && s[j + 1] == ':'),
            None => forall|j: int| 0 <= j && j + 1 < s.len() ==> !(#[trigger] s[j] == ']' && s[j + 1]
                == ':'),
        },
    decreases s.len(),
{
    if s.len() >= 2 && !(s[0] == ']' && s[1] == ':') {
        let t = s.drop_first();
        lemma_first_sep(t);
        match first_sep(t) {
            Some(i) => {
                assert(s[i + 1] == t[i] && s[i + 2] == t[i + 1]);
                assert forall|j: int| 0 <= j < i + 1 implies !(#[trigger] s[j] == ']' && s[j + 1]
                    == ':') by {
                    if j > 0 {
                        assert(t[j - 1] == s[j] && t[j] == s[j + 1]);
                    }
                }
            },
            None => {
                assert forall|j: int| 0 <= j && j + 1 < s.len() implies !(#[trigger] s[j] == ']'
                    && s[j + 1] == ':') by {
                    if j > 0 {
                        assert(t[j - 1] == s[j] && t[j] == s[j + 1]);
                    }
                }
            },
        }
    }
}

pub proof fn lemma_first_sep_is(s: Seq<char>, k: int)
    requires
        0 <= k,
        k + 1 < s.len(),
        s[k] == ']' && s[k + 1] == ':',
        forall|j: int| 0 <= j < k ==> !(#[trigger] s[j] == ']' && s[j + 1] == ':'),
    ensures
        first_sep(s) == Some(k),
{
    lemma_first_sep(s);
    match first_sep(s) {
        Some(i) => {
            if i < k {
                assert(!(s[i] == ']' && s[i + 1] == ':'));
            }
            if k < i {
                assert(!(s[k] == ']' && s[k + 1] == ':'));
            }
        },
        None => {
            assert(!(s[k] == ']' && s[k + 1] == ':'));
        },
    }
}

/// The label and the text of a footnote definition line `[^label]: text`; the
/// label runs to the first `]:`.
pub open spec fn spec_parse_def(l: Seq<char>) -> Option<(Seq<char>, Seq<char>)> {
    if l.len() >= 2 && l[0] == '[' && l[1] == '^' {
        match first_sep(l.skip(2)) {
            Some(j) => Some((l.skip(2).take(j), l.skip(2).skip(j + 2))),
            None => None,
        }
    } else {
        None
    }
}

/// The label of a footnote definition line, or the empty label for a line
/// that does not parse as a definition.
pub open spec fn spec_def_name(l: Seq<char>) -> Seq<char> {
    match spec_parse_def(l) {
        Some(p) => p.0,
        None => Seq::empty(),
    }
}

/// The body text of a footnote definition line, or the whole line when it
/// does not parse as a definition.
pub open spec fn spec_def_text(l: Seq<char>) -> Seq<char> {
    match spec_parse_def(l) {
        Some(p) => p.1,
        None => l,
    }
}

/// Parses a footnote definition line into `(label, text)`.
fn parse_def(v: &Vec<char>) -> (r: Option<(Vec<char>, Vec<char>)>)
    ensures
        match r {
            Some(p) => spec_parse_def(v@) == Some((p.0@, p.1@)),
            None => spec_parse_def(v@) is None,
        },
{
    let n = v.len();
    if !(n >= 2 && v[0] == '[' && v[1] == '^') {
        return None;
    }
    let ghost s = v@.skip(2);
    let mut j: usize = 2;
    while j < n - 1 && !(v[j] == ']' && v[j + 1] == ':')
        invariant
            2 <= j <= n == v@.len(),
            n >= 2,
            s == v@.skip(2),
            forall|x: int| 0 <= x < j - 2 ==> !(#[trigger] s[x] == ']' && s[x + 1] == ':'),
        decreases n - j,
    {
        proof {
            assert(s[j - 2] == v@[j as int]);
            if j + 1 < n {
                assert(s[j - 1] == v@[j + 1]);
            }
        }
        j = j + 1;
    }
    if j < n - 1 {
        proof {
            assert(s[j - 2] == v@[j as int] && s[j - 1] == v@[j + 1]);
            lemma_first_sep_is(s, j - 2);
            assert(s.take(j - 2) =~= v@.subrange(2, j as int));
            assert(s.skip(j - 2 + 2) =~= v@.subrange(j + 2, n as int));
        }
        Some((subvec(v, 2, j), subvec(v, j + 2, n)))
    } else {
        proof {
            lemma_first_sep(s);
            if first_sep(s) is Some {
                let i = first_sep(s)->Some_0;
                assert(s[i] == v@[i + 2] && s[i + 1] == v@[i + 3]);
            }
        }
        None
    }
}

/// The list entry a footnote definition renders as: `1. <text> <back-link>`,
/// the back-link pointing at the reference's anchor.
pub open spec fn spec_format_li(l: Seq<char>) -> Seq<char> {
    "1. "@ + spec_def_text(l) + " <a class=\"fn-back\" href=\"#"@ + spec_def_name(l)
        + "-back\">\u{21a9}</a>"@
}

/// The opening tag of a footnote list item, carrying the footnote's name as
/// its id so the reference's link lands on it.
pub open spec fn spec_li_open(name: Seq<char>) -> Seq<char> {
    "<li id=\""@ + name + "\">"@
}

/// `ls` joined with the separator between consecutive elements.
pub open spec fn spec_join(ls: Seq<Seq<char>>, sep: Seq<char>) -> Seq<char>
    decreases ls.len(),
{
    if ls.len() == 0 {
        Seq::empty()
    } else if ls.len() == 1 {
        ls[0]
    } else {
        ls[0] + sep + spec_join(ls.drop_first(), sep)
    }
}

pub proof fn lemma_join_push(ls: Seq<Seq<char>>, sep: Seq<char>, x: Seq<char>)
    ensures
        spec_join(ls.push(x), sep) == if ls.len() == 0 {
            x
        } else {
            spec_join(ls, sep) + sep + x
        },
    decreases ls.len(),
{
    if ls.len() == 0 {
        assert(ls.push(x)[0] == x);
        assert(spec_join(ls.push(x), sep) == x);
    } else {
        assert(ls.push(x).drop_first() =~= ls.drop_first().push(x));
        assert(ls.push(x)[0] == ls[0]);
        lemma_join_push(ls.drop_first(), sep, x);
        if ls.len() == 1 {
            assert(ls.drop_first().len() == 0);
            assert(spec_join(ls.push(x), sep) =~= ls[0] + sep + x);
            assert(spec_join(ls, sep) == ls[0]);
        } else {
            assert(spec_join(ls, sep) + sep + x =~= ls[0] + sep + (spec_join(ls.drop_first(), sep)
                + sep + x));
        }
    }
}

/// Joins strings with the separator between consecutive elements.
pub fn join_sep(items: &Vec<String>, sep: char) -> (r: String)
    ensures
        r@ == spec_join(strings_view(items@), seq![sep]),
{
    let mut out: Vec<char> = Vec::new();
    let mut i: usize = 0;
    while i < items.len()
        invariant
            0 <= i <= items@.len(),
            out@ =~= spec_join(strings_view(items@).take(i as int), seq![sep]),
        decreases items@.len() - i,
    {
        if i > 0 {
            out.push(sep);
        }
        let iv = chars_vec(items[i].as_str());
        append_chars(&mut out, &iv);
        i = i + 1;
        proof {
            let sv = strings_view(items@);
            assert(sv.take(i as int).drop_last() =~= sv.take(i - 1));
            assert(sv.take(i as int) =~= sv.take(i - 1).push(sv[i - 1]));
            lemma_join_push(sv.take(i - 1), seq![sep], sv[i - 1]);
            assert(sv[i - 1] == items@[i - 1]@);
            assert(out@ =~= spec_join(sv.take(i as int), seq![sep]));
        }
    }
    proof {
        assert(strings_view(items@).take(items@.len() as int) =~= strings_view(items@));
    }
    string_from_chars(&out)
}

/// The list entries of the footnote definitions, in registration order.
pub open spec fn spec_format_lis(defs: Seq<Seq<char>>) -> Seq<Seq<char>> {
    defs.map_values(|l: Seq<char>| spec_format_li(l))
}

/// The synthesized document of the footnote pass: a horizontal rule, then one
/// ordered-list line per footnote definition, in registration order.
pub open spec fn spec_formatted_footnotes(defs: Seq<Seq<char>>) -> Seq<char> {
    "---\n"@ + spec_join(spec_format_lis(defs), seq!['\n'])
}

/// The rewrite of one footnote-pass event, where `n` list items came before
/// it: the `n`-th list item opens with the `n`-th definition's name as its
/// id; links are resolved; everything else is kept. A list item beyond the
/// definitions is kept as it is.
pub open spec fn spec_footnote_event_rewrite(
    e: MdEventSpec,
    n: nat,
    defs: Seq<Seq<char>>,
    keys: Seq<(Seq<char>, Seq<char>)>,
    base: Seq<char>,
) -> RewriteSpec {
    match e {
        MdEventSpec::ItemStart => if n < defs.len() {
            RewriteSpec::Html(spec_li_open(spec_def_name(defs[n as int])))
        } else {
            RewriteSpec::Keep
        },
        MdEventSpec::LinkStart(d) => RewriteSpec::Dest(spec_resolve(d, keys, base)),
        _ => RewriteSpec::Keep,
    }
}

/// The rewrites of the footnote pass, threading the list-item counter.
pub open spec fn spec_footnote_rewrites(
    es: Seq<MdEventSpec>,
    n: nat,
    defs: Seq<Seq<char>>,
    keys: Seq<(Seq<char>, Seq<char>)>,
    base: Seq<char>,
) -> Seq<RewriteSpec>
    decreases es.len(),
{
    if es.len() == 0 {
        Seq::empty()
    } else {
        seq![spec_footnote_event_rewrite(es[0], n, defs, keys, base)] + spec_footnote_rewrites(
            es.drop_first(),
            n + if es[0] is ItemStart {
                1nat
            } else {
                0nat
            },
            defs,
            keys,
            base,
        )
    }
}

/// The HTML of the content pass: the prose text rendered with every event
/// rewritten — footnotes numbered, headings demoted, links resolved, images
/// redirected at the static prefix.
pub open spec fn spec_content_html(
    content: Seq<char>,
    keys: Seq<(Seq<char>, Seq<char>)>,
    base: Seq<char>,
) -> Seq<char> {
    rendered_of(
        content,
        true,
        spec_content_rewrites(events_of(content, true), 0, keys, base),
    )
}

/// The HTML of the footnote pass: nothing at all for an empty definition
/// list, else the synthesized rule-and-list document rendered with each list
/// item carrying its footnote's id and links resolved.
pub open spec fn spec_footnotes_html(
    defs: Seq<Seq<char>>,
    keys: Seq<(Seq<char>, Seq<char>)>,
    base: Seq<char>,
) -> Seq<char> {
    if defs.len() == 0 {
        Seq::empty()
    } else {
        let doc = spec_formatted_footnotes(defs);
        rendered_of(
            doc,
            false,
            spec_footnote_rewrites(events_of(doc, false), 0, defs, keys, base),
        )
    }
}

/// Renders one footnote definition as its list entry.
pub fn format_li(line: &String) -> (r: String)
    ensures
        r@ == spec_format_li(line@),
{
    let v = chars_vec(line.as_str());
    let (name, text) = match parse_def(&v) {
        Some(p) => p,
        None => {
            let whole = chars_vec(line.as_str());
            (Vec::new(), whole)
        },
    };
    let mut out = chars_vec("1. ");
    append_chars(&mut out, &text);
    let mut mid = chars_vec(" <a class=\"fn-back\" href=\"#");
    out.append(&mut mid);
    append_chars(&mut out, &name);
    let mut tail = chars_vec("-back\">\u{21a9}</a>");
    out.append(&mut tail);
    proof {
        assert(out@ =~= spec_format_li(line@));
    }
    string_from_chars(&out)
}

/// Renders the opening tag of a footnote list item.
fn build_li_open(name: &Vec<char>) -> (r: String)
    ensures
        r@ == spec_li_open(name@),
{
    let mut out = chars_vec("<li id=\"");
    append_chars(&mut out, name);
    let mut tail = chars_vec("\">");
    out.append(&mut tail);
    proof {
        assert(out@ =~= spec_li_open(name@));
    }
    string_from_chars(&out)
}

/// Computes the rewrite instruction for every event of the footnote pass.
pub fn compute_footnote_rewrites(
    events: &Vec<MdEvent>,
    defs: &Vec<String>,
    ctx: &GeneratorContext,
) -> (r: Vec<Rewrite>)
    ensures
        rewrites_view(r@) == spec_footnote_rewrites(
            events_view(events@),
            0,
            strings_view(defs@),
            spec_post_keys(ctx.posts@),
            ctx.config.base_url@,
        ),
        r@.len() == events@.len(),
{
    let ghost es = events_view(events@);
    let ghost dd = strings_view(defs@);
    let ghost keys = spec_post_keys(ctx.posts@);
    let ghost base = ctx.config.base_url@;
    let mut out: Vec<Rewrite> = Vec::new();
    let mut n: usize = 0;
    let mut i: usize = 0;
    proof {
        assert(es.skip(0) =~= es);
        assert(rewrites_view(out@) =~= Seq::<RewriteSpec>::empty());
    }
    while i < events.len()
        invariant
            0 <= i <= events@.len(),
            n <= i,
            es == events_view(events@),
            es.len() == events@.len(),
            dd == strings_view(defs@),
            keys == spec_post_keys(ctx.posts@),
            base == ctx.config.base_url@,
            out@.len() == i,
            spec_footnote_rewrites(es, 0, dd, keys, base) =~= rewrites_view(out@)
                + spec_footnote_rewrites(es.skip(i as int), n as nat, dd, keys, base),
        decreases events@.len() - i,
    {
        proof {
            assert(es[i as int] == event_view(events@[i as int]));
            assert(es.skip(i as int)[0] == es[i as int]);
            assert(es.skip(i as int).drop_first() =~= es.skip(i + 1));
        }
        let rw: Rewrite = match &events[i] {
            MdEvent::ItemStart => {
                let item = if n < defs.len() {
                    let dv = chars_vec(defs[n].as_str());
                    let name = match parse_def(&dv) {
                        Some(p) => p.0,
                        None => Vec::new(),
                    };
                    proof {
                        assert(name@ == spec_def_name(dd[n as int]));
                    }
                    Rewrite::Html(build_li_open(&name))
                } else {
                    Rewrite::Keep
                };
                n = n + 1;
                item
            },
            MdEvent::LinkStart(d) => Rewrite::Dest(rewrite_relative_url(ctx, d.as_str())),
            _ => Rewrite::Keep,
        };
        out.push(rw);
        i = i + 1;
        proof {
            assert(rewrites_view(out@) =~= rewrites_view(out@.drop_last()) + seq![
                rewrite_view(out@.last()),
            ]);
        }
    }
    proof {
        assert(es.skip(i as int) =~= Seq::<MdEventSpec>::empty());
    }
    out
}

} // verus!
