//! Markdown documents: frontmatter decoding, the footnote preprocessor, slug
//! assignment and HTML rendering.
use vstd::prelude::*;

use crate::SiteError;
use crate::context::GeneratorContext;
use crate::deserialize::{
    deserialize, deserialize_tags, fm_entries_view, fm_value_view, lookup, parse_yaml_mapping,
    spec_lookup, spec_parse_date, spec_tags_of, Date, FmValue, FmValueSpec, yaml_entries_of,
};
use crate::events::{events_of, render_markdown_with_rewrites, scan_markdown_events};
use crate::frontmatter::{spec_split_document, split_document};
use crate::render::{
    append_chars, assets_view, compute_footnote_rewrites, compute_rewrites, format_li, join_sep,
    spec_content_assets, spec_content_html, spec_footnotes_html, spec_format_li, spec_format_lis,
    spec_formatted_footnotes, spec_join,
};
use crate::resolve::{
    file_name, replace_all, spec_file_name, spec_replace_all, spec_strip_base, strip_base,
};
use crate::text::{
    chars_vec, dec_chars, find_char_from, first_index_of, lemma_first_index_of,
    lemma_spec_dec_digits, lines_vec, seqs_view, spec_dec, spec_lines, spec_split_char, split_char,
    string_from_chars, strings_view, subvec,
};
use vstd::string::StringExecFns;

verus! {

// ------------------------------------------------------------------
// Inline footnote desugaring
// ------------------------------------------------------------------
/// The standard reference `[^fn-<k>]` for the `k`-th synthesized footnote.
pub open spec fn spec_label_ref(k: nat) -> Seq<char> {
    seq!['[', '^', 'f', 'n', '-'] + spec_dec(k) + seq![']']
}

/// The synthesized definition line `[^fn-<k>]: <text>`.
pub open spec fn spec_label_def(k: nat, text: Seq<char>) -> Seq<char> {
    spec_label_ref(k) + seq![':', ' '] + text
}

/// Desugars every inline footnote `^[text]` of one prose line, left to right:
/// each occurrence is replaced by the reference `[^fn-<k>]` (`k` counting the
/// footnotes registered so far) and contributes the definition line
/// `[^fn-<k>]: text`. A caret-bracket with no closing bracket afterwards is
/// ordinary text. Returns the rewritten line and the new definitions.
pub open spec fn spec_desugar(s: Seq<char>, k: nat) -> (Seq<char>, Seq<Seq<char>>)
    decreases s.len(),
    via spec_desugar_decreases
{
    if s.len() < 2 || !(s[0] == '^' && s[1] == '[') {
        if s.len() == 0 {
            (s, Seq::empty())
        } else {
            let r = spec_desugar(s.drop_first(), k);
            (seq![s[0]] + r.0, r.1)
        }
    } else {
        match first_index_of(s.skip(2), ']') {
            Some(j) => {
                let text = s.subrange(2, 2 + j);
                let r = spec_desugar(s.skip(3 + j), k + 1);
                (spec_label_ref(k) + r.0, seq![spec_label_def(k, text)] + r.1)
            },
            None => {
                let r = spec_desugar(s.drop_first(), k);
                (seq![s[0]] + r.0, r.1)
            },
        }
    }
}

#[via_fn]
proof fn spec_desugar_decreases(s: Seq<char>, k: nat) {
    if s.len() >= 2 && s[0] == '^' && s[1] == '[' {
        lemma_first_index_of(s.skip(2), ']');
    }
}

/// Whether `s` holds a `]` at or after position `from`.
pub open spec fn contains_char_from(s: Seq<char>, from: int, c: char) -> bool {
    exists|j: int| from <= j < s.len() && s[j] == c
}

/// Whether `s` still holds a desugarable inline footnote.
pub open spec fn has_inline_marker(s: Seq<char>) -> bool {
    exists|i: int|
        0 <= i && i + 1 < s.len() && #[trigger] s[i] == '^' && s[i + 1] == '[' && contains_char_from(
            s,
            i + 2,
            ']',
        )
}

/// Lines on which desugaring commutes with itself: no inline footnote is
/// immediately preceded by a bare caret (`^^[text]` would desugar to
/// `^[^fn-k]`, itself an inline footnote).
pub open spec fn desugar_safe(s: Seq<char>) -> bool {
    forall|i: int|
        0 <= i && i + 2 < s.len() && #[trigger] s[i] == '^' && s[i + 1] == '^' && s[i + 2] == '['
            ==> !contains_char_from(s, i + 3, ']')
}

/// The shape of a synthesized reference label.
proof fn lemma_label_ref(k: nat)
    ensures
        spec_label_ref(k).len() >= 7,
        spec_label_ref(k)[0] == '[',
        spec_label_ref(k)[1] == '^',
        spec_label_ref(k)[2] == 'f',
        spec_label_ref(k).last() == ']',
        forall|x: int| 2 <= x < spec_label_ref(k).len() ==> spec_label_ref(k)[x] != '^',
{
    lemma_spec_dec_digits(k);
    let l = spec_label_ref(k);
    let d = spec_dec(k);
    assert(d.len() >= 1) by {
        if k < 10 {
        }
    }
    assert forall|x: int| 2 <= x < l.len() implies l[x] != '^' by {
        if x < 5 {
        } else if x < 5 + d.len() {
            assert(l[x] == d[x - 5]);
        } else {
            assert(l[x] == ']');
        }
    }
}

/// A line with no inline footnote left passes through desugaring unchanged.
pub proof fn lemma_desugar_id(s: Seq<char>, k: nat)
    requires
        !has_inline_marker(s),
    ensures
        spec_desugar(s, k) == (s, Seq::<Seq<char>>::empty()),
    decreases s.len(),
{
    if s.len() == 0 {
        assert(spec_desugar(s, k).0 =~= s);
    } else {
        if s.len() >= 2 && s[0] == '^' && s[1] == '[' {
            lemma_first_index_of(s.skip(2), ']');
            match first_index_of(s.skip(2), ']') {
                Some(j) => {
                    assert(s.skip(2)[j] == s[j + 2]);
                    assert(contains_char_from(s, 2, ']'));
                    assert(has_inline_marker(s));
                    assert(false);
                },
                None => {},
            }
        }
        let t = s.drop_first();
        assert forall|i: int|
            0 <= i && i + 1 < t.len() && #[trigger] t[i] == '^' && t[i + 1] == '[' implies !contains_char_from(
            t,
            i + 2,
            ']',
        ) by {
            assert(t[i] == s[i + 1]);
            assert(t[i + 1] == s[i + 2]);
            if contains_char_from(t, i + 2, ']') {
                let m = choose|m: int| i + 2 <= m < t.len() && t[m] == ']';
                assert(s[m + 1] == ']');
                assert(contains_char_from(s, i + 3, ']'));
                assert(has_inline_marker(s));
            }
        }
        assert(!has_inline_marker(t));
        lemma_desugar_id(t, k);
        assert(spec_desugar(s, k).0 =~= s);
        assert(spec_desugar(s, k).1 =~= Seq::<Seq<char>>::empty());
    }
}

/// On a safe line, desugaring leaves no inline footnote in its output.
proof fn lemma_desugar_no_marker(s: Seq<char>, k: nat)
    requires
        desugar_safe(s),
    ensures
        !has_inline_marker(spec_desugar(s, k).0),
    decreases s.len(),
{
    let o = spec_desugar(s, k).0;
    if s.len() == 0 {
        if has_inline_marker(o) {
            let i = choose|i: int| 0 <= i && i + 1 < o.len() && #[trigger] o[i] == '^' && o[i + 1] == '[';
            assert(false);
        }
    } else if s.len() >= 2 && s[0] == '^' && s[1] == '[' && first_index_of(s.skip(2), ']') is Some {
        // a footnote is consumed here: the output is the label plus the rest
        lemma_first_index_of(s.skip(2), ']');
        let j = first_index_of(s.skip(2), ']')->Some_0;
        let rest = s.skip(3 + j);
        assert forall|i: int|
            0 <= i && i + 2 < rest.len() && #[trigger] rest[i] == '^' && rest[i + 1] == '^'
                && rest[i + 2] == '[' implies !contains_char_from(rest, i + 3, ']') by {
            assert(rest[i] == s[i + 3 + j]);
            assert(rest[i + 1] == s[i + 4 + j]);
            assert(rest[i + 2] == s[i + 5 + j]);
            if contains_char_from(rest, i + 3, ']') {
                let m = choose|m: int| i + 3 <= m < rest.len() && rest[m] == ']';
                assert(s[m + 3 + j] == ']');
                assert(contains_char_from(s, (i + 3 + j) + 3, ']'));
            }
        }
        lemma_desugar_no_marker(rest, k + 1);
        let op = spec_desugar(rest, k + 1).0;
        let lab = spec_label_ref(k);
        lemma_label_ref(k);
        assert(o == lab + op);
        if has_inline_marker(o) {
            let i = choose|i: int|
                0 <= i && i + 1 < o.len() && #[trigger] o[i] == '^' && o[i + 1] == '['
                    && contains_char_from(o, i + 2, ']');
            if i < lab.len() {
                assert(o[i] == lab[i]);
                assert(i == 1) by {
                    if i >= 2 {
                        assert(lab[i] != '^');
                    }
                }
                assert(o[2] == lab[2]);
                assert(false);
            } else {
                assert(o[i] == op[i - lab.len()]);
                assert(o[i + 1] == op[i + 1 - lab.len()]);
                let m = choose|m: int| i + 2 <= m < o.len() && o[m] == ']';
                assert(o[m] == op[m - lab.len()]);
                assert(contains_char_from(op, (i - lab.len()) + 2, ']'));
                assert(has_inline_marker(op));
                assert(false);
            }
        }
    } else {
        // the first character is copied
        let t = s.drop_first();
        assert forall|i: int|
            0 <= i && i + 2 < t.len() && #[trigger] t[i] == '^' && t[i + 1] == '^' && t[i + 2]
                == '[' implies !contains_char_from(t, i + 3, ']') by {
            assert(t[i] == s[i + 1]);
            assert(t[i + 1] == s[i + 2]);
            assert(t[i + 2] == s[i + 3]);
            if contains_char_from(t, i + 3, ']') {
                let m = choose|m: int| i + 3 <= m < t.len() && t[m] == ']';
                assert(s[m + 1] == ']');
                assert(contains_char_from(s, (i + 1) + 3, ']'));
            }
        }
        lemma_desugar_no_marker(t, k);
        let op = spec_desugar(t, k).0;
        assert(o == seq![s[0]] + op);
        if has_inline_marker(o) {
            let i = choose|i: int|
                0 <= i && i + 1 < o.len() && #[trigger] o[i] == '^' && o[i + 1] == '['
                    && contains_char_from(o, i + 2, ']');
            if i >= 1 {
                assert(o[i] == op[i - 1]);
                assert(o[i + 1] == op[i]);
                let m = choose|m: int| i + 2 <= m < o.len() && o[m] == ']';
                assert(o[m] == op[m - 1]);
                assert(contains_char_from(op, (i - 1) + 2, ']'));
                assert(has_inline_marker(op));
                assert(false);
            } else {
                // a marker at the copied character itself
                assert(o[0] == s[0] && s[0] == '^');
                assert(op.len() >= 1);
                assert(o[1] == op[0]);
                assert(t.len() >= 1);
                if t.len() >= 2 && t[0] == '^' && t[1] == '[' && first_index_of(
                    t.skip(2),
                    ']',
                ) is Some {
                    // the next position began a footnote: the input held `^^[ ... ]`
                    lemma_first_index_of(t.skip(2), ']');
                    let j2 = first_index_of(t.skip(2), ']')->Some_0;
                    assert(t.skip(2)[j2] == s[j2 + 3]);
                    assert(s[1] == '^' && s[2] == '[');
                    assert(contains_char_from(s, 3, ']'));
                    assert(false);
                } else {
                    // the next position was copied too
                    if t.len() >= 2 && t[0] == '^' && t[1] == '[' {
                        assert(op[0] == t[0]);
                    } else {
                        if t.len() == 1 {
                            assert(op =~= seq![t[0]] + spec_desugar(
                                t.drop_first(),
                                k,
                            ).0);
                        }
                        assert(op[0] == t[0]);
                    }
                    assert(t[0] == s[1]);
                    assert(s[1] == '[');
                    // so this function took the copy branch because no `]` follows
                    assert(s.len() >= 2 && s[0] == '^' && s[1] == '[');
                    assert(first_index_of(s.skip(2), ']') is None);
                    lemma_first_index_of(s.skip(2), ']');
                    // without a `]` past position 2, `t` has no marker and is kept
                    assert forall|i2: int|
                        0 <= i2 && i2 + 1 < t.len() && #[trigger] t[i2] == '^' && t[i2 + 1]
                            == '[' implies !contains_char_from(t, i2 + 2, ']') by {
                        if contains_char_from(t, i2 + 2, ']') {
                            let m = choose|m: int| i2 + 2 <= m < t.len() && t[m] == ']';
                            assert(t[m] == s[m + 1]);
                            assert(m >= 1);
                            assert(s.skip(2)[m - 1] == s[m + 1]);
                            assert(false);
                        }
                    }
                    assert(!has_inline_marker(t));
                    lemma_desugar_id(t, k);
                    assert(op == t);
                    // yet the marker at 0 needs a `]` later in the output
                    let m = choose|m: int| 2 <= m < o.len() && o[m] == ']';
                    assert(o[m] == op[m - 1]);
                    assert(op[m - 1] == t[m - 1]);
                    assert(t[m - 1] == s[m]);
                    assert(m >= 2);
                    assert(s.skip(2)[m - 2] == s[m]);
                    assert(false);
                }
            }
        }
    }
}

/// Desugaring is idempotent: on a safe line, the output of the footnote
/// preprocessor desugars to itself, registering nothing new, whatever count
/// the second pass starts from.
pub proof fn lemma_desugar_idempotent(l: Seq<char>, k: nat, k2: nat)
    requires
        desugar_safe(l),
    ensures
        spec_desugar(spec_desugar(l, k).0, k2) == (spec_desugar(l, k).0, Seq::<Seq<char>>::empty()),
{
    lemma_desugar_no_marker(l, k);
    lemma_desugar_id(spec_desugar(l, k).0, k2);
}

fn label_ref_chars(k: usize) -> (r: Vec<char>)
    ensures
        r@ == spec_label_ref(k as nat),
{
    let mut v: Vec<char> = Vec::new();
    v.push('[');
    v.push('^');
    v.push('f');
    v.push('n');
    v.push('-');
    let mut d = dec_chars(k);
    v.append(&mut d);
    v.push(']');
    proof {
        assert(v@ =~= spec_label_ref(k as nat));
    }
    v
}

// ------------------------------------------------------------------
// Frontmatter, documents and the line partition
// ------------------------------------------------------------------
/// Decoded frontmatter of one post.
#[derive(Debug, Clone)]
pub struct Frontmatter {
    pub title: Option<String>,
    pub date: Option<Date>,
    pub tags: Vec<String>,
    pub author: Option<String>,
}

/// The abstract value of a `Frontmatter`.
pub struct FrontmatterV {
    pub title: Option<Seq<char>>,
    pub date: Option<Date>,
    pub tags: Seq<Seq<char>>,
    pub author: Option<Seq<char>>,
}

pub open spec fn fm_view(f: Frontmatter) -> FrontmatterV {
    FrontmatterV {
        title: crate::deserialize::opt_str_view(f.title),
        date: f.date,
        tags: strings_view(f.tags@),
        author: crate::deserialize::opt_str_view(f.author),
    }
}

/// One Markdown source document with decoded frontmatter.
#[derive(Debug, Clone)]
pub struct MarkdownFile {
    pub path: String,
    pub frontmatter: Frontmatter,
    pub markdown: String,
}

/// A file referenced by a post that the build must copy into the output tree.
#[derive(Debug, Clone)]
pub struct Asset {
    pub source: String,
    pub target: String,
}

/// An optional text field: absent or null is no value, a string is the value,
/// anything else is invalid.
pub open spec fn spec_opt_text_of(f: Option<FmValueSpec>) -> Option<Option<Seq<char>>> {
    match f {
        None => Some(None),
        Some(FmValueSpec::Null) => Some(None),
        Some(FmValueSpec::Text(s)) => Some(Some(s)),
        _ => None,
    }
}

/// The date field: absent is no date; a string parses softly (an unparseable
/// date is no date, not an error); anything else is invalid.
pub open spec fn spec_date_field_of(f: Option<FmValueSpec>) -> Option<Option<Date>> {
    match f {
        None => Some(None),
        Some(FmValueSpec::Text(s)) => Some(spec_parse_date(s)),
        _ => None,
    }
}

fn opt_text_field(field: Option<&FmValue>) -> (r: Result<Option<String>, SiteError>)
    ensures
        ({
            let f = match field {
                Some(v) => Some(fm_value_view(*v)),
                None => None::<FmValueSpec>,
            };
            match r {
                Ok(o) => spec_opt_text_of(f) == Some(crate::deserialize::opt_str_view(o)),
                Err(e) => spec_opt_text_of(f) is None && e == SiteError::InvalidFrontmatter,
            }
        }),
{
    match field {
        None => Ok(None),
        Some(FmValue::Null) => Ok(None),
        Some(FmValue::Text(s)) => Ok(Some(s.clone())),
        _ => Err(SiteError::InvalidFrontmatter),
    }
}

fn date_field(field: Option<&FmValue>) -> (r: Result<Option<Date>, SiteError>)
    ensures
        ({
            let f = match field {
                Some(v) => Some(fm_value_view(*v)),
                None => None::<FmValueSpec>,
            };
            match r {
                Ok(o) => spec_date_field_of(f) == Some(o),
                Err(e) => spec_date_field_of(f) is None && e == SiteError::InvalidFrontmatter,
            }
        }),
{
    match field {
        None => Ok(None),
        Some(FmValue::Text(s)) => Ok(deserialize(s.as_str())),
        _ => Err(SiteError::InvalidFrontmatter),
    }
}

/// The frontmatter record a YAML block denotes: the block must be a mapping;
/// `title` and `author` are optional strings; `date` is an optional string
/// whose parse fails softly; `tags` must be present as a comma separated
/// string or a list of strings. Anything else is invalid frontmatter.
pub open spec fn spec_decode_frontmatter(block: Seq<char>) -> Option<FrontmatterV> {
    match yaml_entries_of(block) {
        None => None,
        Some(es) => {
            let t = spec_opt_text_of(spec_lookup(es, "title"@));
            let d = spec_date_field_of(spec_lookup(es, "date"@));
            let tg = spec_tags_of(spec_lookup(es, "tags"@));
            let a = spec_opt_text_of(spec_lookup(es, "author"@));
            if t is Some && d is Some && tg is Some && a is Some {
                Some(
                    FrontmatterV {
                        title: t->Some_0,
                        date: d->Some_0,
                        tags: tg->Some_0,
                        author: a->Some_0,
                    },
                )
            } else {
                None
            }
        },
    }
}

/// Decodes a frontmatter block.
pub fn decode_frontmatter(block: &str) -> (r: Result<Frontmatter, SiteError>)
    ensures
        match r {
            Ok(fm) => spec_decode_frontmatter(block@) == Some(fm_view(fm)),
            Err(e) => spec_decode_frontmatter(block@) is None && e == SiteError::InvalidFrontmatter,
        },
{
    let entries = match parse_yaml_mapping(block) {
        Some(es) => es,
        None => {
            return Err(SiteError::InvalidFrontmatter);
        },
    };
    let title = match opt_text_field(lookup(&entries, &String::from_str("title"))) {
        Ok(t) => t,
        Err(e) => {
            return Err(e);
        },
    };
    let date = match date_field(lookup(&entries, &String::from_str("date"))) {
        Ok(d) => d,
        Err(e) => {
            return Err(e);
        },
    };
    let tags = match deserialize_tags(lookup(&entries, &String::from_str("tags"))) {
        Ok(t) => t,
        Err(e) => {
            return Err(e);
        },
    };
    let author = match opt_text_field(lookup(&entries, &String::from_str("author"))) {
        Ok(a) => a,
        Err(e) => {
            return Err(e);
        },
    };
    Ok(Frontmatter { title, date, tags, author })
}

impl MarkdownFile {
    /// Reads one document: splits it at the frontmatter delimiters, then
    /// decodes the frontmatter. A document without the delimiters is a
    /// `MalformedDocument`; one whose frontmatter does not decode is an
    /// `InvalidFrontmatter`.
    pub fn from_text(path: String, content: &str) -> (r: Result<MarkdownFile, SiteError>)
        ensures
            match spec_split_document(content@) {
                None => r == Err::<MarkdownFile, SiteError>(SiteError::MalformedDocument),
                Some(parts) => match spec_decode_frontmatter(parts.0) {
                    None => r == Err::<MarkdownFile, SiteError>(SiteError::InvalidFrontmatter),
                    Some(fv) => r matches Ok(f) && fm_view(f.frontmatter) == fv && f.markdown@
                        == parts.1 && f.path@ == path@,
                },
            },
    {
        let (block, body) = match split_document(content) {
            Ok(parts) => parts,
            Err(e) => {
                return Err(e);
            },
        };
        let frontmatter = match decode_frontmatter(block.as_str()) {
            Ok(fm) => fm,
            Err(e) => {
                return Err(e);
            },
        };
        Ok(MarkdownFile { path, frontmatter, markdown: body })
    }

    /// Separates Obsidian-style inline footnotes from one prose line: each
    /// `^[text]` becomes a standard reference, and its definition is appended
    /// to `footnotes`.
    pub fn separate_inline_footnote(line: String, footnotes: &mut Vec<String>) -> (r: String)
        ensures
            r@ == spec_desugar(line@, old(footnotes)@.len() as nat).0,
            strings_view(final(footnotes)@) == strings_view(old(footnotes)@) + spec_desugar(
                line@,
                old(footnotes)@.len() as nat,
            ).1,
    {
        let ghost k0 = old(footnotes)@.len() as nat;
        let ghost whole = spec_desugar(line@, k0);
        let v = chars_vec(line.as_str());
        let n = v.len();
        let mut out: Vec<char> = Vec::new();
        let mut i: usize = 0;
        proof {
            assert(v@.skip(0) =~= v@);
            assert(strings_view(footnotes@).skip(k0 as int) =~= Seq::<Seq<char>>::empty());
        }
        while i < n
            invariant
                0 <= i <= n == v@.len(),
                v@ == line@,
                whole == spec_desugar(line@, k0),
                footnotes@.len() >= k0,
                strings_view(footnotes@).take(k0 as int) == strings_view(old(footnotes)@),
                k0 == old(footnotes)@.len(),
                whole.0 =~= out@ + spec_desugar(v@.skip(i as int), footnotes@.len() as nat).0,
                whole.1 =~= strings_view(footnotes@).skip(k0 as int) + spec_desugar(
                    v@.skip(i as int),
                    footnotes@.len() as nat,
                ).1,
            decreases n - i,
        {
            let ghost s = v@.skip(i as int);
            let ghost k = footnotes@.len() as nat;
            let is_marker = v[i] == '^' && i + 1 < n && v[i + 1] == '[';
            proof {
                assert(s[0] == v@[i as int]);
                if i + 1 < n {
                    assert(s[1] == v@[i + 1]);
                }
                assert(is_marker == (s.len() >= 2 && s[0] == '^' && s[1] == '['));
            }
            if is_marker {
                match find_char_from(&v, i + 2, ']') {
                    Some(jj) => {
                        proof {
                            assert(s.skip(2) =~= v@.skip(i + 2));
                            assert(first_index_of(s.skip(2), ']') == Some(jj - (i + 2)));
                            assert(s.subrange(2, 2 + (jj - (i + 2))) =~= v@.subrange(
                                i + 2,
                                jj as int,
                            ));
                            assert(s.skip(3 + (jj - (i + 2))) =~= v@.skip(jj + 1));
                        }
                        let mut lab = label_ref_chars(footnotes.len());
                        let mut def = lab.clone();
                        def.push(':');
                        def.push(' ');
                        let mut text = subvec(&v, i + 2, jj);
                        def.append(&mut text);
                        proof {
                            assert(def@ =~= spec_label_def(k, v@.subrange(i + 2, jj as int)));
                        }
                        out.append(&mut lab);
                        footnotes.push(string_from_chars(&def));
                        i = jj + 1;
                        proof {
                            assert(strings_view(footnotes@).take(k0 as int) =~= strings_view(
                                footnotes@.drop_last(),
                            ).take(k0 as int));
                            assert(strings_view(footnotes@).skip(k0 as int) =~= strings_view(
                                footnotes@.drop_last(),
                            ).skip(k0 as int) + seq![def@]);
                            assert(whole.0 =~= out@ + spec_desugar(
                                v@.skip(i as int),
                                footnotes@.len() as nat,
                            ).0);
                            assert(whole.1 =~= strings_view(footnotes@).skip(k0 as int)
                                + spec_desugar(v@.skip(i as int), footnotes@.len() as nat).1);
                        }
                    },
                    None => {
                        proof {
                            assert(s.skip(2) =~= v@.skip(i + 2));
                            assert(first_index_of(s.skip(2), ']') is None);
                            assert(s.drop_first() =~= v@.skip(i + 1));
                        }
                        out.push(v[i]);
                        i = i + 1;
                        proof {
                            assert(whole.0 =~= out@ + spec_desugar(
                                v@.skip(i as int),
                                footnotes@.len() as nat,
                            ).0);
                        }
                    },
                }
            } else {
                proof {
                    assert(s.drop_first() =~= v@.skip(i + 1));
                }
                out.push(v[i]);
                i = i + 1;
                proof {
                    assert(whole.0 =~= out@ + spec_desugar(
                        v@.skip(i as int),
                        footnotes@.len() as nat,
                    ).0);
                }
            }
        }
        proof {
            assert(v@.skip(n as int) =~= Seq::<char>::empty());
            assert(whole.0 =~= out@);
            assert(whole.1 =~= strings_view(footnotes@).skip(k0 as int));
            assert(strings_view(footnotes@) =~= strings_view(footnotes@).take(k0 as int)
                + strings_view(footnotes@).skip(k0 as int));
        }
        string_from_chars(&out)
    }

    /// Partitions body lines into prose and footnote definitions. A line
    /// beginning `[^` is a footnote definition; every other line has its
    /// inline footnotes desugared, which may append further definitions.
    pub fn split_content_and_footnotes(&self) -> (r: (Vec<String>, Vec<String>))
        ensures
            strings_view(r.0@) == spec_partition(spec_lines(self.markdown@), 0).0,
            strings_view(r.1@) == spec_partition(spec_lines(self.markdown@), 0).1,
    {
        let v = chars_vec(self.markdown.as_str());
        let ls = lines_vec(&v);
        let ghost ll = spec_lines(self.markdown@);
        let mut content: Vec<String> = Vec::new();
        let mut footnotes: Vec<String> = Vec::new();
        let mut i: usize = 0;
        proof {
            assert(ll.skip(0) =~= ll);
            assert(strings_view(content@) =~= Seq::<Seq<char>>::empty());
            assert(strings_view(footnotes@) =~= Seq::<Seq<char>>::empty());
        }
        while i < ls.len()
            invariant
                0 <= i <= ls@.len(),
                seqs_view(ls@) == ll,
                ll.len() == ls@.len(),
                spec_partition(ll, 0).0 =~= strings_view(content@) + spec_partition(
                    ll.skip(i as int),
                    footnotes@.len() as nat,
                ).0,
                spec_partition(ll, 0).1 =~= strings_view(footnotes@) + spec_partition(
                    ll.skip(i as int),
                    footnotes@.len() as nat,
                ).1,
            decreases ls@.len() - i,
        {
            let line = &ls[i];
            proof {
                assert(ll[i as int] == ls@[i as int]@);
                assert(ll.skip(i as int)[0] == ll[i as int]);
                assert(ll.skip(i as int).drop_first() =~= ll.skip(i + 1));
            }
            if line.len() >= 2 && line[0] == '[' && line[1] == '^' {
                proof {
                    assert(is_def_line(ll[i as int]));
                }
                footnotes.push(string_from_chars(line));
                proof {
                    assert(strings_view(footnotes@) =~= strings_view(footnotes@.drop_last())
                        + seq![ll[i as int]]);
                }
            } else {
                proof {
                    assert(!is_def_line(ll[i as int]));
                }
                let ghost kk = footnotes@.len() as nat;
                let ghost pre = footnotes@;
                let s = Self::separate_inline_footnote(string_from_chars(line), &mut footnotes);
                content.push(s);
                proof {
                    let d = spec_desugar(ll[i as int], kk);
                    assert(s@ == d.0);
                    assert(strings_view(content@) =~= strings_view(content@.drop_last()) + seq![
                        d.0,
                    ]);
                    assert(strings_view(footnotes@) == strings_view(pre) + d.1);
                    assert(strings_view(footnotes@).len() == footnotes@.len());
                    assert(strings_view(pre).len() == pre.len());
                    assert((strings_view(pre) + d.1).len() == strings_view(pre).len() + d.1.len());
                    assert(footnotes@.len() == kk + d.1.len());
                }
            }
            i = i + 1;
        }
        proof {
            assert(ll.skip(i as int) =~= Seq::<Seq<char>>::empty());
        }
        (content, footnotes)
    }

    /// The display title: the frontmatter title, or the file's base name with
    /// every `.md` removed.
    pub fn title(&self) -> (r: String)
        ensures
            r@ == spec_title(*self),
    {
        match &self.frontmatter.title {
            Some(t) => t.clone(),
            None => {
                let pv = chars_vec(self.path.as_str());
                let mut pat: Vec<char> = Vec::new();
                pat.push('.');
                pat.push('m');
                pat.push('d');
                let rep: Vec<char> = Vec::new();
                proof {
                    assert(pat@ =~= seq!['.', 'm', 'd']);
                    assert(rep@ =~= Seq::<char>::empty());
                }
                match file_name(&pv) {
                    Some(b) => string_from_chars(&replace_all(&b, &pat, &rep)),
                    None => {
                        let e: Vec<char> = Vec::new();
                        proof {
                            assert(spec_replace_all(Seq::<char>::empty(), pat@, rep@)
                                =~= Seq::<char>::empty());
                        }
                        string_from_chars(&e)
                    },
                }
            },
        }
    }

    /// Slugifies one path or title segment, stripping apostrophes first.
    pub fn slugify(path: &str) -> (r: String)
        ensures
            r@ == spec_slugify(path@),
    {
        let v = chars_vec(path);
        let mut pat: Vec<char> = Vec::new();
        pat.push('\'');
        let rep: Vec<char> = Vec::new();
        proof {
            assert(pat@ =~= seq!['\'']);
            assert(rep@ =~= Seq::<char>::empty());
        }
        let stripped = replace_all(&v, &pat, &rep);
        slugify_raw(string_from_chars(&stripped).as_str())
    }

    /// The post's slug: the directory segments under the site root, each
    /// slugified, then the slugified title, joined with `/`.
    pub fn slug(&self, base_directory: &str) -> (r: String)
        ensures
            r@ == spec_slug(*self, base_directory@),
    {
        let rel = strip_base(self.path.as_str(), base_directory);
        let rv = chars_vec(rel.as_str());
        let segs = split_char(&rv, '/');
        let ghost sv = seqs_view(segs@);
        proof {
            assert(sv.len() >= 1);
            assert(sv.take(0) =~= Seq::<Seq<char>>::empty());
            assert(strings_view(Seq::<String>::empty()) =~= spec_dir_slugs(sv.take(0)));
        }
        let mut parts: Vec<String> = Vec::new();
        let mut i: usize = 0;
        while i < segs.len() - 1
            invariant
                0 <= i <= sv.len() - 1,
                sv == seqs_view(segs@),
                sv.len() == segs@.len(),
                sv.len() >= 1,
                strings_view(parts@) =~= spec_dir_slugs(sv.take(i as int)),
            decreases sv.len() - 1 - i,
        {
            let sg = &segs[i];
            let good = sg.len() > 0 && !(sg.len() == 1 && sg[0] == '.');
            proof {
                assert(sv[i as int] == segs@[i as int]@);
                assert(good == (sv[i as int].len() > 0 && sv[i as int] != seq!['.'])) by {
                    if sg@.len() == 1 && sg@[0] == '.' {
                        assert(sg@ =~= seq!['.']);
                    }
                    if sg@ == seq!['.'] {
                        assert(sg@.len() == 1);
                        assert(sg@[0] == '.');
                    }
                }
                assert(sv.take(i + 1) =~= sv.take(i as int).push(sv[i as int]));
                lemma_dir_slugs_push(sv.take(i as int), sv[i as int]);
            }
            if good {
                parts.push(Self::slugify(string_from_chars(sg).as_str()));
                proof {
                    assert(strings_view(parts@) =~= strings_view(parts@.drop_last()).push(
                        spec_slugify(sv[i as int]),
                    ));
                }
            }
            i = i + 1;
        }
        let t = self.title();
        parts.push(Self::slugify(t.as_str()));
        proof {
            assert(sv.take(sv.len() - 1) =~= sv.take(i as int));
            assert(strings_view(parts@) =~= spec_dir_slugs(sv.take(sv.len() - 1)).push(
                spec_slugify(spec_title(*self)),
            ));
        }
        join_sep(&parts, '/')
    }

    /// Writes the prose to HTML: footnote references become numbered
    /// superscript anchors, headings are demoted one level, link destinations
    /// are resolved against the post set, and relative images move under the
    /// static prefix, each contributing an asset record.
    pub fn render_content_to_html(
        dest: &mut String,
        assets: &mut Vec<Asset>,
        ctx: &GeneratorContext,
        content: String,
    )
        ensures
            final(dest)@ == old(dest)@ + spec_content_html(
                content@,
                crate::resolve::spec_post_keys(ctx.posts@),
                ctx.config.base_url@,
            ),
            assets_view(final(assets)@) == assets_view(old(assets)@) + spec_content_assets(
                events_of(content@, true),
                ctx.config.base_url@,
            ),
    {
        let events = scan_markdown_events(content.as_str(), true);
        let (rewrites, mut new_assets) = compute_rewrites(&events, ctx);
        let ghost na = new_assets@;
        let html = render_markdown_with_rewrites(content.as_str(), true, &rewrites);
        dest.append(html.as_str());
        assets.append(&mut new_assets);
        proof {
            assert(assets_view(assets@) =~= assets_view(old(assets)@) + assets_view(na));
        }
    }

    /// Writes the footnote list to HTML: nothing for an empty list, else a
    /// horizontal rule and one numbered entry per footnote in registration
    /// order, each list item carrying its footnote's id so the reference's
    /// anchor and the back-link land on each other exactly.
    pub fn render_footnotes_to_html(dest: &mut String, ctx: &GeneratorContext, footnotes: Vec<String>)
        ensures
            final(dest)@ == old(dest)@ + spec_footnotes_html(
                strings_view(footnotes@),
                crate::resolve::spec_post_keys(ctx.posts@),
                ctx.config.base_url@,
            ),
    {
        let ghost dd = strings_view(footnotes@);
        if footnotes.len() == 0 {
            proof {
                assert(dest@ =~= dest@ + spec_footnotes_html(
                    dd,
                    crate::resolve::spec_post_keys(ctx.posts@),
                    ctx.config.base_url@,
                ));
            }
            return ;
        }
        let mut lis: Vec<String> = Vec::new();
        let mut i: usize = 0;
        while i < footnotes.len()
            invariant
                0 <= i <= footnotes@.len(),
                dd == strings_view(footnotes@),
                dd.len() == footnotes@.len(),
                lis@.len() == i,
                forall|x: int| 0 <= x < i ==> #[trigger] lis@[x]@ == spec_format_li(dd[x]),
            decreases footnotes@.len() - i,
        {
            lis.push(format_li(&footnotes[i]));
            i = i + 1;
            proof {
                assert(dd[i - 1] == footnotes@[i - 1]@);
            }
        }
        proof {
            assert(strings_view(lis@) =~= spec_format_lis(dd));
        }
        let joined = join_sep(&lis, '\n');
        let mut doc = chars_vec("---\n");
        let jv = chars_vec(joined.as_str());
        append_chars(&mut doc, &jv);
        let formatted = string_from_chars(&doc);
        proof {
            assert(formatted@ =~= spec_formatted_footnotes(dd));
        }
        let events = scan_markdown_events(formatted.as_str(), false);
        let rewrites = compute_footnote_rewrites(&events, &footnotes, ctx);
        let html = render_markdown_with_rewrites(formatted.as_str(), false, &rewrites);
        dest.append(html.as_str());
    }

    /// Renders the whole post: the desugared prose first, then the footnote
    /// list, returning the HTML and the assets of the prose's relative
    /// images.
    pub fn render_to_html(&self, ctx: &GeneratorContext) -> (r: (String, Vec<Asset>))
        ensures
            ({
                let part = spec_partition(spec_lines(self.markdown@), 0);
                let prose = spec_join(part.0, seq!['\n']);
                let keys = crate::resolve::spec_post_keys(ctx.posts@);
                let base = ctx.config.base_url@;
                &&& r.0@ == spec_content_html(prose, keys, base) + spec_footnotes_html(
                    part.1,
                    keys,
                    base,
                )
                &&& assets_view(r.1@) == spec_content_assets(events_of(prose, true), base)
            }),
    {
        let (content, footnotes) = self.split_content_and_footnotes();
        let joined = join_sep(&content, '\n');
        let mut dest = String::new();
        let mut assets: Vec<Asset> = Vec::new();
        proof {
            assert(assets_view(assets@) =~= Seq::<(Seq<char>, Seq<char>)>::empty());
        }
        Self::render_content_to_html(&mut dest, &mut assets, ctx, joined);
        Self::render_footnotes_to_html(&mut dest, ctx, footnotes);
        (dest, assets)
    }

    /// Formats one footnote definition as its list entry with a back-link.
    pub fn format_footnote_li(line: &String) -> (r: String)
        ensures
            r@ == spec_format_li(line@),
    {
        format_li(line)
    }
}

/// The display title of a document: the frontmatter title, or the file's base
/// name with every `.md` removed.
pub open spec fn spec_title(f: MarkdownFile) -> Seq<char> {
    match crate::deserialize::opt_str_view(f.frontmatter.title) {
        Some(t) => t,
        None => spec_replace_all(
            match spec_file_name(f.path@) {
                Some(b) => b,
                None => Seq::empty(),
            },
            seq!['.', 'm', 'd'],
            Seq::empty(),
        ),
    }
}

/// The slug of a document under the site root: every directory segment below
/// the root slugified, then the slugified title, joined with `/`.
pub open spec fn spec_slug(f: MarkdownFile, base: Seq<char>) -> Seq<char> {
    let rel = spec_strip_base(f.path@, base);
    let segs = spec_split_char(rel, '/');
    spec_join(
        spec_dir_slugs(segs.take(segs.len() - 1)).push(spec_slugify(spec_title(f))),
        seq!['/'],
    )
}

/// What `slug::slugify` returns for a string: lower-cased, transliterated to
/// URL-safe characters, runs of other characters collapsed to single hyphens.
pub uninterp spec fn slug_of(s: Seq<char>) -> Seq<char>;

/// Relies on `slug::slugify`: the slug is a pure function of the characters
/// of its input.
#[verifier::external_body]
fn slugify_raw(s: &str) -> (r: String)
    ensures
        r@ == slug_of(s@),
{
    slug::slugify(s)
}

/// The slug of one path or title segment: apostrophes are stripped before
/// slugification so contractions keep their words together.
pub open spec fn spec_slugify(s: Seq<char>) -> Seq<char> {
    slug_of(spec_replace_all(s, seq!['\''], Seq::empty()))
}

/// The slugs of the directory segments, skipping empty and `.` segments.
pub open spec fn spec_dir_slugs(segs: Seq<Seq<char>>) -> Seq<Seq<char>>
    decreases segs.len(),
{
    if segs.len() == 0 {
        Seq::empty()
    } else {
        let rest = spec_dir_slugs(segs.drop_first());
        if segs[0].len() > 0 && segs[0] != seq!['.'] {
            seq![spec_slugify(segs[0])] + rest
        } else {
            rest
        }
    }
}

proof fn lemma_dir_slugs_push(segs: Seq<Seq<char>>, x: Seq<char>)
    ensures
        spec_dir_slugs(segs.push(x)) == if x.len() > 0 && x != seq!['.'] {
            spec_dir_slugs(segs).push(spec_slugify(x))
        } else {
            spec_dir_slugs(segs)
        },
    decreases segs.len(),
{
    if segs.len() == 0 {
        assert(segs.push(x)[0] == x);
        assert(segs.push(x).drop_first() =~= Seq::<Seq<char>>::empty());
        assert(spec_dir_slugs(Seq::<Seq<char>>::empty()) =~= Seq::<Seq<char>>::empty());
        if x.len() > 0 && x != seq!['.'] {
            assert(spec_dir_slugs(segs.push(x)) =~= seq![spec_slugify(x)]);
            assert(spec_dir_slugs(segs).push(spec_slugify(x)) =~= seq![spec_slugify(x)]);
        } else {
            assert(spec_dir_slugs(segs.push(x)) =~= spec_dir_slugs(segs));
        }
    } else {
        assert(segs.push(x).drop_first() =~= segs.drop_first().push(x));
        assert(segs.push(x)[0] == segs[0]);
        lemma_dir_slugs_push(segs.drop_first(), x);
        if x.len() > 0 && x != seq!['.'] {
            assert(spec_dir_slugs(segs.push(x)) =~= spec_dir_slugs(segs).push(spec_slugify(x)));
        } else {
            assert(spec_dir_slugs(segs.push(x)) =~= spec_dir_slugs(segs));
        }
    }
}

/// Whether a body line declares a footnote definition.
pub open spec fn is_def_line(l: Seq<char>) -> bool {
    l.len() >= 2 && l[0] == '[' && l[1] == '^'
}

/// Partitions body lines into prose and footnote-definition lines, desugaring
/// inline footnotes of prose lines along the way; `k` counts the footnotes
/// already registered.
pub open spec fn spec_partition(ls: Seq<Seq<char>>, k: nat) -> (Seq<Seq<char>>, Seq<Seq<char>>)
    decreases ls.len(),
{
    if ls.len() == 0 {
        (Seq::empty(), Seq::empty())
    } else if is_def_line(ls[0]) {
        let r = spec_partition(ls.drop_first(), k + 1);
        (r.0, seq![ls[0]] + r.1)
    } else {
        let d = spec_desugar(ls[0], k);
        let r = spec_partition(ls.drop_first(), k + d.1.len());
        (seq![d.0] + r.0, d.1 + r.1)
    }
}

} // verus!
