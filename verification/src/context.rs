//! The build context: per-post display records and the immutable set of all
//! posts that link resolution consults.
use vstd::prelude::*;

use crate::config::Config;
use crate::deserialize::{date_valid, format_date, spec_format_date, Date};
use crate::markdown::{spec_slug, spec_title, MarkdownFile};
use crate::resolve::{spec_strip_base, strip_base};
use crate::text::{chars_vec, string_from_chars, strings_view};

verus! {

/// The flat per-post record handed to the template renderer.
#[derive(Debug, Clone)]
pub struct PostContext {
    pub title: String,
    pub tags: Vec<String>,
    pub author: String,
    pub original_file_name: String,
    pub relative_url: String,
    pub date: String,
    pub year: i32,
    pub month: u32,
    pub day: u32,
    pub markdown: String,
}

/// Everything a render pass reads: the configuration, the site directories,
/// and the complete post set, which is never mutated during rendering.
pub struct GeneratorContext {
    pub config: Config,
    pub base_dir: String,
    pub output_dir: String,
    pub posts: Vec<(MarkdownFile, PostContext)>,
}

/// The tags of a post as displayed: the build's required tag is dropped, the
/// rest keep their order.
pub open spec fn spec_filter_tags(tags: Seq<Seq<char>>, req: Seq<char>) -> Seq<Seq<char>>
    decreases tags.len(),
{
    if tags.len() == 0 {
        Seq::empty()
    } else if tags[0] == req {
        spec_filter_tags(tags.drop_first(), req)
    } else {
        seq![tags[0]] + spec_filter_tags(tags.drop_first(), req)
    }
}

/// Whether a post carries the tag that marks it as publishable.
pub fn is_allowed(file: &MarkdownFile, config: &Config) -> (r: bool)
    ensures
        r == strings_view(file.frontmatter.tags@).contains(config.require_tag@),
{
    let mut i: usize = 0;
    while i < file.frontmatter.tags.len()
        invariant
            0 <= i <= file.frontmatter.tags@.len(),
            forall|j: int|
                0 <= j < i ==> #[trigger] file.frontmatter.tags@[j]@ != config.require_tag@,
        decreases file.frontmatter.tags@.len() - i,
    {
        if file.frontmatter.tags[i] == config.require_tag {
            proof {
                let sv = strings_view(file.frontmatter.tags@);
                assert(sv[i as int] == file.frontmatter.tags@[i as int]@);
                assert(sv.contains(config.require_tag@));
            }
            return true;
        }
        i = i + 1;
    }
    proof {
        let sv = strings_view(file.frontmatter.tags@);
        if sv.contains(config.require_tag@) {
            let j = choose|j: int| 0 <= j < sv.len() && sv[j] == config.require_tag@;
            assert(sv[j] == file.frontmatter.tags@[j]@);
            assert(file.frontmatter.tags@[j]@ != config.require_tag@);
        }
    }
    false
}

/// Builds the flat display record of one post: the title, the filtered tags,
/// the author (the configured author when the post names none), the ISO date
/// with its year, month and day, the source path relative to the site root,
/// and the post's relative url — its slug with a trailing separator. The
/// rendered HTML is filled in later and starts empty.
pub fn create_post_metadata(ctx: &GeneratorContext, file: &MarkdownFile) -> (r: PostContext)
    requires
        file.frontmatter.date is Some,
        date_valid(file.frontmatter.date->Some_0),
    ensures
        r.title@ == spec_title(*file),
        strings_view(r.tags@) == spec_filter_tags(
            strings_view(file.frontmatter.tags@),
            ctx.config.require_tag@,
        ),
        r.author@ == match file.frontmatter.author {
            Some(a) => a@,
            None => ctx.config.author@,
        },
        r.date@ == spec_format_date(file.frontmatter.date->Some_0),
        r.year == file.frontmatter.date->Some_0.year,
        r.month == file.frontmatter.date->Some_0.month,
        r.day == file.frontmatter.date->Some_0.day,
        r.markdown@ == Seq::<char>::empty(),
        r.original_file_name@ == spec_strip_base(file.path@, ctx.base_dir@),
        r.relative_url@ == spec_slug(*file, ctx.base_dir@) + seq!['/'],
{
    let ghost req = ctx.config.require_tag@;
    let ghost all = strings_view(file.frontmatter.tags@);
    let mut tags: Vec<String> = Vec::new();
    let mut i: usize = 0;
    proof {
        assert(all.skip(0) =~= all);
        assert(strings_view(tags@) =~= Seq::<Seq<char>>::empty());
    }
    while i < file.frontmatter.tags.len()
        invariant
            0 <= i <= file.frontmatter.tags@.len(),
            all == strings_view(file.frontmatter.tags@),
            all.len() == file.frontmatter.tags@.len(),
            req == ctx.config.require_tag@,
            spec_filter_tags(all, req) =~= strings_view(tags@) + spec_filter_tags(
                all.skip(i as int),
                req,
            ),
        decreases file.frontmatter.tags@.len() - i,
    {
        proof {
            assert(all[i as int] == file.frontmatter.tags@[i as int]@);
            assert(all.skip(i as int)[0] == all[i as int]);
            assert(all.skip(i as int).drop_first() =~= all.skip(i + 1));
        }
        let t = &file.frontmatter.tags[i];
        if !(*t == ctx.config.require_tag) {
            tags.push(t.clone());
            proof {
                assert(strings_view(tags@) =~= strings_view(tags@.drop_last()) + seq![
                    all[i as int],
                ]);
            }
        }
        i = i + 1;
    }
    proof {
        assert(all.skip(i as int) =~= Seq::<Seq<char>>::empty());
    }
    let author = match &file.frontmatter.author {
        Some(a) => a.clone(),
        None => ctx.config.author.clone(),
    };
    let date = match &file.frontmatter.date {
        Some(d) => *d,
        None => Date { year: 0, month: 1, day: 1 },
    };
    let slug = file.slug(ctx.base_dir.as_str());
    let mut url = chars_vec(slug.as_str());
    url.push('/');
    PostContext {
        title: file.title(),
        tags,
        author,
        original_file_name: strip_base(file.path.as_str(), ctx.base_dir.as_str()),
        relative_url: string_from_chars(&url),
        date: format_date(&date),
        year: date.year,
        month: date.month,
        day: date.day,
        markdown: String::new(),
    }
}

// ------------------------------------------------------------------
// Ordering the post set
// ------------------------------------------------------------------
/// Lexicographic order on character sequences; on `YYYY-MM-DD` date strings
/// this is chronological order.
pub open spec fn spec_lex_le(a: Seq<char>, b: Seq<char>) -> bool
    decreases a.len(),
{
    if a.len() == 0 {
        true
    } else if b.len() == 0 {
        false
    } else if a[0] != b[0] {
        a[0] < b[0]
    } else {
        spec_lex_le(a.drop_first(), b.drop_first())
    }
}

pub open spec fn spec_lex_ge(a: Seq<char>, b: Seq<char>) -> bool {
    spec_lex_le(b, a)
}

pub proof fn lemma_lex_le_refl(a: Seq<char>)
    ensures
        spec_lex_le(a, a),
    decreases a.len(),
{
    if a.len() > 0 {
        lemma_lex_le_refl(a.drop_first());
    }
}

pub proof fn lemma_lex_le_total(a: Seq<char>, b: Seq<char>)
    ensures
        spec_lex_le(a, b) || spec_lex_le(b, a),
    decreases a.len(),
{
    if a.len() > 0 && b.len() > 0 && a[0] == b[0] {
        lemma_lex_le_total(a.drop_first(), b.drop_first());
    }
}

pub proof fn lemma_lex_le_trans(a: Seq<char>, b: Seq<char>, c: Seq<char>)
    requires
        spec_lex_le(a, b),
        spec_lex_le(b, c),
    ensures
        spec_lex_le(a, c),
    decreases a.len(),
{
    if a.len() > 0 && b.len() > 0 && c.len() > 0 && a[0] == b[0] && b[0] == c[0] {
        lemma_lex_le_trans(a.drop_first(), b.drop_first(), c.drop_first());
    }
}

/// Compares two character vectors lexicographically.
fn lex_le_chars(a: &Vec<char>, b: &Vec<char>) -> (r: bool)
    ensures
        r == spec_lex_le(a@, b@),
{
    let mut i: usize = 0;
    proof {
        assert(a@.skip(0) =~= a@);
        assert(b@.skip(0) =~= b@);
    }
    loop
        invariant_except_break
            i <= a@.len(),
            i <= b@.len(),
            spec_lex_le(a@, b@) == spec_lex_le(a@.skip(i as int), b@.skip(i as int)),
        ensures
            (i <= a@.len() && i <= b@.len()) && spec_lex_le(a@, b@) == spec_lex_le(
                a@.skip(i as int),
                b@.skip(i as int),
            ) && (i == a@.len() || i == b@.len() || a@[i as int] != b@[i as int]),
        decreases a@.len() - i,
    {
        if i == a.len() || i == b.len() || a[i] != b[i] {
            break ;
        }
        proof {
            let sa = a@.skip(i as int);
            let sb = b@.skip(i as int);
            assert(sa[0] == a@[i as int] && sb[0] == b@[i as int]);
            assert(sa.drop_first() =~= a@.skip(i + 1));
            assert(sb.drop_first() =~= b@.skip(i + 1));
        }
        i = i + 1;
    }
    let ghost sa = a@.skip(i as int);
    let ghost sb = b@.skip(i as int);
    if i == a.len() {
        proof {
            assert(sa.len() == 0);
        }
        true
    } else if i == b.len() {
        proof {
            assert(sa.len() > 0 && sb.len() == 0);
        }
        false
    } else {
        proof {
            assert(sa[0] == a@[i as int] && sb[0] == b@[i as int]);
        }
        a[i] < b[i]
    }
}

/// Whether the date of `a` is at or after the date of `b`.
fn post_date_ge(a: &PostContext, b: &PostContext) -> (r: bool)
    ensures
        r == spec_lex_ge(a.date@, b.date@),
{
    lex_le_chars(&chars_vec(b.date.as_str()), &chars_vec(a.date.as_str()))
}

proof fn lemma_to_multiset_insert<T>(t: Seq<T>, i: int, x: T)
    requires
        0 <= i <= t.len(),
    ensures
        t.insert(i, x).to_multiset() =~= t.to_multiset().insert(x),
{
    broadcast use vstd::seq_lib::group_to_multiset_ensures;

    let left = t.take(i);
    let right = t.skip(i);
    assert(t.insert(i, x) =~= left + (seq![x] + right));
    vstd::seq_lib::lemma_multiset_commutative(left, seq![x] + right);
    vstd::seq_lib::lemma_multiset_commutative(seq![x], right);
    assert(t =~= left + right);
    vstd::seq_lib::lemma_multiset_commutative(left, right);
    assert(seq![x] =~= Seq::<T>::empty().push(x));
    assert(Seq::<T>::empty().push(x).to_multiset() =~= Seq::<T>::empty().to_multiset().insert(x));
    assert forall|e: T| true implies Seq::<T>::empty().to_multiset().count(e) == 0 by {
        assert(!Seq::<T>::empty().contains(e));
    }
}

/// Looks for two posts whose slug-derived urls collide: such posts would
/// silently overwrite each other's output, so a build should warn about the
/// returned url.
pub fn find_duplicate_url(posts: &Vec<(MarkdownFile, PostContext)>) -> (r: Option<String>)
    ensures
        match r {
            Some(u) => exists|i: int, j: int|
                0 <= i < j < posts@.len() && #[trigger] posts@[i].1.relative_url@
                    == #[trigger] posts@[j].1.relative_url@ && posts@[i].1.relative_url@ == u@,
            None => forall|i: int, j: int|
                0 <= i < j < posts@.len() ==> #[trigger] posts@[i].1.relative_url@
                    != #[trigger] posts@[j].1.relative_url@,
        },
{
    let n = posts.len();
    let mut i: usize = 0;
    while i < n
        invariant
            i <= n == posts@.len(),
            forall|a: int, b: int|
                0 <= a < b < n && a < i ==> #[trigger] posts@[a].1.relative_url@
                    != #[trigger] posts@[b].1.relative_url@,
        decreases n - i,
    {
        let mut j: usize = i + 1;
        while j < n
            invariant
                i < j <= n == posts@.len(),
                i < n,
                forall|b: int|
                    i < b < j ==> posts@[i as int].1.relative_url@
                        != #[trigger] posts@[b].1.relative_url@,
            decreases n - j,
        {
            if posts[i].1.relative_url == posts[j].1.relative_url {
                return Some(posts[i].1.relative_url.clone());
            }
            j = j + 1;
        }
        i = i + 1;
    }
    None
}

/// Sorts the post set by date, newest first: afterwards every earlier entry's
/// date is at or after every later entry's date, and the entries are exactly
/// those given.
pub fn sort_posts_by_date(posts: &mut Vec<(MarkdownFile, PostContext)>)
    ensures
        final(posts)@.len() == old(posts)@.len(),
        final(posts)@.to_multiset() == old(posts)@.to_multiset(),
        forall|a: int, b: int|
            0 <= a < b < final(posts)@.len() ==> spec_lex_ge(
                #[trigger] final(posts)@[a].1.date@,
                #[trigger] final(posts)@[b].1.date@,
            ),
{
    let n = posts.len();
    let mut i: usize = 0;
    while i < n
        invariant
            i <= n,
            posts@.len() == n == old(posts)@.len(),
            posts@.to_multiset() == old(posts)@.to_multiset(),
            forall|a: int, b: int|
                0 <= a < b < i ==> spec_lex_ge(
                    #[trigger] posts@[a].1.date@,
                    #[trigger] posts@[b].1.date@,
                ),
            forall|a: int, b: int|
                0 <= a < i <= b < n ==> spec_lex_ge(
                    #[trigger] posts@[a].1.date@,
                    #[trigger] posts@[b].1.date@,
                ),
        decreases n - i,
    {
        // find the first entry with the greatest date in the unsorted tail
        let mut m: usize = i;
        let mut k: usize = i + 1;
        proof {
            lemma_lex_le_refl(posts@[i as int].1.date@);
        }
        while k < n
            invariant
                i <= m < k <= n,
                n == posts@.len(),
                forall|x: int|
                    i <= x < k ==> spec_lex_le(
                        #[trigger] posts@[x].1.date@,
                        posts@[m as int].1.date@,
                    ),
            decreases n - k,
        {
            if !post_date_ge(&posts[m].1, &posts[k].1) {
                proof {
                    lemma_lex_le_total(posts@[k as int].1.date@, posts@[m as int].1.date@);
                    assert(spec_lex_le(posts@[m as int].1.date@, posts@[k as int].1.date@));
                    assert forall|x: int| i <= x < k + 1 implies spec_lex_le(
                        #[trigger] posts@[x].1.date@,
                        posts@[k as int].1.date@,
                    ) by {
                        if x < k {
                            lemma_lex_le_trans(
                                posts@[x].1.date@,
                                posts@[m as int].1.date@,
                                posts@[k as int].1.date@,
                            );
                        } else {
                            lemma_lex_le_refl(posts@[k as int].1.date@);
                        }
                    }
                }
                m = k;
            } else {
                proof {
                    assert(spec_lex_le(posts@[k as int].1.date@, posts@[m as int].1.date@));
                }
            }
            k = k + 1;
        }
        // rotate that entry to the front of the tail
        let ghost before = posts@;
        if m > i {
            let x = posts.remove(m);
            posts.insert(i, x);
            proof {
                broadcast use vstd::seq_lib::group_to_multiset_ensures;

                lemma_to_multiset_insert(before.remove(m as int), i as int, before[m as int]);
                assert(before.contains(before[m as int]));
                assert(posts@.to_multiset() =~= before.to_multiset());
            }
        }
        proof {
            if m > i {
                // each position holds a known element of the previous round
                assert forall|b: int| i < b < n implies #[trigger] posts@[b] == (if b <= m {
                    before[b - 1]
                } else {
                    before[b]
                }) by {
                    assert(posts@[b] == before.remove(m as int)[b - 1]);
                }
                assert forall|a: int| 0 <= a < i implies #[trigger] posts@[a] == before[a] by {
                    assert(posts@[a] == before.remove(m as int)[a]);
                }
                assert(posts@[i as int] == before[m as int]);
            } else {
                assert(posts@ == before);
            }
            // the chosen maximum dominates the rest of the tail
            assert forall|b: int| i < b < n implies spec_lex_ge(
                posts@[i as int].1.date@,
                #[trigger] posts@[b].1.date@,
            ) by {
                if m > i {
                    if b <= m {
                        assert(posts@[b] == before[b - 1]);
                        assert(spec_lex_le(before[b - 1].1.date@, before[m as int].1.date@));
                    } else {
                        assert(posts@[b] == before[b]);
                        assert(spec_lex_le(before[b].1.date@, before[m as int].1.date@));
                    }
                } else {
                    assert(spec_lex_le(posts@[b].1.date@, posts@[m as int].1.date@));
                }
            }
            // the sorted prefix grows by one
            assert forall|a: int, b: int| 0 <= a < b < i + 1 implies spec_lex_ge(
                #[trigger] posts@[a].1.date@,
                #[trigger] posts@[b].1.date@,
            ) by {
                if b < i {
                    if m > i {
                        assert(posts@[a] == before[a] && posts@[b] == before[b]);
                    }
                    assert(spec_lex_ge(before[a].1.date@, before[b].1.date@));
                } else {
                    if m > i {
                        assert(posts@[a] == before[a]);
                        assert(posts@[i as int] == before[m as int]);
                        assert(spec_lex_ge(before[a].1.date@, before[m as int].1.date@));
                    } else {
                        assert(spec_lex_ge(before[a].1.date@, before[m as int].1.date@));
                    }
                }
            }
            // and still dominates everything after it
            assert forall|a: int, b: int| 0 <= a < i + 1 && i + 1 <= b < n implies spec_lex_ge(
                #[trigger] posts@[a].1.date@,
                #[trigger] posts@[b].1.date@,
            ) by {
                if a < i {
                    if m > i {
                        assert(posts@[a] == before[a]);
                        if b <= m {
                            assert(posts@[b] == before[b - 1]);
                            assert(spec_lex_ge(before[a].1.date@, before[b - 1].1.date@));
                        } else {
                            assert(posts@[b] == before[b]);
                            assert(spec_lex_ge(before[a].1.date@, before[b].1.date@));
                        }
                    } else {
                        assert(spec_lex_ge(before[a].1.date@, before[b].1.date@));
                    }
                }
            }
        }
        i = i + 1;
    }
}

} // verus!
