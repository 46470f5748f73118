//! Link resolution: deciding whether a destination is relative, undoing the
//! `%20` editor quirk, and matching a destination against the post set.
use vstd::prelude::*;

use crate::context::{GeneratorContext, PostContext};
use crate::markdown::MarkdownFile;
use crate::text::{chars_vec, string_from_chars, subvec};

verus! {

/// Whether `p` is a prefix of `s`.
pub open spec fn spec_starts_with(s: Seq<char>, p: Seq<char>) -> bool {
    p.len() <= s.len() && s.take(p.len() as int) == p
}

/// Whether `v[i..]` starts with `pat`.
pub fn match_at(v: &Vec<char>, i: usize, pat: &Vec<char>) -> (r: bool)
    requires
        i <= v@.len(),
    ensures
        r == spec_starts_with(v@.skip(i as int), pat@),
{
    let n = v.len();
    let m = pat.len();
    if n - i < m {
        return false;
    }
    let mut j: usize = 0;
    while j < m
        invariant
            0 <= j <= m == pat@.len(),
            i + m <= n == v@.len(),
            forall|x: int| 0 <= x < j ==> v@[i + x] == pat@[x],
        decreases m - j,
    {
        if v[i + j] != pat[j] {
            proof {
                let s = v@.skip(i as int);
                assert(s.take(m as int)[j as int] == v@[i + j]);
            }
            return false;
        }
        j = j + 1;
    }
    proof {
        let s = v@.skip(i as int);
        assert(s.take(m as int) =~= pat@);
    }
    true
}

/// `s` with every non-overlapping occurrence of `pat` replaced by `rep`, left
/// to right.
pub open spec fn spec_replace_all(s: Seq<char>, pat: Seq<char>, rep: Seq<char>) -> Seq<char>
    recommends
        pat.len() > 0,
    decreases s.len(),
{
    if s.len() == 0 {
        s
    } else if pat.len() > 0 && spec_starts_with(s, pat) {
        rep + spec_replace_all(s.skip(pat.len() as int), pat, rep)
    } else {
        seq![s[0]] + spec_replace_all(s.drop_first(), pat, rep)
    }
}

/// Replaces every occurrence of `pat` in `v` by `rep`.
pub fn replace_all(v: &Vec<char>, pat: &Vec<char>, rep: &Vec<char>) -> (r: Vec<char>)
    requires
        pat@.len() > 0,
    ensures
        r@ == spec_replace_all(v@, pat@, rep@),
{
    let n = v.len();
    let mut out: Vec<char> = Vec::new();
    let mut i: usize = 0;
    proof {
        assert(v@.skip(0) =~= v@);
    }
    while i < n
        invariant
            0 <= i <= n == v@.len(),
            pat@.len() > 0,
            spec_replace_all(v@, pat@, rep@) =~= out@ + spec_replace_all(
                v@.skip(i as int),
                pat@,
                rep@,
            ),
        decreases n - i,
    {
        let ghost s = v@.skip(i as int);
        if match_at(v, i, pat) {
            let mut rr = rep.clone();
            out.append(&mut rr);
            proof {
                assert(s.skip(pat@.len() as int) =~= v@.skip(i + pat@.len()));
            }
            i = i + pat.len();
        } else {
            proof {
                assert(s[0] == v@[i as int]);
                assert(s.drop_first() =~= v@.skip(i + 1));
            }
            out.push(v[i]);
            i = i + 1;
        }
    }
    proof {
        assert(v@.skip(n as int) =~= Seq::<char>::empty());
        assert(out@ =~= spec_replace_all(v@, pat@, rep@));
    }
    out
}

/// `s` with every trailing `c` removed.
pub open spec fn strip_trailing(s: Seq<char>, c: char) -> Seq<char>
    decreases s.len(),
{
    if s.len() > 0 && s.last() == c {
        strip_trailing(s.drop_last(), c)
    } else {
        s
    }
}

proof fn lemma_strip_trailing_is(s: Seq<char>, c: char, e: int)
    requires
        0 <= e <= s.len(),
        forall|j: int| e <= j < s.len() ==> s[j] == c,
        e > 0 ==> s[e - 1] != c,
    ensures
        strip_trailing(s, c) == s.take(e),
    decreases s.len(),
{
    if s.len() > e {
        assert(s.last() == c);
        lemma_strip_trailing_is(s.drop_last(), c, e);
        assert(s.drop_last().take(e) =~= s.take(e));
    } else {
        if e > 0 {
            assert(s.last() == s[e - 1]);
        }
        assert(s.take(e) =~= s);
    }
}

/// Index of the last occurrence of `c` in `s`, if any.
pub open spec fn last_index_of(s: Seq<char>, c: char) -> Option<int>
    decreases s.len(),
{
    if s.len() == 0 {
        None
    } else if s.last() == c {
        Some(s.len() - 1)
    } else {
        last_index_of(s.drop_last(), c)
    }
}

proof fn lemma_last_index_of_is(s: Seq<char>, c: char, b: int)
    requires
        0 <= b <= s.len(),
        forall|j: int| b <= j < s.len() ==> s[j] != c,
        b > 0 ==> s[b - 1] == c,
    ensures
        b > 0 ==> last_index_of(s, c) == Some(b - 1),
        b == 0 ==> last_index_of(s, c) is None,
    decreases s.len(),
{
    if s.len() == 0 {
    } else if s.last() == c {
        assert(b == s.len());
    } else {
        assert(b < s.len());
        lemma_last_index_of_is(s.drop_last(), c, b);
    }
}

/// The base name of a path: the last segment once trailing separators are
/// dropped; none for an empty path or a `.` or `..` segment.
pub open spec fn spec_file_name(d: Seq<char>) -> Option<Seq<char>> {
    let t = strip_trailing(d, '/');
    if t.len() == 0 {
        None
    } else {
        let seg = match last_index_of(t, '/') {
            Some(i) => t.skip(i + 1),
            None => t,
        };
        if seg == seq!['.'] || seg == seq!['.', '.'] {
            None
        } else {
            Some(seg)
        }
    }
}

/// The base name of a path.
pub fn file_name(v: &Vec<char>) -> (r: Option<Vec<char>>)
    ensures
        match r {
            Some(b) => spec_file_name(v@) == Some(b@),
            None => spec_file_name(v@) is None,
        },
{
    let n = v.len();
    let mut e: usize = n;
    while e > 0 && v[e - 1] == '/'
        invariant
            0 <= e <= n == v@.len(),
            forall|j: int| e <= j < n ==> v@[j] == '/',
        decreases e,
    {
        e = e - 1;
    }
    proof {
        lemma_strip_trailing_is(v@, '/', e as int);
    }
    let ghost t = strip_trailing(v@, '/');
    proof {
        assert(t == v@.take(e as int));
    }
    if e == 0 {
        return None;
    }
    let mut b: usize = e;
    while b > 0 && v[b - 1] != '/'
        invariant
            0 <= b <= e,
            e <= v@.len(),
            forall|j: int| b <= j < e ==> v@[j] != '/',
        decreases b,
    {
        b = b - 1;
    }
    proof {
        assert forall|j: int| b <= j < t.len() implies t[j] != '/' by {
            assert(t[j] == v@[j]);
        }
        if b > 0 {
            assert(t[b - 1] == v@[b - 1]);
        }
        lemma_last_index_of_is(t, '/', b as int);
    }
    let seg = subvec(v, b, e);
    proof {
        if b > 0 {
            assert(t.skip(b as int) =~= v@.subrange(b as int, e as int));
        } else {
            assert(t =~= v@.subrange(0, e as int));
        }
    }
    let is_dot = seg.len() == 1 && seg[0] == '.';
    let is_dotdot = seg.len() == 2 && seg[0] == '.' && seg[1] == '.';
    proof {
        assert(is_dot == (seg@ == seq!['.'])) by {
            if seg@.len() == 1 && seg@[0] == '.' {
                assert(seg@ =~= seq!['.']);
            }
            if seg@ == seq!['.'] {
                assert(seg@.len() == 1);
                assert(seg@[0] == '.');
            }
        }
        assert(is_dotdot == (seg@ == seq!['.', '.'])) by {
            if seg@.len() == 2 && seg@[0] == '.' && seg@[1] == '.' {
                assert(seg@ =~= seq!['.', '.']);
            }
            if seg@ == seq!['.', '.'] {
                assert(seg@.len() == 2);
                assert(seg@[0] == '.');
                assert(seg@[1] == '.');
            }
        }
    }
    if is_dot || is_dotdot {
        None
    } else {
        Some(seg)
    }
}

/// A destination is relative exactly when it has no `://` scheme separator.
pub open spec fn spec_is_relative(d: Seq<char>) -> bool {
    !(exists|i: int|
        0 <= i && i + 3 <= d.len() && #[trigger] d[i] == ':' && d[i + 1] == '/' && d[i + 2] == '/')
}

/// Whether a destination is relative (it contains no `://`).
pub fn is_relative_chars(v: &Vec<char>) -> (r: bool)
    ensures
        r == spec_is_relative(v@),
{
    let n = v.len();
    if n < 3 {
        return true;
    }
    let mut i: usize = 0;
    while i < n - 2
        invariant
            0 <= i <= n - 2,
            3 <= n == v@.len(),
            forall|j: int| 0 <= j < i ==> !(#[trigger] v@[j] == ':' && v@[j + 1] == '/' && v@[j + 2] == '/'),
        decreases n - i,
    {
        if v[i] == ':' && v[i + 1] == '/' && v[i + 2] == '/' {
            return false;
        }
        i = i + 1;
    }
    true
}

/// Whether a link or image destination is relative: the sole test is the
/// absence of a `://` scheme separator.
pub fn is_relative_url(dest: String) -> (r: bool)
    ensures
        r == spec_is_relative(dest@),
{
    let v = chars_vec(dest.as_str());
    is_relative_chars(&v)
}

/// A path with a leading base directory and the separators after it removed;
/// a path not under the base is kept whole.
pub open spec fn spec_strip_base(p: Seq<char>, base: Seq<char>) -> Seq<char> {
    if spec_starts_with(p, base) {
        spec_strip_leading(p.skip(base.len() as int), '/')
    } else {
        p
    }
}

/// `s` with every leading `c` removed.
pub open spec fn spec_strip_leading(s: Seq<char>, c: char) -> Seq<char>
    decreases s.len(),
{
    if s.len() > 0 && s[0] == c {
        spec_strip_leading(s.drop_first(), c)
    } else {
        s
    }
}

proof fn lemma_strip_leading_is(s: Seq<char>, c: char, b: int)
    requires
        0 <= b <= s.len(),
        forall|j: int| 0 <= j < b ==> s[j] == c,
        b < s.len() ==> s[b] != c,
    ensures
        spec_strip_leading(s, c) == s.skip(b),
    decreases s.len(),
{
    if s.len() > 0 && s[0] == c {
        assert(b > 0) by {
            if b == 0 {
                assert(s[0] != c);
            }
        }
        lemma_strip_leading_is(s.drop_first(), c, b - 1);
        assert(s.drop_first().skip(b - 1) =~= s.skip(b));
    } else {
        assert(b == 0);
        assert(s.skip(0) =~= s);
    }
}

/// Strips a base directory prefix (and the separators after it) off a path.
pub fn strip_base(p: &str, base: &str) -> (r: String)
    ensures
        r@ == spec_strip_base(p@, base@),
{
    let v = chars_vec(p);
    let bv = chars_vec(base);
    let n = v.len();
    if !match_at(&v, 0, &bv) {
        proof {
            assert(v@.skip(0) =~= v@);
        }
        return string_from_chars(&v);
    }
    proof {
        assert(v@.skip(0) =~= v@);
    }
    let mut b: usize = bv.len();
    while b < n && v[b] == '/'
        invariant
            bv@.len() <= b <= n == v@.len(),
            forall|j: int| bv@.len() <= j < b ==> v@[j] == '/',
        decreases n - b,
    {
        b = b + 1;
    }
    proof {
        let s = v@.skip(bv@.len() as int);
        assert forall|j: int| 0 <= j < b - bv@.len() implies s[j] == '/' by {
            assert(s[j] == v@[j + bv@.len()]);
        }
        if b < n {
            assert(s[b - bv@.len()] == v@[b as int]);
        }
        lemma_strip_leading_is(s, '/', b - bv@.len());
        assert(s.skip(b - bv@.len()) =~= v@.subrange(b as int, n as int));
    }
    string_from_chars(&subvec(&v, b, n))
}

/// The `(source path, relative url)` pairs of the post set, in order.
pub open spec fn spec_post_keys(posts: Seq<(MarkdownFile, PostContext)>) -> Seq<
    (Seq<char>, Seq<char>),
> {
    posts.map_values(
        |p: (MarkdownFile, PostContext)| (p.1.original_file_name@, p.1.relative_url@),
    )
}

/// The relative url of the first post whose source path (separators
/// normalized to `/`) equals `rep`, if any.
pub open spec fn spec_find_post(keys: Seq<(Seq<char>, Seq<char>)>, rep: Seq<char>) -> Option<
    Seq<char>,
>
    decreases keys.len(),
{
    if keys.len() == 0 {
        None
    } else if spec_replace_all(keys[0].0, seq!['\\'], seq!['/']) == rep {
        Some(keys[0].1)
    } else {
        spec_find_post(keys.drop_first(), rep)
    }
}

/// Link resolution. An absolute destination passes through unchanged. A
/// relative one has `%20` decoded to spaces and is matched against every
/// post's source path: on a match the destination becomes the site base url,
/// a separator, and the post's relative url; otherwise it is left unchanged.
pub open spec fn spec_resolve(
    dest: Seq<char>,
    keys: Seq<(Seq<char>, Seq<char>)>,
    base: Seq<char>,
) -> Seq<char> {
    if !spec_is_relative(dest) {
        dest
    } else {
        let rep = spec_replace_all(dest, seq!['%', '2', '0'], seq![' ']);
        match spec_find_post(keys, rep) {
            Some(url) => base + seq!['/'] + url,
            None => dest,
        }
    }
}

/// Resolution is a function of the destination, the post set and the base
/// url alone: the same relative destination always yields the same output
/// url or the same unresolved outcome.
pub proof fn lemma_resolution_deterministic(
    d1: Seq<char>,
    d2: Seq<char>,
    keys: Seq<(Seq<char>, Seq<char>)>,
    base: Seq<char>,
)
    requires
        d1 == d2,
    ensures
        spec_resolve(d1, keys, base) == spec_resolve(d2, keys, base),
{
}

/// Resolves a link destination against the post set.
pub fn rewrite_relative_url(ctx: &GeneratorContext, dest: &str) -> (r: String)
    ensures
        r@ == spec_resolve(dest@, spec_post_keys(ctx.posts@), ctx.config.base_url@),
{
    let v = chars_vec(dest);
    if !is_relative_chars(&v) {
        return string_from_chars(&v);
    }
    let mut pat: Vec<char> = Vec::new();
    pat.push('%');
    pat.push('2');
    pat.push('0');
    let mut sp: Vec<char> = Vec::new();
    sp.push(' ');
    proof {
        assert(pat@ =~= seq!['%', '2', '0']);
        assert(sp@ =~= seq![' ']);
    }
    let rep = replace_all(&v, &pat, &sp);
    let ghost keys = spec_post_keys(ctx.posts@);
    let mut slash_pat: Vec<char> = Vec::new();
    slash_pat.push('\\');
    let mut slash_rep: Vec<char> = Vec::new();
    slash_rep.push('/');
    proof {
        assert(slash_pat@ =~= seq!['\\']);
        assert(slash_rep@ =~= seq!['/']);
        assert(keys.skip(0) =~= keys);
    }
    let mut i: usize = 0;
    while i < ctx.posts.len()
        invariant
            0 <= i <= ctx.posts@.len(),
            keys == spec_post_keys(ctx.posts@),
            keys.len() == ctx.posts@.len(),
            slash_pat@ == seq!['\\'],
            slash_rep@ == seq!['/'],
            rep@ == spec_replace_all(v@, seq!['%', '2', '0'], seq![' ']),
            v@ == dest@,
            spec_is_relative(dest@),
            spec_find_post(keys, rep@) == spec_find_post(keys.skip(i as int), rep@),
        decreases ctx.posts@.len() - i,
    {
        proof {
            assert(keys[i as int] == (ctx.posts@[i as int].1.original_file_name@, ctx.posts@[i as int].1.relative_url@));
            assert(keys.skip(i as int)[0] == keys[i as int]);
            assert(keys.skip(i as int).drop_first() =~= keys.skip(i + 1));
        }
        let name = chars_vec(ctx.posts[i].1.original_file_name.as_str());
        let normalized = replace_all(&name, &slash_pat, &slash_rep);
        let mut eq = normalized.len() == rep.len();
        proof {
            if normalized@.len() != rep@.len() {
                assert(normalized@ != rep@);
            }
        }
        let mut j: usize = 0;
        while eq && j < normalized.len()
            invariant
                0 <= j <= normalized@.len(),
                eq ==> normalized@.len() == rep@.len(),
                eq ==> forall|x: int| 0 <= x < j ==> normalized@[x] == rep@[x],
                !eq ==> normalized@ != rep@,
            decreases normalized@.len() - j,
        {
            if normalized[j] != rep[j] {
                eq = false;
                proof {
                    assert(normalized@[j as int] != rep@[j as int]);
                    assert(normalized@ != rep@);
                }
            }
            j = j + 1;
        }
        proof {
            if eq {
                assert(normalized@ =~= rep@);
            }
        }
        if eq {
            let mut out = chars_vec(ctx.config.base_url.as_str());
            out.push('/');
            let mut url = chars_vec(ctx.posts[i].1.relative_url.as_str());
            out.append(&mut url);
            proof {
                assert(out@ =~= ctx.config.base_url@ + seq!['/']
                    + ctx.posts@[i as int].1.relative_url@);
            }
            return string_from_chars(&out);
        }
        proof {
            if normalized@ != rep@ {
            } else {
                assert(eq);
            }
        }
        i = i + 1;
    }
    proof {
        assert(keys.skip(i as int) =~= Seq::<(Seq<char>, Seq<char>)>::empty());
    }
    string_from_chars(&v)
}

} // verus!
